//! Per-player activity decay: how a player's rate of on-ball actions in the
//! last fifteen minutes compares with their rate early in the match.

use vstd::prelude::*;
use crate::ingest::{opt_text, LineupPlayer, MatchEvent, MatchState, TeamLineup};
use crate::ranking::{insert_pos, lemma_insert_pos, lemma_insert_pos_facts, rank_desc};
use crate::text::{eq_ignore_case, has_substring, same_text, same_text_ignoring_case, contains_text};

verus! {

/// The event types that count as a player's actions.
pub open spec fn is_active_type_spec(t: Seq<char>) -> bool {
    ||| t == "Pass"@
    ||| t == "Carry"@
    ||| t == "Pressure"@
    ||| t == "Duel"@
    ||| t == "Ball Receipt*"@
    ||| t == "Interception"@
    ||| t == "Shot"@
    ||| t == "Dribble"@
}

/// Whether events of type `t` count as a player's actions.
pub fn is_active_type(t: &str) -> (r: bool)
    ensures
        r == is_active_type_spec(t@),
{
    same_text(t, "Pass") || same_text(t, "Carry") || same_text(t, "Pressure") || same_text(
        t,
        "Duel",
    ) || same_text(t, "Ball Receipt*") || same_text(t, "Interception") || same_text(t, "Shot")
        || same_text(t, "Dribble")
}

/// The short form of a position name; names without one are kept as they are.
pub open spec fn abbrev_spec(pos: Seq<char>) -> Seq<char> {
    if pos == "Goalkeeper"@ {
        "GK"@
    } else if pos == "Right Back"@ {
        "RB"@
    } else if pos == "Left Back"@ {
        "LB"@
    } else if pos == "Center Back"@ {
        "CB"@
    } else if pos == "Right Center Back"@ {
        "RCB"@
    } else if pos == "Left Center Back"@ {
        "LCB"@
    } else if pos == "Right Wing Back"@ {
        "RWB"@
    } else if pos == "Left Wing Back"@ {
        "LWB"@
    } else if pos == "Defensive Midfield"@ {
        "DM"@
    } else if pos == "Right Defensive Midfield"@ {
        "RDM"@
    } else if pos == "Left Defensive Midfield"@ {
        "LDM"@
    } else if pos == "Center Midfield"@ {
        "CM"@
    } else if pos == "Right Center Midfield"@ {
        "RCM"@
    } else if pos == "Left Center Midfield"@ {
        "LCM"@
    } else if pos == "Attacking Midfield"@ {
        "AM"@
    } else if pos == "Right Midfield"@ {
        "RM"@
    } else if pos == "Left Midfield"@ {
        "LM"@
    } else if pos == "Right Wing"@ {
        "RW"@
    } else if pos == "Left Wing"@ {
        "LW"@
    } else if pos == "Center Forward"@ {
        "CF"@
    } else if pos == "Right Center Forward"@ {
        "RCF"@
    } else if pos == "Left Center Forward"@ {
        "LCF"@
    } else if pos == "Secondary Striker"@ {
        "SS"@
    } else if pos == "Center Defensive Midfield"@ {
        "CDM"@
    } else {
        pos
    }
}

/// The short form of a position name ("Center Back" is "CB"); a name without
/// one is returned as it is.
pub fn abbrev_position(pos: &str) -> (r: &str)
    ensures
        r@ == abbrev_spec(pos@),
{
    if same_text(pos, "Goalkeeper") {
        "GK"
    } else if same_text(pos, "Right Back") {
        "RB"
    } else if same_text(pos, "Left Back") {
        "LB"
    } else if same_text(pos, "Center Back") {
        "CB"
    } else if same_text(pos, "Right Center Back") {
        "RCB"
    } else if same_text(pos, "Left Center Back") {
        "LCB"
    } else if same_text(pos, "Right Wing Back") {
        "RWB"
    } else if same_text(pos, "Left Wing Back") {
        "LWB"
    } else if same_text(pos, "Defensive Midfield") {
        "DM"
    } else if same_text(pos, "Right Defensive Midfield") {
        "RDM"
    } else if same_text(pos, "Left Defensive Midfield") {
        "LDM"
    } else if same_text(pos, "Center Midfield") {
        "CM"
    } else if same_text(pos, "Right Center Midfield") {
        "RCM"
    } else if same_text(pos, "Left Center Midfield") {
        "LCM"
    } else if same_text(pos, "Attacking Midfield") {
        "AM"
    } else if same_text(pos, "Right Midfield") {
        "RM"
    } else if same_text(pos, "Left Midfield") {
        "LM"
    } else if same_text(pos, "Right Wing") {
        "RW"
    } else if same_text(pos, "Left Wing") {
        "LW"
    } else if same_text(pos, "Center Forward") {
        "CF"
    } else if same_text(pos, "Right Center Forward") {
        "RCF"
    } else if same_text(pos, "Left Center Forward") {
        "LCF"
    } else if same_text(pos, "Secondary Striker") {
        "SS"
    } else if same_text(pos, "Center Defensive Midfield") {
        "CDM"
    } else {
        pos
    }
}

/// The lineup of the side named `team` (ignoring ASCII case), the home side
/// first.
pub open spec fn lineup_for(state: MatchState, team: Seq<char>) -> Option<TeamLineup> {
    if eq_ignore_case(state.home_lineup.team_name@, team) {
        Some(state.home_lineup)
    } else if eq_ignore_case(state.away_lineup.team_name@, team) {
        Some(state.away_lineup)
    } else {
        None
    }
}

/// The lineup of the side named `team`, ignoring ASCII case; the home side is
/// tried first.
pub fn find_lineup<'a>(state: &'a MatchState, team: &str) -> (r: Option<&'a TeamLineup>)
    ensures
        match r {
            Some(l) => lineup_for(*state, team@) == Some(*l),
            None => lineup_for(*state, team@) is None,
        },
{
    if same_text_ignoring_case(state.home_lineup.team_name.as_str(), team) {
        Some(&state.home_lineup)
    } else if same_text_ignoring_case(state.away_lineup.team_name.as_str(), team) {
        Some(&state.away_lineup)
    } else {
        None
    }
}

/// Which of a player's events a count takes in.
#[derive(Clone, Copy, Debug, PartialEq, Eq, Structural)]
pub enum EventFilter {
    /// Actions in the first half of the first `minute` minutes, at most the
    /// first 45.
    Baseline { minute: u32 },
    /// Actions in the 15 minutes up to `minute`.
    Recent { minute: u32 },
    /// Actions up to `minute`.
    Active { minute: u32 },
    /// Pressure events up to `minute`.
    Pressure { minute: u32 },
    /// Duels with an outcome that says "Won", up to `minute`.
    DuelWon { minute: u32 },
}

/// `e` is an event of the side `team` credited to the player `name`.
pub open spec fn event_of(e: MatchEvent, team: Seq<char>, name: Seq<char>) -> bool {
    &&& eq_ignore_case(e.team_name@, team)
    &&& opt_text(e.player_name) == Some(name)
}

/// `f` takes in the event `e` of the player `name` of the side `team`.
pub open spec fn filter_holds(f: EventFilter, team: Seq<char>, name: Seq<char>, e: MatchEvent) -> bool {
    event_of(e, team, name) && match f {
        EventFilter::Baseline { minute } => is_active_type_spec(e.event_type@) && 2 * e.minute
            <= minute && e.minute <= 45,
        EventFilter::Recent { minute } => is_active_type_spec(e.event_type@) && e.minute + 15
            >= minute && e.minute <= minute,
        EventFilter::Active { minute } => is_active_type_spec(e.event_type@) && e.minute <= minute,
        EventFilter::Pressure { minute } => e.event_type@ == "Pressure"@ && e.minute <= minute,
        EventFilter::DuelWon { minute } => e.event_type@ == "Duel"@ && e.minute <= minute && (
        e.duel_outcome matches Some(o) && has_substring(o@, "Won"@)),
    }
}

/// How many events of `evs` the filter takes in.
pub open spec fn count_filtered(evs: Seq<MatchEvent>, f: EventFilter, team: Seq<char>, name: Seq<char>) -> nat
    decreases evs.len(),
{
    if evs.len() == 0 {
        0
    } else {
        count_filtered(evs.drop_last(), f, team, name) + if filter_holds(
            f,
            team,
            name,
            evs.last(),
        ) {
            1nat
        } else {
            0nat
        }
    }
}

pub proof fn lemma_count_bound(evs: Seq<MatchEvent>, f: EventFilter, team: Seq<char>, name: Seq<char>)
    ensures
        count_filtered(evs, f, team, name) <= evs.len(),
    decreases evs.len(),
{
    if evs.len() > 0 {
        lemma_count_bound(evs.drop_last(), f, team, name);
    }
}

fn filter_takes(f: EventFilter, team: &str, name: &str, e: &MatchEvent) -> (r: bool)
    ensures
        r == filter_holds(f, team@, name@, *e),
{
    let player = match &e.player_name {
        Some(p) => same_text(p.as_str(), name),
        None => false,
    };
    if !player || !same_text_ignoring_case(e.team_name.as_str(), team) {
        return false;
    }
    let t = e.event_type.as_str();
    let m = e.minute as u64;
    match f {
        EventFilter::Baseline { minute } => is_active_type(t) && 2 * m <= minute as u64 && m <= 45,
        EventFilter::Recent { minute } => is_active_type(t) && m + 15 >= minute as u64 && m
            <= minute as u64,
        EventFilter::Active { minute } => is_active_type(t) && m <= minute as u64,
        EventFilter::Pressure { minute } => same_text(t, "Pressure") && m <= minute as u64,
        EventFilter::DuelWon { minute } => {
            same_text(t, "Duel") && m <= minute as u64 && match &e.duel_outcome {
                Some(o) => contains_text(o.as_str(), "Won"),
                None => false,
            }
        },
    }
}

/// How many events of `evs` the filter takes in for the player `name` of the
/// side `team`.
pub fn count_events(evs: &Vec<MatchEvent>, f: EventFilter, team: &str, name: &str) -> (n: u32)
    requires
        evs@.len() <= u32::MAX,
    ensures
        n == count_filtered(evs@, f, team@, name@),
{
    let mut n: u32 = 0;
    let len = evs.len();
    for i in 0..len
        invariant
            len == evs@.len(),
            len <= u32::MAX,
            n == count_filtered(evs@.take(i as int), f, team@, name@),
    {
        proof {
            assert(evs@.take(i + 1).drop_last() =~= evs@.take(i as int));
            lemma_count_bound(evs@.take(i as int), f, team@, name@);
        }
        if filter_takes(f, team, name, &evs[i]) {
            n = n + 1;
        }
    }
    assert(evs@.take(len as int) =~= evs@);
    n
}

/// A non-negative fraction `num / den`, `den` positive where it stands for a
/// rate or a score.
#[derive(Clone, Copy, Debug, PartialEq, Eq, Structural)]
pub struct Ratio {
    pub num: u64,
    pub den: u64,
}

/// `a` is larger than `b`, comparing fractions.
pub open spec fn ratio_gt(a: Ratio, b: Ratio) -> bool {
    a.num * b.den > b.num * a.den
}

/// Whether `a` is larger than `b`.
pub fn ratio_greater(a: Ratio, b: Ratio) -> (r: bool)
    ensures
        r == ratio_gt(a, b),
{
    let x = a.num as u128;
    let y = b.den as u128;
    let z = b.num as u128;
    let w = a.den as u128;
    assert(x * y <= 0xffff_ffff_ffff_ffff * 0xffff_ffff_ffff_ffff) by (nonlinear_arith)
        requires
            x <= 0xffff_ffff_ffff_ffff,
            y <= 0xffff_ffff_ffff_ffff,
    ;
    assert(z * w <= 0xffff_ffff_ffff_ffff * 0xffff_ffff_ffff_ffff) by (nonlinear_arith)
        requires
            z <= 0xffff_ffff_ffff_ffff,
            w <= 0xffff_ffff_ffff_ffff,
    ;
    x * y > z * w
}

/// The length of the baseline window at minute `m`, in half minutes: half
/// the match so far, at most 45 minutes.
pub open spec fn baseline_halves(m: u32) -> nat {
    if m <= 90 {
        m as nat
    } else {
        90
    }
}

/// The length of the recent window at minute `m`, in minutes: the last 15,
/// and at least one.
pub open spec fn recent_minutes(m: u32) -> nat {
    if m >= 15 {
        15
    } else if m == 0 {
        1
    } else {
        m as nat
    }
}

/// The decay score from the action counts and window lengths:
/// `1 - recent_rate / baseline_rate`, kept within 0 and 1, and 0 where the
/// baseline rate is 0. The baseline rate is `2 * baseline_actions /
/// baseline_halves` and the recent rate `recent_actions / recent_minutes`.
pub open spec fn decay_ratio(baseline_actions: nat, baseline_halves: nat, recent_actions: nat, recent_minutes: nat) -> Ratio {
    if baseline_actions == 0 || baseline_halves == 0 {
        Ratio { num: 0, den: 1 }
    } else if recent_actions * baseline_halves >= 2 * baseline_actions * recent_minutes {
        Ratio { num: 0, den: 1 }
    } else {
        Ratio {
            num: (2 * baseline_actions * recent_minutes - recent_actions * baseline_halves) as u64,
            den: (2 * baseline_actions * recent_minutes) as u64,
        }
    }
}

/// A player's decay at the current minute.
pub struct DecayScore {
    pub player_name: String,
    /// The short form of the player's position.
    pub position: String,
    /// The player's actions in the baseline window.
    pub baseline_actions: u32,
    /// The length of the baseline window, in half minutes.
    pub baseline_halves: u32,
    /// The player's actions in the recent window.
    pub recent_actions: u32,
    /// The length of the recent window, in minutes.
    pub recent_minutes: u32,
    /// 0 when playing at or above the baseline rate, 1 with no recent action.
    pub score: Ratio,
}

/// What a decay score says, as plain values.
pub struct DecayView {
    pub player_name: Seq<char>,
    pub position: Seq<char>,
    pub baseline_actions: nat,
    pub baseline_halves: nat,
    pub recent_actions: nat,
    pub recent_minutes: nat,
    pub score: Ratio,
}

impl View for DecayScore {
    type V = DecayView;

    open spec fn view(&self) -> DecayView {
        DecayView {
            player_name: self.player_name@,
            position: self.position@,
            baseline_actions: self.baseline_actions as nat,
            baseline_halves: self.baseline_halves as nat,
            recent_actions: self.recent_actions as nat,
            recent_minutes: self.recent_minutes as nat,
            score: self.score,
        }
    }
}

impl DecayScore {
    /// The baseline rate in actions per minute, 0 for an empty window.
    pub open spec fn baseline_apm_spec(self) -> Ratio {
        if self.baseline_halves == 0 {
            Ratio { num: 0, den: 1 }
        } else {
            Ratio { num: (2 * self.baseline_actions) as u64, den: self.baseline_halves as u64 }
        }
    }

    /// The baseline rate in actions per minute, 0 for an empty window.
    pub fn baseline_apm(&self) -> (r: Ratio)
        ensures
            r == self.baseline_apm_spec(),
    {
        if self.baseline_halves == 0 {
            Ratio { num: 0, den: 1 }
        } else {
            Ratio { num: 2 * self.baseline_actions as u64, den: self.baseline_halves as u64 }
        }
    }

    /// The recent rate in actions per minute.
    pub fn recent_apm(&self) -> (r: Ratio)
        ensures
            r == (Ratio { num: self.recent_actions as u64, den: self.recent_minutes as u64 }),
    {
        Ratio { num: self.recent_actions as u64, den: self.recent_minutes as u64 }
    }
}

/// The decay of the lineup player `p` of the side `team` at `minute`.
pub open spec fn decay_of(evs: Seq<MatchEvent>, team: Seq<char>, minute: u32, p: LineupPlayer) -> DecayView {
    let ba = count_filtered(evs, EventFilter::Baseline { minute }, team, p.player_name@);
    let ra = count_filtered(evs, EventFilter::Recent { minute }, team, p.player_name@);
    DecayView {
        player_name: p.player_name@,
        position: abbrev_spec(p.position@),
        baseline_actions: ba,
        baseline_halves: baseline_halves(minute),
        recent_actions: ra,
        recent_minutes: recent_minutes(minute),
        score: decay_ratio(ba, baseline_halves(minute), ra, recent_minutes(minute)),
    }
}

/// Orders decays: a higher score comes first.
pub open spec fn by_score() -> spec_fn(DecayView, DecayView) -> bool {
    |a: DecayView, b: DecayView| ratio_gt(a.score, b.score)
}

/// The views of a sequence of decay scores.
pub open spec fn decay_views(s: Seq<DecayScore>) -> Seq<DecayView> {
    s.map_values(|d: DecayScore| d@)
}

/// The decays of the players of `team` at `minute`, the highest score first,
/// players with equal scores in lineup order; empty when neither side is
/// `team`.
pub open spec fn decay_table(state: MatchState, team: Seq<char>, minute: u32) -> Seq<DecayView> {
    match lineup_for(state, team) {
        Some(l) => rank_desc(
            l.players@.map_values(|p: LineupPlayer| decay_of(state.events@, team, minute, p)),
            by_score(),
        ),
        None => Seq::empty(),
    }
}

fn decay_for(evs: &Vec<MatchEvent>, team: &str, minute: u32, p: &LineupPlayer) -> (d: DecayScore)
    requires
        evs@.len() <= u32::MAX,
    ensures
        d@ == decay_of(evs@, team@, minute, *p),
        d.score.den > 0,
{
    let ba = count_events(evs, EventFilter::Baseline { minute }, team, p.player_name.as_str());
    let ra = count_events(evs, EventFilter::Recent { minute }, team, p.player_name.as_str());
    let bh: u32 = if minute <= 90 { minute } else { 90 };
    let rm: u32 = if minute >= 15 { 15 } else if minute == 0 { 1 } else { minute };
    let ra64 = ra as u64;
    let ba64 = ba as u64;
    assert(ra64 * (bh as u64) <= 0xffff_ffff * 90) by (nonlinear_arith)
        requires
            ra64 <= 0xffff_ffff,
            bh <= 90,
    ;
    assert(2 * ba64 * (rm as u64) <= 2 * 0xffff_ffff * 15) by (nonlinear_arith)
        requires
            ba64 <= 0xffff_ffff,
            rm <= 15,
    ;
    let score = if ba == 0 || bh == 0 {
        Ratio { num: 0, den: 1 }
    } else if (ra as u64) * (bh as u64) >= 2 * (ba as u64) * (rm as u64) {
        Ratio { num: 0, den: 1 }
    } else {
        let den = 2 * (ba as u64) * (rm as u64);
        Ratio { num: den - (ra as u64) * (bh as u64), den }
    };
    DecayScore {
        player_name: p.player_name.clone(),
        position: abbrev_position(p.position.as_str()).to_owned(),
        baseline_actions: ba,
        baseline_halves: bh,
        recent_actions: ra,
        recent_minutes: rm,
        score,
    }
}

/// Puts `d` into `out`, which is ordered from the highest score down, after
/// every entry whose score is not lower.
fn insert_by_score(out: &mut Vec<DecayScore>, d: DecayScore)
    ensures
        decay_views(final(out)@) == decay_views(old(out)@).insert(
            insert_pos(decay_views(old(out)@), d@, by_score()),
            d@,
        ),
{
    let ghost s = decay_views(out@);
    let mut k: usize = 0;
    while k < out.len() && !ratio_greater(d.score, out[k].score)
        invariant
            s == decay_views(out@),
            k <= out@.len(),
            forall|j: int| 0 <= j < k ==> !(by_score())(d@, #[trigger] s[j]),
        decreases out@.len() - k,
    {
        k = k + 1;
    }
    proof {
        lemma_insert_pos(s, d@, by_score(), k as int);
    }
    let ghost dv = d@;
    out.insert(k, d);
    assert(decay_views(out@) =~= s.insert(k as int, dv));
}

/// Each player of the lineup of `team` with their decay at `current_minute`,
/// the highest score first (players with equal scores in lineup order);
/// empty when neither side is `team`.
///
/// The baseline window is minutes 0 to half of `current_minute` (at most 45);
/// the recent window the last 15 minutes up to `current_minute`.
pub fn compute_decay(state: &MatchState, team: &str, current_minute: u32) -> (scores: Vec<DecayScore>)
    requires
        state.events@.len() <= u32::MAX,
    ensures
        decay_views(scores@) == decay_table(*state, team@, current_minute),
        forall|i: int| 0 <= i < scores@.len() ==> #[trigger] scores@[i].score.den > 0,
{
    let lineup = match find_lineup(state, team) {
        Some(l) => l,
        None => {
            let empty: Vec<DecayScore> = Vec::new();
            assert(decay_views(empty@) =~= Seq::<DecayView>::empty());
            return empty;
        },
    };
    let ghost entries = lineup.players@.map_values(
        |p: LineupPlayer| decay_of(state.events@, team@, current_minute, p),
    );
    let mut out: Vec<DecayScore> = Vec::new();
    let n = lineup.players.len();
    assert(decay_views(out@) =~= rank_desc(entries.take(0), by_score()));
    for i in 0..n
        invariant
            n == lineup.players@.len(),
            state.events@.len() <= u32::MAX,
            entries == lineup.players@.map_values(
                |p: LineupPlayer| decay_of(state.events@, team@, current_minute, p),
            ),
            decay_views(out@) == rank_desc(entries.take(i as int), by_score()),
            forall|k: int|
                0 <= k < decay_views(out@).len() ==> #[trigger] decay_views(out@)[k].score.den > 0,
    {
        let d = decay_for(&state.events, team, current_minute, &lineup.players[i]);
        let ghost before = out@;
        insert_by_score(&mut out, d);
        assert(entries.take(i + 1).drop_last() =~= entries.take(i as int));
        assert(entries.take(i + 1).last() == d@);
        proof {
            lemma_insert_pos_facts(decay_views(before), d@, by_score());
        }
    }
    assert forall|i: int| 0 <= i < out@.len() implies #[trigger] out@[i].score.den > 0 by {
        assert(decay_views(out@).len() == out@.len());
        assert(decay_views(out@)[i] == out@[i]@);
        assert(decay_views(out@)[i].score.den > 0);
    }
    assert(entries.take(n as int) =~= entries);
    out
}

} // verus!
