//! The substitution recommendation: which tired players to take off, the
//! tactical problem they point to, and which bench players fit it best.

use vstd::prelude::*;
use crate::decay::{abbrev_position, abbrev_spec, count_events, count_filtered, decay_views, find_lineup, lineup_for, DecayScore, DecayView, EventFilter, Ratio};
use crate::ingest::{opt_text, LineupPlayer, MatchEvent, MatchState, TeamLineup};
use crate::ranking::{insert_pos, lemma_insert_pos, rank_desc};
use crate::text::{lemma_push_contains, contains_name, eq_ignore_case, has_substring, same_text, same_text_ignoring_case, contains_text, texts};

verus! {

/// The family of a (short) position: 0 central defence, 1 full-backs and
/// wing-backs, 2 central midfield, 3 wide attack, 4 central attack, 5 none of
/// these.
pub open spec fn pos_class(pos: Seq<char>) -> nat {
    if has_substring(pos, "CB"@) || pos == "GK"@ {
        0
    } else if pos == "LB"@ || pos == "RB"@ || has_substring(pos, "WB"@) {
        1
    } else if has_substring(pos, "CM"@) || has_substring(pos, "DM"@) {
        2
    } else if pos == "LW"@ || pos == "RW"@ || pos == "AM"@ || pos == "LM"@ || pos == "RM"@ {
        3
    } else if has_substring(pos, "CF"@) || pos == "SS"@ {
        4
    } else {
        5
    }
}

/// The tactical problem that tiredness in a position family points to.
pub open spec fn problem_name(class: nat) -> Seq<char> {
    if class == 0 {
        "Defensive stability weakening"@
    } else if class == 1 {
        "Flank coverage dropping"@
    } else if class == 2 {
        "Midfield press collapsing"@
    } else if class == 3 {
        "Attacking width lost"@
    } else if class == 4 {
        "Striker pressing fading"@
    } else {
        "General fatigue"@
    }
}

/// The name of a position family.
pub open spec fn group_name(class: nat) -> Seq<char> {
    if class == 0 {
        "def_central"@
    } else if class == 1 {
        "def_flank"@
    } else if class == 2 {
        "mid"@
    } else if class == 3 {
        "att_wide"@
    } else if class == 4 {
        "att_central"@
    } else {
        "unknown"@
    }
}

/// The position family that a tactical problem calls for.
pub open spec fn problem_group_spec(problem: Seq<char>) -> Seq<char> {
    if problem == "Defensive stability weakening"@ {
        "def_central"@
    } else if problem == "Flank coverage dropping"@ {
        "def_flank"@
    } else if problem == "Midfield press collapsing"@ {
        "mid"@
    } else if problem == "Attacking width lost"@ {
        "att_wide"@
    } else if problem == "Striker pressing fading"@ {
        "att_central"@
    } else {
        "unknown"@
    }
}

fn pos_class_of(pos: &str) -> (c: u8)
    ensures
        c == pos_class(pos@),
{
    if contains_text(pos, "CB") || same_text(pos, "GK") {
        0
    } else if same_text(pos, "LB") || same_text(pos, "RB") || contains_text(pos, "WB") {
        1
    } else if contains_text(pos, "CM") || contains_text(pos, "DM") {
        2
    } else if same_text(pos, "LW") || same_text(pos, "RW") || same_text(pos, "AM") || same_text(
        pos,
        "LM",
    ) || same_text(pos, "RM") {
        3
    } else if contains_text(pos, "CF") || same_text(pos, "SS") {
        4
    } else {
        5
    }
}

/// The tactical problem that tiredness at position `pos` points to.
pub fn problem_for_pos(pos: &str) -> (r: &'static str)
    ensures
        r@ == problem_name(pos_class(pos@)),
{
    match pos_class_of(pos) {
        0 => "Defensive stability weakening",
        1 => "Flank coverage dropping",
        2 => "Midfield press collapsing",
        3 => "Attacking width lost",
        4 => "Striker pressing fading",
        _ => "General fatigue",
    }
}

/// The position family of position `pos`.
pub fn pos_group(pos: &str) -> (r: &'static str)
    ensures
        r@ == group_name(pos_class(pos@)),
{
    match pos_class_of(pos) {
        0 => "def_central",
        1 => "def_flank",
        2 => "mid",
        3 => "att_wide",
        4 => "att_central",
        _ => "unknown",
    }
}

/// The position family that the tactical problem `problem` calls for.
pub fn problem_group(problem: &str) -> (r: &'static str)
    ensures
        r@ == problem_group_spec(problem@),
{
    if same_text(problem, "Defensive stability weakening") {
        "def_central"
    } else if same_text(problem, "Flank coverage dropping") {
        "def_flank"
    } else if same_text(problem, "Midfield press collapsing") {
        "mid"
    } else if same_text(problem, "Attacking width lost") {
        "att_wide"
    } else if same_text(problem, "Striker pressing fading") {
        "att_central"
    } else {
        "unknown"
    }
}

/// Which name of an event a name list takes, and from which events.
#[derive(Clone, Copy, Debug, PartialEq, Eq, Structural)]
pub enum NameSource {
    /// The player of any event of the side before the minute.
    ActiveBefore,
    /// The player taken off in a substitution of the side up to the minute.
    SubbedOff,
    /// The player brought on in a substitution of the side up to the minute.
    CameOn,
}

/// The name that `src` takes from the event `e`, if any.
pub open spec fn source_name(src: NameSource, e: MatchEvent, team: Seq<char>, minute: u32) -> Option<Seq<char>> {
    match src {
        NameSource::ActiveBefore => if eq_ignore_case(e.team_name@, team) && e.minute < minute {
            opt_text(e.player_name)
        } else {
            None
        },
        NameSource::SubbedOff => if e.event_type@ == "Substitution"@ && eq_ignore_case(
            e.team_name@,
            team,
        ) && e.minute <= minute {
            opt_text(e.player_name)
        } else {
            None
        },
        NameSource::CameOn => if e.event_type@ == "Substitution"@ && eq_ignore_case(
            e.team_name@,
            team,
        ) && e.minute <= minute {
            opt_text(e.substitution_player_on)
        } else {
            None
        },
    }
}

/// Some event of `evs` gives `name` to `src`.
pub open spec fn named_by(evs: Seq<MatchEvent>, src: NameSource, team: Seq<char>, minute: u32, name: Seq<char>) -> bool {
    exists|i: int| 0 <= i < evs.len() && #[trigger] source_name(src, evs[i], team, minute) == Some(name)
}

fn source_name_of<'a>(src: NameSource, e: &'a MatchEvent, team: &str, minute: u32) -> (r: Option<&'a String>)
    ensures
        match r {
            Some(n) => source_name(src, *e, team@, minute) == Some(n@),
            None => source_name(src, *e, team@, minute) is None,
        },
{
    match src {
        NameSource::ActiveBefore => {
            if e.minute < minute && same_text_ignoring_case(e.team_name.as_str(), team) {
                e.player_name.as_ref()
            } else {
                None
            }
        },
        NameSource::SubbedOff => {
            if e.minute <= minute && same_text(e.event_type.as_str(), "Substitution")
                && same_text_ignoring_case(e.team_name.as_str(), team) {
                e.player_name.as_ref()
            } else {
                None
            }
        },
        NameSource::CameOn => {
            if e.minute <= minute && same_text(e.event_type.as_str(), "Substitution")
                && same_text_ignoring_case(e.team_name.as_str(), team) {
                e.substitution_player_on.as_ref()
            } else {
                None
            }
        },
    }
}

/// The names that `src` takes from the events `evs` (possibly repeated).
pub fn event_names(evs: &Vec<MatchEvent>, src: NameSource, team: &str, minute: u32) -> (names: Vec<String>)
    ensures
        forall|k: Seq<char>|
            #![trigger texts(names@).contains(k)]
            texts(names@).contains(k) <==> named_by(evs@, src, team@, minute, k),
{
    let mut names: Vec<String> = Vec::new();
    let n = evs.len();
    assert(texts(names@) =~= Seq::<Seq<char>>::empty());
    for i in 0..n
        invariant
            n == evs@.len(),
            forall|k: Seq<char>|
                #![trigger texts(names@).contains(k)]
                texts(names@).contains(k) <==> named_by(evs@.take(i as int), src, team@, minute, k),
    {
        let ghost before = texts(names@);
        assert(forall|k: Seq<char>| before.contains(k) <==> named_by(evs@.take(i as int), src, team@, minute, k));
        let found = source_name_of(src, &evs[i], team, minute);
        if let Some(name) = found {
            names.push(name.clone());
            assert(texts(names@) =~= before.push(name@));
        }
        assert forall|k: Seq<char>|
            #![trigger texts(names@).contains(k)]
            texts(names@).contains(k) <==> named_by(evs@.take(i + 1), src, team@, minute, k) by {
            let t = evs@.take(i + 1);
            let t0 = evs@.take(i as int);
            assert(t[i as int] == evs@[i as int]);
            if let Some(name) = found {
                lemma_push_contains(before, name@, k);
            }
            if named_by(t, src, team@, minute, k) {
                let j = choose|j: int| 0 <= j < t.len() && #[trigger] source_name(src, t[j], team@, minute) == Some(k);
                if j < i {
                    assert(t0[j] == t[j]);
                    assert(named_by(t0, src, team@, minute, k));
                }
            }
            if named_by(t0, src, team@, minute, k) {
                let j = choose|j: int| 0 <= j < t0.len() && #[trigger] source_name(src, t0[j], team@, minute) == Some(k);
                assert(t[j] == t0[j]);
                assert(named_by(t, src, team@, minute, k));
            }
            if source_name(src, evs@[i as int], team@, minute) == Some(k) {
                assert(named_by(t, src, team@, minute, k));
            }
        }
    }
    assert(evs@.take(n as int) =~= evs@);
    names
}

/// The players of the side `team` taken off up to `minute`.
pub fn subbed_off_players(state: &MatchState, team: &str, minute: u32) -> (names: Vec<String>)
    ensures
        forall|k: Seq<char>|
            #![trigger texts(names@).contains(k)]
            texts(names@).contains(k) <==> named_by(state.events@, NameSource::SubbedOff, team@, minute, k),
{
    event_names(&state.events, NameSource::SubbedOff, team, minute)
}

/// `name` belongs to a player of the lineup `l`.
pub open spec fn in_lineup(l: TeamLineup, name: Seq<char>) -> bool {
    exists|i: int| 0 <= i < l.players@.len() && #[trigger] l.players@[i].player_name@ == name
}

/// The player `name` of the lineup `l` is on the pitch at `minute`: they have
/// an event before it or came on by then, and have not been taken off.
pub open spec fn on_field(evs: Seq<MatchEvent>, l: TeamLineup, team: Seq<char>, minute: u32, name: Seq<char>) -> bool {
    &&& in_lineup(l, name)
    &&& named_by(evs, NameSource::ActiveBefore, team, minute, name) || named_by(
        evs,
        NameSource::CameOn,
        team,
        minute,
        name,
    )
    &&& !named_by(evs, NameSource::SubbedOff, team, minute, name)
}

/// A decay score high enough to call for a substitution: above 0.25.
pub open spec fn fatigue_alarm(score: Ratio) -> bool {
    4 * score.num > score.den
}

/// The decays of `s`, in order, of players on the pitch whose score calls for
/// a substitution.
pub open spec fn fatigued_all(evs: Seq<MatchEvent>, l: TeamLineup, team: Seq<char>, minute: u32, s: Seq<DecayView>) -> Seq<DecayView>
    decreases s.len(),
{
    if s.len() == 0 {
        s
    } else {
        let rest = fatigued_all(evs, l, team, minute, s.drop_last());
        let d = s.last();
        if on_field(evs, l, team, minute, d.player_name) && fatigue_alarm(d.score) {
            rest.push(d)
        } else {
            rest
        }
    }
}

/// The first `n` items of `s`, or all of them when there are fewer.
pub open spec fn first_n<T>(s: Seq<T>, n: nat) -> Seq<T> {
    if s.len() <= n {
        s
    } else {
        s.take(n as int)
    }
}

/// How often `x` occurs in `s`.
pub open spec fn occurrences(s: Seq<Seq<char>>, x: Seq<char>) -> nat
    decreases s.len(),
{
    if s.len() == 0 {
        0
    } else {
        occurrences(s.drop_last(), x) + if s.last() == x {
            1nat
        } else {
            0nat
        }
    }
}

/// The first index among the first `k` items of `s` whose item occurs most
/// often in `s`.
pub open spec fn first_most_frequent(s: Seq<Seq<char>>, k: nat) -> int
    decreases k,
{
    if k <= 1 {
        0
    } else {
        let b = first_most_frequent(s, (k - 1) as nat);
        if occurrences(s, s[k - 1]) > occurrences(s, s[b]) {
            k - 1
        } else {
            b
        }
    }
}

/// The problems that the decays `f` point to.
pub open spec fn problems_of(f: Seq<DecayView>) -> Seq<Seq<char>> {
    f.map_values(|d: DecayView| problem_name(pos_class(d.position)))
}

/// The tactical problem that the most of the decays `f` point to; of equally
/// frequent ones, the one that comes first.
pub open spec fn dominant_problem(f: Seq<DecayView>) -> Seq<char> {
    let ps = problems_of(f);
    ps[first_most_frequent(ps, ps.len())]
}

/// What a bench candidate says, as plain values.
pub struct CandidateView {
    pub player_name: Seq<char>,
    pub position: Seq<char>,
    pub total_actions: nat,
    pub press_count: nat,
    pub duel_won_count: nat,
    pub fit_score: nat,
}

/// A bench player with the counts that rank them.
pub struct BenchCandidate {
    pub player_name: String,
    /// The short form of the player's position.
    pub position: String,
    /// The player's actions up to the current minute.
    pub total_actions: u32,
    /// The player's pressure events up to the current minute.
    pub press_count: u32,
    /// The player's won duels up to the current minute.
    pub duel_won_count: u32,
    /// 2 when the position fits the tactical problem, plus 1 when the player
    /// has any action.
    pub fit_score: u32,
}

impl View for BenchCandidate {
    type V = CandidateView;

    open spec fn view(&self) -> CandidateView {
        CandidateView {
            player_name: self.player_name@,
            position: self.position@,
            total_actions: self.total_actions as nat,
            press_count: self.press_count as nat,
            duel_won_count: self.duel_won_count as nat,
            fit_score: self.fit_score as nat,
        }
    }
}

/// A substitution recommendation.
pub struct Recommendation {
    pub tactical_problem: String,
    /// Who to take off: name, short position and decay score.
    pub take_off: Vec<(String, String, Ratio)>,
    /// Who to bring on, the best fit first.
    pub bring_on: Vec<BenchCandidate>,
}

/// What a recommendation says, as plain values.
pub struct RecommendationView {
    pub tactical_problem: Seq<char>,
    pub take_off: Seq<(Seq<char>, Seq<char>, Ratio)>,
    pub bring_on: Seq<CandidateView>,
}

/// The views of a sequence of candidates.
pub open spec fn candidate_views(s: Seq<BenchCandidate>) -> Seq<CandidateView> {
    s.map_values(|c: BenchCandidate| c@)
}

/// The views of a take-off list.
pub open spec fn take_off_views(s: Seq<(String, String, Ratio)>) -> Seq<(Seq<char>, Seq<char>, Ratio)> {
    s.map_values(|t: (String, String, Ratio)| (t.0@, t.1@, t.2))
}

impl View for Recommendation {
    type V = RecommendationView;

    open spec fn view(&self) -> RecommendationView {
        RecommendationView {
            tactical_problem: self.tactical_problem@,
            take_off: take_off_views(self.take_off@),
            bring_on: candidate_views(self.bring_on@),
        }
    }
}

/// The player `p` of the lineup `l` is on the bench at `minute`: not on the
/// pitch and not taken off.
pub open spec fn on_bench(evs: Seq<MatchEvent>, l: TeamLineup, team: Seq<char>, minute: u32, p: LineupPlayer) -> bool {
    !on_field(evs, l, team, minute, p.player_name@) && !named_by(
        evs,
        NameSource::SubbedOff,
        team,
        minute,
        p.player_name@,
    )
}

/// The players of `ps`, in order, who are on the bench of `l`.
pub open spec fn bench_of(evs: Seq<MatchEvent>, l: TeamLineup, team: Seq<char>, minute: u32, ps: Seq<LineupPlayer>) -> Seq<LineupPlayer>
    decreases ps.len(),
{
    if ps.len() == 0 {
        ps
    } else {
        let rest = bench_of(evs, l, team, minute, ps.drop_last());
        if on_bench(evs, l, team, minute, ps.last()) {
            rest.push(ps.last())
        } else {
            rest
        }
    }
}

/// The bench candidate that the player `p` makes for a problem calling for
/// the position family `target`.
pub open spec fn candidate_of(evs: Seq<MatchEvent>, team: Seq<char>, minute: u32, target: Seq<char>, p: LineupPlayer) -> CandidateView {
    let pos = abbrev_spec(p.position@);
    let total = count_filtered(evs, EventFilter::Active { minute }, team, p.player_name@);
    CandidateView {
        player_name: p.player_name@,
        position: pos,
        total_actions: total,
        press_count: count_filtered(evs, EventFilter::Pressure { minute }, team, p.player_name@),
        duel_won_count: count_filtered(evs, EventFilter::DuelWon { minute }, team, p.player_name@),
        fit_score: (if group_name(pos_class(pos)) == target {
            2nat
        } else {
            0nat
        }) + (if total > 0 {
            1nat
        } else {
            0nat
        }),
    }
}

/// Orders candidates: a higher fit comes first.
pub open spec fn by_fit() -> spec_fn(CandidateView, CandidateView) -> bool {
    |a: CandidateView, b: CandidateView| a.fit_score > b.fit_score
}

/// The take-off entries (name, position, score) of the decays `f`.
pub open spec fn take_off_of(f: Seq<DecayView>) -> Seq<(Seq<char>, Seq<char>, Ratio)> {
    f.map_values(|d: DecayView| (d.player_name, d.position, d.score))
}

/// The recommendation for the side `team` at `minute`, given its decays `s`
/// (highest first): none when neither side is `team` or no player on the
/// pitch has a score above 0.25. Otherwise the first three such players set
/// the tactical problem, the first two of them are to be taken off, and the
/// bench players are ranked by how well they fit the problem.
pub open spec fn recommendation_spec(state: MatchState, team: Seq<char>, s: Seq<DecayView>, minute: u32) -> Option<RecommendationView> {
    match lineup_for(state, team) {
        None => None,
        Some(l) => {
            let evs = state.events@;
            let f = first_n(fatigued_all(evs, l, team, minute, s), 3);
            if f.len() == 0 {
                None
            } else {
                let problem = dominant_problem(f);
                let target = problem_group_spec(problem);
                Some(
                    RecommendationView {
                        tactical_problem: problem,
                        take_off: take_off_of(first_n(f, 2)),
                        bring_on: rank_desc(
                            bench_of(evs, l, team, minute, l.players@).map_values(
                                |p: LineupPlayer| candidate_of(evs, team, minute, target, p),
                            ),
                            by_fit(),
                        ),
                    },
                )
            }
        },
    }
}

/// The name lists `active`, `off` and `on` are those that the events of
/// `state` give to each name source for `team` at `minute`.
pub open spec fn name_lists(state: MatchState, team: Seq<char>, minute: u32, active: Seq<String>, off: Seq<String>, on: Seq<String>) -> bool {
    &&& forall|k: Seq<char>|
        #![trigger texts(active).contains(k)]
        texts(active).contains(k) <==> named_by(state.events@, NameSource::ActiveBefore, team, minute, k)
    &&& forall|k: Seq<char>|
        #![trigger texts(off).contains(k)]
        texts(off).contains(k) <==> named_by(state.events@, NameSource::SubbedOff, team, minute, k)
    &&& forall|k: Seq<char>|
        #![trigger texts(on).contains(k)]
        texts(on).contains(k) <==> named_by(state.events@, NameSource::CameOn, team, minute, k)
}

fn is_in_lineup(l: &TeamLineup, name: &str) -> (r: bool)
    ensures
        r == in_lineup(*l, name@),
{
    let n = l.players.len();
    for i in 0..n
        invariant
            n == l.players@.len(),
            forall|k: int| 0 <= k < i ==> #[trigger] l.players@[k].player_name@ != name@,
    {
        if same_text(l.players[i].player_name.as_str(), name) {
            return true;
        }
    }
    false
}

fn is_on_field(
    state: &MatchState,
    l: &TeamLineup,
    team: &str,
    minute: u32,
    active: &Vec<String>,
    off: &Vec<String>,
    on: &Vec<String>,
    name: &str,
) -> (r: bool)
    requires
        name_lists(*state, team@, minute, active@, off@, on@),
    ensures
        r == on_field(state.events@, *l, team@, minute, name@),
{
    is_in_lineup(l, name) && (contains_name(active, name) || contains_name(on, name))
        && !contains_name(off, name)
}

/// The decays that the indices `idx` pick out of `s`.
pub open spec fn picked(s: Seq<DecayScore>, idx: Seq<usize>) -> Seq<DecayView> {
    Seq::new(idx.len(), |k: int| s[idx[k] as int]@)
}

fn fatigued_indices(
    state: &MatchState,
    l: &TeamLineup,
    team: &str,
    minute: u32,
    active: &Vec<String>,
    off: &Vec<String>,
    on: &Vec<String>,
    scores: &[DecayScore],
) -> (idx: Vec<usize>)
    requires
        name_lists(*state, team@, minute, active@, off@, on@),
    ensures
        forall|k: int| 0 <= k < idx@.len() ==> #[trigger] idx@[k] < scores@.len(),
        picked(scores@, idx@) == first_n(
            fatigued_all(state.events@, *l, team@, minute, decay_views(scores@)),
            3,
        ),
{
    let mut idx: Vec<usize> = Vec::new();
    let n = scores.len();
    let ghost all = decay_views(scores@);
    for i in 0..n
        invariant
            n == scores@.len(),
            all == decay_views(scores@),
            name_lists(*state, team@, minute, active@, off@, on@),
            forall|k: int| 0 <= k < idx@.len() ==> #[trigger] idx@[k] < i,
            picked(scores@, idx@) == fatigued_all(state.events@, *l, team@, minute, all.take(i as int)),
    {
        let d = &scores[i];
        let ghost before = idx@;
        assert(all.take(i + 1).drop_last() =~= all.take(i as int));
        assert(all.take(i + 1).last() == d@);
        if is_on_field(state, l, team, minute, active, off, on, d.player_name.as_str())
            && 4 * (d.score.num as u128) > d.score.den as u128 {
            idx.push(i);
            assert(picked(scores@, idx@) =~= picked(scores@, before).push(d@));
        } else {
            assert(picked(scores@, idx@) =~= picked(scores@, before));
        }
    }
    assert(all.take(n as int) =~= all);
    let ghost full = idx@;
    if idx.len() > 3 {
        idx.truncate(3);
        assert(picked(scores@, idx@) =~= picked(scores@, full).take(3));
    }
    idx
}

fn count_text(ps: &Vec<&str>, x: &str) -> (n: usize)
    ensures
        n == occurrences(ps@.map_values(|t: &str| t@), x@),
{
    let ghost pv = ps@.map_values(|t: &str| t@);
    let mut n: usize = 0;
    let len = ps.len();
    for i in 0..len
        invariant
            len == ps@.len(),
            pv == ps@.map_values(|t: &str| t@),
            n <= i,
            n == occurrences(pv.take(i as int), x@),
    {
        assert(pv.take(i + 1).drop_last() =~= pv.take(i as int));
        if same_text(ps[i], x) {
            n = n + 1;
        }
    }
    assert(pv.take(len as int) =~= pv);
    n
}

fn most_frequent_index(ps: &Vec<&str>) -> (b: usize)
    requires
        ps@.len() > 0,
    ensures
        b == first_most_frequent(ps@.map_values(|t: &str| t@), ps@.len()),
        b < ps@.len(),
{
    let ghost pv = ps@.map_values(|t: &str| t@);
    let mut best: usize = 0;
    let mut best_count = count_text(ps, ps[0]);
    let len = ps.len();
    for k in 1..len
        invariant
            len == ps@.len(),
            pv == ps@.map_values(|t: &str| t@),
            best < k,
            best == first_most_frequent(pv, k as nat),
            best_count == occurrences(pv, pv[best as int]),
    {
        let c = count_text(ps, ps[k]);
        if c > best_count {
            best = k;
            best_count = c;
        }
    }
    best
}

/// Puts `c` into `out`, which is ordered from the best fit down, after every
/// entry whose fit is not lower.
fn insert_by_fit(out: &mut Vec<BenchCandidate>, c: BenchCandidate)
    ensures
        candidate_views(final(out)@) == candidate_views(old(out)@).insert(
            insert_pos(candidate_views(old(out)@), c@, by_fit()),
            c@,
        ),
{
    let ghost s = candidate_views(out@);
    let mut k: usize = 0;
    while k < out.len() && !(c.fit_score > out[k].fit_score)
        invariant
            s == candidate_views(out@),
            k <= out@.len(),
            forall|j: int| 0 <= j < k ==> !(by_fit())(c@, #[trigger] s[j]),
        decreases out@.len() - k,
    {
        k = k + 1;
    }
    proof {
        lemma_insert_pos(s, c@, by_fit(), k as int);
    }
    let ghost cv = c@;
    out.insert(k, c);
    assert(candidate_views(out@) =~= s.insert(k as int, cv));
}

fn candidate_for(state: &MatchState, team: &str, minute: u32, target: &str, p: &LineupPlayer) -> (c: BenchCandidate)
    requires
        state.events@.len() <= u32::MAX,
    ensures
        c@ == candidate_of(state.events@, team@, minute, target@, *p),
{
    let abbrev = abbrev_position(p.position.as_str());
    let name = p.player_name.as_str();
    let total = count_events(&state.events, EventFilter::Active { minute }, team, name);
    let press = count_events(&state.events, EventFilter::Pressure { minute }, team, name);
    let duels = count_events(&state.events, EventFilter::DuelWon { minute }, team, name);
    let position_match = same_text(pos_group(abbrev), target);
    let fit: u32 = (if position_match { 2 } else { 0 }) + (if total > 0 { 1 } else { 0 });
    BenchCandidate {
        player_name: p.player_name.clone(),
        position: abbrev.to_owned(),
        total_actions: total,
        press_count: press,
        duel_won_count: duels,
        fit_score: fit,
    }
}

fn bench_candidates(
    state: &MatchState,
    l: &TeamLineup,
    team: &str,
    minute: u32,
    active: &Vec<String>,
    off: &Vec<String>,
    on: &Vec<String>,
    target: &str,
) -> (out: Vec<BenchCandidate>)
    requires
        state.events@.len() <= u32::MAX,
        name_lists(*state, team@, minute, active@, off@, on@),
    ensures
        candidate_views(out@) == rank_desc(
            bench_of(state.events@, *l, team@, minute, l.players@).map_values(
                |p: LineupPlayer| candidate_of(state.events@, team@, minute, target@, p),
            ),
            by_fit(),
        ),
{
    let mut out: Vec<BenchCandidate> = Vec::new();
    let n = l.players.len();
    assert(candidate_views(out@) =~= Seq::<CandidateView>::empty());
    for i in 0..n
        invariant
            n == l.players@.len(),
            state.events@.len() <= u32::MAX,
            name_lists(*state, team@, minute, active@, off@, on@),
            candidate_views(out@) == rank_desc(
                bench_of(state.events@, *l, team@, minute, l.players@.take(i as int)).map_values(
                    |p: LineupPlayer| candidate_of(state.events@, team@, minute, target@, p),
                ),
                by_fit(),
            ),
    {
        let p = &l.players[i];
        let ghost ps = l.players@.take(i + 1);
        assert(ps.drop_last() =~= l.players@.take(i as int));
        assert(ps.last() == *p);
        let name = p.player_name.as_str();
        if !is_on_field(state, l, team, minute, active, off, on, name) && !contains_name(off, name) {
            let c = candidate_for(state, team, minute, target, p);
            insert_by_fit(&mut out, c);
            let ghost prev = bench_of(state.events@, *l, team@, minute, l.players@.take(i as int)).map_values(
                |q: LineupPlayer| candidate_of(state.events@, team@, minute, target@, q),
            );
            let ghost cur = bench_of(state.events@, *l, team@, minute, ps).map_values(
                |q: LineupPlayer| candidate_of(state.events@, team@, minute, target@, q),
            );
            assert(cur.drop_last() =~= prev);
        }
    }
    assert(l.players@.take(n as int) =~= l.players@);
    out
}

/// The substitution recommendation for the side `team` at `current_minute`,
/// given its decays (highest first); `None` when neither side is `team` or
/// no player on the pitch has a decay above 0.25.
///
/// The first three such players set the tactical problem (the one most of
/// them point to), the first two are to be taken off, and the bench players
/// (neither on the pitch nor taken off) are ranked by fit: 2 for a position
/// of the family the problem calls for, plus 1 for any action so far, equal
/// fits in lineup order.
pub fn recommend(state: &MatchState, team: &str, decay_scores: &[DecayScore], current_minute: u32) -> (r: Option<Recommendation>)
    requires
        state.events@.len() <= u32::MAX,
    ensures
        match r {
            Some(rec) => recommendation_spec(*state, team@, decay_views(decay_scores@), current_minute)
                == Some(rec@),
            None => recommendation_spec(*state, team@, decay_views(decay_scores@), current_minute) is None,
        },
{
    let lineup = match find_lineup(state, team) {
        Some(l) => l,
        None => return None,
    };
    let minute = current_minute;
    let active = event_names(&state.events, NameSource::ActiveBefore, team, minute);
    let off = event_names(&state.events, NameSource::SubbedOff, team, minute);
    let on = event_names(&state.events, NameSource::CameOn, team, minute);
    let fatigued = fatigued_indices(state, lineup, team, minute, &active, &off, &on, decay_scores);
    if fatigued.len() == 0 {
        return None;
    }
    let ghost f = picked(decay_scores@, fatigued@);
    let mut problems: Vec<&str> = Vec::new();
    let nf = fatigued.len();
    for k in 0..nf
        invariant
            nf == fatigued@.len(),
            f == picked(decay_scores@, fatigued@),
            forall|j: int| 0 <= j < fatigued@.len() ==> #[trigger] fatigued@[j] < decay_scores@.len(),
            problems@.len() == k,
            forall|j: int| 0 <= j < k ==> #[trigger] problems@[j]@ == problems_of(f)[j],
    {
        problems.push(problem_for_pos(decay_scores[fatigued[k]].position.as_str()));
    }
    assert(problems@.map_values(|t: &str| t@) =~= problems_of(f));
    let best = most_frequent_index(&problems);
    let tactical_problem = problems[best];
    let mut take_off: Vec<(String, String, Ratio)> = Vec::new();
    assert(take_off_views(take_off@) =~= take_off_of(f.take(0)));
    let nt: usize = if nf < 2 { nf } else { 2 };
    for k in 0..nt
        invariant
            nt <= nf,
            nf == fatigued@.len(),
            f == picked(decay_scores@, fatigued@),
            forall|j: int| 0 <= j < fatigued@.len() ==> #[trigger] fatigued@[j] < decay_scores@.len(),
            take_off_views(take_off@) == take_off_of(f.take(k as int)),
    {
        let d = &decay_scores[fatigued[k]];
        let ghost before = take_off@;
        take_off.push((d.player_name.clone(), d.position.clone(), d.score));
        assert(take_off_views(take_off@) =~= take_off_views(before).push((d.player_name@, d.position@, d.score)));
        assert(f.take(k + 1) =~= f.take(k as int).push(f[k as int]));
        assert(take_off_of(f.take(k + 1)) =~= take_off_of(f.take(k as int)).push((f[k as int].player_name, f[k as int].position, f[k as int].score)));
    }
    assert(f.take(nt as int) =~= first_n(f, 2));
    let target = problem_group(tactical_problem);
    let bring_on = bench_candidates(state, lineup, team, minute, &active, &off, &on, target);
    Some(
        Recommendation {
            tactical_problem: tactical_problem.to_owned(),
            take_off,
            bring_on,
        },
    )
}

} // verus!
