//! Properties that hold of the library as a whole.

use vstd::prelude::*;
use crate::dashboard::{after_key, Key, KeyAction, LAST_MINUTE};
use crate::ingest::{absorb_players, absorb_teams, no_duplicates, IdxPlayer, IdxTeam};
use crate::decay::{is_active_type_spec, lemma_count_bound, abbrev_spec, baseline_halves, by_score, count_filtered, decay_of, decay_ratio, decay_table, lineup_for, recent_minutes, DecayView, EventFilter};
use crate::ingest::{LineupPlayer, MatchEvent, MatchState, TeamLineup};
use crate::matcher::{source_name, bench_of, candidate_of, on_bench, NameSource, named_by, by_fit, dominant_problem, fatigue_alarm, fatigued_all, first_most_frequent, first_n, group_name, occurrences, on_field, pos_class, problem_group_spec, problem_name, problems_of, recommendation_spec};
use crate::ranking::{lemma_rank_desc_permutes, lemma_rank_desc_ranked, ranked, strict_order};
use crate::text::{ascii_folded, eq_ignore_case, fitted_name, has_substring};
use crate::ingest::opt_text;

verus! {

proof fn lemma_ratio_order()
    ensures
        strict_order(by_score()),
{
    assert forall|a: DecayView, b: DecayView| #[trigger] (by_score())(a, b) implies !(by_score())(b, a) by {}
    assert forall|a: DecayView, b: DecayView, c: DecayView|
        #[trigger] (by_score())(a, b) && #[trigger] (by_score())(b, c) implies (by_score())(a, c) by {
        let (an, ad, bn, bd, cn, cd) = (a.score.num as int, a.score.den as int, b.score.num as int, b.score.den as int, c.score.num as int, c.score.den as int);
        assert(an * cd > cn * ad) by (nonlinear_arith)
            requires
                an * bd > bn * ad,
                bn * cd > cn * bd,
                an >= 0, ad >= 0, bn >= 0, bd >= 0, cn >= 0, cd >= 0,
        {
            assert(bd > 0);
            assert(an * bd * cd >= bn * ad * cd);
            assert(bn * cd * ad >= cn * bd * ad);
            assert(an * bd * cd > cn * bd * ad || (cd == 0));
        }
    }
}

/// The decay table lists every player of the team's lineup once, and no
/// player after one with a lower score: it runs from the highest decay down.
pub proof fn decay_table_is_ranked(state: MatchState, team: Seq<char>, minute: u32)
    ensures
        ranked(decay_table(state, team, minute), by_score()),
        lineup_for(state, team) matches Some(l) ==> decay_table(state, team, minute).to_multiset()
            == l.players@.map_values(|p: LineupPlayer| decay_of(state.events@, team, minute, p)).to_multiset(),
        lineup_for(state, team) is None ==> decay_table(state, team, minute).len() == 0,
{
    lemma_ratio_order();
    match lineup_for(state, team) {
        Some(l) => {
            let entries = l.players@.map_values(|p: LineupPlayer| decay_of(state.events@, team, minute, p));
            lemma_rank_desc_ranked(entries, by_score());
            lemma_rank_desc_permutes(entries, by_score());
        },
        None => {},
    }
}

/// A decay score lies between 0 and 1: it is 0 when the player's recent
/// rate is at or above the baseline rate (or there is no baseline), and 1
/// when the player has a baseline but no recent action.
pub proof fn decay_score_within_unit(baseline_actions: nat, baseline_halves: nat, recent_actions: nat, recent_minutes: nat)
    requires
        baseline_actions <= u32::MAX,
        recent_actions <= u32::MAX,
        baseline_halves <= 90,
        1 <= recent_minutes <= 15,
    ensures
        ({
            let r = decay_ratio(baseline_actions, baseline_halves, recent_actions, recent_minutes);
            &&& r.den > 0
            &&& r.num <= r.den
            &&& (baseline_actions == 0 || baseline_halves == 0 || recent_actions * baseline_halves
                >= 2 * baseline_actions * recent_minutes) ==> r.num == 0
            &&& (baseline_actions > 0 && baseline_halves > 0 && recent_actions == 0) ==> r.num
                == r.den
        }),
{
    let ba = baseline_actions;
    let rm = recent_minutes;
    assert(2 * ba * rm <= 2 * 0xffff_ffffnat * 15) by (nonlinear_arith)
        requires
            ba <= 0xffff_ffff,
            rm <= 15,
    ;
    assert(2 * ba * rm > 0 || ba == 0) by (nonlinear_arith)
        requires
            rm >= 1,
    ;
    assert(recent_actions * baseline_halves >= 0) by (nonlinear_arith);
}

/// Every score of the decay table lies between 0 and 1.
pub proof fn decay_table_within_unit(state: MatchState, team: Seq<char>, minute: u32)
    requires
        state.events@.len() <= u32::MAX,
    ensures
        forall|i: int|
            0 <= i < decay_table(state, team, minute).len() ==> {
                let d = #[trigger] decay_table(state, team, minute)[i];
                0 < d.score.den && d.score.num <= d.score.den
            },
{
    broadcast use vstd::seq_lib::group_to_multiset_ensures;
    decay_table_is_ranked(state, team, minute);
    match lineup_for(state, team) {
        Some(l) => {
            let entries = l.players@.map_values(|p: LineupPlayer| decay_of(state.events@, team, minute, p));
            let t = decay_table(state, team, minute);
            assert forall|i: int| 0 <= i < t.len() implies {
                let d = #[trigger] t[i];
                0 < d.score.den && d.score.num <= d.score.den
            } by {
                assert(t.contains(t[i]));
                assert(t.to_multiset().count(t[i]) > 0);
                assert(entries.contains(t[i]));
                let j = choose|j: int| 0 <= j < entries.len() && entries[j] == t[i];
                let p = l.players@[j];
                lemma_count_bound(state.events@, EventFilter::Baseline { minute }, team, p.player_name@);
                lemma_count_bound(state.events@, EventFilter::Recent { minute }, team, p.player_name@);
                decay_score_within_unit(
                    count_filtered(state.events@, EventFilter::Baseline { minute }, team, p.player_name@),
                    baseline_halves(minute),
                    count_filtered(state.events@, EventFilter::Recent { minute }, team, p.player_name@),
                    recent_minutes(minute),
                );
            }
        },
        None => {},
    }
}

proof fn lemma_fatigued_all(evs: Seq<MatchEvent>, l: TeamLineup, team: Seq<char>, minute: u32, s: Seq<DecayView>)
    ensures
        forall|k: int|
            0 <= k < fatigued_all(evs, l, team, minute, s).len() ==> {
                let d = #[trigger] fatigued_all(evs, l, team, minute, s)[k];
                on_field(evs, l, team, minute, d.player_name) && fatigue_alarm(d.score)
            },
        fatigued_all(evs, l, team, minute, s).len() > 0 <==> exists|i: int|
            0 <= i < s.len() && on_field(evs, l, team, minute, (#[trigger] s[i]).player_name)
                && fatigue_alarm(s[i].score),
    decreases s.len(),
{
    if s.len() > 0 {
        let t = s.drop_last();
        lemma_fatigued_all(evs, l, team, minute, t);
        if exists|i: int|
            0 <= i < s.len() && on_field(evs, l, team, minute, (#[trigger] s[i]).player_name)
                && fatigue_alarm(s[i].score) {
            let i = choose|i: int|
                0 <= i < s.len() && on_field(evs, l, team, minute, (#[trigger] s[i]).player_name)
                    && fatigue_alarm(s[i].score);
            if i < s.len() - 1 {
                assert(t[i] == s[i]);
            }
        }
        if exists|i: int|
            0 <= i < t.len() && on_field(evs, l, team, minute, (#[trigger] t[i]).player_name)
                && fatigue_alarm(t[i].score) {
            let i = choose|i: int|
                0 <= i < t.len() && on_field(evs, l, team, minute, (#[trigger] t[i]).player_name)
                    && fatigue_alarm(t[i].score);
            assert(s[i] == t[i]);
        }
    }
}

/// A recommendation comes exactly when the team plays in the match and some
/// player of its decay list who is on the pitch has a decay above 0.25.
pub proof fn recommendation_exactly_on_alarm(state: MatchState, team: Seq<char>, s: Seq<DecayView>, minute: u32)
    ensures
        recommendation_spec(state, team, s, minute) is Some <==> (lineup_for(state, team) matches Some(l)
            && exists|i: int|
            0 <= i < s.len() && on_field(state.events@, l, team, minute, (#[trigger] s[i]).player_name)
                && fatigue_alarm(s[i].score)),
{
    match lineup_for(state, team) {
        Some(l) => {
            lemma_fatigued_all(state.events@, l, team, minute, s);
        },
        None => {},
    }
}

/// The players to take off are one or two players on the pitch, each with a
/// decay above 0.25, listed as in the decay list.
pub proof fn take_off_players_are_tired(state: MatchState, team: Seq<char>, s: Seq<DecayView>, minute: u32)
    ensures
        recommendation_spec(state, team, s, minute) matches Some(rec) ==> {
            &&& 1 <= rec.take_off.len() <= 2
            &&& lineup_for(state, team) matches Some(l) && forall|i: int|
                0 <= i < rec.take_off.len() ==> on_field(
                    state.events@,
                    l,
                    team,
                    minute,
                    (#[trigger] rec.take_off[i]).0,
                ) && fatigue_alarm(rec.take_off[i].2)
        },
{
    match lineup_for(state, team) {
        Some(l) => {
            lemma_fatigued_all(state.events@, l, team, minute, s);
            let fa = fatigued_all(state.events@, l, team, minute, s);
            let f = first_n(fa, 3);
            let f2 = first_n(f, 2);
            assert forall|i: int| 0 <= i < f2.len() implies f2[i] == fa[i] by {}
        },
        None => {},
    }
}

proof fn lemma_bench_of(evs: Seq<MatchEvent>, l: TeamLineup, team: Seq<char>, minute: u32, ps: Seq<LineupPlayer>)
    ensures
        forall|k: int|
            0 <= k < bench_of(evs, l, team, minute, ps).len() ==> on_bench(
                evs,
                l,
                team,
                minute,
                #[trigger] bench_of(evs, l, team, minute, ps)[k],
            ),
    decreases ps.len(),
{
    if ps.len() > 0 {
        let rest = bench_of(evs, l, team, minute, ps.drop_last());
        lemma_bench_of(evs, l, team, minute, ps.drop_last());
        let b = bench_of(evs, l, team, minute, ps);
        assert forall|k: int| 0 <= k < b.len() implies on_bench(evs, l, team, minute, #[trigger] b[k]) by {
            if k < rest.len() {
                assert(b[k] == rest[k]);
            }
        }
    }
}

/// The players to bring on are ranked from the best fit down, each fit is at
/// most 3, and none of them is on the pitch or has been taken off.
pub proof fn bring_on_players_are_ranked_bench(state: MatchState, team: Seq<char>, s: Seq<DecayView>, minute: u32)
    ensures
        recommendation_spec(state, team, s, minute) matches Some(rec) ==> {
            &&& ranked(rec.bring_on, by_fit())
            &&& lineup_for(state, team) matches Some(l) && forall|j: int|
                0 <= j < rec.bring_on.len() ==> {
                    let c = #[trigger] rec.bring_on[j];
                    &&& c.fit_score <= 3
                    &&& !on_field(state.events@, l, team, minute, c.player_name)
                    &&& !named_by(state.events@, NameSource::SubbedOff, team, minute, c.player_name)
                }
        },
{
    broadcast use vstd::seq_lib::group_to_multiset_ensures;
    match recommendation_spec(state, team, s, minute) {
        Some(rec) => {
            let l = lineup_for(state, team)->0;
            let evs = state.events@;
            let target = problem_group_spec(rec.tactical_problem);
            let bench = bench_of(evs, l, team, minute, l.players@);
            let cands = bench.map_values(|p: LineupPlayer| candidate_of(evs, team, minute, target, p));
            assert(strict_order(by_fit()));
            lemma_rank_desc_ranked(cands, by_fit());
            lemma_rank_desc_permutes(cands, by_fit());
            lemma_bench_of(evs, l, team, minute, l.players@);
            assert forall|j: int| 0 <= j < rec.bring_on.len() implies {
                let c = #[trigger] rec.bring_on[j];
                &&& c.fit_score <= 3
                &&& !on_field(evs, l, team, minute, c.player_name)
                &&& !named_by(evs, NameSource::SubbedOff, team, minute, c.player_name)
            } by {
                let c = rec.bring_on[j];
                assert(rec.bring_on.contains(c));
                assert(rec.bring_on.to_multiset().count(c) > 0);
                assert(cands.contains(c));
                let k = choose|k: int| 0 <= k < cands.len() && cands[k] == c;
                assert(on_bench(evs, l, team, minute, bench[k]));
            }
        },
        None => {},
    }
}

/// No player is both to be taken off and to be brought on.
pub proof fn no_player_both_off_and_on(state: MatchState, team: Seq<char>, s: Seq<DecayView>, minute: u32)
    ensures
        recommendation_spec(state, team, s, minute) matches Some(rec) ==> forall|i: int, j: int|
            0 <= i < rec.take_off.len() && 0 <= j < rec.bring_on.len() ==> (#[trigger] rec.take_off[i]).0
                != (#[trigger] rec.bring_on[j]).player_name,
{
    take_off_players_are_tired(state, team, s, minute);
    bring_on_players_are_ranked_bench(state, team, s, minute);
}

proof fn lemma_first_most_frequent(ps: Seq<Seq<char>>, k: nat)
    requires
        1 <= k <= ps.len(),
    ensures
        0 <= first_most_frequent(ps, k) < k,
        forall|j: int| 0 <= j < k ==> occurrences(ps, #[trigger] ps[j]) <= occurrences(ps, ps[first_most_frequent(ps, k)]),
    decreases k,
{
    if k > 1 {
        lemma_first_most_frequent(ps, (k - 1) as nat);
    }
}

/// The tactical problem is one that the tired players point to, and no
/// problem they point to is more frequent among them.
pub proof fn tactical_problem_is_most_frequent(f: Seq<DecayView>)
    requires
        f.len() > 0,
    ensures
        problems_of(f).contains(dominant_problem(f)),
        forall|i: int|
            0 <= i < f.len() ==> occurrences(problems_of(f), #[trigger] problems_of(f)[i]) <= occurrences(
                problems_of(f),
                dominant_problem(f),
            ),
{
    let ps = problems_of(f);
    lemma_first_most_frequent(ps, ps.len());
    assert(ps[first_most_frequent(ps, ps.len())] == dominant_problem(f));
}

/// The position family that the problem of a position calls for is that
/// position's own family.
pub proof fn problem_calls_for_own_family(pos: Seq<char>)
    ensures
        problem_group_spec(problem_name(pos_class(pos))) == group_name(pos_class(pos)),
{
    reveal_strlit("Defensive stability weakening");
    reveal_strlit("Flank coverage dropping");
    reveal_strlit("Midfield press collapsing");
    reveal_strlit("Attacking width lost");
    reveal_strlit("Striker pressing fading");
    reveal_strlit("General fatigue");
    assert("Defensive stability weakening"@[0] == 'D');
    assert("Flank coverage dropping"@[0] == 'F');
    assert("Midfield press collapsing"@[0] == 'M');
    assert("Attacking width lost"@[0] == 'A');
    assert("Striker pressing fading"@[0] == 'S');
    assert("General fatigue"@[0] == 'G');
}

/// From a minute between 1 and 120, every key leaves the minute between 1
/// and 120, and moves it by at most one.
pub proof fn minute_stays_in_range(minute: u32, scroll: usize, key: Key)
    requires
        1 <= minute <= LAST_MINUTE,
    ensures
        1 <= after_key(minute, scroll, key).0 <= LAST_MINUTE,
        minute - 1 <= after_key(minute, scroll, key).0 <= minute + 1,
{
}

/// The minute and the scroll offset after the keys `keys`, in order.
pub open spec fn after_keys(minute: u32, scroll: usize, keys: Seq<Key>) -> (u32, usize)
    decreases keys.len(),
{
    if keys.len() == 0 {
        (minute, scroll)
    } else {
        let (m, s) = after_keys(minute, scroll, keys.drop_last());
        let r = after_key(m, s, keys.last());
        (r.0, r.1)
    }
}

/// From a minute between 1 and 120, the minute stays between 1 and 120
/// after every key of any sequence of key presses, and each press moves it
/// by at most one.
pub proof fn minute_stays_in_range_over_keys(minute: u32, scroll: usize, keys: Seq<Key>)
    requires
        1 <= minute <= LAST_MINUTE,
    ensures
        forall|i: int|
            0 <= i <= keys.len() ==> 1 <= (#[trigger] after_keys(minute, scroll, keys.take(i))).0
                <= LAST_MINUTE,
        forall|i: int|
            0 <= i < keys.len() ==> {
                let before = after_keys(minute, scroll, keys.take(i)).0;
                let after = (#[trigger] after_keys(minute, scroll, keys.take(i + 1))).0;
                before - 1 <= after <= before + 1
            },
    decreases keys.len(),
{
    if keys.len() > 0 {
        let rest = keys.drop_last();
        minute_stays_in_range_over_keys(minute, scroll, rest);
        assert forall|i: int| 0 <= i <= rest.len() implies keys.take(i) == rest.take(i) by {
            assert(keys.take(i) =~= rest.take(i));
        }
        assert(keys.take(keys.len() as int) =~= keys);
        assert(keys.take(keys.len() as int).drop_last() =~= rest);
        let (m, sc) = after_keys(minute, scroll, rest);
        assert(rest.take(rest.len() as int) =~= rest);
        minute_stays_in_range(m, sc, keys.last());
        assert forall|i: int| 0 <= i <= keys.len() implies 1 <= (#[trigger] after_keys(
            minute,
            scroll,
            keys.take(i),
        )).0 <= LAST_MINUTE by {
            if i < keys.len() {
                assert(keys.take(i) == rest.take(i));
            }
        }
        assert forall|i: int| 0 <= i < keys.len() implies {
            let before = after_keys(minute, scroll, keys.take(i)).0;
            let after = (#[trigger] after_keys(minute, scroll, keys.take(i + 1))).0;
            before - 1 <= after <= before + 1
        } by {
            assert(keys.take(i) == rest.take(i));
            if i + 1 < keys.len() {
                assert(keys.take(i + 1) == rest.take(i + 1));
            } else {
                assert(keys.take(i + 1).drop_last() =~= rest);
                assert(keys.take(i + 1).last() == keys.last());
            }
        }
    }
}

/// Below minute 120, a step forward then a step back returns to the same
/// minute, scrolled to the top.
pub proof fn minute_step_undone(minute: u32, scroll: usize)
    requires
        1 <= minute < LAST_MINUTE,
    ensures
        ({
            let (m1, s1, _) = after_key(minute, scroll, Key::Char('+'));
            let (m2, s2, a2) = after_key(m1, s1, Key::Char('-'));
            m2 == minute && s2 == 0 && a2 == KeyAction::Redraw
        }),
{
}

/// Quitting and reloading leave the minute and the scroll offset as they are.
pub proof fn quit_and_reload_keep_view(minute: u32, scroll: usize, c: char)
    requires
        c == 'q' || c == 'Q' || c == 'r' || c == 'R',
    ensures
        after_key(minute, scroll, Key::Char(c)).0 == minute,
        after_key(minute, scroll, Key::Char(c)).1 == scroll,
{
}

/// A fitted name fits its cell (of at least one character), and a name that
/// fits is kept whole.
pub proof fn fitted_name_fits(name: Seq<char>, width: nat)
    requires
        width >= 1,
    ensures
        fitted_name(name, width).len() <= width,
        name.len() <= width ==> fitted_name(name, width) == name,
{
}

/// Shortening a position twice gives what shortening it once gives: the
/// short forms are not themselves position names.
pub proof fn abbrev_is_idempotent(pos: Seq<char>)
    ensures
        abbrev_spec(abbrev_spec(pos)) == abbrev_spec(pos),
{
    reveal_strlit("Goalkeeper");
    assert("Goalkeeper"@.len() == 10);
    reveal_strlit("Right Back");
    assert("Right Back"@.len() == 10);
    reveal_strlit("Left Back");
    assert("Left Back"@.len() == 9);
    reveal_strlit("Center Back");
    assert("Center Back"@.len() == 11);
    reveal_strlit("Right Center Back");
    assert("Right Center Back"@.len() == 17);
    reveal_strlit("Left Center Back");
    assert("Left Center Back"@.len() == 16);
    reveal_strlit("Right Wing Back");
    assert("Right Wing Back"@.len() == 15);
    reveal_strlit("Left Wing Back");
    assert("Left Wing Back"@.len() == 14);
    reveal_strlit("Defensive Midfield");
    assert("Defensive Midfield"@.len() == 18);
    reveal_strlit("Right Defensive Midfield");
    assert("Right Defensive Midfield"@.len() == 24);
    reveal_strlit("Left Defensive Midfield");
    assert("Left Defensive Midfield"@.len() == 23);
    reveal_strlit("Center Midfield");
    assert("Center Midfield"@.len() == 15);
    reveal_strlit("Right Center Midfield");
    assert("Right Center Midfield"@.len() == 21);
    reveal_strlit("Left Center Midfield");
    assert("Left Center Midfield"@.len() == 20);
    reveal_strlit("Attacking Midfield");
    assert("Attacking Midfield"@.len() == 18);
    reveal_strlit("Right Midfield");
    assert("Right Midfield"@.len() == 14);
    reveal_strlit("Left Midfield");
    assert("Left Midfield"@.len() == 13);
    reveal_strlit("Right Wing");
    assert("Right Wing"@.len() == 10);
    reveal_strlit("Left Wing");
    assert("Left Wing"@.len() == 9);
    reveal_strlit("Center Forward");
    assert("Center Forward"@.len() == 14);
    reveal_strlit("Right Center Forward");
    assert("Right Center Forward"@.len() == 20);
    reveal_strlit("Left Center Forward");
    assert("Left Center Forward"@.len() == 19);
    reveal_strlit("Secondary Striker");
    assert("Secondary Striker"@.len() == 17);
    reveal_strlit("Center Defensive Midfield");
    assert("Center Defensive Midfield"@.len() == 25);
    reveal_strlit("GK");
    assert("GK"@.len() == 2);
    reveal_strlit("RB");
    assert("RB"@.len() == 2);
    reveal_strlit("LB");
    assert("LB"@.len() == 2);
    reveal_strlit("CB");
    assert("CB"@.len() == 2);
    reveal_strlit("RCB");
    assert("RCB"@.len() == 3);
    reveal_strlit("LCB");
    assert("LCB"@.len() == 3);
    reveal_strlit("RWB");
    assert("RWB"@.len() == 3);
    reveal_strlit("LWB");
    assert("LWB"@.len() == 3);
    reveal_strlit("DM");
    assert("DM"@.len() == 2);
    reveal_strlit("RDM");
    assert("RDM"@.len() == 3);
    reveal_strlit("LDM");
    assert("LDM"@.len() == 3);
    reveal_strlit("CM");
    assert("CM"@.len() == 2);
    reveal_strlit("RCM");
    assert("RCM"@.len() == 3);
    reveal_strlit("LCM");
    assert("LCM"@.len() == 3);
    reveal_strlit("AM");
    assert("AM"@.len() == 2);
    reveal_strlit("RM");
    assert("RM"@.len() == 2);
    reveal_strlit("LM");
    assert("LM"@.len() == 2);
    reveal_strlit("RW");
    assert("RW"@.len() == 2);
    reveal_strlit("LW");
    assert("LW"@.len() == 2);
    reveal_strlit("CF");
    assert("CF"@.len() == 2);
    reveal_strlit("RCF");
    assert("RCF"@.len() == 3);
    reveal_strlit("LCF");
    assert("LCF"@.len() == 3);
    reveal_strlit("SS");
    assert("SS"@.len() == 2);
    reveal_strlit("CDM");
    assert("CDM"@.len() == 3);
}

proof fn lemma_same_team(t1: Seq<char>, t2: Seq<char>)
    requires
        eq_ignore_case(t1, t2),
    ensures
        forall|x: Seq<char>| #[trigger] eq_ignore_case(x, t1) == eq_ignore_case(x, t2),
{
    assert forall|x: Seq<char>| #[trigger] eq_ignore_case(x, t1) == eq_ignore_case(x, t2) by {
        if eq_ignore_case(x, t1) {
            assert forall|i: int| 0 <= i < x.len() implies #[trigger] ascii_folded(x[i]) == ascii_folded(t2[i]) by {
                assert(ascii_folded(x[i]) == ascii_folded(t1[i]));
                assert(ascii_folded(t1[i]) == ascii_folded(t2[i]));
            }
        }
        if eq_ignore_case(x, t2) {
            assert forall|i: int| 0 <= i < x.len() implies #[trigger] ascii_folded(x[i]) == ascii_folded(t1[i]) by {
                assert(ascii_folded(x[i]) == ascii_folded(t2[i]));
                assert(ascii_folded(t1[i]) == ascii_folded(t2[i]));
            }
        }
    }
}

proof fn lemma_count_same_team(evs: Seq<MatchEvent>, f: EventFilter, t1: Seq<char>, t2: Seq<char>, name: Seq<char>)
    requires
        forall|x: Seq<char>| #[trigger] eq_ignore_case(x, t1) == eq_ignore_case(x, t2),
    ensures
        count_filtered(evs, f, t1, name) == count_filtered(evs, f, t2, name),
    decreases evs.len(),
{
    if evs.len() > 0 {
        lemma_count_same_team(evs.drop_last(), f, t1, t2, name);
        assert(eq_ignore_case(evs.last().team_name@, t1) == eq_ignore_case(evs.last().team_name@, t2));
    }
}

proof fn lemma_named_same_team(evs: Seq<MatchEvent>, src: NameSource, t1: Seq<char>, t2: Seq<char>, minute: u32, name: Seq<char>)
    requires
        forall|x: Seq<char>| #[trigger] eq_ignore_case(x, t1) == eq_ignore_case(x, t2),
    ensures
        named_by(evs, src, t1, minute, name) == named_by(evs, src, t2, minute, name),
{
    assert forall|i: int| 0 <= i < evs.len() implies #[trigger] source_name(src, evs[i], t1, minute)
        == source_name(src, evs[i], t2, minute) by {
        assert(eq_ignore_case(evs[i].team_name@, t1) == eq_ignore_case(evs[i].team_name@, t2));
    }
    if named_by(evs, src, t1, minute, name) {
        let i = choose|i: int| 0 <= i < evs.len() && #[trigger] source_name(src, evs[i], t1, minute) == Some(name);
        assert(source_name(src, evs[i], t2, minute) == Some(name));
    }
    if named_by(evs, src, t2, minute, name) {
        let i = choose|i: int| 0 <= i < evs.len() && #[trigger] source_name(src, evs[i], t2, minute) == Some(name);
        assert(source_name(src, evs[i], t1, minute) == Some(name));
    }
}

proof fn lemma_on_field_same_team(evs: Seq<MatchEvent>, l: TeamLineup, t1: Seq<char>, t2: Seq<char>, minute: u32, name: Seq<char>)
    requires
        forall|x: Seq<char>| #[trigger] eq_ignore_case(x, t1) == eq_ignore_case(x, t2),
    ensures
        on_field(evs, l, t1, minute, name) == on_field(evs, l, t2, minute, name),
        named_by(evs, NameSource::SubbedOff, t1, minute, name) == named_by(evs, NameSource::SubbedOff, t2, minute, name),
{
    lemma_named_same_team(evs, NameSource::ActiveBefore, t1, t2, minute, name);
    lemma_named_same_team(evs, NameSource::CameOn, t1, t2, minute, name);
    lemma_named_same_team(evs, NameSource::SubbedOff, t1, t2, minute, name);
}

proof fn lemma_fatigued_same_team(evs: Seq<MatchEvent>, l: TeamLineup, t1: Seq<char>, t2: Seq<char>, minute: u32, s: Seq<DecayView>)
    requires
        forall|x: Seq<char>| #[trigger] eq_ignore_case(x, t1) == eq_ignore_case(x, t2),
    ensures
        fatigued_all(evs, l, t1, minute, s) == fatigued_all(evs, l, t2, minute, s),
    decreases s.len(),
{
    if s.len() > 0 {
        lemma_fatigued_same_team(evs, l, t1, t2, minute, s.drop_last());
        lemma_on_field_same_team(evs, l, t1, t2, minute, s.last().player_name);
    }
}

proof fn lemma_bench_same_team(evs: Seq<MatchEvent>, l: TeamLineup, t1: Seq<char>, t2: Seq<char>, minute: u32, ps: Seq<LineupPlayer>)
    requires
        forall|x: Seq<char>| #[trigger] eq_ignore_case(x, t1) == eq_ignore_case(x, t2),
    ensures
        bench_of(evs, l, t1, minute, ps) == bench_of(evs, l, t2, minute, ps),
    decreases ps.len(),
{
    if ps.len() > 0 {
        lemma_bench_same_team(evs, l, t1, t2, minute, ps.drop_last());
        lemma_on_field_same_team(evs, l, t1, t2, minute, ps.last().player_name@);
    }
}

proof fn lemma_decay_of_same_team(evs: Seq<MatchEvent>, t1: Seq<char>, t2: Seq<char>, minute: u32, p: LineupPlayer)
    requires
        forall|x: Seq<char>| #[trigger] eq_ignore_case(x, t1) == eq_ignore_case(x, t2),
    ensures
        decay_of(evs, t1, minute, p) == decay_of(evs, t2, minute, p),
{
    lemma_count_same_team(evs, EventFilter::Baseline { minute }, t1, t2, p.player_name@);
    lemma_count_same_team(evs, EventFilter::Recent { minute }, t1, t2, p.player_name@);
}

/// Team names that differ only in the case of ASCII letters name the same
/// side: the decay table and the recommendation are the same for both.
pub proof fn team_name_case_does_not_matter(state: MatchState, t1: Seq<char>, t2: Seq<char>, s: Seq<DecayView>, minute: u32)
    requires
        eq_ignore_case(t1, t2),
    ensures
        decay_table(state, t1, minute) == decay_table(state, t2, minute),
        recommendation_spec(state, t1, s, minute) == recommendation_spec(state, t2, s, minute),
{
    lemma_same_team(t1, t2);
    let evs = state.events@;
    assert(lineup_for(state, t1) == lineup_for(state, t2)) by {
        assert(eq_ignore_case(state.home_lineup.team_name@, t1) == eq_ignore_case(state.home_lineup.team_name@, t2));
        assert(eq_ignore_case(state.away_lineup.team_name@, t1) == eq_ignore_case(state.away_lineup.team_name@, t2));
    }
    match lineup_for(state, t1) {
        Some(l) => {
            let e1 = l.players@.map_values(|p: LineupPlayer| decay_of(evs, t1, minute, p));
            let e2 = l.players@.map_values(|p: LineupPlayer| decay_of(evs, t2, minute, p));
            assert forall|i: int| 0 <= i < e1.len() implies e1[i] == e2[i] by {
                lemma_decay_of_same_team(evs, t1, t2, minute, l.players@[i]);
            }
            assert(e1 =~= e2);
            lemma_fatigued_same_team(evs, l, t1, t2, minute, s);
            lemma_bench_same_team(evs, l, t1, t2, minute, l.players@);
            let f = first_n(fatigued_all(evs, l, t1, minute, s), 3);
            if f.len() > 0 {
                let target = problem_group_spec(dominant_problem(f));
                let bench = bench_of(evs, l, t1, minute, l.players@);
                let c1 = bench.map_values(|p: LineupPlayer| candidate_of(evs, t1, minute, target, p));
                let c2 = bench.map_values(|p: LineupPlayer| candidate_of(evs, t2, minute, target, p));
                assert forall|i: int| 0 <= i < c1.len() implies c1[i] == c2[i] by {
                    let p = bench[i];
                    lemma_count_same_team(evs, EventFilter::Active { minute }, t1, t2, p.player_name@);
                    lemma_count_same_team(evs, EventFilter::Pressure { minute }, t1, t2, p.player_name@);
                    lemma_count_same_team(evs, EventFilter::DuelWon { minute }, t1, t2, p.player_name@);
                }
                assert(c1 =~= c2);
            }
        },
        None => {},
    }
}

/// The event `e` can count towards some player's decay for the side `team`:
/// it belongs to the side, is an action, and names a player.
pub open spec fn counts_toward_decay(e: MatchEvent, team: Seq<char>) -> bool {
    eq_ignore_case(e.team_name@, team) && is_active_type_spec(e.event_type@) && e.player_name is Some
}

/// The events of `evs`, in order, that can count towards a decay for `team`.
pub open spec fn decay_relevant(evs: Seq<MatchEvent>, team: Seq<char>) -> Seq<MatchEvent>
    decreases evs.len(),
{
    if evs.len() == 0 {
        evs
    } else {
        let rest = decay_relevant(evs.drop_last(), team);
        if counts_toward_decay(evs.last(), team) {
            rest.push(evs.last())
        } else {
            rest
        }
    }
}

proof fn lemma_window_counts_relevant(evs: Seq<MatchEvent>, f: EventFilter, team: Seq<char>, name: Seq<char>)
    requires
        f is Baseline || f is Recent,
    ensures
        count_filtered(evs, f, team, name) == count_filtered(decay_relevant(evs, team), f, team, name),
    decreases evs.len(),
{
    if evs.len() > 0 {
        lemma_window_counts_relevant(evs.drop_last(), f, team, name);
        let rest = decay_relevant(evs.drop_last(), team);
        if counts_toward_decay(evs.last(), team) {
            assert(rest.push(evs.last()).drop_last() =~= rest);
        }
    }
}

proof fn lemma_relevant_same_team(evs: Seq<MatchEvent>, t1: Seq<char>, t2: Seq<char>)
    requires
        forall|x: Seq<char>| #[trigger] eq_ignore_case(x, t1) == eq_ignore_case(x, t2),
    ensures
        decay_relevant(evs, t1) == decay_relevant(evs, t2),
    decreases evs.len(),
{
    if evs.len() > 0 {
        lemma_relevant_same_team(evs.drop_last(), t1, t2);
        assert(eq_ignore_case(evs.last().team_name@, t1) == eq_ignore_case(evs.last().team_name@, t2));
    }
}

/// Adding an event that cannot count towards a decay for `team` (another
/// side's, not an action, or naming no player), anywhere among the events,
/// leaves the events that count as they are.
pub proof fn irrelevant_event_is_left_out(evs: Seq<MatchEvent>, i: int, e: MatchEvent, team: Seq<char>)
    requires
        0 <= i <= evs.len(),
        !counts_toward_decay(e, team),
    ensures
        decay_relevant(evs.insert(i, e), team) == decay_relevant(evs, team),
    decreases evs.len(),
{
    let u = evs.insert(i, e);
    if i == evs.len() {
        assert(u.drop_last() =~= evs);
    } else {
        irrelevant_event_is_left_out(evs.drop_last(), i, e, team);
        assert(u.drop_last() =~= evs.drop_last().insert(i, e));
        assert(u.last() == evs.last());
    }
}

/// The decay table depends on the events only through those that can count
/// towards a decay, and on the team name only up to the case of ASCII
/// letters: two matches with the same lineups and the same such events give
/// the same table.
pub proof fn decay_table_ignores_irrelevant_events(s1: MatchState, t1: Seq<char>, s2: MatchState, t2: Seq<char>, minute: u32)
    requires
        s1.home_lineup == s2.home_lineup,
        s1.away_lineup == s2.away_lineup,
        eq_ignore_case(t1, t2),
        decay_relevant(s1.events@, t1) == decay_relevant(s2.events@, t2),
    ensures
        decay_table(s1, t1, minute) == decay_table(s2, t2, minute),
{
    team_name_case_does_not_matter(s2, t1, t2, Seq::empty(), minute);
    lemma_same_team(t1, t2);
    lemma_relevant_same_team(s2.events@, t1, t2);
    assert(lineup_for(s1, t1) == lineup_for(s2, t1));
    match lineup_for(s1, t1) {
        Some(l) => {
            let e1 = l.players@.map_values(|p: LineupPlayer| decay_of(s1.events@, t1, minute, p));
            let e2 = l.players@.map_values(|p: LineupPlayer| decay_of(s2.events@, t1, minute, p));
            assert forall|i: int| 0 <= i < e1.len() implies e1[i] == e2[i] by {
                let name = l.players@[i].player_name@;
                lemma_window_counts_relevant(s1.events@, EventFilter::Baseline { minute }, t1, name);
                lemma_window_counts_relevant(s2.events@, EventFilter::Baseline { minute }, t1, name);
                lemma_window_counts_relevant(s1.events@, EventFilter::Recent { minute }, t1, name);
                lemma_window_counts_relevant(s2.events@, EventFilter::Recent { minute }, t1, name);
            }
            assert(e1 =~= e2);
        },
        None => {},
    }
}

proof fn lemma_absorb_keys(m: Map<Seq<char>, Seq<char>>, u: Seq<Seq<char>>, ps: Seq<IdxPlayer>)
    requires
        m.dom().finite(),
    ensures
        absorb_players(m, u, ps).dom().finite(),
        forall|k: Seq<char>| #[trigger] absorb_players(m, u, ps).contains_key(k) ==> m.contains_key(k) || u.contains(k),
    decreases ps.len(),
{
    if ps.len() > 0 {
        lemma_absorb_keys(m, u, ps.drop_last());
    }
}

proof fn lemma_absorb_team_keys(m: Map<Seq<char>, Seq<char>>, u: Seq<Seq<char>>, ts: Seq<IdxTeam>)
    requires
        m.dom().finite(),
    ensures
        absorb_teams(m, u, ts).dom().finite(),
        forall|k: Seq<char>| #[trigger] absorb_teams(m, u, ts).contains_key(k) ==> m.contains_key(k) || u.contains(k),
    decreases ts.len(),
{
    if ts.len() > 0 {
        let mid = absorb_teams(m, u, ts.drop_last());
        lemma_absorb_team_keys(m, u, ts.drop_last());
        lemma_absorb_keys(mid, u, ts.last().lineup@);
    }
}

/// Recording positions only ever adds names of the unknown list: from an
/// index that holds only such names, recording holds only such names.
pub proof fn recorded_names_are_unknown(m: Map<Seq<char>, Seq<char>>, u: Seq<Seq<char>>, ts: Seq<IdxTeam>)
    requires
        m.dom().finite(),
        forall|k: Seq<char>| #[trigger] m.contains_key(k) ==> u.contains(k),
    ensures
        absorb_teams(m, u, ts).dom().finite(),
        forall|k: Seq<char>| #[trigger] absorb_teams(m, u, ts).contains_key(k) ==> u.contains(k),
{
    lemma_absorb_team_keys(m, u, ts);
}

/// When an index that holds only names of a list without repeats holds as
/// many names as the list (the scan's stop rule), every name of the list has
/// a position.
pub proof fn covered_index_has_every_unknown(m: Map<Seq<char>, Seq<char>>, u: Seq<Seq<char>>)
    requires
        no_duplicates(u),
        m.dom().finite(),
        forall|k: Seq<char>| #[trigger] m.contains_key(k) ==> u.contains(k),
        m.dom().len() == u.len(),
    ensures
        forall|k: Seq<char>| #[trigger] u.contains(k) ==> m.contains_key(k),
{
    broadcast use vstd::set::group_set_axioms;
    assert(u.no_duplicates());
    u.unique_seq_to_set();
    vstd::seq_lib::seq_to_set_is_finite(u);
    assert forall|k: Seq<char>| #[trigger] u.contains(k) implies m.contains_key(k) by {
        if !m.contains_key(k) {
            let rest = u.to_set().remove(k);
            assert(m.dom().subset_of(rest));
            vstd::set_lib::lemma_len_subset(m.dom(), rest);
            assert(u.to_set().contains(k));
        }
    }
}

/// The events of `evs`, in order, that happened at or before `minute`.
pub open spec fn events_through(evs: Seq<MatchEvent>, minute: u32) -> Seq<MatchEvent>
    decreases evs.len(),
{
    if evs.len() == 0 {
        evs
    } else {
        let rest = events_through(evs.drop_last(), minute);
        if evs.last().minute <= minute {
            rest.push(evs.last())
        } else {
            rest
        }
    }
}

/// Adding an event that happens after `minute`, anywhere among the events,
/// leaves the events up to `minute` as they are.
pub proof fn later_event_is_left_out(evs: Seq<MatchEvent>, i: int, e: MatchEvent, minute: u32)
    requires
        0 <= i <= evs.len(),
        e.minute > minute,
    ensures
        events_through(evs.insert(i, e), minute) == events_through(evs, minute),
    decreases evs.len(),
{
    let u = evs.insert(i, e);
    if i == evs.len() {
        assert(u.drop_last() =~= evs);
    } else {
        later_event_is_left_out(evs.drop_last(), i, e, minute);
        assert(u.drop_last() =~= evs.drop_last().insert(i, e));
        assert(u.last() == evs.last());
    }
}

/// The last minute that a filter looks at.
pub open spec fn filter_minute(f: EventFilter) -> u32 {
    match f {
        EventFilter::Baseline { minute } => minute,
        EventFilter::Recent { minute } => minute,
        EventFilter::Active { minute } => minute,
        EventFilter::Pressure { minute } => minute,
        EventFilter::DuelWon { minute } => minute,
    }
}

proof fn lemma_counts_through(evs: Seq<MatchEvent>, f: EventFilter, team: Seq<char>, name: Seq<char>)
    ensures
        count_filtered(evs, f, team, name) == count_filtered(events_through(evs, filter_minute(f)), f, team, name),
    decreases evs.len(),
{
    if evs.len() > 0 {
        lemma_counts_through(evs.drop_last(), f, team, name);
        let rest = events_through(evs.drop_last(), filter_minute(f));
        if evs.last().minute <= filter_minute(f) {
            assert(rest.push(evs.last()).drop_last() =~= rest);
        }
    }
}

proof fn lemma_named_push(evs: Seq<MatchEvent>, e: MatchEvent, src: NameSource, team: Seq<char>, minute: u32, name: Seq<char>)
    ensures
        named_by(evs.push(e), src, team, minute, name) == (named_by(evs, src, team, minute, name)
            || source_name(src, e, team, minute) == Some(name)),
{
    let u = evs.push(e);
    if named_by(u, src, team, minute, name) {
        let i = choose|i: int| 0 <= i < u.len() && #[trigger] source_name(src, u[i], team, minute) == Some(name);
        if i < evs.len() {
            assert(u[i] == evs[i]);
        }
    }
    if named_by(evs, src, team, minute, name) {
        let i = choose|i: int| 0 <= i < evs.len() && #[trigger] source_name(src, evs[i], team, minute) == Some(name);
        assert(u[i] == evs[i]);
    }
    if source_name(src, e, team, minute) == Some(name) {
        assert(u[evs.len() as int] == e);
    }
}

proof fn lemma_named_through(evs: Seq<MatchEvent>, src: NameSource, team: Seq<char>, minute: u32, name: Seq<char>)
    ensures
        named_by(evs, src, team, minute, name) == named_by(events_through(evs, minute), src, team, minute, name),
    decreases evs.len(),
{
    if evs.len() > 0 {
        let t = evs.drop_last();
        lemma_named_through(t, src, team, minute, name);
        assert(t.push(evs.last()) =~= evs);
        lemma_named_push(t, evs.last(), src, team, minute, name);
        if evs.last().minute <= minute {
            lemma_named_push(events_through(t, minute), evs.last(), src, team, minute, name);
        }
    }
}

proof fn lemma_fatigued_same_events(e1: Seq<MatchEvent>, e2: Seq<MatchEvent>, l: TeamLineup, team: Seq<char>, minute: u32, s: Seq<DecayView>)
    requires
        forall|k: Seq<char>| #[trigger] on_field(e1, l, team, minute, k) == on_field(e2, l, team, minute, k),
    ensures
        fatigued_all(e1, l, team, minute, s) == fatigued_all(e2, l, team, minute, s),
    decreases s.len(),
{
    if s.len() > 0 {
        lemma_fatigued_same_events(e1, e2, l, team, minute, s.drop_last());
    }
}

proof fn lemma_bench_same_events(e1: Seq<MatchEvent>, e2: Seq<MatchEvent>, l: TeamLineup, team: Seq<char>, minute: u32, ps: Seq<LineupPlayer>)
    requires
        forall|k: Seq<char>| #[trigger] on_field(e1, l, team, minute, k) == on_field(e2, l, team, minute, k),
        forall|k: Seq<char>| #[trigger] named_by(e1, NameSource::SubbedOff, team, minute, k) == named_by(e2, NameSource::SubbedOff, team, minute, k),
    ensures
        bench_of(e1, l, team, minute, ps) == bench_of(e2, l, team, minute, ps),
    decreases ps.len(),
{
    if ps.len() > 0 {
        lemma_bench_same_events(e1, e2, l, team, minute, ps.drop_last());
        assert(on_field(e1, l, team, minute, ps.last().player_name@) == on_field(e2, l, team, minute, ps.last().player_name@));
        assert(named_by(e1, NameSource::SubbedOff, team, minute, ps.last().player_name@) == named_by(e2, NameSource::SubbedOff, team, minute, ps.last().player_name@));
    }
}

/// The decay table at a minute depends only on what happened up to that
/// minute: two matches with the same lineups and the same events up to
/// `minute` give the same table.
pub proof fn decay_table_ignores_later_events(s1: MatchState, s2: MatchState, team: Seq<char>, minute: u32)
    requires
        s1.home_lineup == s2.home_lineup,
        s1.away_lineup == s2.away_lineup,
        events_through(s1.events@, minute) == events_through(s2.events@, minute),
    ensures
        decay_table(s1, team, minute) == decay_table(s2, team, minute),
{
    assert(lineup_for(s1, team) == lineup_for(s2, team));
    match lineup_for(s1, team) {
        Some(l) => {
            let d1 = l.players@.map_values(|p: LineupPlayer| decay_of(s1.events@, team, minute, p));
            let d2 = l.players@.map_values(|p: LineupPlayer| decay_of(s2.events@, team, minute, p));
            assert forall|i: int| 0 <= i < d1.len() implies d1[i] == d2[i] by {
                let name = l.players@[i].player_name@;
                lemma_counts_through(s1.events@, EventFilter::Baseline { minute }, team, name);
                lemma_counts_through(s2.events@, EventFilter::Baseline { minute }, team, name);
                lemma_counts_through(s1.events@, EventFilter::Recent { minute }, team, name);
                lemma_counts_through(s2.events@, EventFilter::Recent { minute }, team, name);
            }
            assert(d1 =~= d2);
        },
        None => {},
    }
}

/// Who has been taken off, and the recommendation at a minute, depend only
/// on what happened up to that minute: a substitution, or any other event,
/// after `minute` changes neither.
pub proof fn recommendation_ignores_later_events(s1: MatchState, s2: MatchState, team: Seq<char>, s: Seq<DecayView>, minute: u32)
    requires
        s1.home_lineup == s2.home_lineup,
        s1.away_lineup == s2.away_lineup,
        events_through(s1.events@, minute) == events_through(s2.events@, minute),
    ensures
        forall|k: Seq<char>|
            #[trigger] named_by(s1.events@, NameSource::SubbedOff, team, minute, k) == named_by(
                s2.events@,
                NameSource::SubbedOff,
                team,
                minute,
                k,
            ),
        recommendation_spec(s1, team, s, minute) == recommendation_spec(s2, team, s, minute),
{
    let e1 = s1.events@;
    let e2 = s2.events@;
    assert forall|src: NameSource, k: Seq<char>| #[trigger] named_by(e1, src, team, minute, k) == named_by(e2, src, team, minute, k) by {
        lemma_named_through(e1, src, team, minute, k);
        lemma_named_through(e2, src, team, minute, k);
    }
    assert(lineup_for(s1, team) == lineup_for(s2, team));
    match lineup_for(s1, team) {
        Some(l) => {
            assert forall|k: Seq<char>| #[trigger] on_field(e1, l, team, minute, k) == on_field(e2, l, team, minute, k) by {
                assert(named_by(e1, NameSource::ActiveBefore, team, minute, k) == named_by(e2, NameSource::ActiveBefore, team, minute, k));
                assert(named_by(e1, NameSource::CameOn, team, minute, k) == named_by(e2, NameSource::CameOn, team, minute, k));
                assert(named_by(e1, NameSource::SubbedOff, team, minute, k) == named_by(e2, NameSource::SubbedOff, team, minute, k));
            }
            lemma_fatigued_same_events(e1, e2, l, team, minute, s);
            lemma_bench_same_events(e1, e2, l, team, minute, l.players@);
            let f = first_n(fatigued_all(e1, l, team, minute, s), 3);
            if f.len() > 0 {
                let target = problem_group_spec(dominant_problem(f));
                let bench = bench_of(e1, l, team, minute, l.players@);
                let c1 = bench.map_values(|p: LineupPlayer| candidate_of(e1, team, minute, target, p));
                let c2 = bench.map_values(|p: LineupPlayer| candidate_of(e2, team, minute, target, p));
                assert forall|i: int| 0 <= i < c1.len() implies c1[i] == c2[i] by {
                    let name = bench[i].player_name@;
                    lemma_counts_through(e1, EventFilter::Active { minute }, team, name);
                    lemma_counts_through(e2, EventFilter::Active { minute }, team, name);
                    lemma_counts_through(e1, EventFilter::Pressure { minute }, team, name);
                    lemma_counts_through(e2, EventFilter::Pressure { minute }, team, name);
                    lemma_counts_through(e1, EventFilter::DuelWon { minute }, team, name);
                    lemma_counts_through(e2, EventFilter::DuelWon { minute }, team, name);
                }
                assert(c1 =~= c2);
            }
        },
        None => {},
    }
}

/// `e` takes the player `name` of the side `team` off at or before `minute`.
pub open spec fn takes_off_by(e: MatchEvent, team: Seq<char>, minute: u32, name: Seq<char>) -> bool {
    &&& e.event_type@ == "Substitution"@
    &&& eq_ignore_case(e.team_name@, team)
    &&& e.minute <= minute
    &&& opt_text(e.player_name) == Some(name)
}

/// A player counts as taken off at `minute` only through a substitution of
/// the side, at or before `minute`, that takes that player off; and every
/// such substitution counts.
pub proof fn taken_off_means_substituted_by_then(evs: Seq<MatchEvent>, team: Seq<char>, minute: u32, name: Seq<char>)
    ensures
        named_by(evs, NameSource::SubbedOff, team, minute, name) <==> exists|i: int|
            0 <= i < evs.len() && takes_off_by(#[trigger] evs[i], team, minute, name),
{
    if named_by(evs, NameSource::SubbedOff, team, minute, name) {
        let i = choose|i: int| 0 <= i < evs.len() && #[trigger] source_name(NameSource::SubbedOff, evs[i], team, minute) == Some(name);
        assert(takes_off_by(evs[i], team, minute, name));
    }
    if exists|i: int| 0 <= i < evs.len() && takes_off_by(#[trigger] evs[i], team, minute, name) {
        let i = choose|i: int| 0 <= i < evs.len() && takes_off_by(#[trigger] evs[i], team, minute, name);
        assert(source_name(NameSource::SubbedOff, evs[i], team, minute) == Some(name));
    }
}

/// No player to take off has already been taken off: no substitution of the
/// side at or before the minute takes that player off.
pub proof fn take_off_players_still_on_pitch(state: MatchState, team: Seq<char>, s: Seq<DecayView>, minute: u32)
    ensures
        recommendation_spec(state, team, s, minute) matches Some(rec) ==> forall|i: int, j: int|
            0 <= i < rec.take_off.len() && 0 <= j < state.events@.len() ==> !takes_off_by(
                #[trigger] state.events@[j],
                team,
                minute,
                (#[trigger] rec.take_off[i]).0,
            ),
{
    take_off_players_are_tired(state, team, s, minute);
    match recommendation_spec(state, team, s, minute) {
        Some(rec) => {
            assert forall|i: int, j: int|
                0 <= i < rec.take_off.len() && 0 <= j < state.events@.len() implies !takes_off_by(
                #[trigger] state.events@[j],
                team,
                minute,
                (#[trigger] rec.take_off[i]).0,
            ) by {
                taken_off_means_substituted_by_then(state.events@, team, minute, rec.take_off[i].0);
            }
        },
        None => {},
    }
}

/// The same position on the other side of the pitch: a leading "L" and "R"
/// swapped.
pub open spec fn mirrored(pos: Seq<char>) -> Seq<char> {
    if pos.len() > 0 && pos[0] == 'L' {
        pos.update(0, 'R')
    } else if pos.len() > 0 && pos[0] == 'R' {
        pos.update(0, 'L')
    } else {
        pos
    }
}

proof fn lemma_mirror_substring(pos: Seq<char>, n: Seq<char>)
    requires
        n.len() > 0,
        n[0] != 'L',
        n[0] != 'R',
    ensures
        has_substring(mirrored(pos), n) == has_substring(pos, n),
{
    let q = mirrored(pos);
    assert(q.len() == pos.len());
    assert forall|i: int| 1 <= i <= pos.len() - n.len() implies #[trigger] q.subrange(i, i + n.len()) == pos.subrange(i, i + n.len()) by {
        assert(q.subrange(i, i + n.len()) =~= pos.subrange(i, i + n.len()));
    }
    if has_substring(q, n) {
        let i = choose|i: int| 0 <= i <= q.len() - n.len() && #[trigger] q.subrange(i, i + n.len()) == n;
        if i == 0 {
            assert(q.subrange(0, n.len() as int)[0] == q[0]);
            assert(q =~= pos || (pos[0] == 'L' || pos[0] == 'R'));
            if pos.len() > 0 && (pos[0] == 'L' || pos[0] == 'R') {
                assert(q[0] == 'L' || q[0] == 'R');
            } else {
                assert(q =~= pos);
            }
        } else {
            assert(pos.subrange(i, i + n.len()) == n);
        }
    }
    if has_substring(pos, n) {
        let i = choose|i: int| 0 <= i <= pos.len() - n.len() && #[trigger] pos.subrange(i, i + n.len()) == n;
        if i == 0 {
            assert(pos.subrange(0, n.len() as int)[0] == pos[0]);
            assert(q =~= pos);
        } else {
            assert(q.subrange(i, i + n.len()) == n);
        }
    }
}

proof fn lemma_two_chars(p: Seq<char>, x: Seq<char>)
    requires
        p.len() == 2,
        x.len() == 2,
    ensures
        p == x <==> (p[0] == x[0] && p[1] == x[1]),
{
    if p[0] == x[0] && p[1] == x[1] {
        assert(p =~= x);
    }
}

/// A position and its mirror on the other side of the pitch (left and right
/// swapped) belong to the same family, so they point to the same tactical
/// problem and fit the same problems.
pub proof fn mirrored_positions_share_family(pos: Seq<char>)
    ensures
        pos_class(mirrored(pos)) == pos_class(pos),
        problem_name(pos_class(mirrored(pos))) == problem_name(pos_class(pos)),
        group_name(pos_class(mirrored(pos))) == group_name(pos_class(pos)),
{
    reveal_strlit("CB");
    reveal_strlit("WB");
    reveal_strlit("CM");
    reveal_strlit("DM");
    reveal_strlit("CF");
    reveal_strlit("GK");
    reveal_strlit("LB");
    reveal_strlit("RB");
    reveal_strlit("LW");
    reveal_strlit("RW");
    reveal_strlit("AM");
    reveal_strlit("LM");
    reveal_strlit("RM");
    reveal_strlit("SS");
    lemma_mirror_substring(pos, "CB"@);
    lemma_mirror_substring(pos, "WB"@);
    lemma_mirror_substring(pos, "CM"@);
    lemma_mirror_substring(pos, "DM"@);
    lemma_mirror_substring(pos, "CF"@);
    let q = mirrored(pos);
    if pos.len() > 0 && (pos[0] == 'L' || pos[0] == 'R') {
        assert(q.len() == pos.len());
        assert(q[0] != pos[0]);
        assert(pos != "GK"@ && q != "GK"@);
        assert(pos != "AM"@ && q != "AM"@);
        assert(pos != "SS"@ && q != "SS"@);
        if pos.len() == 2 {
            assert(q[1] == pos[1]);
            lemma_two_chars(pos, "LB"@);
            lemma_two_chars(pos, "RB"@);
            lemma_two_chars(q, "LB"@);
            lemma_two_chars(q, "RB"@);
            lemma_two_chars(pos, "LW"@);
            lemma_two_chars(pos, "RW"@);
            lemma_two_chars(q, "LW"@);
            lemma_two_chars(q, "RW"@);
            lemma_two_chars(pos, "LM"@);
            lemma_two_chars(pos, "RM"@);
            lemma_two_chars(q, "LM"@);
            lemma_two_chars(q, "RM"@);
            assert(pos == "LB"@ || pos == "RB"@ <==> q == "LB"@ || q == "RB"@);
            assert(pos == "LW"@ || pos == "RW"@ <==> q == "LW"@ || q == "RW"@);
            assert(pos == "LM"@ || pos == "RM"@ <==> q == "LM"@ || q == "RM"@);
        } else {
            assert(pos != "LB"@ && pos != "RB"@ && q != "LB"@ && q != "RB"@);
            assert(pos != "LW"@ && pos != "RW"@ && q != "LW"@ && q != "RW"@);
            assert(pos != "LM"@ && pos != "RM"@ && q != "LM"@ && q != "RM"@);
        }
    }
}

/// "=" acts exactly as "+": both move the minute on one step (up to 120) and
/// scroll back to the top.
pub proof fn equals_key_advances_like_plus(minute: u32, scroll: usize)
    ensures
        after_key(minute, scroll, Key::Char('=')) == after_key(minute, scroll, Key::Char('+')),
        minute < LAST_MINUTE ==> after_key(minute, scroll, Key::Char('=')) == ((minute + 1) as u32, 0usize, KeyAction::Redraw),
        minute < LAST_MINUTE ==> after_key(minute, scroll, Key::Char('+')) == ((minute + 1) as u32, 0usize, KeyAction::Redraw),
{
}

/// Scrolling down then up returns to the same row.
pub proof fn scroll_down_undone_by_up(minute: u32, scroll: usize)
    requires
        scroll < usize::MAX,
    ensures
        ({
            let (m1, s1, _) = after_key(minute, scroll, Key::Down);
            let (m2, s2, _) = after_key(m1, s1, Key::Up);
            m2 == minute && s2 == scroll
        }),
{
}

/// Quit and reload keys work in either case.
pub proof fn letter_keys_ignore_case(minute: u32, scroll: usize)
    ensures
        after_key(minute, scroll, Key::Char('Q')) == after_key(minute, scroll, Key::Char('q')),
        after_key(minute, scroll, Key::Char('R')) == after_key(minute, scroll, Key::Char('r')),
        after_key(minute, scroll, Key::Char('q')).2 != after_key(minute, scroll, Key::Char('r')).2,
{
}

/// The baseline window stops growing at minute 90 (it covers at most the
/// first 45 minutes): from then on a player's baseline count is the same
/// whatever the minute.
pub proof fn baseline_stops_growing(evs: Seq<MatchEvent>, team: Seq<char>, name: Seq<char>, m1: u32, m2: u32)
    requires
        m1 >= 90,
        m2 >= 90,
    ensures
        count_filtered(evs, EventFilter::Baseline { minute: m1 }, team, name) == count_filtered(
            evs,
            EventFilter::Baseline { minute: m2 },
            team,
            name,
        ),
    decreases evs.len(),
{
    if evs.len() > 0 {
        baseline_stops_growing(evs.drop_last(), team, name, m1, m2);
    }
}

/// A player's baseline window is never longer than the match so far: the
/// baseline count at a minute never exceeds the actions up to that minute.
pub proof fn baseline_within_match_so_far(evs: Seq<MatchEvent>, team: Seq<char>, name: Seq<char>, m: u32)
    ensures
        count_filtered(evs, EventFilter::Baseline { minute: m }, team, name) <= count_filtered(
            evs,
            EventFilter::Active { minute: m },
            team,
            name,
        ),
        count_filtered(evs, EventFilter::Recent { minute: m }, team, name) <= count_filtered(
            evs,
            EventFilter::Active { minute: m },
            team,
            name,
        ),
    decreases evs.len(),
{
    if evs.len() > 0 {
        baseline_within_match_so_far(evs.drop_last(), team, name, m);
    }
}

} // verus!
