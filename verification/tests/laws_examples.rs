use subs::dashboard::{App, Key};
use subs::decay::{abbrev_position, compute_decay, ratio_greater, Ratio};
use subs::ingest::{IdxPlayer, IdxTeam, LineupPlayer, MatchEvent, MatchState, PositionIndex, RawPosition, TeamLineup};
use subs::matcher::{pos_group, problem_for_pos, problem_group, recommend};
use subs::text::fit_name;

fn ev(team: &str, player: &str, kind: &str, minute: u32) -> MatchEvent {
    MatchEvent {
        id: String::new(),
        index: 0,
        period: 1,
        timestamp: String::new(),
        minute,
        second: 0,
        event_type: kind.to_string(),
        player_name: Some(player.to_string()),
        team_name: team.to_string(),
        under_pressure: None,
        substitution_player_on: None,
        duel_outcome: None,
    }
}

fn player(name: &str, position: &str) -> LineupPlayer {
    LineupPlayer { player_id: 0, player_name: name.to_string(), position: position.to_string(), jersey_number: 0 }
}

/// Players with 12 baseline actions and 0 to 11 recent ones.
fn squad() -> MatchState {
    let positions = [
        "Goalkeeper", "Right Back", "Center Back", "Left Back", "Center Defensive Midfield",
        "Right Center Midfield", "Left Center Midfield", "Right Wing", "Left Wing",
        "Center Forward", "Secondary Striker", "Attacking Midfield",
    ];
    let mut players = Vec::new();
    let mut events = Vec::new();
    for (i, pos) in positions.iter().enumerate() {
        let name = format!("P{}", i);
        players.push(player(&name, pos));
        for _ in 0..12 {
            events.push(ev("Barcelona", &name, "Pass", 10));
        }
        for _ in 0..((i * 7) % 12) {
            events.push(ev("Barcelona", &name, "Pass", 70));
        }
    }
    players.push(player("Bench", "Center Midfield"));
    MatchState {
        home_lineup: TeamLineup { team_id: 1, team_name: "Barcelona".to_string(), players },
        away_lineup: TeamLineup { team_id: 2, team_name: "Real Madrid".to_string(), players: Vec::new() },
        events,
    }
}

#[test]
fn decay_table_runs_from_highest_down_and_lists_every_player() {
    let s = squad();
    let scores = compute_decay(&s, "Barcelona", 80);
    assert_eq!(scores.len(), s.home_lineup.players.len());
    for w in scores.windows(2) {
        assert!(!ratio_greater(w[1].score, w[0].score));
    }
    for p in &s.home_lineup.players {
        assert_eq!(scores.iter().filter(|d| d.player_name == p.player_name).count(), 1);
    }
}

#[test]
fn decay_scores_lie_between_zero_and_one() {
    let s = squad();
    for minute in [0, 1, 14, 15, 45, 80, 90, 120] {
        for d in compute_decay(&s, "Barcelona", minute) {
            assert!(d.score.den > 0);
            assert!(d.score.num <= d.score.den);
        }
    }
}

#[test]
fn recommendation_comes_exactly_with_a_tired_player_on_the_pitch() {
    let s = squad();
    let scores = compute_decay(&s, "Barcelona", 80);
    let tired = scores.iter().any(|d| d.player_name != "Bench" && 4 * d.score.num > d.score.den);
    assert!(tired);
    assert!(recommend(&s, "Barcelona", &scores, 80).is_some());
    let fresh: Vec<_> = compute_decay(&s, "Barcelona", 80)
        .into_iter()
        .filter(|d| 4 * d.score.num <= d.score.den)
        .collect();
    assert!(recommend(&s, "Barcelona", &fresh, 80).is_none());
}

#[test]
fn take_off_and_bring_on_lists_are_consistent() {
    let s = squad();
    let scores = compute_decay(&s, "Barcelona", 80);
    let rec = recommend(&s, "Barcelona", &scores, 80).unwrap();
    assert!(!rec.take_off.is_empty() && rec.take_off.len() <= 2);
    for (name, _, score) in &rec.take_off {
        assert!(4 * score.num > score.den);
        assert!(name != "Bench");
        assert!(rec.bring_on.iter().all(|c| &c.player_name != name));
    }
    assert_eq!(rec.bring_on.len(), 1);
    assert_eq!(rec.bring_on[0].player_name, "Bench");
    for w in rec.bring_on.windows(2) {
        assert!(w[0].fit_score >= w[1].fit_score);
    }
    assert!(rec.bring_on.iter().all(|c| c.fit_score <= 3));
}

#[test]
fn tactical_problem_is_the_most_frequent_one() {
    let s = squad();
    let scores = compute_decay(&s, "Barcelona", 80);
    let rec = recommend(&s, "Barcelona", &scores, 80).unwrap();
    let tired: Vec<&str> = scores
        .iter()
        .filter(|d| 4 * d.score.num > d.score.den)
        .take(3)
        .map(|d| problem_for_pos(&d.position))
        .collect();
    let count = |p: &str| tired.iter().filter(|q| **q == p).count();
    assert!(tired.contains(&rec.tactical_problem.as_str()));
    for p in &tired {
        assert!(count(p) <= count(&rec.tactical_problem));
    }
}

#[test]
fn problem_of_a_position_calls_for_its_family() {
    for pos in ["GK", "RCB", "RB", "LWB", "CM", "CDM", "LDM", "AM", "RW", "LM", "CF", "SS", "Unknown", "XYZ"] {
        assert_eq!(problem_group(problem_for_pos(pos)), pos_group(pos));
    }
}

#[test]
fn abbreviating_twice_changes_nothing() {
    for pos in ["Goalkeeper", "Right Center Back", "Left Wing Back", "Center Defensive Midfield", "Secondary Striker", "Unknown", "CB", "GK"] {
        let once = abbrev_position(pos);
        assert_eq!(abbrev_position(once), once);
    }
}

#[test]
fn minute_stays_between_one_and_one_hundred_twenty() {
    let keys = [Key::Char('+'), Key::Char('='), Key::Char('-'), Key::Char('q'), Key::Char('r'), Key::Up, Key::Down, Key::Other];
    for start in [1, 2, 60, 119, 120] {
        for key in keys {
            let mut a = App::new(String::new(), String::new(), "Barcelona".to_string(), start, false, squad());
            a.handle_key(key);
            assert!(a.minute >= 1 && a.minute <= 120);
        }
    }
}

#[test]
fn minute_step_forward_then_back_returns() {
    for start in [1, 45, 119] {
        let mut a = App::new(String::new(), String::new(), "Barcelona".to_string(), start, false, squad());
        a.scroll = 7;
        a.handle_key(Key::Char('+'));
        a.handle_key(Key::Char('-'));
        assert_eq!((a.minute, a.scroll), (start, 0));
    }
}

#[test]
fn quit_and_reload_keep_the_view() {
    for c in ['q', 'Q', 'r', 'R'] {
        let mut a = App::new(String::new(), String::new(), "Barcelona".to_string(), 33, false, squad());
        a.scroll = 2;
        a.handle_key(Key::Char(c));
        assert_eq!((a.minute, a.scroll), (33, 2));
    }
}

#[test]
fn fitted_names_fit_their_cell() {
    for width in 1..30 {
        for name in ["Sergio Busquets Burgos", "Messi", "Carles Aleñá", ""] {
            let cell = fit_name(name, width);
            assert!(cell.chars().count() <= width);
            if name.chars().count() <= width {
                assert_eq!(cell, name);
            }
        }
    }
}

#[test]
fn zero_and_one_at_the_ends_of_the_scale() {
    let mut events = Vec::new();
    for _ in 0..4 {
        events.push(ev("Barcelona", "Fresh", "Pass", 5));
        events.push(ev("Barcelona", "Tired", "Pass", 5));
    }
    for _ in 0..9 {
        events.push(ev("Barcelona", "Fresh", "Pass", 55));
    }
    let s = MatchState {
        home_lineup: TeamLineup {
            team_id: 1,
            team_name: "Barcelona".to_string(),
            players: vec![player("Fresh", "Center Midfield"), player("Tired", "Center Midfield")],
        },
        away_lineup: TeamLineup { team_id: 2, team_name: "Real Madrid".to_string(), players: Vec::new() },
        events,
    };
    let scores = compute_decay(&s, "Barcelona", 60);
    assert_eq!(scores[0].player_name, "Tired");
    assert_eq!(scores[0].score.num, scores[0].score.den);
    assert_eq!(scores[1].score, Ratio { num: 0, den: 1 });
}

fn views(scores: &[subs::decay::DecayScore]) -> Vec<(String, String, u32, u32, Ratio)> {
    scores
        .iter()
        .map(|d| (d.player_name.clone(), d.position.clone(), d.baseline_actions, d.recent_actions, d.score))
        .collect()
}

#[test]
fn team_name_case_gives_the_same_results() {
    let s = squad();
    let a = compute_decay(&s, "Barcelona", 80);
    let b = compute_decay(&s, "bARCELONA", 80);
    assert_eq!(views(&a), views(&b));
    let ra = recommend(&s, "Barcelona", &a, 80).unwrap();
    let rb = recommend(&s, "BARCELONA", &a, 80).unwrap();
    assert_eq!(ra.tactical_problem, rb.tactical_problem);
    assert_eq!(ra.take_off, rb.take_off);
    let ca: Vec<(String, u32)> = ra.bring_on.iter().map(|c| (c.player_name.clone(), c.fit_score)).collect();
    let cb: Vec<(String, u32)> = rb.bring_on.iter().map(|c| (c.player_name.clone(), c.fit_score)).collect();
    assert_eq!(ca, cb);
}

#[test]
fn irrelevant_events_leave_the_decay_table_alone() {
    let s = squad();
    let before = compute_decay(&s, "Barcelona", 80);
    let mut noisy = squad();
    noisy.events.insert(0, ev("Real Madrid", "P1", "Pass", 70));
    noisy.events.insert(5, ev("Barcelona", "P1", "Foul Committed", 70));
    let mut anonymous = ev("Barcelona", "P1", "Pass", 70);
    anonymous.player_name = None;
    noisy.events.push(anonymous);
    let after = compute_decay(&noisy, "barcelona", 80);
    assert_eq!(views(&before), views(&after));
}

#[test]
fn any_key_sequence_keeps_the_minute_in_range() {
    let keys = [Key::Char('+'), Key::Char('-'), Key::Down, Key::Char('='), Key::Up, Key::Char('+'), Key::Char('-'), Key::Char('-')];
    for start in [1, 2, 119, 120] {
        let mut a = App::new(String::new(), String::new(), "Barcelona".to_string(), start, false, squad());
        for round in 0..40 {
            let before = a.minute;
            a.handle_key(keys[(round * 3 + start as usize) % keys.len()]);
            assert!(a.minute >= 1 && a.minute <= 120);
            assert!(a.minute + 1 >= before && a.minute <= before + 1);
        }
    }
}

#[test]
fn covering_index_has_every_unknown() {
    let unknowns = vec!["Aleñá".to_string(), "Isco".to_string()];
    let pos = |p: &str| vec![RawPosition { position: p.to_string() }];
    let mut index = PositionIndex::new();
    index.record_positions(
        &unknowns,
        &vec![IdxTeam {
            lineup: vec![
                IdxPlayer { player_name: "Messi".to_string(), positions: pos("Right Wing") },
                IdxPlayer { player_name: "Isco".to_string(), positions: pos("Attacking Midfield") },
                IdxPlayer { player_name: "Aleñá".to_string(), positions: pos("Center Midfield") },
            ],
        }],
    );
    assert!(index.covers(&unknowns));
    for name in &unknowns {
        assert!(index.get(name).is_some());
    }
    assert!(index.get("Messi").is_none());
}
