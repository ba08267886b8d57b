use subs::decay::{
    abbrev_position, compute_decay, count_events, find_lineup, is_active_type, ratio_greater,
    DecayScore, EventFilter, Ratio,
};
use subs::ingest::{LineupPlayer, MatchEvent, MatchState, TeamLineup};

fn ev(team: &str, player: Option<&str>, kind: &str, minute: u32) -> MatchEvent {
    MatchEvent {
        id: format!("{}-{}", kind, minute),
        index: 0,
        period: if minute < 45 { 1 } else { 2 },
        timestamp: "00:00:00.000".to_string(),
        minute,
        second: 0,
        event_type: kind.to_string(),
        player_name: player.map(|p| p.to_string()),
        team_name: team.to_string(),
        under_pressure: None,
        substitution_player_on: None,
        duel_outcome: None,
    }
}

fn player(id: u32, name: &str, position: &str) -> LineupPlayer {
    LineupPlayer { player_id: id, player_name: name.to_string(), position: position.to_string(), jersey_number: id as u8 }
}

fn lineup(name: &str, players: Vec<LineupPlayer>) -> TeamLineup {
    TeamLineup { team_id: 1, team_name: name.to_string(), players }
}

/// Busquets: 10 baseline and 2 recent passes; Messi: 5 baseline carries and
/// nothing recent; Pique: 3 baseline and 6 recent passes.
fn state() -> MatchState {
    let mut events = Vec::new();
    for m in 0..10 {
        events.push(ev("Barcelona", Some("Busquets"), "Pass", m));
    }
    events.push(ev("Barcelona", Some("Busquets"), "Pass", 50));
    events.push(ev("Barcelona", Some("Busquets"), "Pass", 55));
    events.push(ev("Barcelona", Some("Busquets"), "Foul Committed", 52));
    events.push(ev("Real Madrid", Some("Busquets"), "Pass", 53));
    for _ in 0..5 {
        events.push(ev("Barcelona", Some("Messi"), "Carry", 10));
    }
    for _ in 0..3 {
        events.push(ev("Barcelona", Some("Pique"), "Pass", 20));
    }
    for _ in 0..6 {
        events.push(ev("BARCELONA", Some("Pique"), "Ball Receipt*", 50));
    }
    events.push(ev("Barcelona", None, "Half Start", 0));
    MatchState {
        home_lineup: lineup(
            "Barcelona",
            vec![
                player(1, "Busquets", "Center Defensive Midfield"),
                player(2, "Messi", "Right Wing"),
                player(3, "Pique", "Right Center Back"),
                player(4, "Alena", "Center Midfield"),
            ],
        ),
        away_lineup: lineup("Real Madrid", vec![player(9, "Ramos", "Center Back")]),
        events,
    }
}

fn score_value(d: &DecayScore) -> f64 {
    d.score.num as f64 / d.score.den as f64
}

#[test]
fn abbreviations_of_positions() {
    let cases = [
        ("Goalkeeper", "GK"),
        ("Right Back", "RB"),
        ("Left Back", "LB"),
        ("Center Back", "CB"),
        ("Right Center Back", "RCB"),
        ("Left Center Back", "LCB"),
        ("Right Wing Back", "RWB"),
        ("Left Wing Back", "LWB"),
        ("Defensive Midfield", "DM"),
        ("Right Defensive Midfield", "RDM"),
        ("Left Defensive Midfield", "LDM"),
        ("Center Midfield", "CM"),
        ("Right Center Midfield", "RCM"),
        ("Left Center Midfield", "LCM"),
        ("Attacking Midfield", "AM"),
        ("Right Midfield", "RM"),
        ("Left Midfield", "LM"),
        ("Right Wing", "RW"),
        ("Left Wing", "LW"),
        ("Center Forward", "CF"),
        ("Right Center Forward", "RCF"),
        ("Left Center Forward", "LCF"),
        ("Secondary Striker", "SS"),
        ("Center Defensive Midfield", "CDM"),
    ];
    for (full, short) in cases {
        assert_eq!(abbrev_position(full), short);
    }
    assert_eq!(abbrev_position("Unknown"), "Unknown");
    assert_eq!(abbrev_position("goalkeeper"), "goalkeeper");
    assert_eq!(abbrev_position(""), "");
}

#[test]
fn active_event_types() {
    for t in ["Pass", "Carry", "Pressure", "Duel", "Ball Receipt*", "Interception", "Shot", "Dribble"] {
        assert!(is_active_type(t));
    }
    assert!(!is_active_type("Ball Receipt"));
    assert!(!is_active_type("Substitution"));
    assert!(!is_active_type("pass"));
}

#[test]
fn find_lineup_prefers_home_and_ignores_case() {
    let s = state();
    assert_eq!(find_lineup(&s, "barcelona").unwrap().team_name, "Barcelona");
    assert_eq!(find_lineup(&s, "REAL MADRID").unwrap().team_name, "Real Madrid");
    assert!(find_lineup(&s, "Sevilla").is_none());
    let mut same = state();
    same.away_lineup.team_name = "Barcelona".to_string();
    same.away_lineup.team_id = 2;
    assert_eq!(find_lineup(&same, "Barcelona").unwrap().team_id, 1);
}

#[test]
fn event_counts_per_window() {
    let s = state();
    assert_eq!(count_events(&s.events, EventFilter::Baseline { minute: 60 }, "Barcelona", "Busquets"), 10);
    assert_eq!(count_events(&s.events, EventFilter::Recent { minute: 60 }, "Barcelona", "Busquets"), 2);
    assert_eq!(count_events(&s.events, EventFilter::Active { minute: 60 }, "barcelona", "Busquets"), 12);
    assert_eq!(count_events(&s.events, EventFilter::Baseline { minute: 18 }, "Barcelona", "Busquets"), 10);
    assert_eq!(count_events(&s.events, EventFilter::Baseline { minute: 17 }, "Barcelona", "Busquets"), 9);
    assert_eq!(count_events(&s.events, EventFilter::Recent { minute: 60 }, "Barcelona", "Pique"), 6);
    assert_eq!(count_events(&s.events, EventFilter::Recent { minute: 66 }, "Barcelona", "Pique"), 0);
    assert_eq!(count_events(&s.events, EventFilter::Pressure { minute: 90 }, "Barcelona", "Pique"), 0);
}

#[test]
fn compute_decay_orders_highest_first() {
    let s = state();
    let scores = compute_decay(&s, "barcelona", 60);
    let names: Vec<&str> = scores.iter().map(|d| d.player_name.as_str()).collect();
    assert_eq!(names, vec!["Messi", "Busquets", "Pique", "Alena"]);

    let messi = &scores[0];
    assert_eq!(messi.position, "RW");
    assert_eq!(messi.baseline_actions, 5);
    assert_eq!(messi.recent_actions, 0);
    assert_eq!(messi.baseline_halves, 60);
    assert_eq!(messi.recent_minutes, 15);
    assert_eq!(messi.score, Ratio { num: 150, den: 150 });
    assert_eq!(score_value(messi), 1.0);

    let busquets = &scores[1];
    assert_eq!(busquets.position, "CDM");
    assert_eq!(busquets.baseline_actions, 10);
    assert_eq!(busquets.recent_actions, 2);
    assert_eq!(busquets.score, Ratio { num: 180, den: 300 });
    assert!((score_value(busquets) - 0.6).abs() < 1e-12);
    assert_eq!(busquets.baseline_apm(), Ratio { num: 20, den: 60 });
    assert_eq!(busquets.recent_apm(), Ratio { num: 2, den: 15 });

    assert_eq!(scores[2].score, Ratio { num: 0, den: 1 });
    assert_eq!(scores[3].score, Ratio { num: 0, den: 1 });
    assert_eq!(scores[3].position, "CM");
}

#[test]
fn compute_decay_for_missing_team_is_empty() {
    let s = state();
    assert!(compute_decay(&s, "Sevilla", 60).is_empty());
}

#[test]
fn decay_windows_early_and_late() {
    let s = state();
    // At minute 0 the baseline window is empty: every score is 0.
    let at_start = compute_decay(&s, "Barcelona", 0);
    assert!(at_start.iter().all(|d| d.score.num == 0 && d.baseline_halves == 0 && d.recent_minutes == 1));
    // At minute 120 the baseline window is capped at 45 minutes.
    let late = compute_decay(&s, "Barcelona", 120);
    assert!(late.iter().all(|d| d.baseline_halves == 90 && d.recent_minutes == 15));
    let busquets = late.iter().find(|d| d.player_name == "Busquets").unwrap();
    assert_eq!(busquets.baseline_actions, 10);
    assert_eq!(busquets.recent_actions, 0);
    assert_eq!(busquets.score, Ratio { num: 300, den: 300 });
    // At minute 10 the recent window is the whole match so far.
    let early = compute_decay(&s, "Barcelona", 10);
    let busquets = early.iter().find(|d| d.player_name == "Busquets").unwrap();
    assert_eq!(busquets.recent_minutes, 10);
    assert_eq!(busquets.baseline_halves, 10);
    assert_eq!(busquets.baseline_actions, 6);
    assert_eq!(busquets.recent_actions, 10);
    assert_eq!(busquets.score, Ratio { num: 20, den: 120 });
}

#[test]
fn equal_scores_keep_lineup_order() {
    let mut s = state();
    s.events.clear();
    let scores = compute_decay(&s, "Barcelona", 60);
    let names: Vec<&str> = scores.iter().map(|d| d.player_name.as_str()).collect();
    assert_eq!(names, vec!["Busquets", "Messi", "Pique", "Alena"]);
}

#[test]
fn ratio_comparison() {
    assert!(ratio_greater(Ratio { num: 1, den: 2 }, Ratio { num: 1, den: 3 }));
    assert!(!ratio_greater(Ratio { num: 2, den: 4 }, Ratio { num: 1, den: 2 }));
    assert!(ratio_greater(Ratio { num: u64::MAX, den: 1 }, Ratio { num: u64::MAX - 1, den: 1 }));
}
