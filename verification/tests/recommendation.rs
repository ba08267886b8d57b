use subs::decay::{compute_decay, Ratio};
use subs::ingest::{LineupPlayer, MatchEvent, MatchState, TeamLineup};
use subs::matcher::{
    event_names, pos_group, problem_for_pos, problem_group, recommend, subbed_off_players,
    NameSource,
};

fn ev(team: &str, player: Option<&str>, kind: &str, minute: u32) -> MatchEvent {
    MatchEvent {
        id: format!("{}-{}", kind, minute),
        index: 0,
        period: if minute < 45 { 1 } else { 2 },
        timestamp: "00:00:00.000".to_string(),
        minute,
        second: 0,
        event_type: kind.to_string(),
        player_name: player.map(|p| p.to_string()),
        team_name: team.to_string(),
        under_pressure: None,
        substitution_player_on: None,
        duel_outcome: None,
    }
}

fn player(id: u32, name: &str, position: &str) -> LineupPlayer {
    LineupPlayer { player_id: id, player_name: name.to_string(), position: position.to_string(), jersey_number: id as u8 }
}

fn lineup(name: &str, players: Vec<LineupPlayer>) -> TeamLineup {
    TeamLineup { team_id: 1, team_name: name.to_string(), players }
}

fn clasico() -> MatchState {
    let mut events = Vec::new();
    for m in 0..10 {
        events.push(ev("Barcelona", Some("Busquets"), "Pass", m));
    }
    events.push(ev("Barcelona", Some("Busquets"), "Pass", 50));
    events.push(ev("Barcelona", Some("Busquets"), "Pass", 55));
    for _ in 0..5 {
        events.push(ev("Barcelona", Some("Messi"), "Carry", 10));
    }
    for _ in 0..3 {
        events.push(ev("Barcelona", Some("Pique"), "Pass", 20));
    }
    for _ in 0..6 {
        events.push(ev("Barcelona", Some("Pique"), "Pass", 50));
    }
    let mut sub = ev("Barcelona", Some("Pique"), "Substitution", 58);
    sub.substitution_player_on = Some("Vidal".to_string());
    events.push(sub);
    events.push(ev("Barcelona", Some("Coutinho"), "Pass", 70));
    events.push(ev("Barcelona", Some("Rafinha"), "Pass", 60));
    let mut duel = ev("Barcelona", Some("Rafinha"), "Duel", 60);
    duel.duel_outcome = Some("Won".to_string());
    events.push(duel);
    let mut lost = ev("Barcelona", Some("Rafinha"), "Duel", 60);
    lost.duel_outcome = Some("Lost In Play".to_string());
    events.push(lost);
    events.push(ev("Barcelona", Some("Rafinha"), "Pressure", 60));
    events.push(ev("Real Madrid", Some("Ramos"), "Pass", 30));
    events.push(ev("Real Madrid", Some("Ramos"), "Pass", 50));
    MatchState {
        home_lineup: lineup(
            "Barcelona",
            vec![
                player(1, "Busquets", "Center Defensive Midfield"),
                player(2, "Messi", "Right Wing"),
                player(3, "Pique", "Right Center Back"),
                player(4, "Alena", "Center Midfield"),
                player(5, "Vidal", "Unknown"),
                player(6, "Dembele", "Left Wing"),
                player(7, "Coutinho", "Attacking Midfield"),
                player(8, "Rafinha", "Right Midfield"),
            ],
        ),
        away_lineup: lineup("Real Madrid", vec![player(9, "Ramos", "Center Back")]),
        events,
    }
}

#[test]
fn problems_and_groups_of_positions() {
    let cases = [
        ("GK", "Defensive stability weakening", "def_central"),
        ("CB", "Defensive stability weakening", "def_central"),
        ("LCB", "Defensive stability weakening", "def_central"),
        ("RB", "Flank coverage dropping", "def_flank"),
        ("LWB", "Flank coverage dropping", "def_flank"),
        ("CM", "Midfield press collapsing", "mid"),
        ("CDM", "Midfield press collapsing", "mid"),
        ("RDM", "Midfield press collapsing", "mid"),
        ("AM", "Attacking width lost", "att_wide"),
        ("LW", "Attacking width lost", "att_wide"),
        ("RM", "Attacking width lost", "att_wide"),
        ("CF", "Striker pressing fading", "att_central"),
        ("LCF", "Striker pressing fading", "att_central"),
        ("SS", "Striker pressing fading", "att_central"),
        ("Unknown", "General fatigue", "unknown"),
        ("", "General fatigue", "unknown"),
    ];
    for (pos, problem, group) in cases {
        assert_eq!(problem_for_pos(pos), problem);
        assert_eq!(pos_group(pos), group);
    }
    assert_eq!(problem_group("Defensive stability weakening"), "def_central");
    assert_eq!(problem_group("Flank coverage dropping"), "def_flank");
    assert_eq!(problem_group("Midfield press collapsing"), "mid");
    assert_eq!(problem_group("Attacking width lost"), "att_wide");
    assert_eq!(problem_group("Striker pressing fading"), "att_central");
    assert_eq!(problem_group("General fatigue"), "unknown");
    assert_eq!(problem_group("anything else"), "unknown");
}

#[test]
fn names_taken_from_events() {
    let s = clasico();
    let active = event_names(&s.events, NameSource::ActiveBefore, "barcelona", 60);
    for name in ["Busquets", "Messi", "Pique"] {
        assert!(active.iter().any(|n| n == name));
    }
    assert!(!active.iter().any(|n| n == "Rafinha" || n == "Coutinho" || n == "Ramos"));
    let on = event_names(&s.events, NameSource::CameOn, "Barcelona", 60);
    assert_eq!(on, vec!["Vidal".to_string()]);
    assert!(event_names(&s.events, NameSource::CameOn, "Barcelona", 57).is_empty());
    let off = subbed_off_players(&s, "Barcelona", 58);
    assert_eq!(off, vec!["Pique".to_string()]);
    assert!(subbed_off_players(&s, "Real Madrid", 90).is_empty());
}

#[test]
fn recommendation_for_the_clasico() {
    let s = clasico();
    let scores = compute_decay(&s, "Barcelona", 60);
    let names: Vec<&str> = scores.iter().map(|d| d.player_name.as_str()).collect();
    assert_eq!(
        names,
        vec!["Messi", "Busquets", "Pique", "Alena", "Vidal", "Dembele", "Coutinho", "Rafinha"]
    );
    let rec = recommend(&s, "Barcelona", &scores, 60).unwrap();
    assert_eq!(rec.tactical_problem, "Attacking width lost");
    assert_eq!(
        rec.take_off,
        vec![
            ("Messi".to_string(), "RW".to_string(), Ratio { num: 150, den: 150 }),
            ("Busquets".to_string(), "CDM".to_string(), Ratio { num: 180, den: 300 }),
        ]
    );
    let order: Vec<(&str, &str, u32)> = rec
        .bring_on
        .iter()
        .map(|c| (c.player_name.as_str(), c.position.as_str(), c.fit_score))
        .collect();
    assert_eq!(
        order,
        vec![("Rafinha", "RM", 3), ("Dembele", "LW", 2), ("Coutinho", "AM", 2), ("Alena", "CM", 0)]
    );
    let rafinha = &rec.bring_on[0];
    assert_eq!(rafinha.total_actions, 4);
    assert_eq!(rafinha.press_count, 1);
    assert_eq!(rafinha.duel_won_count, 1);
    assert_eq!(rec.bring_on[2].total_actions, 0);
}

#[test]
fn no_recommendation_without_team_or_tiredness() {
    let s = clasico();
    let scores = compute_decay(&s, "Barcelona", 60);
    assert!(recommend(&s, "Sevilla", &scores, 60).is_none());
    // Real Madrid's only player has no recent drop worth a substitution.
    let rm = compute_decay(&s, "Real Madrid", 60);
    assert!(recommend(&s, "Real Madrid", &rm, 60).is_none());
    // Decay scores of players who are not on the pitch do not count.
    assert!(recommend(&s, "Barcelona", &scores[2..4], 60).is_none());
    assert!(recommend(&s, "Barcelona", &[], 60).is_none());
}

#[test]
fn most_frequent_problem_wins() {
    let mut events = Vec::new();
    for name in ["Busquets", "Rakitic", "Messi"] {
        for _ in 0..10 {
            events.push(ev("Barcelona", Some(name), "Pass", 5));
        }
    }
    let s = MatchState {
        home_lineup: lineup(
            "Barcelona",
            vec![
                player(1, "Messi", "Right Wing"),
                player(2, "Busquets", "Center Defensive Midfield"),
                player(3, "Rakitic", "Right Center Midfield"),
                player(4, "Dembele", "Left Wing"),
                player(5, "Arthur", "Left Center Midfield"),
            ],
        ),
        away_lineup: lineup("Real Madrid", vec![]),
        events,
    };
    let scores = compute_decay(&s, "Barcelona", 60);
    let rec = recommend(&s, "Barcelona", &scores, 60).unwrap();
    assert_eq!(rec.tactical_problem, "Midfield press collapsing");
    assert_eq!(rec.take_off.len(), 2);
    assert_eq!(rec.take_off[0].0, "Messi");
    assert_eq!(rec.take_off[1].0, "Busquets");
    let order: Vec<(&str, u32)> = rec.bring_on.iter().map(|c| (c.player_name.as_str(), c.fit_score)).collect();
    assert_eq!(order, vec![("Arthur", 2), ("Dembele", 0)]);
}

#[test]
fn alarm_starts_above_a_quarter() {
    // Baseline 8 passes in 30 minutes against `recent` passes in the last 15:
    // 3 recent passes give a decay of exactly 0.25, 2 give 0.5.
    let build = |recent: u32| {
        let mut events = Vec::new();
        for _ in 0..8 {
            events.push(ev("Barcelona", Some("Busquets"), "Pass", 10));
        }
        for _ in 0..recent {
            events.push(ev("Barcelona", Some("Busquets"), "Pass", 50));
        }
        MatchState {
            home_lineup: lineup("Barcelona", vec![player(1, "Busquets", "Center Defensive Midfield")]),
            away_lineup: lineup("Real Madrid", vec![]),
            events,
        }
    };
    let quarter = build(3);
    let scores = compute_decay(&quarter, "Barcelona", 60);
    assert_eq!(scores[0].score, Ratio { num: 60, den: 240 });
    assert!(recommend(&quarter, "Barcelona", &scores, 60).is_none());
    let half = build(2);
    let scores = compute_decay(&half, "Barcelona", 60);
    assert_eq!(scores[0].score, Ratio { num: 120, den: 240 });
    let rec = recommend(&half, "Barcelona", &scores, 60).unwrap();
    assert_eq!(rec.tactical_problem, "Midfield press collapsing");
    assert!(rec.bring_on.is_empty());
}

#[test]
fn a_decay_of_one_third_calls_for_a_substitution() {
    // 9 baseline carries in 30 minutes, 3 in the last 15: 1 - 0.2 / 0.3 = 1/3.
    let mut events = Vec::new();
    for _ in 0..9 {
        events.push(ev("Barcelona", Some("Messi"), "Carry", 3));
    }
    for _ in 0..3 {
        events.push(ev("Barcelona", Some("Messi"), "Carry", 47));
    }
    let s = MatchState {
        home_lineup: lineup("Barcelona", vec![player(1, "Messi", "Right Wing")]),
        away_lineup: lineup("Real Madrid", vec![]),
        events,
    };
    let scores = compute_decay(&s, "Barcelona", 60);
    assert_eq!(scores[0].score, Ratio { num: 90, den: 270 });
    let rec = recommend(&s, "Barcelona", &scores, 60).unwrap();
    assert_eq!(rec.take_off[0].0, "Messi");
    assert_eq!(rec.tactical_problem, "Attacking width lost");
}
