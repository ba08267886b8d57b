use subs::dashboard::{
    bar_cells, first_visible_row, name_column_width, player_cell, score_band, score_bar, App,
    Key, KeyAction, ScoreBand,
};
use subs::decay::Ratio;
use subs::ingest::{LineupPlayer, MatchState, TeamLineup};

fn lineup(name: &str) -> TeamLineup {
    TeamLineup {
        team_id: 1,
        team_name: name.to_string(),
        players: vec![LineupPlayer {
            player_id: 1,
            player_name: "Someone".to_string(),
            position: "Goalkeeper".to_string(),
            jersey_number: 1,
        }],
    }
}

fn state(home: &str, away: &str) -> MatchState {
    MatchState { home_lineup: lineup(home), away_lineup: lineup(away), events: Vec::new() }
}

fn app(team: &str, minute: u32) -> App {
    App::new(
        "data/open-data/data".to_string(),
        "69225".to_string(),
        team.to_string(),
        minute,
        false,
        state("Barcelona", "Real Madrid"),
    )
}

#[test]
fn new_app_starts_at_the_top() {
    let a = app("Barcelona", 60);
    assert_eq!(a.scroll, 0);
    assert_eq!(a.minute, 60);
    assert_eq!(a.match_id, "69225");
    assert_eq!(a.data_dir, "data/open-data/data");
    assert!(!a.verbose);
}

#[test]
fn opponent_and_team_found() {
    let home = app("barcelona", 60);
    assert!(home.team_found());
    assert_eq!(home.opponent(), "Real Madrid");
    let away = app("REAL MADRID", 60);
    assert!(away.team_found());
    assert_eq!(away.opponent(), "Barcelona");
    let neither = app("Sevilla", 60);
    assert!(!neither.team_found());
    assert_eq!(neither.opponent(), "Real Madrid");
}

#[test]
fn reload_replaces_the_match() {
    let mut a = app("Sevilla", 60);
    a.scroll = 3;
    a.reload(state("Sevilla", "Betis"));
    assert!(a.team_found());
    assert_eq!(a.opponent(), "Betis");
    assert_eq!(a.scroll, 3);
    assert_eq!(a.minute, 60);
}

#[test]
fn keys_move_the_minute_within_bounds() {
    let mut a = app("Barcelona", 119);
    a.scroll = 4;
    assert_eq!(a.handle_key(Key::Char('+')), KeyAction::Redraw);
    assert_eq!((a.minute, a.scroll), (120, 0));
    a.scroll = 2;
    assert_eq!(a.handle_key(Key::Char('=')), KeyAction::Redraw);
    assert_eq!((a.minute, a.scroll), (120, 2));
    assert_eq!(a.handle_key(Key::Char('-')), KeyAction::Redraw);
    assert_eq!((a.minute, a.scroll), (119, 0));
    let mut b = app("Barcelona", 1);
    b.scroll = 5;
    assert_eq!(b.handle_key(Key::Char('-')), KeyAction::Redraw);
    assert_eq!((b.minute, b.scroll), (1, 5));
}

#[test]
fn keys_scroll_quit_and_reload() {
    let mut a = app("Barcelona", 60);
    assert_eq!(a.handle_key(Key::Up), KeyAction::Redraw);
    assert_eq!(a.scroll, 0);
    assert_eq!(a.handle_key(Key::Down), KeyAction::Redraw);
    assert_eq!(a.handle_key(Key::Down), KeyAction::Redraw);
    assert_eq!(a.scroll, 2);
    assert_eq!(a.handle_key(Key::Up), KeyAction::Redraw);
    assert_eq!(a.scroll, 1);
    assert_eq!(a.handle_key(Key::Char('q')), KeyAction::Quit);
    assert_eq!(a.handle_key(Key::Char('Q')), KeyAction::Quit);
    assert_eq!(a.handle_key(Key::Char('r')), KeyAction::Reload);
    assert_eq!(a.handle_key(Key::Char('R')), KeyAction::Reload);
    assert_eq!(a.handle_key(Key::Char('x')), KeyAction::Redraw);
    assert_eq!(a.handle_key(Key::Other), KeyAction::Redraw);
    assert_eq!((a.minute, a.scroll), (60, 1));
}

#[test]
fn table_layout() {
    assert_eq!(first_visible_row(0, 10), 0);
    assert_eq!(first_visible_row(4, 10), 4);
    assert_eq!(first_visible_row(40, 10), 9);
    assert_eq!(first_visible_row(3, 0), 0);
    assert_eq!(name_column_width(40), 24);
    assert_eq!(name_column_width(25), 9);
    assert_eq!(name_column_width(24), 8);
    assert_eq!(name_column_width(10), 8);
    assert_eq!(name_column_width(0), 8);
}

#[test]
fn player_cells() {
    assert_eq!(player_cell("Sergio Busquets Burgos", false, 22), "Sergio Busquets Burgos");
    assert_eq!(player_cell("Sergio Busquets Burgos", true, 22), "Sergio Busquets Bur… *");
    assert_eq!(player_cell("Sergio Busquets Burgos", false, 10), "Sergio Bu…");
    assert_eq!(player_cell("Pique", true, 22), "Pique *");
    assert_eq!(player_cell("Pique", true, 1), "… *");
}

#[test]
fn decay_bars_and_bands() {
    assert_eq!(bar_cells(Ratio { num: 0, den: 1 }), 0);
    assert_eq!(bar_cells(Ratio { num: 1, den: 8 }), 1);
    assert_eq!(bar_cells(Ratio { num: 3, den: 8 }), 2);
    assert_eq!(bar_cells(Ratio { num: 180, den: 300 }), 3);
    assert_eq!(bar_cells(Ratio { num: 150, den: 150 }), 5);
    assert_eq!(bar_cells(Ratio { num: 7, den: 1 }), 5);
    assert_eq!(score_bar(Ratio { num: 180, den: 300 }), "███░░");
    assert_eq!(score_bar(Ratio { num: 0, den: 5 }), "░░░░░");
    assert_eq!(score_bar(Ratio { num: 1, den: 1 }), "█████");
    assert_eq!(score_band(Ratio { num: 61, den: 100 }), ScoreBand::High);
    assert_eq!(score_band(Ratio { num: 180, den: 300 }), ScoreBand::Medium);
    assert_eq!(score_band(Ratio { num: 1, den: 4 }), ScoreBand::Medium);
    assert_eq!(score_band(Ratio { num: 24, den: 100 }), ScoreBand::Low);
}

#[test]
fn bars_of_the_readme_dashboard() {
    assert_eq!(score_bar(Ratio { num: 75, den: 100 }), "████░");
    assert_eq!(score_bar(Ratio { num: 61, den: 100 }), "███░░");
    assert_eq!(score_bar(Ratio { num: 44, den: 100 }), "██░░░");
}
