//! The live dashboard's state and decisions: what a key press does, and how
//! the decay table and its cells are laid out.

use vstd::prelude::*;
use crate::decay::{lineup_for, Ratio};
use crate::ingest::MatchState;
use crate::text::{fit_name, fitted_name, same_text_ignoring_case};

verus! {

/// A key press, as far as the dashboard tells keys apart.
#[derive(Clone, Copy, Debug, PartialEq, Eq, Structural)]
pub enum Key {
    Char(char),
    Up,
    Down,
    Other,
}

/// What the dashboard does after a key press.
#[derive(Clone, Copy, Debug, PartialEq, Eq, Structural)]
pub enum KeyAction {
    /// Leave the dashboard.
    Quit,
    /// Load the match data again, then draw.
    Reload,
    /// Draw again.
    Redraw,
}

/// The latest minute the dashboard moves to.
pub const LAST_MINUTE: u32 = 120;

/// The dashboard: the match it shows and where the view stands.
pub struct App {
    pub data_dir: String,
    pub match_id: String,
    pub team: String,
    pub minute: u32,
    pub scroll: usize,
    pub verbose: bool,
    pub state: MatchState,
}

/// The minute, the scroll offset and the action after `key`, from `minute`
/// and `scroll`: `+` or `=` moves one minute on (up to 120) and `-` one back
/// (down to 1), both scrolling back to the top; the arrows scroll; `q` quits
/// and `r` reloads, either case.
pub open spec fn after_key(minute: u32, scroll: usize, key: Key) -> (u32, usize, KeyAction) {
    match key {
        Key::Char(c) => if c == 'q' || c == 'Q' {
            (minute, scroll, KeyAction::Quit)
        } else if c == '+' || c == '=' {
            if minute < LAST_MINUTE {
                ((minute + 1) as u32, 0, KeyAction::Redraw)
            } else {
                (minute, scroll, KeyAction::Redraw)
            }
        } else if c == '-' {
            if minute > 1 {
                ((minute - 1) as u32, 0, KeyAction::Redraw)
            } else {
                (minute, scroll, KeyAction::Redraw)
            }
        } else if c == 'r' || c == 'R' {
            (minute, scroll, KeyAction::Reload)
        } else {
            (minute, scroll, KeyAction::Redraw)
        },
        Key::Up => if scroll > 0 {
            (minute, (scroll - 1) as usize, KeyAction::Redraw)
        } else {
            (minute, scroll, KeyAction::Redraw)
        },
        Key::Down => (minute, (scroll + 1) as usize, KeyAction::Redraw),
        Key::Other => (minute, scroll, KeyAction::Redraw),
    }
}

impl App {
    /// A dashboard on `state`, scrolled to the top.
    pub fn new(data_dir: String, match_id: String, team: String, minute: u32, verbose: bool, state: MatchState) -> (app: App)
        ensures
            app.data_dir == data_dir,
            app.match_id == match_id,
            app.team == team,
            app.minute == minute,
            app.scroll == 0,
            app.verbose == verbose,
            app.state == state,
    {
        App { data_dir, match_id, team, minute, scroll: 0, verbose, state }
    }

    /// Shows `state`, freshly loaded, in place of the match shown so far.
    pub fn reload(&mut self, state: MatchState)
        ensures
            final(self).state == state,
            final(self).data_dir == old(self).data_dir,
            final(self).match_id == old(self).match_id,
            final(self).team == old(self).team,
            final(self).minute == old(self).minute,
            final(self).scroll == old(self).scroll,
            final(self).verbose == old(self).verbose,
    {
        self.state = state;
    }

    /// Whether either side of the match is the dashboard's team (ignoring
    /// ASCII case).
    pub fn team_found(&self) -> (r: bool)
        ensures
            r == lineup_for(self.state, self.team@) is Some,
    {
        same_text_ignoring_case(self.state.home_lineup.team_name.as_str(), self.team.as_str())
            || same_text_ignoring_case(self.state.away_lineup.team_name.as_str(), self.team.as_str())
    }

    /// The other side's name: the away side when the team is the home side,
    /// the home side when it is the away side, and the away side when it is
    /// neither.
    pub fn opponent(&self) -> (r: &str)
        ensures
            r@ == (match lineup_for(self.state, self.team@) {
                Some(l) => if l == self.state.home_lineup {
                    self.state.away_lineup.team_name@
                } else {
                    self.state.home_lineup.team_name@
                },
                None => self.state.away_lineup.team_name@,
            }),
    {
        if same_text_ignoring_case(self.state.home_lineup.team_name.as_str(), self.team.as_str()) {
            self.state.away_lineup.team_name.as_str()
        } else if same_text_ignoring_case(self.state.away_lineup.team_name.as_str(), self.team.as_str()) {
            self.state.home_lineup.team_name.as_str()
        } else {
            self.state.away_lineup.team_name.as_str()
        }
    }

    /// Applies a key press to the minute and the scroll offset, and says what
    /// to do next.
    pub fn handle_key(&mut self, key: Key) -> (action: KeyAction)
        requires
            key == Key::Down ==> old(self).scroll < usize::MAX,
        ensures
            (final(self).minute, final(self).scroll, action) == after_key(old(self).minute, old(self).scroll, key),
            final(self).state == old(self).state,
            final(self).data_dir == old(self).data_dir,
            final(self).match_id == old(self).match_id,
            final(self).team == old(self).team,
            final(self).verbose == old(self).verbose,
    {
        match key {
            Key::Char(c) => {
                if c == 'q' || c == 'Q' {
                    KeyAction::Quit
                } else if c == '+' || c == '=' {
                    if self.minute < LAST_MINUTE {
                        self.minute = self.minute + 1;
                        self.scroll = 0;
                    }
                    KeyAction::Redraw
                } else if c == '-' {
                    if self.minute > 1 {
                        self.minute = self.minute - 1;
                        self.scroll = 0;
                    }
                    KeyAction::Redraw
                } else if c == 'r' || c == 'R' {
                    KeyAction::Reload
                } else {
                    KeyAction::Redraw
                }
            },
            Key::Up => {
                if self.scroll > 0 {
                    self.scroll = self.scroll - 1;
                }
                KeyAction::Redraw
            },
            Key::Down => {
                self.scroll = self.scroll + 1;
                KeyAction::Redraw
            },
            Key::Other => KeyAction::Redraw,
        }
    }
}

/// The first row of the decay table shown: the scroll offset, but not past
/// the last row.
pub fn first_visible_row(scroll: usize, rows: usize) -> (r: usize)
    ensures
        r == (if rows == 0 {
            0
        } else if scroll < rows - 1 {
            scroll
        } else {
            (rows - 1) as usize
        }),
{
    let last = if rows == 0 { 0 } else { rows - 1 };
    if scroll < last {
        scroll
    } else {
        last
    }
}

/// The width of the name column of the decay table in a panel `inner_width`
/// wide: what the other columns leave (16: position 5, score 4, bar 5 and
/// two spaces), at least 8.
pub fn name_column_width(inner_width: u16) -> (w: usize)
    ensures
        w == (if inner_width >= 24 {
            (inner_width - 16) as usize
        } else {
            8
        }),
{
    let rest: usize = if inner_width >= 16 { (inner_width - 16) as usize } else { 0 };
    if rest > 8 {
        rest
    } else {
        8
    }
}

/// A player's name as a table cell `width` characters wide: players already
/// taken off get the marker " *", and the name is cut with an ellipsis to
/// leave room for it.
pub open spec fn name_cell(name: Seq<char>, subbed: bool, width: nat) -> Seq<char> {
    if subbed {
        fitted_name(name, if width >= 2 { (width - 2) as nat } else { 0 }) + " *"@
    } else {
        fitted_name(name, width)
    }
}

/// A player's name as a table cell `width` characters wide, marked with " *"
/// when the player has been taken off.
pub fn player_cell(name: &str, subbed: bool, width: usize) -> (r: String)
    ensures
        r@ == name_cell(name@, subbed, width as nat),
{
    if subbed {
        let available: usize = if width >= 2 { width - 2 } else { 0 };
        let mut cell = fit_name(name, available);
        cell.append(" *");
        cell
    } else {
        fit_name(name, width)
    }
}

/// How many of the five cells of a decay bar are filled: the score times
/// five, rounded half up.
pub open spec fn filled_cells(score: Ratio) -> nat {
    let f = (10 * score.num + score.den) / (2 * score.den);
    if f > 5 {
        5
    } else {
        f as nat
    }
}

/// How many of the five cells of a decay bar are filled for `score`.
pub fn bar_cells(score: Ratio) -> (n: usize)
    requires
        score.den > 0,
    ensures
        n == filled_cells(score),
{
    let f = (10 * (score.num as u128) + (score.den as u128)) / (2 * (score.den as u128));
    if f > 5 {
        5
    } else {
        f as usize
    }
}

/// The colour band of a decay score.
#[derive(Clone, Copy, Debug, PartialEq, Eq, Structural)]
pub enum ScoreBand {
    /// Above 0.60.
    High,
    /// From 0.25 to 0.60.
    Medium,
    /// Below 0.25.
    Low,
}

/// The colour band of `score`.
pub open spec fn band_of(score: Ratio) -> ScoreBand {
    if 5 * score.num > 3 * score.den {
        ScoreBand::High
    } else if 4 * score.num >= score.den {
        ScoreBand::Medium
    } else {
        ScoreBand::Low
    }
}

/// The colour band of `score`: high above 0.60, medium from 0.25, low below.
pub fn score_band(score: Ratio) -> (b: ScoreBand)
    ensures
        b == band_of(score),
{
    if 5 * (score.num as u128) > 3 * (score.den as u128) {
        ScoreBand::High
    } else if 4 * (score.num as u128) >= score.den as u128 {
        ScoreBand::Medium
    } else {
        ScoreBand::Low
    }
}

/// A decay bar of five cells: `filled` full blocks, then light shade.
pub open spec fn bar_text(filled: nat) -> Seq<char> {
    Seq::new(5, |i: int| if i < filled { '█' } else { '░' })
}

/// The five-cell decay bar of `score`.
pub fn score_bar(score: Ratio) -> (bar: String)
    requires
        score.den > 0,
    ensures
        bar@ == bar_text(filled_cells(score)),
{
    let filled = bar_cells(score);
    let mut bar = String::new();
    for i in 0..5usize
        invariant
            filled == filled_cells(score),
            filled <= 5,
            bar@ == bar_text(filled as nat).take(i as int),
    {
        proof {
            reveal_strlit("█");
            reveal_strlit("░");
        }
        let ghost before = bar@;
        if i < filled {
            bar.append("█");
            assert(bar@ =~= before.push('█'));
        } else {
            bar.append("░");
            assert(bar@ =~= before.push('░'));
        }
        assert(bar@ =~= bar_text(filled as nat).take(i + 1));
    }
    assert(bar@ =~= bar_text(filled as nat));
    bar
}

} // verus!
