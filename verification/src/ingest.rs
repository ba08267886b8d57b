//! Match data: events, lineups, and the steps that turn decoded lineup and
//! match-index records into the match state the analysis works on.

use vstd::prelude::*;
use crate::text::{lemma_push_contains, contains_chars, contains_name, chars_of, decimal, decimal_text, eq_ignore_case, has_substring, same_text, same_text_ignoring_case, texts};

verus! {

/// One event of a match.
pub struct MatchEvent {
    pub id: String,
    pub index: u32,
    pub period: u8,
    pub timestamp: String,
    pub minute: u32,
    pub second: u32,
    pub event_type: String,
    pub player_name: Option<String>,
    pub team_name: String,
    pub under_pressure: Option<bool>,
    /// The player coming on, for substitution events.
    pub substitution_player_on: Option<String>,
    /// The outcome of a duel (such as "Won" or "Lost"), for duel events.
    pub duel_outcome: Option<String>,
}

/// A player of a team's lineup, with the first position listed for them.
pub struct LineupPlayer {
    pub player_id: u32,
    pub player_name: String,
    pub position: String,
    pub jersey_number: u8,
}

/// A team's lineup.
pub struct TeamLineup {
    pub team_id: u32,
    pub team_name: String,
    pub players: Vec<LineupPlayer>,
}

/// Both lineups of a match and all of its events.
pub struct MatchState {
    pub home_lineup: TeamLineup,
    pub away_lineup: TeamLineup,
    pub events: Vec<MatchEvent>,
}

/// A position record of a decoded lineup entry.
pub struct RawPosition {
    pub position: String,
}

/// A player entry of a decoded lineup record.
pub struct RawLineupPlayer {
    pub player_id: u32,
    pub player_name: String,
    pub jersey_number: u8,
    pub positions: Vec<RawPosition>,
}

/// A decoded lineup record of one team.
pub struct RawTeamLineup {
    pub team_id: u32,
    pub team_name: String,
    pub lineup: Vec<RawLineupPlayer>,
}

/// A player entry of a lineup record of another match, read for its positions.
pub struct IdxPlayer {
    pub player_name: String,
    pub positions: Vec<RawPosition>,
}

/// A team entry of a lineup record of another match.
pub struct IdxTeam {
    pub lineup: Vec<IdxPlayer>,
}

/// An entry of a competition season's match list.
pub struct MatchIndexEntry {
    pub match_id: u32,
    pub home_team_name: String,
    pub away_team_name: String,
}

/// Why a lineups record could not be turned into the two lineups of a match.
#[derive(Debug, PartialEq, Eq, Structural)]
pub enum LineupError {
    /// The record holds fewer than two teams; `found` is how many it holds.
    TooFewTeams { found: usize },
}

/// The text of an optional string.
pub open spec fn opt_text(o: Option<String>) -> Option<Seq<char>> {
    match o {
        Some(s) => Some(s@),
        None => None,
    }
}

/// The position a lineup keeps for a player: the first one listed, or
/// "Unknown" when none is.
pub open spec fn first_position(p: RawLineupPlayer) -> Seq<char> {
    if p.positions@.len() > 0 {
        p.positions@[0].position@
    } else {
        "Unknown"@
    }
}

/// `l` is the lineup that `raw` describes.
pub open spec fn lineup_from_raw(l: TeamLineup, raw: RawTeamLineup) -> bool {
    &&& l.team_id == raw.team_id
    &&& l.team_name@ == raw.team_name@
    &&& l.players@.len() == raw.lineup@.len()
    &&& forall|i: int|
        0 <= i < raw.lineup@.len() ==> {
            let p = #[trigger] l.players@[i];
            let r = raw.lineup@[i];
            &&& p.player_id == r.player_id
            &&& p.player_name@ == r.player_name@
            &&& p.jersey_number == r.jersey_number
            &&& p.position@ == first_position(r)
        }
}

/// Turns a decoded lineup record into a lineup, keeping for each player the
/// first position listed, or "Unknown" when none is.
pub fn parse_lineup(raw: RawTeamLineup) -> (l: TeamLineup)
    ensures
        lineup_from_raw(l, raw),
{
    let mut players: Vec<LineupPlayer> = Vec::new();
    let n = raw.lineup.len();
    for i in 0..n
        invariant
            n == raw.lineup@.len(),
            players@.len() == i,
            forall|k: int|
                0 <= k < i ==> {
                    let p = #[trigger] players@[k];
                    let r = raw.lineup@[k];
                    &&& p.player_id == r.player_id
                    &&& p.player_name@ == r.player_name@
                    &&& p.jersey_number == r.jersey_number
                    &&& p.position@ == first_position(r)
                },
    {
        let r = &raw.lineup[i];
        let position = if r.positions.len() > 0 {
            r.positions[0].position.clone()
        } else {
            "Unknown".to_owned()
        };
        players.push(
            LineupPlayer {
                player_id: r.player_id,
                player_name: r.player_name.clone(),
                position,
                jersey_number: r.jersey_number,
            },
        );
    }
    TeamLineup { team_id: raw.team_id, team_name: raw.team_name.clone(), players }
}

/// Turns a decoded lineups record into the home lineup (its first team) and
/// the away lineup (its second); fails when it holds fewer than two teams.
pub fn parse_lineups(raw: Vec<RawTeamLineup>) -> (r: Result<(TeamLineup, TeamLineup), LineupError>)
    ensures
        raw@.len() < 2 ==> r == Err::<(TeamLineup, TeamLineup), LineupError>(
            LineupError::TooFewTeams { found: raw@.len() as usize },
        ),
        raw@.len() >= 2 ==> (r matches Ok((home, away)) && lineup_from_raw(home, raw@[0])
            && lineup_from_raw(away, raw@[1])),
{
    if raw.len() < 2 {
        return Err(LineupError::TooFewTeams { found: raw.len() });
    }
    let mut raw = raw;
    let away = parse_lineup(raw.remove(1));
    let home = parse_lineup(raw.remove(0));
    Ok((home, away))
}

/// `name` belongs to a player of `l` whose position is "Unknown".
pub open spec fn unknown_in(l: TeamLineup, name: Seq<char>) -> bool {
    exists|i: int|
        0 <= i < l.players@.len() && #[trigger] l.players@[i].position@ == "Unknown"@
            && l.players@[i].player_name@ == name
}

/// No text occurs twice in `s`.
pub open spec fn no_duplicates(s: Seq<Seq<char>>) -> bool {
    forall|i: int, j: int| 0 <= i < j < s.len() ==> s[i] != s[j]
}

/// Some player among the first `n` of `l` has the name `name` and the
/// position "Unknown".
pub open spec fn unknown_among(l: TeamLineup, n: int, name: Seq<char>) -> bool {
    exists|j: int|
        0 <= j < n && #[trigger] l.players@[j].position@ == "Unknown"@
            && l.players@[j].player_name@ == name
}

proof fn lemma_unknown_step(l: TeamLineup, i: int, k: Seq<char>)
    requires
        0 <= i < l.players@.len(),
    ensures
        unknown_among(l, i + 1, k) <==> (unknown_among(l, i, k) || (l.players@[i].position@
            == "Unknown"@ && l.players@[i].player_name@ == k)),
{
    if unknown_among(l, i + 1, k) {
        let j = choose|j: int|
            0 <= j < i + 1 && #[trigger] l.players@[j].position@ == "Unknown"@
                && l.players@[j].player_name@ == k;
        if j < i {
            assert(unknown_among(l, i, k));
        }
    }
    if unknown_among(l, i, k) {
        let j = choose|j: int|
            0 <= j < i && #[trigger] l.players@[j].position@ == "Unknown"@
                && l.players@[j].player_name@ == k;
        assert(unknown_among(l, i + 1, k));
    }
    if l.players@[i].position@ == "Unknown"@ && l.players@[i].player_name@ == k {
        assert(unknown_among(l, i + 1, k));
    }
}

fn add_unknowns(out: &mut Vec<String>, l: &TeamLineup)
    requires
        no_duplicates(texts(old(out)@)),
    ensures
        no_duplicates(texts(final(out)@)),
        forall|k: Seq<char>|
            #![trigger texts(final(out)@).contains(k)]
            texts(final(out)@).contains(k) <==> (texts(old(out)@).contains(k) || unknown_in(*l, k)),
{
    let n = l.players.len();
    let ghost start = texts(out@);
    for i in 0..n
        invariant
            n == l.players@.len(),
            start == texts(old(out)@),
            no_duplicates(texts(out@)),
            forall|k: Seq<char>|
                #![trigger texts(out@).contains(k)]
                texts(out@).contains(k) <==> (start.contains(k) || unknown_among(*l, i as int, k)),
    {
        let p = &l.players[i];
        let ghost before = texts(out@);
        assert(forall|k: Seq<char>| before.contains(k) <==> (start.contains(k) || unknown_among(*l, i as int, k)));
        let is_unknown = same_text(p.position.as_str(), "Unknown");
        if is_unknown && !contains_name(out, p.player_name.as_str()) {
            out.push(p.player_name.clone());
            assert(texts(out@) =~= before.push(p.player_name@));
        }
        assert forall|k: Seq<char>|
            #![trigger texts(out@).contains(k)]
            texts(out@).contains(k) <==> (start.contains(k) || unknown_among(*l, i + 1, k)) by {
            lemma_push_contains(before, p.player_name@, k);
            lemma_unknown_step(*l, i as int, k);
            assert(before.contains(k) <==> (start.contains(k) || unknown_among(*l, i as int, k)));
            assert(is_unknown == (l.players@[i as int].position@ == "Unknown"@));
            assert(p.player_name@ == l.players@[i as int].player_name@);
        }
    }
    assert forall|k: Seq<char>|
        texts(out@).contains(k) <==> (start.contains(k) || unknown_in(*l, k)) by {
        assert(unknown_among(*l, n as int, k) == unknown_in(*l, k));
    }
}

/// The names of the players of either lineup whose position is "Unknown",
/// each once.
pub fn unknown_player_names(home: &TeamLineup, away: &TeamLineup) -> (names: Vec<String>)
    ensures
        no_duplicates(texts(names@)),
        forall|k: Seq<char>|
            texts(names@).contains(k) <==> (unknown_in(*home, k) || unknown_in(*away, k)),
{
    let mut names: Vec<String> = Vec::new();
    assert(texts(names@) =~= Seq::<Seq<char>>::empty());
    add_unknowns(&mut names, home);
    let ghost mid = texts(names@);
    assert(forall|k: Seq<char>| mid.contains(k) <==> unknown_in(*home, k));
    add_unknowns(&mut names, away);
    names
}

/// The entries of an association list as a map, later entries taking
/// precedence.
pub open spec fn entries_map(s: Seq<(String, String)>) -> Map<Seq<char>, Seq<char>>
    decreases s.len(),
{
    if s.len() == 0 {
        Map::empty()
    } else {
        entries_map(s.drop_last()).insert(s.last().0@, s.last().1@)
    }
}

/// No key occurs twice among the entries.
pub open spec fn distinct_keys(s: Seq<(String, String)>) -> bool {
    forall|i: int, j: int| 0 <= i < j < s.len() ==> s[i].0@ != s[j].0@
}

proof fn lemma_entries_map(s: Seq<(String, String)>)
    requires
        distinct_keys(s),
    ensures
        entries_map(s).dom().finite(),
        entries_map(s).dom().len() == s.len(),
        forall|k: Seq<char>|
            entries_map(s).contains_key(k) <==> exists|i: int| 0 <= i < s.len() && #[trigger] s[i].0@ == k,
        forall|i: int| 0 <= i < s.len() ==> #[trigger] entries_map(s)[s[i].0@] == s[i].1@,
    decreases s.len(),
{
    if s.len() > 0 {
        let t = s.drop_last();
        lemma_entries_map(t);
        assert(!entries_map(t).contains_key(s.last().0@)) by {
            if entries_map(t).contains_key(s.last().0@) {
                let i = choose|i: int| 0 <= i < t.len() && #[trigger] t[i].0@ == s.last().0@;
                assert(s[i].0@ == s[s.len() - 1].0@);
            }
        }
        assert forall|k: Seq<char>|
            entries_map(s).contains_key(k) <==> exists|i: int| 0 <= i < s.len() && #[trigger] s[i].0@ == k by {
            if entries_map(s).contains_key(k) && k != s.last().0@ {
                let i = choose|i: int| 0 <= i < t.len() && #[trigger] t[i].0@ == k;
                assert(s[i].0@ == k);
            }
            if exists|i: int| 0 <= i < s.len() && #[trigger] s[i].0@ == k {
                let i = choose|i: int| 0 <= i < s.len() && #[trigger] s[i].0@ == k;
                if i < s.len() - 1 {
                    assert(t[i].0@ == k);
                }
            }
        }
        assert forall|i: int| 0 <= i < s.len() implies #[trigger] entries_map(s)[s[i].0@] == s[i].1@ by {
            if i < s.len() - 1 {
                assert(t[i] == s[i]);
                assert(s[i].0@ != s[s.len() - 1].0@);
            }
        }
    }
}

/// Positions found for players, by player name.
pub struct PositionIndex {
    entries: Vec<(String, String)>,
}

impl View for PositionIndex {
    type V = Map<Seq<char>, Seq<char>>;

    closed spec fn view(&self) -> Map<Seq<char>, Seq<char>> {
        entries_map(self.entries@)
    }
}

/// The index after looking at one more player: an unknown player not yet in
/// the index who lists a position gets their first one.
pub open spec fn absorb_player(m: Map<Seq<char>, Seq<char>>, unknowns: Seq<Seq<char>>, p: IdxPlayer) -> Map<Seq<char>, Seq<char>> {
    if unknowns.contains(p.player_name@) && !m.contains_key(p.player_name@) && p.positions@.len() > 0 {
        m.insert(p.player_name@, p.positions@[0].position@)
    } else {
        m
    }
}

/// The index after looking at the players `ps`, in order.
pub open spec fn absorb_players(m: Map<Seq<char>, Seq<char>>, unknowns: Seq<Seq<char>>, ps: Seq<IdxPlayer>) -> Map<Seq<char>, Seq<char>>
    decreases ps.len(),
{
    if ps.len() == 0 {
        m
    } else {
        absorb_player(absorb_players(m, unknowns, ps.drop_last()), unknowns, ps.last())
    }
}

/// The index after looking at the players of the teams `ts`, in order.
pub open spec fn absorb_teams(m: Map<Seq<char>, Seq<char>>, unknowns: Seq<Seq<char>>, ts: Seq<IdxTeam>) -> Map<Seq<char>, Seq<char>>
    decreases ts.len(),
{
    if ts.len() == 0 {
        m
    } else {
        absorb_players(absorb_teams(m, unknowns, ts.drop_last()), unknowns, ts.last().lineup@)
    }
}

impl PositionIndex {
    #[verifier::type_invariant]
    closed spec fn well_formed(self) -> bool {
        distinct_keys(self.entries@)
    }

    /// An index with no positions.
    pub fn new() -> (r: PositionIndex)
        ensures
            r@ == Map::<Seq<char>, Seq<char>>::empty(),
    {
        PositionIndex { entries: Vec::new() }
    }

    /// How many players have a position in the index.
    pub fn len(&self) -> (n: usize)
        ensures
            self@.dom().finite(),
            n == self@.dom().len(),
    {
        proof {
            use_type_invariant(self);
            lemma_entries_map(self.entries@);
        }
        self.entries.len()
    }

    /// The position recorded for `name`, if any.
    pub fn get(&self, name: &str) -> (r: Option<String>)
        ensures
            self@.contains_key(name@) ==> (r matches Some(p) && p@ == self@[name@]),
            !self@.contains_key(name@) ==> r is None,
    {
        proof {
            use_type_invariant(self);
            lemma_entries_map(self.entries@);
        }
        let n = self.entries.len();
        for i in 0..n
            invariant
                n == self.entries@.len(),
                forall|k: int| 0 <= k < i ==> #[trigger] self.entries@[k].0@ != name@,
                self@.contains_key(name@) <==> exists|k: int|
                    0 <= k < self.entries@.len() && #[trigger] self.entries@[k].0@ == name@,
        {
            if same_text(self.entries[i].0.as_str(), name) {
                proof {
                    use_type_invariant(self);
                    lemma_entries_map(self.entries@);
                }
                return Some(self.entries[i].1.clone());
            }
        }
        None
    }

    fn absorb(&mut self, unknowns: &Vec<String>, p: &IdxPlayer)
        ensures
            final(self)@ == absorb_player(old(self)@, texts(unknowns@), *p),
    {
        proof {
            use_type_invariant(&*self);
            lemma_entries_map(self.entries@);
        }
        if p.positions.len() > 0 && contains_name(unknowns, p.player_name.as_str())
            && self.get(p.player_name.as_str()).is_none() {
            let ghost before = self.entries@;
            let entry = (p.player_name.clone(), p.positions[0].position.clone());
            assert forall|i: int, j: int| 0 <= i < j < before.push(entry).len() implies
                before.push(entry)[i].0@ != before.push(entry)[j].0@ by {
                if j == before.len() {
                    assert(before[i].0@ != p.player_name@);
                }
            }
            let mut entries: Vec<(String, String)> = Vec::new();
            std::mem::swap(&mut entries, &mut self.entries);
            entries.push(entry);
            assert(entries@.drop_last() =~= before);
            self.entries = entries;
        }
    }

    /// Records, for each player of `teams` in order whose name is among
    /// `unknowns`, who is not in the index yet and who lists a position, the
    /// first position listed.
    pub fn record_positions(&mut self, unknowns: &Vec<String>, teams: &Vec<IdxTeam>)
        ensures
            final(self)@ == absorb_teams(old(self)@, texts(unknowns@), teams@),
    {
        let nt = teams.len();
        for t in 0..nt
            invariant
                nt == teams@.len(),
                self@ == absorb_teams(old(self)@, texts(unknowns@), teams@.take(t as int)),
        {
            let team = &teams[t];
            let np = team.lineup.len();
            let ghost start = self@;
            for j in 0..np
                invariant
                    np == team.lineup@.len(),
                    self@ == absorb_players(start, texts(unknowns@), team.lineup@.take(j as int)),
            {
                self.absorb(unknowns, &team.lineup[j]);
                assert(team.lineup@.take(j + 1).drop_last() =~= team.lineup@.take(j as int));
            }
            assert(team.lineup@.take(np as int) =~= team.lineup@);
            assert(teams@.take(t + 1).drop_last() =~= teams@.take(t as int));
        }
        assert(teams@.take(nt as int) =~= teams@);
    }

    /// Whether the index holds as many players as `unknowns` names: the scan
    /// for positions stops there.
    pub fn covers(&self, unknowns: &Vec<String>) -> (r: bool)
        ensures
            r == (self@.dom().len() == unknowns@.len()),
    {
        self.len() == unknowns.len()
    }
}

/// The position a player keeps once the index has been consulted: an
/// "Unknown" position is replaced by the one the index holds for the player.
pub open spec fn resolved_position(position: Seq<char>, name: Seq<char>, index: Map<Seq<char>, Seq<char>>) -> Seq<char> {
    if position == "Unknown"@ && index.contains_key(name) {
        index[name]
    } else {
        position
    }
}

/// Gives each player of `lineup` whose position is "Unknown" the position that
/// `index` holds for them, if it holds one; nothing else changes.
pub fn apply_positions(lineup: &mut TeamLineup, index: &PositionIndex)
    ensures
        final(lineup).team_id == old(lineup).team_id,
        final(lineup).team_name == old(lineup).team_name,
        final(lineup).players@.len() == old(lineup).players@.len(),
        forall|i: int|
            0 <= i < old(lineup).players@.len() ==> {
                let p = #[trigger] final(lineup).players@[i];
                let q = old(lineup).players@[i];
                &&& p.player_id == q.player_id
                &&& p.player_name == q.player_name
                &&& p.jersey_number == q.jersey_number
                &&& p.position@ == resolved_position(q.position@, q.player_name@, index@)
            },
{
    let mut players: Vec<LineupPlayer> = Vec::new();
    let n = lineup.players.len();
    for i in 0..n
        invariant
            n == lineup.players@.len(),
            players@.len() == i,
            forall|k: int|
                0 <= k < i ==> {
                    let p = #[trigger] players@[k];
                    let q = lineup.players@[k];
                    &&& p.player_id == q.player_id
                    &&& p.player_name == q.player_name
                    &&& p.jersey_number == q.jersey_number
                    &&& p.position@ == resolved_position(q.position@, q.player_name@, index@)
                },
    {
        let q = &lineup.players[i];
        let mut position = q.position.clone();
        if same_text(q.position.as_str(), "Unknown") {
            if let Some(found) = index.get(q.player_name.as_str()) {
                position = found;
            }
        }
        players.push(
            LineupPlayer {
                player_id: q.player_id,
                player_name: q.player_name.clone(),
                position,
                jersey_number: q.jersey_number,
            },
        );
    }
    lineup.players = players;
}

/// Whether some name of `names` occurs in `data`.
pub fn mentions_any(data: &str, names: &Vec<String>) -> (r: bool)
    ensures
        r == exists|i: int| 0 <= i < names@.len() && has_substring(data@, #[trigger] names@[i]@),
{
    let d = chars_of(data);
    let n = names.len();
    for i in 0..n
        invariant
            n == names@.len(),
            d@ == data@,
            forall|k: int| 0 <= k < i ==> !has_substring(data@, #[trigger] names@[k]@),
    {
        let name = chars_of(names[i].as_str());
        if contains_chars(&d, &name) {
            return true;
        }
    }
    false
}

/// Whether a file of the lineups directory is worth scanning for positions:
/// its extension is "json" and its stem is not the match being loaded.
pub fn should_scan_lineup_file(extension: Option<&str>, stem: Option<&str>, skip_match_id: &str) -> (r: bool)
    ensures
        r == ((extension matches Some(e) && e@ == "json"@) && !(stem matches Some(s) && s@
            == skip_match_id@)),
{
    let json = match extension {
        Some(e) => same_text(e, "json"),
        None => false,
    };
    let skipped = match stem {
        Some(s) => same_text(s, skip_match_id),
        None => false,
    };
    json && !skipped
}

/// Whether a file's extension is "json".
pub fn is_json_extension(extension: Option<&str>) -> (r: bool)
    ensures
        r == (extension matches Some(e) && e@ == "json"@),
{
    match extension {
        Some(e) => same_text(e, "json"),
        None => false,
    }
}

/// The identifiers, in decimal and in order, of the matches of `ms` that
/// `team` played (as home or away side, ignoring ASCII case), leaving out the
/// match `exclude`.
pub open spec fn team_match_ids_spec(ms: Seq<MatchIndexEntry>, team: Seq<char>, exclude: Seq<char>) -> Seq<Seq<char>>
    decreases ms.len(),
{
    if ms.len() == 0 {
        Seq::empty()
    } else {
        let rest = team_match_ids_spec(ms.drop_last(), team, exclude);
        let m = ms.last();
        let id = decimal(m.match_id as nat);
        if id != exclude && (eq_ignore_case(m.home_team_name@, team) || eq_ignore_case(
            m.away_team_name@,
            team,
        )) {
            rest.push(id)
        } else {
            rest
        }
    }
}

/// The identifiers of the matches of a season's match list that `team`
/// played, other than `exclude_match_id`.
pub fn team_match_ids(matches: &Vec<MatchIndexEntry>, team: &str, exclude_match_id: &str) -> (ids: Vec<String>)
    ensures
        texts(ids@) == team_match_ids_spec(matches@, team@, exclude_match_id@),
{
    let mut ids: Vec<String> = Vec::new();
    let n = matches.len();
    for i in 0..n
        invariant
            n == matches@.len(),
            texts(ids@) == team_match_ids_spec(matches@.take(i as int), team@, exclude_match_id@),
    {
        let m = &matches[i];
        let id = decimal_text(m.match_id);
        assert(matches@.take(i + 1).drop_last() =~= matches@.take(i as int));
        if !same_text(id.as_str(), exclude_match_id) && (same_text_ignoring_case(
            m.home_team_name.as_str(),
            team,
        ) || same_text_ignoring_case(m.away_team_name.as_str(), team)) {
            let ghost before = ids@;
            ids.push(id);
            assert(texts(ids@) =~= texts(before).push(texts(ids@).last()));
        }
    }
    assert(matches@.take(n as int) =~= matches@);
    ids
}

/// How many events of `evs` belong to the side `team` (ignoring ASCII case).
pub open spec fn team_event_total(evs: Seq<MatchEvent>, team: Seq<char>) -> nat
    decreases evs.len(),
{
    if evs.len() == 0 {
        0
    } else {
        team_event_total(evs.drop_last(), team) + if eq_ignore_case(evs.last().team_name@, team) {
            1nat
        } else {
            0nat
        }
    }
}

/// How many events of the match belong to the side `team`, ignoring ASCII
/// case.
pub fn team_event_count(evs: &Vec<MatchEvent>, team: &str) -> (n: usize)
    ensures
        n == team_event_total(evs@, team@),
{
    let mut n: usize = 0;
    let len = evs.len();
    for i in 0..len
        invariant
            len == evs@.len(),
            n <= i,
            n == team_event_total(evs@.take(i as int), team@),
    {
        assert(evs@.take(i + 1).drop_last() =~= evs@.take(i as int));
        if same_text_ignoring_case(evs[i].team_name.as_str(), team) {
            n = n + 1;
        }
    }
    assert(evs@.take(len as int) =~= evs@);
    n
}

} // verus!
