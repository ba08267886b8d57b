# subs

Substitution advice from StatsBomb match events, as a verified library.

For a team and a match minute the library computes each player's activity
decay (recent actions per minute against the early-match rate, as an exact
fraction between 0 and 1), ranks the players from the most tired down, finds
the tactical problem that the tired players on the pitch point to, and ranks
the bench players by how well they fit it.

- `src/text.rs`: string helpers (equality, ASCII-case-insensitive equality,
  substring search, decimal formatting, name cells with an ellipsis).
- `src/ingest.rs`: match, event and lineup types; lineup records, position
  lookup in other matches' lineups, match-list filtering.
- `src/ranking.rs`: stable ordering from the highest key down, and its proofs.
- `src/decay.rs`: position abbreviations, event windows and counts, decay scores.
- `src/matcher.rs`: tactical problems, position families, the recommendation.
- `src/dashboard.rs`: dashboard state, key handling, table layout, decay bars.
- `src/laws.rs`: properties of the library as a whole.
- `app/`: the command-line program and terminal dashboard (file reading,
  JSON decoding, drawing).
