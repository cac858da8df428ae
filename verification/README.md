# startgg_export

Downloads the standings, entrants and sets of start.gg tournaments and turns
them into one row per entrant and event (placement, wins, losses, player
identity), exported as JSON or CSV by a small desktop application.

The library in `src/` is written in Verus and verified:

- `accumulator` folds standings, entrants and sets pages into an event's
  rows and win/loss tally; `table` keeps one accumulator per event;
- `query` reads GraphQL replies (metadata and sets pages) into the table;
  `pager` decides, reply by reply, how the paging of events and sets goes on
  (next page, retry with a halved page size, failure, end);
- `http` holds the request-rate limiter and the decision taken on each HTTP
  response (retry with backoff, fail, parse);
- `csv` renders rows as CSV through the `csv` crate; `utils`, `text` and
  `commands` build the texts the application shows;
- `laws` states and proves properties that span several calls.

`app/` is ordinary Rust around the library: HTTP with `reqwest`, JSON with
`serde_json`, the request loops with `tokio`, and the Tauri commands.
