use startgg_export::commands::{
    save_text_file_result, tournament_json_errors_message, tournament_json_parse_message,
    tournament_json_status_message,
};
use startgg_export::http::{
    decide_response, normalize_body, parse_failure_message, read_failure_message,
    send_failure_message, HttpDecision, RateLimiter, SlotDecision, REQUEST_WINDOW_NANOS,
};
use startgg_export::pager::{
    finish_tournament, page_target, BeforeFetch, EventPager, PageStep, SetsPager, SetsStep,
};
use startgg_export::queries::scalars::StartggId;
use startgg_export::queries::tournament::{
    Entrant, EventStandingsEvent, EventStandingsQuery, MetadataEvent, MetadataTournament,
    PageInfo, SetsEvent, SetsSet, SetsSetConnection, SetsSetSlot, SetsTournament,
    StandingsStanding, StandingsStandingConnection, Timestamp, TournamentMetadataQuery,
    TournamentSetsQuery,
};
use startgg_export::query::{
    ensure_event_accumulator, event_metadata_by_id, is_page_size_too_high_error,
    process_page_data, read_tournament_metadata, GraphQlReply, ProcessSetsPageContext,
    SetsPageResponse,
};
use startgg_export::table::EventTable;
use startgg_export::types::EventAccumulator;

fn id(s: &str) -> Option<StartggId> {
    Some(StartggId::from_text(s))
}

fn metadata() -> Vec<Option<MetadataEvent>> {
    vec![
        None,
        Some(MetadataEvent { id: None, name: Some("no id".to_string()), start_at: None }),
        Some(MetadataEvent { id: id("7"), name: Some("Doubles".to_string()), start_at: Some(Timestamp(86_400)) }),
        Some(MetadataEvent { id: id("8"), name: None, start_at: None }),
    ]
}

fn decision(d: HttpDecision) -> (String, Option<u64>, String) {
    match d {
        HttpDecision::Retry { backoff_ms, notice } => ("retry".to_string(), Some(backoff_ms), notice),
        HttpDecision::Fail(m) => ("fail".to_string(), None, m),
        HttpDecision::Parse(b) => ("parse".to_string(), None, b),
    }
}

#[test]
fn too_heavy_errors_are_recognized() {
    assert!(is_page_size_too_high_error("Your Query Complexity Is Too High (1001)"));
    assert!(is_page_size_too_high_error("HTTP 504 for x"));
    assert!(!is_page_size_too_high_error("HTTP 502 for x"));
    assert!(!is_page_size_too_high_error(""));
}

#[test]
fn rate_limited_responses_back_off() {
    let (kind, ms, notice) = decision(decide_response(0, 429, "text/plain", "", "t/x", "sets"));
    assert_eq!(kind, "retry");
    assert_eq!(ms, Some(200));
    assert_eq!(notice, "Rate limited (429) for t/x [sets], retrying in 200ms (attempt 1/6)");
    let (_, ms, _) = decision(decide_response(5, 429, "", "", "t/x", "sets"));
    assert_eq!(ms, Some(204_800));
    let (kind, _, msg) = decision(decide_response(6, 429, "", "", "t/x", "sets"));
    assert_eq!(kind, "fail");
    assert_eq!(msg, "Rate limited (429) for t/x [sets] after 6 retries");
}

#[test]
fn transient_and_gateway_errors() {
    let (kind, ms, notice) = decision(decide_response(2, 503, "", "", "t/x", "metadata"));
    assert_eq!(kind, "retry");
    assert_eq!(ms, Some(1000));
    assert_eq!(notice, "Transient HTTP 503 for t/x [metadata], retrying in 1000ms (attempt 3/6)");
    let (kind, _, msg) = decision(decide_response(6, 502, "text/html", "oops", "t/x", "metadata"));
    assert_eq!(kind, "fail");
    assert_eq!(msg, "HTTP 502 for t/x [metadata] after 6 retries (content-type: text/html). Body: oops");
    let (_, _, msg) = decision(decide_response(0, 504, "text/html", "late", "t/x", "sets"));
    assert_eq!(msg, "HTTP 504 for t/x [sets] (content-type: text/html). Body: late");
    assert!(is_page_size_too_high_error(&msg));
    let long = "x".repeat(400);
    let (_, _, msg) = decision(decide_response(0, 404, "a", &long, "t", "q"));
    assert_eq!(msg, format!("HTTP 404 for t [q] (content-type: a). Body: {}...", "x".repeat(300)));
}

#[test]
fn empty_and_good_bodies() {
    let (kind, ms, notice) = decision(decide_response(1, 200, "", "\u{feff}  \n", "t", "q"));
    assert_eq!(kind, "retry");
    assert_eq!(ms, Some(500));
    assert_eq!(notice, "Empty response body for t [q], retrying in 500ms (attempt 2/6)");
    let (_, _, msg) = decision(decide_response(6, 200, "json", " ", "t", "q"));
    assert_eq!(msg, "Empty response body for t [q] after 6 retries (content-type: json)");
    let (kind, _, body) = decision(decide_response(0, 200, "json", "\u{feff}\u{feff} {\"data\":1} \n", "t", "q"));
    assert_eq!(kind, "parse");
    assert_eq!(body, "{\"data\":1}");
    assert_eq!(normalize_body(" \u{feff}x"), "\u{feff}x");
}

#[test]
fn request_failure_messages() {
    assert_eq!(send_failure_message("t", "sets", "boom"), "HTTP request failed for t [sets]: boom");
    assert_eq!(read_failure_message("eof"), "Failed to read response body: eof");
    assert_eq!(
        parse_failure_message("t", "sets", "bad json", 200, "json", "{"),
        "Failed to parse GraphQL response for t [sets]: bad json (HTTP 200, content-type: json). Body: {"
    );
}

#[test]
fn rate_limiter_grants_up_to_the_limit() {
    let mut limiter = RateLimiter::new();
    for k in 0..80u64 {
        assert!(matches!(limiter.try_acquire(k * 1_000), SlotDecision::Granted));
    }
    match limiter.try_acquire(100_000) {
        SlotDecision::Wait(d) => assert_eq!(d, REQUEST_WINDOW_NANOS - 100_000),
        SlotDecision::Granted => panic!("the 81st request in a window must wait"),
    }
    assert!(matches!(limiter.try_acquire(REQUEST_WINDOW_NANOS), SlotDecision::Granted));
    assert!(matches!(limiter.try_acquire(REQUEST_WINDOW_NANOS), SlotDecision::Wait(_)));
}

#[test]
fn metadata_lookup() {
    let events = metadata();
    assert_eq!(event_metadata_by_id(&events, "7"), ("Doubles".to_string(), Some("1970-01-02".to_string())));
    assert_eq!(event_metadata_by_id(&events, "8"), (String::new(), None));
    assert_eq!(event_metadata_by_id(&events, "9"), (String::new(), None));
}

#[test]
fn metadata_reply_outcomes() {
    let err = read_tournament_metadata(GraphQlReply { data: None, errors: Some("[e]".to_string()) }, "t");
    assert_eq!(err.unwrap_err(), "GraphQL errors for t [metadata]: [e]");
    let missing = read_tournament_metadata(GraphQlReply { data: None, errors: None }, "t");
    assert_eq!(missing.unwrap_err(), "Missing GraphQL data for t [metadata]");
    let none = read_tournament_metadata(
        GraphQlReply { data: Some(TournamentMetadataQuery { tournament: None }), errors: None },
        "t",
    );
    assert_eq!(none.unwrap_err(), "Tournament not found for slug 't'. Use a tournament slug like tournament/my-event.");
    let empty = read_tournament_metadata(
        GraphQlReply {
            data: Some(TournamentMetadataQuery { tournament: Some(MetadataTournament { id: id("1"), events: None }) }),
            errors: None,
        },
        "t",
    );
    assert_eq!(empty.unwrap_err(), "No events found for tournament slug 't'.");
    let ok = read_tournament_metadata(
        GraphQlReply {
            data: Some(TournamentMetadataQuery {
                tournament: Some(MetadataTournament { id: id("1"), events: Some(metadata()) }),
            }),
            errors: None,
        },
        "t",
    )
    .unwrap();
    assert_eq!(ok.0, Some("1".to_string()));
    assert_eq!(ok.1.len(), 4);
}

fn standings_reply(total: Option<i32>) -> Result<GraphQlReply<EventStandingsQuery>, String> {
    Ok(GraphQlReply {
        data: Some(EventStandingsQuery {
            event: Some(EventStandingsEvent {
                id: id("7"),
                standings: Some(StandingsStandingConnection {
                    page_info: Some(PageInfo { total_pages: total }),
                    nodes: Some(vec![Some(StandingsStanding {
                        placement: Some(1),
                        entrant: Some(Entrant { id: id("e1") }),
                        player: None,
                    })]),
                }),
            }),
        }),
        errors: None,
    })
}

#[test]
fn event_pager_walks_pages_and_shrinks() {
    let events = metadata();
    let mut table = EventTable::new();
    let mut pager = EventPager::new(10);
    assert_eq!(pager.downloading("t", "standings", "Doubles").message, "t: downloading standings for Doubles (1/1)...");
    match pager.standings_step(Err("HTTP 504 for t".to_string()), "t", "7", "Doubles", &None, &events, &mut table) {
        PageStep::Retry(ev) => {
            assert_eq!(ev.message, "t: standings request for Doubles was too heavy (HTTP 504 for t), reducing per_page to 5 and retrying page 1...");
            assert!(!ev.done);
        }
        _ => panic!("expected a retry"),
    }
    assert_eq!(pager.per_page, 5);
    assert!(matches!(pager.standings_step(standings_reply(Some(2)), "t", "7", "Doubles", &None, &events, &mut table), PageStep::Next));
    assert_eq!(pager.page, 2);
    assert_eq!(pager.total_pages, 2);
    assert!(table.contains_key("7"));
    assert!(matches!(pager.standings_step(standings_reply(Some(2)), "t", "7", "Doubles", &None, &events, &mut table), PageStep::Done));
    let gql = Ok(GraphQlReply { data: None, errors: Some("boom".to_string()) });
    match pager.standings_step(gql, "t", "7", "Doubles", &None, &events, &mut table) {
        PageStep::Fail(m) => assert_eq!(m, "GraphQL errors for t [standings 7]: boom"),
        _ => panic!("expected a failure"),
    }
    let mut tiny = EventPager::new(0);
    assert_eq!(tiny.per_page, 1);
    match tiny.entrants_step(Err("your query complexity is too high".to_string()), "t", "7", "Doubles", &None, &events, &mut table) {
        PageStep::Fail(m) => assert_eq!(m, "Query is still too heavy for t [entrants 7] even with per_page=1. Last error: your query complexity is too high"),
        _ => panic!("expected a failure"),
    }
    let rows = table.into_rows();
    assert_eq!(rows.len(), 1);
    assert_eq!(rows[0].event_name, "Doubles");
    assert_eq!(rows[0].event_date, Some("1970-01-02".to_string()));
}

fn sets_reply(winner: i32) -> SetsPageResponse {
    SetsPageResponse {
        sets: GraphQlReply {
            data: Some(TournamentSetsQuery {
                tournament: Some(SetsTournament {
                    events: Some(vec![
                        Some(SetsEvent {
                            id: id("7"),
                            sets: Some(SetsSetConnection {
                                page_info: Some(PageInfo { total_pages: Some(4) }),
                                nodes: Some(vec![Some(SetsSet {
                                    id: id("s"),
                                    winner_id: Some(winner),
                                    slots: Some(vec![
                                        Some(SetsSetSlot { entrant: Some(Entrant { id: id("1") }) }),
                                        Some(SetsSetSlot { entrant: Some(Entrant { id: id("2") }) }),
                                    ]),
                                })]),
                            }),
                        }),
                        Some(SetsEvent { id: id("99"), sets: None }),
                    ]),
                }),
            }),
            errors: None,
        },
    }
}

#[test]
fn sets_pages_fold_into_the_table() {
    let events = metadata();
    let mut table = EventTable::new();
    ensure_event_accumulator("t", &Some("1".to_string()), &events, &mut table, "7");
    ensure_event_accumulator("t", &Some("1".to_string()), &events, &mut table, "7");
    let mut known = None;
    let changed = process_page_data(
        sets_reply(1),
        ProcessSetsPageContext { tournament_slug: "t", event_by_id: &mut table, known_total_pages: &mut known },
    );
    assert_eq!(changed, Ok(true));
    assert_eq!(known, Some(4));
    let bad = process_page_data(
        SetsPageResponse { sets: GraphQlReply { data: None, errors: None } },
        ProcessSetsPageContext { tournament_slug: "t", event_by_id: &mut table, known_total_pages: &mut known },
    );
    assert_eq!(bad, Err("Missing GraphQL data for t [sets]".to_string()));
    assert_eq!(table.total_rows(), 0);
}

#[test]
fn sets_pager_flow() {
    let mut table = EventTable::new();
    let events = metadata();
    ensure_event_accumulator("t", &None, &events, &mut table, "7");
    let mut pager = SetsPager::new();
    match pager.before_fetch("t") {
        BeforeFetch::Fetch(ev) => assert_eq!(ev.message, "t: downloading page 1..."),
        _ => panic!("expected a fetch"),
    }
    assert_eq!(pager.fetched("t").message, "t: fetched page 1");
    assert!(matches!(pager.process(sets_reply(2), "t", &mut table), SetsStep::Continue));
    assert_eq!(pager.finished("t", 0, 12).message, "t: finished page 1/4 (0 entrants aggregated, total 12 ms)");
    pager.advance();
    match pager.fetch_failed("HTTP 504 for t".to_string(), "t") {
        SetsStep::Retry(ev) => assert_eq!(ev.message, "t: sets request too heavy at page 2 (HTTP 504 for t), reducing sets_per_page to 25, then retrying..."),
        _ => panic!("expected a retry"),
    }
    match pager.fetch_failed("other".to_string(), "t") {
        SetsStep::Fail(m) => assert_eq!(m, "other"),
        _ => panic!("expected a failure"),
    }
    pager.page = 5;
    match pager.before_fetch("t") {
        BeforeFetch::Finish(ev) => assert_eq!(ev.message, "t: Creating CSV file..."),
        _ => panic!("expected the end"),
    }
    pager.page = 1001;
    match pager.before_fetch("t") {
        BeforeFetch::Fail(m) => assert_eq!(m, "Reached pagination safety limit (1000) for 't'."),
        _ => panic!("expected a failure"),
    }
    match finish_tournament(table, "t", 3, 40) {
        Err(m) => assert_eq!(m, "No entrant or set data found for tournament slug 't'."),
        Ok(_) => panic!("no rows were gathered"),
    }
}

#[test]
fn finishing_a_tournament_with_rows() {
    let events = metadata();
    let mut table = EventTable::new();
    let mut pager = EventPager::new(10);
    pager.standings_step(standings_reply(None), "t", "7", "Doubles", &None, &events, &mut table);
    match finish_tournament(table, "t", 3, 40) {
        Ok((rows, done)) => {
            assert_eq!(rows.len(), 1);
            assert_eq!(done.message, "t: complete (1 rows across 2 pages, total 40 ms)");
            assert!(done.done);
            assert_eq!(done.page, 3);
        }
        Err(m) => panic!("{}", m),
    }
}

#[test]
fn command_texts() {
    assert_eq!(save_text_file_result("/x.csv", Ok(())), Ok("Saved file to /x.csv".to_string()));
    assert_eq!(
        save_text_file_result("/x.csv", Err("denied".to_string())),
        Err("Failed to save file to /x.csv: denied".to_string())
    );
    assert_eq!(tournament_json_status_message(200, "t", "json", "{}"), None);
    assert_eq!(
        tournament_json_status_message(500, "t", "html", "err"),
        Some("start.gg returned HTTP 500 for t (content-type: html). Body: err".to_string())
    );
    assert_eq!(
        tournament_json_parse_message("t", "eof", "json", "{"),
        "JSON parse error for t: eof (content-type: json). Body: {"
    );
    assert_eq!(tournament_json_errors_message("[x]"), "GraphQL errors: [x]");
}

#[test]
fn sets_page_overflow_check() {
    let mut table = EventTable::new();
    assert!(table.sets_page_within_counts(&sets_reply(1)));
    assert!(table.sets_page_within_counts(&SetsPageResponse { sets: GraphQlReply { data: None, errors: None } }));
    let mut acc = EventAccumulator::new("t", None, Some("7".to_string()), "Doubles".to_string(), None);
    acc.wins_losses.push(("1".to_string(), (i32::MAX - 2, 0)));
    table.insert_new("7".to_string(), acc);
    assert!(table.sets_page_within_counts(&sets_reply(1)));
    let mut close = EventTable::new();
    let mut acc = EventAccumulator::new("t", None, Some("7".to_string()), "Doubles".to_string(), None);
    acc.wins_losses.push(("2".to_string(), (0, i32::MAX - 1)));
    close.insert_new("7".to_string(), acc);
    assert!(!close.sets_page_within_counts(&sets_reply(1)));
}

#[test]
fn page_targets_of_metadata_entries() {
    let events = metadata();
    assert_eq!(page_target(&events[0]), None);
    assert_eq!(page_target(&events[1]), None);
    assert_eq!(page_target(&events[2]), Some(("7".to_string(), "Doubles".to_string())));
    assert_eq!(page_target(&events[3]), Some(("8".to_string(), "8".to_string())));
}

#[test]
fn row_counts_fit() {
    let events = metadata();
    let mut table = EventTable::new();
    assert!(table.row_count_fits());
    let mut pager = EventPager::new(10);
    pager.standings_step(standings_reply(None), "t", "7", "Doubles", &None, &events, &mut table);
    assert!(table.row_count_fits());
    assert_eq!(table.total_rows(), 1);
}

#[test]
fn rate_limiter_window_slides() {
    let mut limiter = RateLimiter::new();
    let mut granted = 0;
    for k in 0..200u64 {
        if matches!(limiter.try_acquire(k * 500_000_000), SlotDecision::Granted) {
            granted += 1;
        }
    }
    // Requests every half second: the first 80 go through, the rest of the
    // first minute waits, and from then on each request finds the oldest
    // grant a whole window old.
    assert_eq!(granted, 80 + 80);
}
