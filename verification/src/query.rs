//! The decisions of a tournament download: reading the replies of the
//! metadata, standings, entrants and sets queries into the event table,
//! shrinking page sizes that the API finds too heavy, and paging.

use vstd::prelude::*;

use crate::accumulator::{event_tally_items, tally, tally_fits, AccView};
use crate::queries::tournament::{
    MetadataEvent, SetsEvent, TournamentMetadataQuery, TournamentSetsQuery,
};
use crate::accumulator::RowHeader;
use crate::types::{opt_text, EventAccumulator};
use crate::utils::{chrono_utc_format, chrono_utc_in_range, date_pattern, format_event_date, id_to_string};
use crate::table::EventTable;
use crate::text::contains_ascii_folded;

verus! {

/// A GraphQL reply: its data, and its errors (as their debug text) when
/// the API reported any.
pub struct GraphQlReply<T> {
    pub data: Option<T>,
    pub errors: Option<String>,
}

/// The reply to one sets page request.
pub struct SetsPageResponse {
    pub sets: GraphQlReply<TournamentSetsQuery>,
}

/// What a sets page is folded into.
pub struct ProcessSetsPageContext<'a> {
    pub tournament_slug: &'a str,
    pub event_by_id: &'a mut EventTable,
    pub known_total_pages: &'a mut Option<i32>,
}

/// The API's signs that a page asked for too much at once: a complexity
/// error or a gateway timeout, in any letter case.
pub open spec fn page_size_too_high(message: Seq<char>) -> bool {
    crate::text::contains_folded(message, "your query complexity is too high"@)
        || crate::text::contains_folded(message, "http 504"@)
}

pub fn is_page_size_too_high_error(message: &str) -> (res: bool)
    ensures
        res == page_size_too_high(message@),
{
    contains_ascii_folded(message, "your query complexity is too high") || contains_ascii_folded(
        message,
        "http 504",
    )
}

/// The total page count that a sets event reports, if any.
pub open spec fn sets_total_pages(e: SetsEvent) -> Option<i32> {
    match e.sets {
        Some(c) => match c.page_info {
            Some(info) => info.total_pages,
            None => None,
        },
        None => None,
    }
}

/// The largest total page count reported so far.
pub open spec fn merge_total(known: Option<i32>, reported: Option<i32>) -> Option<i32> {
    match reported {
        Some(t) => Some(
            match known {
                Some(p) => if p >= t {
                    p
                } else {
                    t
                },
                None => t,
            },
        ),
        None => known,
    }
}

/// One sets event folded into the accumulators: its reported total merged
/// into the known one, and its results counted when the table has its id.
pub open spec fn sets_event_step(
    accs: Map<Seq<char>, AccView>,
    known: Option<i32>,
    ev: Option<SetsEvent>,
) -> (Map<Seq<char>, AccView>, Option<i32>, bool) {
    match ev {
        None => (accs, known, false),
        Some(e) => {
            let known2 = merge_total(known, sets_total_pages(e));
            match e.id {
                Some(id) => if accs.contains_key(id@) {
                    let a = accs[id@];
                    (
                        accs.insert(id@, AccView { tally: tally(a.tally, event_tally_items(e)), ..a }),
                        known2,
                        event_tally_items(e).len() > 0,
                    )
                } else {
                    (accs, known2, false)
                },
                None => (accs, known2, false),
            }
        },
    }
}

/// All events of a sets page folded in order; reports whether any result
/// was counted.
pub open spec fn sets_page_fold(
    accs: Map<Seq<char>, AccView>,
    known: Option<i32>,
    events: Seq<Option<SetsEvent>>,
) -> (Map<Seq<char>, AccView>, Option<i32>, bool)
    decreases events.len(),
{
    if events.len() == 0 {
        (accs, known, false)
    } else {
        let s = sets_event_step(accs, known, events[0]);
        let r = sets_page_fold(s.0, s.1, events.drop_first());
        (r.0, r.1, s.2 || r.2)
    }
}

/// Every tally of every accumulator fits `i32` counts.
pub open spec fn tallies_fit(accs: Map<Seq<char>, AccView>) -> bool {
    forall|k: Seq<char>| accs.contains_key(k) ==> tally_fits(#[trigger] accs[k].tally)
}

/// Folding only adds to tallies.
pub proof fn lemma_fold_grows(
    accs: Map<Seq<char>, AccView>,
    known: Option<i32>,
    events: Seq<Option<SetsEvent>>,
    key: Seq<char>,
    k: Seq<char>,
)
    requires
        accs.contains_key(key),
        accs[key].tally.contains_key(k),
    ensures
        sets_page_fold(accs, known, events).0.contains_key(key),
        sets_page_fold(accs, known, events).0[key].tally.contains_key(k),
        sets_page_fold(accs, known, events).0[key].tally[k].0 >= accs[key].tally[k].0,
        sets_page_fold(accs, known, events).0[key].tally[k].1 >= accs[key].tally[k].1,
    decreases events.len(),
{
    if events.len() > 0 {
        let s = sets_event_step(accs, known, events[0]);
        if let Some(e) = events[0] {
            if let Some(id) = e.id {
                if accs.contains_key(id@) && id@ == key {
                    crate::accumulator::lemma_tally_grows(accs[key].tally, event_tally_items(e), k);
                }
            }
        }
        lemma_fold_grows(s.0, s.1, events.drop_first(), key, k);
    }
}

/// The events that a sets reply lists.
pub open spec fn reply_sets_events(q: TournamentSetsQuery) -> Seq<Option<SetsEvent>> {
    match q.tournament {
        Some(t) => match t.events {
            Some(v) => v@,
            None => Seq::empty(),
        },
        None => Seq::empty(),
    }
}

/// Folds a sets page into the event table: a reply with GraphQL errors or
/// without data is an error; otherwise every event updates the known total
/// page count and, when the table has it, its win/loss tally. Returns
/// whether any result was counted.
pub fn process_page_data(page_responses: SetsPageResponse, context: ProcessSetsPageContext<'_>) -> (res: Result<bool, String>)
    requires
        old(context.event_by_id).wf(),
        page_responses.sets.errors is None ==> (page_responses.sets.data matches Some(q)
            ==> tallies_fit(
            sets_page_fold(
                old(context.event_by_id).view(),
                *old(context.known_total_pages),
                reply_sets_events(q),
            ).0,
        )),
    ensures
        final(context.event_by_id).wf(),
        final(context.event_by_id).keys() == old(context.event_by_id).keys(),
        match page_responses.sets.errors {
            Some(e) => res matches Err(m) && m@ == "GraphQL errors for "@ + context.tournament_slug@
                + " [sets]: "@ + e@ && final(context.event_by_id).view() == old(
            context.event_by_id).view() && *final(context.known_total_pages) == *old(
            context.known_total_pages),
            None => match page_responses.sets.data {
                None => res matches Err(m) && m@ == "Missing GraphQL data for "@
                    + context.tournament_slug@ + " [sets]"@ && final(context.event_by_id).view()
                    == old(context.event_by_id).view() && *final(context.known_total_pages) == *old(
                context.known_total_pages),
                Some(q) => {
                    let f = sets_page_fold(
                        old(context.event_by_id).view(),
                        *old(context.known_total_pages),
                        reply_sets_events(q),
                    );
                    &&& res == Ok::<bool, String>(f.2)
                    &&& final(context.event_by_id).view() == f.0
                    &&& *final(context.known_total_pages) == f.1
                },
            },
        },
{
    let ProcessSetsPageContext { tournament_slug, event_by_id, known_total_pages } = context;
    let SetsPageResponse { sets: sets_response } = page_responses;
    if let Some(errors) = sets_response.errors {
        let mut m = String::from_str("GraphQL errors for ");
        m.append(tournament_slug);
        m.append(" [sets]: ");
        m.append(errors.as_str());
        return Err(m);
    }
    let sets_data = match sets_response.data {
        Some(d) => d,
        None => {
            let mut m = String::from_str("Missing GraphQL data for ");
            m.append(tournament_slug);
            m.append(" [sets]");
            return Err(m);
        },
    };
    let ghost all = reply_sets_events(sets_data);
    let ghost target = sets_page_fold(event_by_id.view(), *known_total_pages, all);
    let sets_events: Vec<Option<SetsEvent>> = match sets_data.tournament {
        Some(t) => match t.events {
            Some(v) => v,
            None => Vec::new(),
        },
        None => Vec::new(),
    };
    assert(sets_events@ =~= all);
    let mut events = sets_events;
    let mut page_added_any_data = false;
    let ghost mut rem = all;
    let ghost mut done_any = false;
    proof {
        assert(all.skip(0) =~= all);
    }
    let mut i: usize = 0;
    let n = events.len();
    while i < n
        invariant
            n == events.len(),
            i <= n,
            event_by_id.wf(),
            event_by_id.keys() == old(context.event_by_id).keys(),
            forall|j: int| i <= j < n ==> events@[j] == all[j],
            all.len() == n,
            rem == all.skip(i as int),
            ({
                let r = sets_page_fold(event_by_id.view(), *known_total_pages, rem);
                &&& r.0 == target.0
                &&& r.1 == target.1
                &&& (page_added_any_data || r.2) == target.2
            }),
            tallies_fit(target.0),
        decreases n - i,
    {
        let ghost accs = event_by_id.view();
        let ghost known = *known_total_pages;
        proof {
            assert(rem[0] == all[i as int]);
            assert(rem.drop_first() =~= all.skip(i + 1));
        }
        let mut slot: Option<SetsEvent> = None;
        events.set_and_swap(i, &mut slot);
        assert(slot == all[i as int]);
        let ghost step = sets_event_step(accs, known, slot);
        if let Some(event) = slot {
            let reported = match &event.sets {
                Some(conn) => match &conn.page_info {
                    Some(info) => info.total_pages,
                    None => None,
                },
                None => None,
            };
            if let Some(total_pages) = reported {
                *known_total_pages = Some(
                    match *known_total_pages {
                        Some(previous) => if previous >= total_pages {
                            previous
                        } else {
                            total_pages
                        },
                        None => total_pages,
                    },
                );
            }
            let key = match &event.id {
                Some(id) => Some(crate::utils::id_to_string(id)),
                None => None,
            };
            if let Some(event_id_key) = key {
                proof {
                    if accs.contains_key(event_id_key@) {
                        let a = accs[event_id_key@];
                        assert forall|k: Seq<char>|
                            #[trigger] tally(a.tally, event_tally_items(event)).contains_key(k) implies tally(
                            a.tally,
                            event_tally_items(event),
                        )[k].0 <= i32::MAX && tally(a.tally, event_tally_items(event))[k].1
                            <= i32::MAX by {
                            lemma_fold_grows(step.0, step.1, rem.drop_first(), event_id_key@, k);
                        }
                    }
                }
                match event_by_id.absorb_sets(event_id_key.as_str(), event) {
                    Some(changed) => {
                        page_added_any_data = page_added_any_data || changed;
                    },
                    None => {},
                }
            }
        }
        proof {
            rem = rem.drop_first();
        }
        i = i + 1;
    }
    Ok(page_added_any_data)
}

/// The first metadata event whose id is `key`.
pub open spec fn metadata_for(events: Seq<Option<MetadataEvent>>, key: Seq<char>) -> Option<MetadataEvent>
    decreases events.len(),
{
    if events.len() == 0 {
        None
    } else {
        match events[0] {
            Some(e) => match e.id {
                Some(id) => if id@ == key {
                    Some(e)
                } else {
                    metadata_for(events.drop_first(), key)
                },
                None => metadata_for(events.drop_first(), key),
            },
            None => metadata_for(events.drop_first(), key),
        }
    }
}

/// An event's name (empty if unknown) and start date (if known and
/// representable).
pub open spec fn event_name_and_date(events: Seq<Option<MetadataEvent>>, key: Seq<char>) -> (Seq<char>, Option<Seq<char>>) {
    match metadata_for(events, key) {
        Some(e) => (
            match e.name {
                Some(n) => n@,
                None => Seq::empty(),
            },
            match e.start_at {
                Some(ts) => if chrono_utc_in_range(ts.0 as int) {
                    Some(chrono_utc_format(ts.0, date_pattern()))
                } else {
                    None
                },
                None => None,
            },
        ),
        None => (Seq::empty(), None),
    }
}

/// Looks up an event's name and start date among the metadata events.
pub fn event_metadata_by_id(metadata_events: &[Option<MetadataEvent>], event_id_key: &str) -> (res: (String, Option<String>))
    ensures
        (res.0@, opt_text(res.1)) == event_name_and_date(metadata_events@, event_id_key@),
{
    let mut i: usize = 0;
    assert(metadata_events@.skip(0) =~= metadata_events@);
    while i < metadata_events.len()
        invariant
            i <= metadata_events@.len(),
            metadata_for(metadata_events@, event_id_key@) == metadata_for(
                metadata_events@.skip(i as int),
                event_id_key@,
            ),
        decreases metadata_events@.len() - i,
    {
        proof {
            assert(metadata_events@.skip(i as int).drop_first() =~= metadata_events@.skip(i + 1));
            assert(metadata_events@.skip(i as int)[0] == metadata_events@[i as int]);
        }
        if let Some(event) = &metadata_events[i] {
            if let Some(id) = &event.id {
                let metadata_event_id = id_to_string(id);
                if crate::text::str_eq(metadata_event_id.as_str(), event_id_key) {
                    let name = match &event.name {
                        Some(n) => n.clone(),
                        None => String::new(),
                    };
                    let date = match &event.start_at {
                        Some(timestamp) => format_event_date(timestamp.0),
                        None => None,
                    };
                    return (name, date);
                }
            }
        }
        i = i + 1;
    }
    assert(metadata_events@.skip(i as int) =~= Seq::<Option<MetadataEvent>>::empty());
    (String::new(), None)
}

/// The accumulator that `ensure_event_accumulator` creates for an event.
pub open spec fn new_event_view(
    slug: Seq<char>,
    tournament_id: Option<Seq<char>>,
    events: Seq<Option<MetadataEvent>>,
    key: Seq<char>,
) -> AccView {
    let nd = event_name_and_date(events, key);
    AccView {
        header: RowHeader {
            tournament_slug: slug,
            tournament_id,
            event_id: Some(key),
            event_name: nd.0,
            event_date: nd.1,
        },
        rows: Seq::empty(),
        tally: Map::empty(),
    }
}

/// Makes sure the table has an accumulator for `event_id_key`, creating an
/// empty one with the event's metadata when it has none.
pub fn ensure_event_accumulator(
    tournament_slug: &str,
    tournament_id: &Option<String>,
    metadata_events: &[Option<MetadataEvent>],
    event_by_id: &mut EventTable,
    event_id_key: &str,
)
    requires
        old(event_by_id).wf(),
    ensures
        final(event_by_id).wf(),
        if old(event_by_id).view().contains_key(event_id_key@) {
            &&& final(event_by_id).view() == old(event_by_id).view()
            &&& final(event_by_id).keys() == old(event_by_id).keys()
        } else {
            &&& final(event_by_id).view() == old(event_by_id).view().insert(
                event_id_key@,
                new_event_view(
                    tournament_slug@,
                    opt_text(*tournament_id),
                    metadata_events@,
                    event_id_key@,
                ),
            )
            &&& final(event_by_id).keys() == old(event_by_id).keys().push(event_id_key@)
        },
{
    if event_by_id.contains_key(event_id_key) {
        return;
    }
    let (event_name, event_date) = event_metadata_by_id(metadata_events, event_id_key);
    let tid = match tournament_id {
        Some(t) => Some(t.clone()),
        None => None,
    };
    let acc = EventAccumulator::new(
        tournament_slug,
        tid,
        Some(String::from_str(event_id_key)),
        event_name,
        event_date,
    );
    event_by_id.insert_new(String::from_str(event_id_key), acc);
}

/// What a metadata reply gives: the tournament id and its events, or why
/// there is nothing to download.
pub open spec fn metadata_outcome(reply: GraphQlReply<TournamentMetadataQuery>, slug: Seq<char>) -> Result<(Option<Seq<char>>, Seq<Option<MetadataEvent>>), Seq<char>> {
    match reply.errors {
        Some(e) => Err("GraphQL errors for "@ + slug + " [metadata]: "@ + e@),
        None => match reply.data {
            None => Err("Missing GraphQL data for "@ + slug + " [metadata]"@),
            Some(d) => match d.tournament {
                None => Err(
                    "Tournament not found for slug '"@ + slug
                        + "'. Use a tournament slug like tournament/my-event."@,
                ),
                Some(t) => {
                    let events = match t.events {
                        Some(v) => v@,
                        None => Seq::empty(),
                    };
                    if events.len() == 0 {
                        Err("No events found for tournament slug '"@ + slug + "'."@)
                    } else {
                        Ok(
                            (
                                match t.id {
                                    Some(id) => Some(id@),
                                    None => None,
                                },
                                events,
                            ),
                        )
                    }
                },
            },
        },
    }
}

/// Reads the metadata reply of a tournament.
pub fn read_tournament_metadata(reply: GraphQlReply<TournamentMetadataQuery>, tournament_slug: &str) -> (res: Result<(Option<String>, Vec<Option<MetadataEvent>>), String>)
    ensures
        match (res, metadata_outcome(reply, tournament_slug@)) {
            (Ok(v), Ok(w)) => opt_text(v.0) == w.0 && v.1@ == w.1,
            (Err(m), Err(n)) => m@ == n,
            _ => false,
        },
{
    if let Some(errors) = reply.errors {
        let mut m = String::from_str("GraphQL errors for ");
        m.append(tournament_slug);
        m.append(" [metadata]: ");
        m.append(errors.as_str());
        return Err(m);
    }
    let metadata_data = match reply.data {
        Some(d) => d,
        None => {
            let mut m = String::from_str("Missing GraphQL data for ");
            m.append(tournament_slug);
            m.append(" [metadata]");
            return Err(m);
        },
    };
    let metadata_tournament = match metadata_data.tournament {
        Some(t) => t,
        None => {
            let mut m = String::from_str("Tournament not found for slug '");
            m.append(tournament_slug);
            m.append("'. Use a tournament slug like tournament/my-event.");
            return Err(m);
        },
    };
    let tournament_id = match &metadata_tournament.id {
        Some(id) => Some(id_to_string(id)),
        None => None,
    };
    let metadata_events = match metadata_tournament.events {
        Some(v) => v,
        None => Vec::new(),
    };
    if metadata_events.len() == 0 {
        let mut m = String::from_str("No events found for tournament slug '");
        m.append(tournament_slug);
        m.append("'.");
        return Err(m);
    }
    Ok((tournament_id, metadata_events))
}

} // verus!
