//! Paging through an event's standings or entrants: what each reply calls
//! for, with the page size halved while the API finds pages too heavy.

use vstd::prelude::*;

use crate::accumulator::{apply_entrants, apply_standings, connection_entrant_updates, connection_standing_updates, AccView};
use crate::queries::tournament::{EventEntrantsQuery, EventStandingsQuery, MetadataEvent};
use crate::query::{process_page_data, reply_sets_events, sets_page_fold, tallies_fit, ProcessSetsPageContext, SetsPageResponse, ensure_event_accumulator, is_page_size_too_high_error, new_event_view, page_size_too_high, GraphQlReply};
use crate::table::{finished_rows, EventTable};
use crate::text::{i64_to_string, int_decimal, nat_to_string};
use crate::types::{opt_text, DownloadProgressEvent, ProgressView, RowView, TournamentRow};
use crate::utils::{format_page_counter, id_to_string, page_counter};

verus! {

/// Where the paging of one event stands.
pub struct EventPager {
    pub page: i32,
    pub total_pages: i32,
    pub per_page: i32,
}

/// What a reply calls for.
pub enum PageStep {
    /// Ask for the same page again (the page size was reduced); the notice
    /// says so.
    Retry(DownloadProgressEvent),
    /// Stop the download with this message.
    Fail(String),
    /// Go on with the next page (the pager has moved to it).
    Next,
    /// This event is done.
    Done,
}

/// The page size after a too-heavy reply: half, but at least one.
pub open spec fn shrunk(per_page: i32) -> i32 {
    if per_page / 2 >= 1 {
        (per_page / 2) as i32
    } else {
        1
    }
}

/// A progress notice that is not the last.
pub open spec fn notice(slug: Seq<char>, page: i32, message: Seq<char>) -> ProgressView {
    ProgressView { tournament_slug: slug, page, message, done: false }
}

/// `"{slug} [{kind} {key}]"`
pub open spec fn event_tag(slug: Seq<char>, kind: Seq<char>, key: Seq<char>) -> Seq<char> {
    slug + " ["@ + kind + " "@ + key + "]"@
}

pub open spec fn still_heavy_message(slug: Seq<char>, kind: Seq<char>, key: Seq<char>, last: Seq<char>) -> Seq<char> {
    "Query is still too heavy for "@ + event_tag(slug, kind, key) + " even with per_page=1. Last error: "@
        + last
}

/// The notice after a request that failed as too heavy.
pub open spec fn request_heavy_note(slug: Seq<char>, kind: Seq<char>, name: Seq<char>, error: Seq<char>, per_page: i32, page: i32) -> Seq<char> {
    slug + ": "@ + kind + " request for "@ + name + " was too heavy ("@ + error
        + "), reducing per_page to "@ + int_decimal(per_page as int) + " and retrying page "@
        + int_decimal(page as int) + "..."@
}

/// The notice after a reply whose GraphQL errors say it was too heavy.
pub open spec fn query_heavy_note(slug: Seq<char>, kind: Seq<char>, name: Seq<char>, per_page: i32, page: i32) -> Seq<char> {
    slug + ": "@ + kind + " query for "@ + name + " too heavy, reducing per_page to "@
        + int_decimal(per_page as int) + " and retrying page "@ + int_decimal(page as int) + "..."@
}

pub open spec fn graphql_errors_message(slug: Seq<char>, kind: Seq<char>, key: Seq<char>, errors: Seq<char>) -> Seq<char> {
    "GraphQL errors for "@ + event_tag(slug, kind, key) + ": "@ + errors
}

pub open spec fn missing_data_message(slug: Seq<char>, kind: Seq<char>, key: Seq<char>) -> Seq<char> {
    "Missing GraphQL data for "@ + event_tag(slug, kind, key)
}

/// The table with an accumulator for `key` ensured.
pub open spec fn ensured(
    accs: Map<Seq<char>, AccView>,
    slug: Seq<char>,
    tournament_id: Option<Seq<char>>,
    events: Seq<Option<MetadataEvent>>,
    key: Seq<char>,
) -> Map<Seq<char>, AccView> {
    if accs.contains_key(key) {
        accs
    } else {
        accs.insert(key, new_event_view(slug, tournament_id, events, key))
    }
}

/// What a too-heavy reply leads to: with the page size already one, a
/// failure (pager unchanged); else a halved page size and a notice that
/// the same page is asked for again.
pub open spec fn heavy_outcome(
    before: EventPager,
    after: EventPager,
    res: PageStep,
    after_request: bool,
    slug: Seq<char>,
    kind: Seq<char>,
    key: Seq<char>,
    name: Seq<char>,
    error: Seq<char>,
) -> bool {
    &&& after.page == before.page
    &&& after.total_pages == before.total_pages
    &&& if shrunk(before.per_page) == before.per_page {
        &&& after.per_page == before.per_page
        &&& res matches PageStep::Fail(m) && m@ == still_heavy_message(slug, kind, key, error)
    } else {
        &&& after.per_page == shrunk(before.per_page)
        &&& res matches PageStep::Retry(ev) && ev@ == notice(
            slug,
            before.page,
            if after_request {
                request_heavy_note(slug, kind, name, error, after.per_page, before.page)
            } else {
                query_heavy_note(slug, kind, name, after.per_page, before.page)
            },
        )
    }
}

/// The total page count that a standings or entrants page reports, made
/// at least one; the old count when none is reported.
pub open spec fn next_total(reported: Option<i32>, old_total: i32) -> i32 {
    match reported {
        Some(t) => if t >= 1 {
            t
        } else {
            1
        },
        None => old_total,
    }
}

/// After a page was folded in: done when it was the last, else on to the
/// next page.
pub open spec fn advance_outcome(before: EventPager, after: EventPager, res: PageStep, total: i32) -> bool {
    &&& after.total_pages == total
    &&& after.per_page == before.per_page
    &&& if before.page >= total {
        res is Done && after.page == before.page
    } else {
        res is Next && after.page == before.page + 1
    }
}

fn event_tag_text(slug: &str, kind: &str, key: &str) -> (res: String)
    ensures
        res@ == event_tag(slug@, kind@, key@),
{
    let mut m = String::from_str(slug);
    m.append(" [");
    m.append(kind);
    m.append(" ");
    m.append(key);
    m.append("]");
    m
}

impl EventPager {
    /// The pager is on a real page with a real page size.
    pub open spec fn wf(&self) -> bool {
        self.page >= 1 && self.total_pages >= 1 && self.per_page >= 1
    }

    /// Page one of (so far) one, with the given page size (at least one).
    pub fn new(per_page: i32) -> (res: EventPager)
        ensures
            res.wf(),
            res.page == 1,
            res.total_pages == 1,
            res.per_page == if per_page >= 1 {
                per_page
            } else {
                1
            },
    {
        EventPager { page: 1, total_pages: 1, per_page: if per_page >= 1 { per_page } else { 1 } }
    }

    /// `"{slug}: downloading {kind} for {name} ({page}/{total})..."`
    pub fn downloading(&self, tournament_slug: &str, kind: &str, event_name: &str) -> (res: DownloadProgressEvent)
        ensures
            res@ == notice(
                tournament_slug@,
                self.page,
                tournament_slug@ + ": downloading "@ + kind@ + " for "@ + event_name@ + " ("@
                    + int_decimal(self.page as int) + "/"@ + int_decimal(self.total_pages as int)
                    + ")..."@,
            ),
    {
        let mut m = String::from_str(tournament_slug);
        m.append(": downloading ");
        m.append(kind);
        m.append(" for ");
        m.append(event_name);
        m.append(" (");
        m.append(i64_to_string(self.page as i64).as_str());
        m.append("/");
        m.append(i64_to_string(self.total_pages as i64).as_str());
        m.append(")...");
        DownloadProgressEvent {
            tournament_slug: String::from_str(tournament_slug),
            page: self.page,
            message: m,
            done: false,
        }
    }

    /// Halves the page size after a too-heavy reply; fails when it is
    /// already one. `after_request` tells a failed request from a reply
    /// with too-heavy GraphQL errors (they are reported differently).
    fn shrink_or_fail(
        &mut self,
        error: String,
        after_request: bool,
        tournament_slug: &str,
        kind: &str,
        event_id_key: &str,
        event_name: &str,
    ) -> (res: PageStep)
        requires
            old(self).wf(),
        ensures
            final(self).wf(),
            heavy_outcome(
                *old(self),
                *final(self),
                res,
                after_request,
                tournament_slug@,
                kind@,
                event_id_key@,
                event_name@,
                error@,
            ),
    {
        let half = self.per_page / 2;
        let reduced = if half >= 1 { half } else { 1 };
        if reduced == self.per_page {
            let mut m = String::from_str("Query is still too heavy for ");
            m.append(event_tag_text(tournament_slug, kind, event_id_key).as_str());
            m.append(" even with per_page=1. Last error: ");
            m.append(error.as_str());
            return PageStep::Fail(m);
        }
        self.per_page = reduced;
        let mut m = String::from_str(tournament_slug);
        m.append(": ");
        m.append(kind);
        if after_request {
            m.append(" request for ");
            m.append(event_name);
            m.append(" was too heavy (");
            m.append(error.as_str());
            m.append("), reducing per_page to ");
        } else {
            m.append(" query for ");
            m.append(event_name);
            m.append(" too heavy, reducing per_page to ");
        }
        m.append(i64_to_string(self.per_page as i64).as_str());
        m.append(" and retrying page ");
        m.append(i64_to_string(self.page as i64).as_str());
        m.append("...");
        PageStep::Retry(
            DownloadProgressEvent {
                tournament_slug: String::from_str(tournament_slug),
                page: self.page,
                message: m,
                done: false,
            },
        )
    }
}

impl EventPager {
    /// Takes in the reply to a standings page request (or the request's
    /// error): shrinks the page size on too-heavy errors, fails on other
    /// errors or missing data, is done when the API has no such event,
    /// and otherwise folds the page into the event's accumulator (made
    /// first if needed, under the id the reply gives) and moves on.
    pub fn standings_step(
        &mut self,
        fetched: Result<GraphQlReply<EventStandingsQuery>, String>,
        tournament_slug: &str,
        event_id_key: &str,
        event_name: &str,
        tournament_id: &Option<String>,
        metadata_events: &[Option<MetadataEvent>],
        event_by_id: &mut EventTable,
    ) -> (res: PageStep)
        requires
            old(self).wf(),
            old(event_by_id).wf(),
        ensures
            final(self).wf(),
            final(event_by_id).wf(),
            match fetched {
                Err(msg) => {
                    &&& final(event_by_id).view() == old(event_by_id).view()
                    &&& final(event_by_id).keys() == old(event_by_id).keys()
                    &&& if page_size_too_high(msg@) {
                        heavy_outcome(*old(self), *final(self), res, true, tournament_slug@, "standings"@, event_id_key@, event_name@, msg@)
                    } else {
                        res matches PageStep::Fail(m) && m@ == msg@ && *final(self) == *old(self)
                    }
                },
                Ok(reply) => match reply.errors {
                    Some(e) => {
                        let msg = graphql_errors_message(tournament_slug@, "standings"@, event_id_key@, e@);
                        &&& final(event_by_id).view() == old(event_by_id).view()
                        &&& final(event_by_id).keys() == old(event_by_id).keys()
                        &&& if page_size_too_high(msg) {
                            heavy_outcome(*old(self), *final(self), res, false, tournament_slug@, "standings"@, event_id_key@, event_name@, msg)
                        } else {
                            res matches PageStep::Fail(m) && m@ == msg && *final(self) == *old(self)
                        }
                    },
                    None => match reply.data {
                        None => {
                            &&& res matches PageStep::Fail(m) && m@ == missing_data_message(tournament_slug@, "standings"@, event_id_key@)
                            &&& *final(self) == *old(self)
                            &&& final(event_by_id).view() == old(event_by_id).view()
                            &&& final(event_by_id).keys() == old(event_by_id).keys()
                        },
                        Some(d) => match d.event {
                            None => {
                                &&& res is Done
                                &&& *final(self) == *old(self)
                                &&& final(event_by_id).view() == old(event_by_id).view()
                                &&& final(event_by_id).keys() == old(event_by_id).keys()
                            },
                            Some(ev) => {
                                let reported = match ev.standings {
                                    Some(c) => match c.page_info {
                                        Some(info) => info.total_pages,
                                        None => None,
                                    },
                                    None => None,
                                };
                                let resolved = match ev.id {
                                    Some(id) => id@,
                                    None => event_id_key@,
                                };
                                let base = ensured(old(event_by_id).view(), tournament_slug@, opt_text(*tournament_id), metadata_events@, resolved);
                                let a = base[resolved];
                                &&& final(event_by_id).view() == base.insert(
                                    resolved,
                                    AccView { rows: apply_standings(a.header, a.rows, connection_standing_updates(ev.standings)).0, ..a },
                                )
                                &&& final(event_by_id).keys() == if old(event_by_id).view().contains_key(resolved) {
                                    old(event_by_id).keys()
                                } else {
                                    old(event_by_id).keys().push(resolved)
                                }
                                &&& advance_outcome(*old(self), *final(self), res, next_total(reported, old(self).total_pages))
                            },
                        },
                    },
                },
            },
    {
        let reply = match fetched {
            Err(error_message) => {
                if is_page_size_too_high_error(error_message.as_str()) {
                    return self.shrink_or_fail(error_message, true, tournament_slug, "standings", event_id_key, event_name);
                }
                return PageStep::Fail(error_message);
            },
            Ok(r) => r,
        };
        if let Some(errors) = reply.errors {
            let mut m = String::from_str("GraphQL errors for ");
            m.append(event_tag_text(tournament_slug, "standings", event_id_key).as_str());
            m.append(": ");
            m.append(errors.as_str());
            if is_page_size_too_high_error(m.as_str()) {
                return self.shrink_or_fail(m, false, tournament_slug, "standings", event_id_key, event_name);
            }
            return PageStep::Fail(m);
        }
        let data = match reply.data {
            Some(d) => d,
            None => {
                let mut m = String::from_str("Missing GraphQL data for ");
                m.append(event_tag_text(tournament_slug, "standings", event_id_key).as_str());
                return PageStep::Fail(m);
            },
        };
        let event = match data.event {
            Some(e) => e,
            None => {
                return PageStep::Done;
            },
        };
        let reported = match &event.standings {
            Some(c) => match &c.page_info {
                Some(info) => info.total_pages,
                None => None,
            },
            None => None,
        };
        if let Some(found_total_pages) = reported {
            self.total_pages = if found_total_pages >= 1 { found_total_pages } else { 1 };
        }
        let resolved_event_id = match &event.id {
            Some(id) => id_to_string(id),
            None => String::from_str(event_id_key),
        };
        ensure_event_accumulator(
            tournament_slug,
            tournament_id,
            metadata_events,
            event_by_id,
            resolved_event_id.as_str(),
        );
        event_by_id.absorb_standings(resolved_event_id.as_str(), event);
        if self.page >= self.total_pages {
            return PageStep::Done;
        }
        self.page = self.page + 1;
        PageStep::Next
    }
}

impl EventPager {
    /// Takes in the reply to an entrants page request (or the request's
    /// error): shrinks the page size on too-heavy errors, fails on other
    /// errors or missing data, is done when the API has no such event,
    /// and otherwise folds the page into the event's accumulator (made
    /// first if needed, under the id the reply gives) and moves on.
    pub fn entrants_step(
        &mut self,
        fetched: Result<GraphQlReply<EventEntrantsQuery>, String>,
        tournament_slug: &str,
        event_id_key: &str,
        event_name: &str,
        tournament_id: &Option<String>,
        metadata_events: &[Option<MetadataEvent>],
        event_by_id: &mut EventTable,
    ) -> (res: PageStep)
        requires
            old(self).wf(),
            old(event_by_id).wf(),
        ensures
            final(self).wf(),
            final(event_by_id).wf(),
            match fetched {
                Err(msg) => {
                    &&& final(event_by_id).view() == old(event_by_id).view()
                    &&& final(event_by_id).keys() == old(event_by_id).keys()
                    &&& if page_size_too_high(msg@) {
                        heavy_outcome(*old(self), *final(self), res, true, tournament_slug@, "entrants"@, event_id_key@, event_name@, msg@)
                    } else {
                        res matches PageStep::Fail(m) && m@ == msg@ && *final(self) == *old(self)
                    }
                },
                Ok(reply) => match reply.errors {
                    Some(e) => {
                        let msg = graphql_errors_message(tournament_slug@, "entrants"@, event_id_key@, e@);
                        &&& final(event_by_id).view() == old(event_by_id).view()
                        &&& final(event_by_id).keys() == old(event_by_id).keys()
                        &&& if page_size_too_high(msg) {
                            heavy_outcome(*old(self), *final(self), res, false, tournament_slug@, "entrants"@, event_id_key@, event_name@, msg)
                        } else {
                            res matches PageStep::Fail(m) && m@ == msg && *final(self) == *old(self)
                        }
                    },
                    None => match reply.data {
                        None => {
                            &&& res matches PageStep::Fail(m) && m@ == missing_data_message(tournament_slug@, "entrants"@, event_id_key@)
                            &&& *final(self) == *old(self)
                            &&& final(event_by_id).view() == old(event_by_id).view()
                            &&& final(event_by_id).keys() == old(event_by_id).keys()
                        },
                        Some(d) => match d.event {
                            None => {
                                &&& res is Done
                                &&& *final(self) == *old(self)
                                &&& final(event_by_id).view() == old(event_by_id).view()
                                &&& final(event_by_id).keys() == old(event_by_id).keys()
                            },
                            Some(ev) => {
                                let reported = match ev.entrants {
                                    Some(c) => match c.page_info {
                                        Some(info) => info.total_pages,
                                        None => None,
                                    },
                                    None => None,
                                };
                                let resolved = match ev.id {
                                    Some(id) => id@,
                                    None => event_id_key@,
                                };
                                let base = ensured(old(event_by_id).view(), tournament_slug@, opt_text(*tournament_id), metadata_events@, resolved);
                                let a = base[resolved];
                                &&& final(event_by_id).view() == base.insert(
                                    resolved,
                                    AccView { rows: apply_entrants(a.header, a.rows, connection_entrant_updates(ev.entrants)).0, ..a },
                                )
                                &&& final(event_by_id).keys() == if old(event_by_id).view().contains_key(resolved) {
                                    old(event_by_id).keys()
                                } else {
                                    old(event_by_id).keys().push(resolved)
                                }
                                &&& advance_outcome(*old(self), *final(self), res, next_total(reported, old(self).total_pages))
                            },
                        },
                    },
                },
            },
    {
        let reply = match fetched {
            Err(error_message) => {
                if is_page_size_too_high_error(error_message.as_str()) {
                    return self.shrink_or_fail(error_message, true, tournament_slug, "entrants", event_id_key, event_name);
                }
                return PageStep::Fail(error_message);
            },
            Ok(r) => r,
        };
        if let Some(errors) = reply.errors {
            let mut m = String::from_str("GraphQL errors for ");
            m.append(event_tag_text(tournament_slug, "entrants", event_id_key).as_str());
            m.append(": ");
            m.append(errors.as_str());
            if is_page_size_too_high_error(m.as_str()) {
                return self.shrink_or_fail(m, false, tournament_slug, "entrants", event_id_key, event_name);
            }
            return PageStep::Fail(m);
        }
        let data = match reply.data {
            Some(d) => d,
            None => {
                let mut m = String::from_str("Missing GraphQL data for ");
                m.append(event_tag_text(tournament_slug, "entrants", event_id_key).as_str());
                return PageStep::Fail(m);
            },
        };
        let event = match data.event {
            Some(e) => e,
            None => {
                return PageStep::Done;
            },
        };
        let reported = match &event.entrants {
            Some(c) => match &c.page_info {
                Some(info) => info.total_pages,
                None => None,
            },
            None => None,
        };
        if let Some(found_total_pages) = reported {
            self.total_pages = if found_total_pages >= 1 { found_total_pages } else { 1 };
        }
        let resolved_event_id = match &event.id {
            Some(id) => id_to_string(id),
            None => String::from_str(event_id_key),
        };
        ensure_event_accumulator(
            tournament_slug,
            tournament_id,
            metadata_events,
            event_by_id,
            resolved_event_id.as_str(),
        );
        event_by_id.absorb_entrants(resolved_event_id.as_str(), event);
        if self.page >= self.total_pages {
            return PageStep::Done;
        }
        self.page = self.page + 1;
        PageStep::Next
    }
}

/// The event that a metadata entry asks to page through: its id's text,
/// and the name to show (its name, else its id's text); none for an entry
/// without an id.
pub open spec fn event_target(entry: Option<MetadataEvent>) -> Option<(Seq<char>, Seq<char>)> {
    match entry {
        Some(ev) => match ev.id {
            Some(id) => Some(
                (
                    id@,
                    match ev.name {
                        Some(n) => n@,
                        None => id@,
                    },
                ),
            ),
            None => None,
        },
        None => None,
    }
}

/// The id text and display name of the event that a metadata entry asks
/// to page through; `None` for an entry without an event or an id.
pub fn page_target(entry: &Option<MetadataEvent>) -> (res: Option<(String, String)>)
    ensures
        match res {
            Some((key, name)) => event_target(*entry) == Some((key@, name@)),
            None => event_target(*entry) is None,
        },
{
    match entry {
        Some(ev) => match &ev.id {
            Some(id) => {
                let key = id_to_string(id);
                let name = match &ev.name {
                    Some(n) => n.clone(),
                    None => key.clone(),
                };
                Some((key, name))
            },
            None => None,
        },
        None => None,
    }
}

/// Standings rows asked for per page at first.
pub const INITIAL_STANDINGS_PER_PAGE: i32 = 10;

/// Entrants asked for per page.
pub const ENTRANTS_PER_PAGE: i32 = 50;

/// Sets asked for per page at first.
pub const INITIAL_SETS_PER_PAGE: i32 = 50;

/// Sets pages read at most per tournament.
pub const MAX_PAGES_PER_TOURNAMENT: i32 = 1000;

/// Where the paging of a tournament's sets stands.
pub struct SetsPager {
    pub page: i32,
    pub known_total_pages: Option<i32>,
    pub sets_per_page: i32,
}

/// What to do before asking for a sets page.
pub enum BeforeFetch {
    /// Stop the download with this message.
    Fail(String),
    /// All pages are read; announce it and stop paging.
    Finish(DownloadProgressEvent),
    /// Announce the request and send it.
    Fetch(DownloadProgressEvent),
}

/// What a sets reply calls for.
pub enum SetsStep {
    /// Ask for the same page again with the reduced page size.
    Retry(DownloadProgressEvent),
    /// Stop the download with this message.
    Fail(String),
    /// The page counted nothing: paging stops.
    Stop,
    /// The page counted results: announce it, then go to the next page.
    Continue,
}

pub open spec fn sets_heavy_message(slug: Seq<char>, page: i32, last: Seq<char>) -> Seq<char> {
    "Query is still too heavy for "@ + slug + " at page "@ + int_decimal(page as int)
        + " even with per_page=1. Last error: "@ + last
}

/// What a too-heavy sets reply leads to: with the page size already one, a
/// failure (pager unchanged); else a halved page size and a notice.
pub open spec fn sets_heavy_outcome(
    before: SetsPager,
    after: SetsPager,
    res: SetsStep,
    after_request: bool,
    slug: Seq<char>,
    error: Seq<char>,
) -> bool {
    &&& after.page == before.page
    &&& after.known_total_pages == before.known_total_pages
    &&& if shrunk(before.sets_per_page) == before.sets_per_page {
        &&& after.sets_per_page == before.sets_per_page
        &&& res matches SetsStep::Fail(m) && m@ == sets_heavy_message(slug, before.page, error)
    } else {
        &&& after.sets_per_page == shrunk(before.sets_per_page)
        &&& res matches SetsStep::Retry(ev) && ev@ == notice(
            slug,
            before.page,
            if after_request {
                slug + ": sets request too heavy at page "@ + int_decimal(before.page as int) + " ("@
                    + error + "), reducing sets_per_page to "@ + int_decimal(
                    after.sets_per_page as int,
                ) + ", then retrying..."@
            } else {
                slug + ": sets query too heavy at page "@ + int_decimal(before.page as int)
                    + ", reducing sets_per_page to "@ + int_decimal(after.sets_per_page as int)
                    + ", then retrying..."@
            },
        )
    }
}

impl SetsPager {
    pub open spec fn wf(&self) -> bool {
        self.page >= 1 && self.sets_per_page >= 1
    }

    /// Page one, total unknown, the initial page size.
    pub fn new() -> (res: SetsPager)
        ensures
            res.wf(),
            res.page == 1,
            res.known_total_pages is None,
            res.sets_per_page == INITIAL_SETS_PER_PAGE,
    {
        SetsPager { page: 1, known_total_pages: None, sets_per_page: INITIAL_SETS_PER_PAGE }
    }

    /// Before each request: fail past the page limit, finish past the
    /// known last page, else announce the request.
    pub fn before_fetch(&self, tournament_slug: &str) -> (res: BeforeFetch)
        ensures
            if self.page > MAX_PAGES_PER_TOURNAMENT {
                res matches BeforeFetch::Fail(m) && m@ == "Reached pagination safety limit ("@
                    + int_decimal(MAX_PAGES_PER_TOURNAMENT as int) + ") for '"@ + tournament_slug@
                    + "'."@
            } else if self.known_total_pages matches Some(t) && self.page > t {
                res matches BeforeFetch::Finish(ev) && ev@ == notice(
                    tournament_slug@,
                    self.page,
                    tournament_slug@ + ": Creating CSV file..."@,
                )
            } else {
                res matches BeforeFetch::Fetch(ev) && ev@ == notice(
                    tournament_slug@,
                    self.page,
                    tournament_slug@ + ": downloading "@ + page_counter(
                        self.page,
                        self.known_total_pages,
                    ) + "..."@,
                )
            },
    {
        if self.page > MAX_PAGES_PER_TOURNAMENT {
            let mut m = String::from_str("Reached pagination safety limit (");
            m.append(i64_to_string(MAX_PAGES_PER_TOURNAMENT as i64).as_str());
            m.append(") for '");
            m.append(tournament_slug);
            m.append("'.");
            return BeforeFetch::Fail(m);
        }
        if let Some(total_pages) = self.known_total_pages {
            if self.page > total_pages {
                let mut m = String::from_str(tournament_slug);
                m.append(": Creating CSV file...");
                return BeforeFetch::Finish(
                    DownloadProgressEvent {
                        tournament_slug: String::from_str(tournament_slug),
                        page: self.page,
                        message: m,
                        done: false,
                    },
                );
            }
        }
        let mut m = String::from_str(tournament_slug);
        m.append(": downloading ");
        m.append(format_page_counter(self.page, self.known_total_pages).as_str());
        m.append("...");
        BeforeFetch::Fetch(
            DownloadProgressEvent {
                tournament_slug: String::from_str(tournament_slug),
                page: self.page,
                message: m,
                done: false,
            },
        )
    }

    fn shrink_or_fail(&mut self, error: String, after_request: bool, tournament_slug: &str) -> (res: SetsStep)
        requires
            old(self).wf(),
        ensures
            final(self).wf(),
            sets_heavy_outcome(*old(self), *final(self), res, after_request, tournament_slug@, error@),
    {
        let half = self.sets_per_page / 2;
        let reduced = if half >= 1 { half } else { 1 };
        if reduced == self.sets_per_page {
            let mut m = String::from_str("Query is still too heavy for ");
            m.append(tournament_slug);
            m.append(" at page ");
            m.append(i64_to_string(self.page as i64).as_str());
            m.append(" even with per_page=1. Last error: ");
            m.append(error.as_str());
            return SetsStep::Fail(m);
        }
        self.sets_per_page = reduced;
        let mut m = String::from_str(tournament_slug);
        if after_request {
            m.append(": sets request too heavy at page ");
            m.append(i64_to_string(self.page as i64).as_str());
            m.append(" (");
            m.append(error.as_str());
            m.append("), reducing sets_per_page to ");
        } else {
            m.append(": sets query too heavy at page ");
            m.append(i64_to_string(self.page as i64).as_str());
            m.append(", reducing sets_per_page to ");
        }
        m.append(i64_to_string(self.sets_per_page as i64).as_str());
        m.append(", then retrying...");
        SetsStep::Retry(
            DownloadProgressEvent {
                tournament_slug: String::from_str(tournament_slug),
                page: self.page,
                message: m,
                done: false,
            },
        )
    }

    /// A sets request failed: shrink the page size if the API found it too
    /// heavy, else fail with the error.
    pub fn fetch_failed(&mut self, error: String, tournament_slug: &str) -> (res: SetsStep)
        requires
            old(self).wf(),
        ensures
            final(self).wf(),
            if page_size_too_high(error@) {
                sets_heavy_outcome(*old(self), *final(self), res, true, tournament_slug@, error@)
            } else {
                res matches SetsStep::Fail(m) && m@ == error@ && *final(self) == *old(self)
            },
    {
        if is_page_size_too_high_error(error.as_str()) {
            return self.shrink_or_fail(error, true, tournament_slug);
        }
        SetsStep::Fail(error)
    }

    /// `"{slug}: fetched {counter}"`
    pub fn fetched(&self, tournament_slug: &str) -> (res: DownloadProgressEvent)
        ensures
            res@ == notice(
                tournament_slug@,
                self.page,
                tournament_slug@ + ": fetched "@ + page_counter(self.page, self.known_total_pages),
            ),
    {
        let mut m = String::from_str(tournament_slug);
        m.append(": fetched ");
        m.append(format_page_counter(self.page, self.known_total_pages).as_str());
        DownloadProgressEvent {
            tournament_slug: String::from_str(tournament_slug),
            page: self.page,
            message: m,
            done: false,
        }
    }

    /// Folds a fetched sets page into the table (see `process_page_data`):
    /// too-heavy errors shrink the page size, other errors fail, a page that
    /// counted nothing stops the paging.
    pub fn process(&mut self, response: SetsPageResponse, tournament_slug: &str, event_by_id: &mut EventTable) -> (res: SetsStep)
        requires
            old(self).wf(),
            old(event_by_id).wf(),
            response.sets.errors is None ==> (response.sets.data matches Some(q) ==> tallies_fit(
                sets_page_fold(old(event_by_id).view(), old(self).known_total_pages, reply_sets_events(q)).0,
            )),
        ensures
            final(self).wf(),
            final(event_by_id).wf(),
            final(event_by_id).keys() == old(event_by_id).keys(),
            match response.sets.errors {
                Some(e) => {
                    let msg = "GraphQL errors for "@ + tournament_slug@ + " [sets]: "@ + e@;
                    &&& final(event_by_id).view() == old(event_by_id).view()
                    &&& if page_size_too_high(msg) {
                        sets_heavy_outcome(*old(self), *final(self), res, false, tournament_slug@, msg)
                    } else {
                        res matches SetsStep::Fail(m) && m@ == msg && *final(self) == *old(self)
                    }
                },
                None => match response.sets.data {
                    None => {
                        let msg = "Missing GraphQL data for "@ + tournament_slug@ + " [sets]"@;
                        &&& final(event_by_id).view() == old(event_by_id).view()
                        &&& if page_size_too_high(msg) {
                            sets_heavy_outcome(*old(self), *final(self), res, false, tournament_slug@, msg)
                        } else {
                            res matches SetsStep::Fail(m) && m@ == msg && *final(self) == *old(self)
                        }
                    },
                    Some(q) => {
                        let f = sets_page_fold(old(event_by_id).view(), old(self).known_total_pages, reply_sets_events(q));
                        &&& final(event_by_id).view() == f.0
                        &&& final(self).known_total_pages == f.1
                        &&& final(self).page == old(self).page
                        &&& final(self).sets_per_page == old(self).sets_per_page
                        &&& if f.2 { res is Continue } else { res is Stop }
                    },
                },
            },
    {
        let result = process_page_data(
            response,
            ProcessSetsPageContext {
                tournament_slug,
                event_by_id,
                known_total_pages: &mut self.known_total_pages,
            },
        );
        match result {
            Ok(true) => SetsStep::Continue,
            Ok(false) => SetsStep::Stop,
            Err(error_message) => {
                if is_page_size_too_high_error(error_message.as_str()) {
                    return self.shrink_or_fail(error_message, false, tournament_slug);
                }
                SetsStep::Fail(error_message)
            },
        }
    }

    /// `"{slug}: finished {counter} ({entrants} entrants aggregated, total {ms} ms)"`
    pub fn finished(&self, tournament_slug: &str, entrants: usize, elapsed_ms: u128) -> (res: DownloadProgressEvent)
        ensures
            res@ == notice(
                tournament_slug@,
                self.page,
                tournament_slug@ + ": finished "@ + page_counter(self.page, self.known_total_pages)
                    + " ("@ + int_decimal(entrants as int) + " entrants aggregated, total "@
                    + int_decimal(elapsed_ms as int) + " ms)"@,
            ),
    {
        let mut m = String::from_str(tournament_slug);
        m.append(": finished ");
        m.append(format_page_counter(self.page, self.known_total_pages).as_str());
        m.append(" (");
        m.append(nat_to_string(entrants as u128).as_str());
        m.append(" entrants aggregated, total ");
        m.append(nat_to_string(elapsed_ms).as_str());
        m.append(" ms)");
        DownloadProgressEvent {
            tournament_slug: String::from_str(tournament_slug),
            page: self.page,
            message: m,
            done: false,
        }
    }

    /// On to the next page.
    pub fn advance(&mut self)
        requires
            old(self).wf(),
            old(self).page <= MAX_PAGES_PER_TOURNAMENT,
        ensures
            final(self).wf(),
            final(self).page == old(self).page + 1,
            final(self).known_total_pages == old(self).known_total_pages,
            final(self).sets_per_page == old(self).sets_per_page,
    {
        self.page = self.page + 1;
    }
}

/// `"No entrant or set data found for tournament slug '{slug}'."`
pub open spec fn no_data_message(slug: Seq<char>) -> Seq<char> {
    "No entrant or set data found for tournament slug '"@ + slug + "'."@
}

/// The tournament's rows, or an error when it gave none, with the closing
/// notice: `"{slug}: complete ({rows} rows across {page - 1} pages, total {ms} ms)"`.
pub fn finish_tournament(event_by_id: EventTable, tournament_slug: &str, page: i32, elapsed_ms: u128) -> (res: Result<(Vec<TournamentRow>, DownloadProgressEvent), String>)
    requires
        event_by_id.wf(),
    ensures
        ({
            let rows = finished_rows(event_by_id.keys(), event_by_id.view());
            if rows.len() == 0 {
                res matches Err(m) && m@ == no_data_message(tournament_slug@)
            } else {
                res matches Ok(v) && v.0@.map_values(|r: TournamentRow| r@) == rows && v.1@ == ProgressView {
                    tournament_slug: tournament_slug@,
                    page,
                    message: tournament_slug@ + ": complete ("@ + int_decimal(rows.len() as int)
                        + " rows across "@ + int_decimal(
                        if page > i32::MIN {
                            page - 1
                        } else {
                            page as int
                        },
                    ) + " pages, total "@ + int_decimal(elapsed_ms as int) + " ms)"@,
                    done: true,
                }
            }
        }),
{
    let ghost rows_spec = finished_rows(event_by_id.keys(), event_by_id.view());
    if event_by_id.is_empty() {
        assert(rows_spec =~= Seq::<RowView>::empty());
        let mut m = String::from_str("No entrant or set data found for tournament slug '");
        m.append(tournament_slug);
        m.append("'.");
        return Err(m);
    }
    let slug_rows = event_by_id.into_rows();
    if slug_rows.len() == 0 {
        let mut m = String::from_str("No entrant or set data found for tournament slug '");
        m.append(tournament_slug);
        m.append("'.");
        return Err(m);
    }
    let pages = if page > i32::MIN { page - 1 } else { page };
    let mut m = String::from_str(tournament_slug);
    m.append(": complete (");
    m.append(nat_to_string(slug_rows.len() as u128).as_str());
    m.append(" rows across ");
    m.append(i64_to_string(pages as i64).as_str());
    m.append(" pages, total ");
    m.append(nat_to_string(elapsed_ms).as_str());
    m.append(" ms)");
    let done = DownloadProgressEvent {
        tournament_slug: String::from_str(tournament_slug),
        page,
        message: m,
        done: true,
    };
    Ok((slug_rows, done))
}

} // verus!
