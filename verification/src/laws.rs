//! Properties of the library that hold over all inputs and across calls.

use vstd::prelude::*;

use crate::accumulator::{
    apply_entrant, apply_standing, unique_entrants, apply_entrants, apply_standings, count_result, entrant_index, has_entrant, merge_text, tally,
    EntrantUpdate, RowHeader, StandingUpdate, TallyItem,
};
use crate::types::RowView;
use crate::table::{finished_rows, row_count};
use crate::accumulator::AccView;
use crate::http::{
    acquire_step, drop_stale, expected_decision, pow_nat, DecisionView, MAX_REQUESTS_PER_WINDOW,
    MAX_RETRIES, REQUEST_WINDOW_NANOS,
};
use crate::pager::{heavy_outcome, EventPager, PageStep};
use crate::accumulator::{
    authorization_usernames, entrant_update, participant_discriminators, participant_prefixes,
    participant_tags, participant_usernames,
};
use crate::csv::{header_fields, opt_field, row_fields};
use crate::queries::tournament::{EntrantsAuthorization, EntrantsEntrant, EntrantsParticipant, MetadataEvent, SetsEvent};
use crate::query::{event_name_and_date, sets_page_fold, sets_total_pages};
use crate::text::{int_decimal, join, non_empty, trim};
use crate::utils::{chrono_utc_format, chrono_utc_in_range, date_pattern};

verus! {

/// A standings fold that reports no change left the rows as they were.
pub proof fn law_unchanged_standings_keep_rows(h: RowHeader, rows: Seq<RowView>, us: Seq<StandingUpdate>)
    requires
        !apply_standings(h, rows, us).1,
    ensures
        apply_standings(h, rows, us).0 == rows,
    decreases us.len(),
{
    if us.len() > 0 {
        law_unchanged_standings_keep_rows(h, rows, us.drop_last());
        let prev = apply_standings(h, rows, us.drop_last());
        let u = us.last();
        if has_entrant(prev.0, u.entrant_id) {
            let i = entrant_index(prev.0, u.entrant_id);
            let r = prev.0[i];
            assert(prev.0.update(i, RowView { placement: u.placement, player_id: u.player_id, ..r })
                =~= prev.0);
        }
    }
}

/// An entrants fold that reports no change left the rows as they were.
pub proof fn law_unchanged_entrants_keep_rows(h: RowHeader, rows: Seq<RowView>, us: Seq<EntrantUpdate>)
    requires
        !apply_entrants(h, rows, us).1,
    ensures
        apply_entrants(h, rows, us).0 == rows,
    decreases us.len(),
{
    if us.len() > 0 {
        law_unchanged_entrants_keep_rows(h, rows, us.drop_last());
        let prev = apply_entrants(h, rows, us.drop_last());
        let u = us.last();
        if has_entrant(prev.0, u.entrant_id) {
            let i = entrant_index(prev.0, u.entrant_id);
            let r = prev.0[i];
            let r2 = RowView {
                player_name: merge_text(r.player_name, u.player_name),
                player_prefix: merge_text(r.player_prefix, u.player_prefix),
                player_discriminator: merge_text(r.player_discriminator, u.player_discriminator),
                discord_usernames: merge_text(r.discord_usernames, u.discord_usernames),
                ..r
            };
            assert(r2 == r);
            assert(prev.0.update(i, r2) =~= prev.0);
        }
    }
}

/// How many of `items` are wins (or losses) of entrant `k`.
pub open spec fn count_for(items: Seq<TallyItem>, k: Seq<char>, won: bool) -> int
    decreases items.len(),
{
    if items.len() == 0 {
        0
    } else {
        (if items[0].entrant_id == k && items[0].won == won {
            1int
        } else {
            0int
        }) + count_for(items.drop_first(), k, won)
    }
}

/// The counts that a tally holds for `k`, zero when it has none.
pub open spec fn counts_of(m: Map<Seq<char>, (int, int)>, k: Seq<char>) -> (int, int) {
    if m.contains_key(k) {
        m[k]
    } else {
        (0, 0)
    }
}

/// Counting a page adds to each entrant exactly its won and its lost slots;
/// entrants that occur in no slot keep their counts.
pub proof fn law_tally_counts(m: Map<Seq<char>, (int, int)>, items: Seq<TallyItem>, k: Seq<char>)
    ensures
        counts_of(tally(m, items), k) == (
            counts_of(m, k).0 + count_for(items, k, true),
            counts_of(m, k).1 + count_for(items, k, false),
        ),
        tally(m, items).contains_key(k) <==> (m.contains_key(k) || count_for(items, k, true)
            + count_for(items, k, false) > 0),
    decreases items.len(),
{
    if items.len() > 0 {
        let next = count_result(m, items[0]);
        law_tally_counts(next, items.drop_first(), k);
        if items[0].entrant_id == k {
            lemma_count_nonneg(items.drop_first(), k, true);
            lemma_count_nonneg(items.drop_first(), k, false);
        }
    }
}

proof fn lemma_count_nonneg(items: Seq<TallyItem>, k: Seq<char>, won: bool)
    ensures
        count_for(items, k, won) >= 0,
    decreases items.len(),
{
    if items.len() > 0 {
        lemma_count_nonneg(items.drop_first(), k, won);
    }
}

/// No two updates name the same entrant.
pub open spec fn distinct_standing_ids(us: Seq<StandingUpdate>) -> bool {
    forall|i: int, j: int|
        0 <= i < us.len() && 0 <= j < us.len() && i != j ==> us[i].entrant_id != us[j].entrant_id
}

/// Every update's entrant has a row that already holds the update's values.
pub open spec fn standings_settled(rows: Seq<RowView>, us: Seq<StandingUpdate>) -> bool {
    forall|k: int|
        0 <= k < us.len() ==> {
            &&& has_entrant(rows, #[trigger] us[k].entrant_id)
            &&& rows[entrant_index(rows, us[k].entrant_id)].placement == us[k].placement
            &&& rows[entrant_index(rows, us[k].entrant_id)].player_id == us[k].player_id
        }
}

proof fn lemma_index_of(rows: Seq<RowView>, i: int)
    requires
        unique_entrants(rows),
        0 <= i < rows.len(),
    ensures
        has_entrant(rows, rows[i].entrant_id),
        entrant_index(rows, rows[i].entrant_id) == i,
{
    assert(0 <= i < rows.len() && rows[i].entrant_id == rows[i].entrant_id);
    let j = entrant_index(rows, rows[i].entrant_id);
    assert(rows[j].entrant_id == rows[i].entrant_id);
}

/// One standings update keeps entrants unique and touches only its own
/// entrant's row; rows are only ever added at the end.
proof fn lemma_standing_step(h: RowHeader, rows: Seq<RowView>, u: StandingUpdate)
    requires
        unique_entrants(rows),
    ensures
        unique_entrants(apply_standing(h, rows, u).0),
        apply_standing(h, rows, u).0.len() >= rows.len(),
        forall|j: int|
            0 <= j < rows.len() && rows[j].entrant_id != u.entrant_id ==> apply_standing(
                h,
                rows,
                u,
            ).0[j] == rows[j],
        forall|j: int|
            0 <= j < rows.len() ==> apply_standing(h, rows, u).0[j].entrant_id == rows[j].entrant_id,
        has_entrant(apply_standing(h, rows, u).0, u.entrant_id),
        ({
            let r2 = apply_standing(h, rows, u).0;
            let i = entrant_index(r2, u.entrant_id);
            r2[i].placement == u.placement && r2[i].player_id == u.player_id
        }),
{
    let r2 = apply_standing(h, rows, u).0;
    if has_entrant(rows, u.entrant_id) {
        let i = entrant_index(rows, u.entrant_id);
        assert(unique_entrants(r2));
        lemma_index_of(r2, i);
    } else {
        let n = rows.len() as int;
        assert forall|a: int, b: int|
            0 <= a < r2.len() && 0 <= b < r2.len() && a != b implies r2[a].entrant_id
            != r2[b].entrant_id by {
            if a == n && b < n {
                assert(!(0 <= b < rows.len() && rows[b].entrant_id == u.entrant_id));
            }
            if b == n && a < n {
                assert(!(0 <= a < rows.len() && rows[a].entrant_id == u.entrant_id));
            }
        }
        lemma_index_of(r2, n);
    }
}

proof fn lemma_once_settles(h: RowHeader, rows: Seq<RowView>, us: Seq<StandingUpdate>)
    requires
        unique_entrants(rows),
        distinct_standing_ids(us),
    ensures
        unique_entrants(apply_standings(h, rows, us).0),
        standings_settled(apply_standings(h, rows, us).0, us),
    decreases us.len(),
{
    if us.len() > 0 {
        let init = us.drop_last();
        assert(distinct_standing_ids(init));
        lemma_once_settles(h, rows, init);
        let prev = apply_standings(h, rows, init).0;
        let u = us.last();
        lemma_standing_step(h, prev, u);
        let next = apply_standing(h, prev, u).0;
        assert forall|k: int| 0 <= k < us.len() implies {
            &&& has_entrant(next, #[trigger] us[k].entrant_id)
            &&& next[entrant_index(next, us[k].entrant_id)].placement == us[k].placement
            &&& next[entrant_index(next, us[k].entrant_id)].player_id == us[k].player_id
        } by {
            if k < us.len() - 1 {
                assert(init[k] == us[k]);
                let i = entrant_index(prev, us[k].entrant_id);
                assert(prev[i].entrant_id == us[k].entrant_id);
                assert(us[k].entrant_id != u.entrant_id);
                assert(next[i] == prev[i]);
                lemma_index_of(next, i);
            }
        }
    }
}

proof fn lemma_settled_noop(h: RowHeader, rows: Seq<RowView>, us: Seq<StandingUpdate>, n: int)
    requires
        unique_entrants(rows),
        standings_settled(rows, us),
        0 <= n <= us.len(),
    ensures
        apply_standings(h, rows, us.take(n)) == (rows, false),
    decreases n,
{
    if n > 0 {
        assert(us.take(n).drop_last() =~= us.take(n - 1));
        lemma_settled_noop(h, rows, us, n - 1);
        let u = us[n - 1];
        assert(us.take(n).last() == u);
        assert(has_entrant(rows, us[n - 1].entrant_id));
        let i = entrant_index(rows, u.entrant_id);
        let r = rows[i];
        assert(rows.update(i, RowView { placement: u.placement, player_id: u.player_id, ..r })
            =~= rows);
    } else {
        assert(us.take(0) =~= Seq::<StandingUpdate>::empty());
    }
}

/// Folding the same standings page in again, when no entrant occurs twice
/// in it, changes nothing and reports no change.
pub proof fn law_standings_page_idempotent(h: RowHeader, rows: Seq<RowView>, us: Seq<StandingUpdate>)
    requires
        unique_entrants(rows),
        distinct_standing_ids(us),
    ensures
        apply_standings(h, apply_standings(h, rows, us).0, us) == (apply_standings(h, rows, us).0, false),
{
    lemma_once_settles(h, rows, us);
    lemma_settled_noop(h, apply_standings(h, rows, us).0, us, us.len() as int);
    assert(us.take(us.len() as int) =~= us);
}

/// No two updates name the same entrant.
pub open spec fn distinct_entrant_ids(us: Seq<EntrantUpdate>) -> bool {
    forall|i: int, j: int|
        0 <= i < us.len() && 0 <= j < us.len() && i != j ==> us[i].entrant_id != us[j].entrant_id
}

/// A row already holds every non-empty value of the update.
pub open spec fn row_has_identity(r: RowView, u: EntrantUpdate) -> bool {
    &&& u.player_name.len() > 0 ==> r.player_name == u.player_name
    &&& u.player_prefix.len() > 0 ==> r.player_prefix == u.player_prefix
    &&& u.player_discriminator.len() > 0 ==> r.player_discriminator == u.player_discriminator
    &&& u.discord_usernames.len() > 0 ==> r.discord_usernames == u.discord_usernames
}

pub open spec fn entrants_settled(rows: Seq<RowView>, us: Seq<EntrantUpdate>) -> bool {
    forall|k: int|
        0 <= k < us.len() ==> {
            &&& has_entrant(rows, #[trigger] us[k].entrant_id)
            &&& row_has_identity(rows[entrant_index(rows, us[k].entrant_id)], us[k])
        }
}

proof fn lemma_entrant_step(h: RowHeader, rows: Seq<RowView>, u: EntrantUpdate)
    requires
        unique_entrants(rows),
    ensures
        unique_entrants(apply_entrant(h, rows, u).0),
        apply_entrant(h, rows, u).0.len() >= rows.len(),
        forall|j: int|
            0 <= j < rows.len() && rows[j].entrant_id != u.entrant_id ==> apply_entrant(
                h,
                rows,
                u,
            ).0[j] == rows[j],
        forall|j: int|
            0 <= j < rows.len() ==> apply_entrant(h, rows, u).0[j].entrant_id == rows[j].entrant_id,
        has_entrant(apply_entrant(h, rows, u).0, u.entrant_id),
        ({
            let r2 = apply_entrant(h, rows, u).0;
            row_has_identity(r2[entrant_index(r2, u.entrant_id)], u)
        }),
{
    let r2 = apply_entrant(h, rows, u).0;
    if has_entrant(rows, u.entrant_id) {
        let i = entrant_index(rows, u.entrant_id);
        assert(unique_entrants(r2));
        lemma_index_of(r2, i);
    } else {
        let n = rows.len() as int;
        assert forall|a: int, b: int|
            0 <= a < r2.len() && 0 <= b < r2.len() && a != b implies r2[a].entrant_id
            != r2[b].entrant_id by {
            if a == n && b < n {
                assert(!(0 <= b < rows.len() && rows[b].entrant_id == u.entrant_id));
            }
            if b == n && a < n {
                assert(!(0 <= a < rows.len() && rows[a].entrant_id == u.entrant_id));
            }
        }
        lemma_index_of(r2, n);
    }
}

proof fn lemma_entrants_once_settles(h: RowHeader, rows: Seq<RowView>, us: Seq<EntrantUpdate>)
    requires
        unique_entrants(rows),
        distinct_entrant_ids(us),
    ensures
        unique_entrants(apply_entrants(h, rows, us).0),
        entrants_settled(apply_entrants(h, rows, us).0, us),
    decreases us.len(),
{
    if us.len() > 0 {
        let init = us.drop_last();
        assert(distinct_entrant_ids(init));
        lemma_entrants_once_settles(h, rows, init);
        let prev = apply_entrants(h, rows, init).0;
        let u = us.last();
        lemma_entrant_step(h, prev, u);
        let next = apply_entrant(h, prev, u).0;
        assert forall|k: int| 0 <= k < us.len() implies {
            &&& has_entrant(next, #[trigger] us[k].entrant_id)
            &&& row_has_identity(next[entrant_index(next, us[k].entrant_id)], us[k])
        } by {
            if k < us.len() - 1 {
                assert(init[k] == us[k]);
                let i = entrant_index(prev, us[k].entrant_id);
                assert(prev[i].entrant_id == us[k].entrant_id);
                assert(us[k].entrant_id != u.entrant_id);
                assert(next[i] == prev[i]);
                lemma_index_of(next, i);
            }
        }
    }
}

proof fn lemma_entrants_settled_noop(h: RowHeader, rows: Seq<RowView>, us: Seq<EntrantUpdate>, n: int)
    requires
        unique_entrants(rows),
        entrants_settled(rows, us),
        0 <= n <= us.len(),
    ensures
        apply_entrants(h, rows, us.take(n)) == (rows, false),
    decreases n,
{
    if n > 0 {
        assert(us.take(n).drop_last() =~= us.take(n - 1));
        lemma_entrants_settled_noop(h, rows, us, n - 1);
        let u = us[n - 1];
        assert(us.take(n).last() == u);
        assert(has_entrant(rows, us[n - 1].entrant_id));
        let i = entrant_index(rows, u.entrant_id);
        let r = rows[i];
        let r2 = RowView {
            player_name: merge_text(r.player_name, u.player_name),
            player_prefix: merge_text(r.player_prefix, u.player_prefix),
            player_discriminator: merge_text(r.player_discriminator, u.player_discriminator),
            discord_usernames: merge_text(r.discord_usernames, u.discord_usernames),
            ..r
        };
        assert(r2 == r);
        assert(rows.update(i, r2) =~= rows);
    } else {
        assert(us.take(0) =~= Seq::<EntrantUpdate>::empty());
    }
}

/// Folding the same entrants page in again, when no entrant occurs twice
/// in it, changes nothing and reports no change.
pub proof fn law_entrants_page_idempotent(h: RowHeader, rows: Seq<RowView>, us: Seq<EntrantUpdate>)
    requires
        unique_entrants(rows),
        distinct_entrant_ids(us),
    ensures
        apply_entrants(h, apply_entrants(h, rows, us).0, us) == (apply_entrants(h, rows, us).0, false),
{
    lemma_entrants_once_settles(h, rows, us);
    lemma_entrants_settled_noop(h, apply_entrants(h, rows, us).0, us, us.len() as int);
    assert(us.take(us.len() as int) =~= us);
}

/// Every row carries the event's values.
pub open spec fn carries_header(rows: Seq<RowView>, h: RowHeader) -> bool {
    forall|i: int|
        0 <= i < rows.len() ==> {
            let r = #[trigger] rows[i];
            &&& r.tournament_slug == h.tournament_slug
            &&& r.tournament_id == h.tournament_id
            &&& r.event_id == h.event_id
            &&& r.event_name == h.event_name
            &&& r.event_date == h.event_date
        }
}

/// Rows are only appended: every earlier row keeps its place and entrant.
pub open spec fn extends_rows(old: Seq<RowView>, new: Seq<RowView>) -> bool {
    &&& new.len() >= old.len()
    &&& forall|j: int| 0 <= j < old.len() ==> #[trigger] new[j].entrant_id == old[j].entrant_id
}

/// Folding standings keeps rows in place, only appends, and every row
/// keeps carrying the event's values.
pub proof fn law_standings_keep_rows_and_header(h: RowHeader, rows: Seq<RowView>, us: Seq<StandingUpdate>)
    requires
        unique_entrants(rows),
        carries_header(rows, h),
    ensures
        unique_entrants(apply_standings(h, rows, us).0),
        carries_header(apply_standings(h, rows, us).0, h),
        extends_rows(rows, apply_standings(h, rows, us).0),
    decreases us.len(),
{
    if us.len() > 0 {
        law_standings_keep_rows_and_header(h, rows, us.drop_last());
        let prev = apply_standings(h, rows, us.drop_last()).0;
        lemma_standing_step(h, prev, us.last());
        let next = apply_standings(h, rows, us).0;
        assert(carries_header(next, h));
    }
}

/// Folding entrants keeps rows in place, only appends, and every row keeps
/// carrying the event's values.
pub proof fn law_entrants_keep_rows_and_header(h: RowHeader, rows: Seq<RowView>, us: Seq<EntrantUpdate>)
    requires
        unique_entrants(rows),
        carries_header(rows, h),
    ensures
        unique_entrants(apply_entrants(h, rows, us).0),
        carries_header(apply_entrants(h, rows, us).0, h),
        extends_rows(rows, apply_entrants(h, rows, us).0),
    decreases us.len(),
{
    if us.len() > 0 {
        law_entrants_keep_rows_and_header(h, rows, us.drop_last());
        let prev = apply_entrants(h, rows, us.drop_last()).0;
        lemma_entrant_step(h, prev, us.last());
        let next = apply_entrants(h, rows, us).0;
        assert(carries_header(next, h));
    }
}

/// A response is retried only while fewer than `MAX_RETRIES` retries were
/// made, and never after more than 204.8 seconds of backoff.
pub proof fn law_retries_bounded(
    retry: u32,
    status: u16,
    content_type: Seq<char>,
    body: Seq<char>,
    slug: Seq<char>,
    query_type: Seq<char>,
)
    ensures
        expected_decision(retry, status, content_type, body, slug, query_type) matches DecisionView::Retry(
            ms,
            _,
        ) ==> retry < MAX_RETRIES && 200 <= ms <= 204800,
{
    if retry < MAX_RETRIES {
        lemma_pow_bounds(retry as nat);
    }
}

proof fn lemma_pow_bounds(e: nat)
    requires
        e < 6,
    ensures
        1 <= pow_nat(2, e) <= 32,
        1 <= pow_nat(4, e) <= 1024,
    decreases e,
{
    reveal_with_fuel(pow_nat, 7);
    if e > 0 {
        lemma_pow_bounds((e - 1) as nat);
    }
}

/// A too-heavy reply retries only with a strictly smaller page size, and
/// the page size never drops below one; at page size one it fails.
pub proof fn law_page_size_shrinks(
    before: EventPager,
    after: EventPager,
    res: PageStep,
    after_request: bool,
    slug: Seq<char>,
    kind: Seq<char>,
    key: Seq<char>,
    name: Seq<char>,
    error: Seq<char>,
)
    requires
        before.wf(),
        heavy_outcome(before, after, res, after_request, slug, kind, key, name, error),
    ensures
        after.wf(),
        res is Retry ==> after.per_page < before.per_page,
        before.per_page == 1 ==> res is Fail,
{
}

/// The finished rows of a table are exactly as many as the rows its
/// accumulators hold.
pub proof fn law_finished_rows_count(keys: Seq<Seq<char>>, accs: Map<Seq<char>, AccView>)
    ensures
        finished_rows(keys, accs).len() == row_count(keys, accs),
    decreases keys.len(),
{
    if keys.len() > 0 {
        law_finished_rows_count(keys.drop_last(), accs);
    }
}


/// Successive requests for a slot on a new rate limiter, at the times
/// `nows`: the remembered times afterwards, and the times that were
/// granted, in order.
pub open spec fn limiter_run(nows: Seq<u64>) -> (Seq<u64>, Seq<u64>)
    decreases nows.len(),
{
    if nows.len() == 0 {
        (Seq::empty(), Seq::empty())
    } else {
        let prev = limiter_run(nows.drop_last());
        let step = acquire_step(prev.0, nows.last());
        (step.0, if step.1 {
            prev.1.push(nows.last())
        } else {
            prev.1
        })
    }
}

/// `t` lies less than a window before `now`.
pub open spec fn within_window(t: u64, now: u64) -> bool {
    now - t < REQUEST_WINDOW_NANOS
}

/// How many of `times` lie less than a window before `now`.
pub open spec fn recent_count(times: Seq<u64>, now: u64) -> nat
    decreases times.len(),
{
    if times.len() == 0 {
        0
    } else {
        recent_count(times.drop_last(), now) + if within_window(times.last(), now) {
            1nat
        } else {
            0nat
        }
    }
}

pub open spec fn nondecreasing(s: Seq<u64>) -> bool {
    forall|i: int, j: int| 0 <= i <= j < s.len() ==> s[i] <= s[j]
}

proof fn lemma_recent_count_split(a: Seq<u64>, b: Seq<u64>, now: u64)
    ensures
        recent_count(a + b, now) == recent_count(a, now) + recent_count(b, now),
    decreases b.len(),
{
    if b.len() == 0 {
        assert(a + b =~= a);
    } else {
        assert((a + b).drop_last() =~= a + b.drop_last());
        assert((a + b).last() == b.last());
        lemma_recent_count_split(a, b.drop_last(), now);
    }
}

proof fn lemma_recent_count_all(s: Seq<u64>, now: u64, fresh: bool)
    requires
        forall|i: int| 0 <= i < s.len() ==> within_window(#[trigger] s[i], now) == fresh,
    ensures
        recent_count(s, now) == if fresh {
            s.len()
        } else {
            0
        },
    decreases s.len(),
{
    if s.len() > 0 {
        assert(within_window(s[s.len() - 1], now) == fresh);
        lemma_recent_count_all(s.drop_last(), now, fresh);
    }
}

/// On sorted times, all no later than `now`, dropping the stale ones drops
/// a prefix: the times a whole window old, and only those.
proof fn lemma_drop_stale_prefix(st: Seq<u64>, now: u64) -> (d: int)
    requires
        nondecreasing(st),
        forall|i: int| 0 <= i < st.len() ==> #[trigger] st[i] <= now,
    ensures
        0 <= d <= st.len(),
        drop_stale(st, now) == st.skip(d),
        forall|i: int| 0 <= i < d ==> !within_window(#[trigger] st[i], now),
        forall|i: int| d <= i < st.len() ==> within_window(#[trigger] st[i], now),
    decreases st.len(),
{
    if st.len() > 0 && now - st[0] >= REQUEST_WINDOW_NANOS {
        let rest = st.drop_first();
        let d0 = lemma_drop_stale_prefix(rest, now);
        assert(st.skip(d0 + 1) =~= rest.skip(d0));
        assert forall|i: int| 0 <= i < d0 + 1 implies !within_window(#[trigger] st[i], now) by {
            if i > 0 {
                assert(st[i] == rest[i - 1]);
            }
        }
        assert forall|i: int| d0 + 1 <= i < st.len() implies within_window(#[trigger] st[i], now) by {
            assert(st[i] == rest[i - 1]);
        }
        d0 + 1
    } else {
        assert(st.skip(0) =~= st);
        assert forall|i: int| 0 <= i < st.len() implies within_window(#[trigger] st[i], now) by {
            assert(st[0] <= st[i]);
        }
        0
    }
}

/// The remembered times are the latest grants.
pub open spec fn latest_grants(st: Seq<u64>, gr: Seq<u64>) -> bool {
    st.len() <= gr.len() && st == gr.skip(gr.len() - st.len())
}

/// Seen from the last request at `last`: every grant was no later, the
/// remembered times lie within a window of it, and the other grants do
/// not.
pub open spec fn window_at(st: Seq<u64>, gr: Seq<u64>, last: u64) -> bool {
    &&& forall|i: int| 0 <= i < gr.len() ==> #[trigger] gr[i] <= last
    &&& forall|i: int| 0 <= i < st.len() ==> within_window(#[trigger] st[i], last)
    &&& forall|i: int| 0 <= i < gr.len() - st.len() ==> !within_window(#[trigger] gr[i], last)
}

/// No grant had a window's worth of grants before it.
pub open spec fn grants_spaced(gr: Seq<u64>) -> bool {
    forall|j: int| 0 <= j < gr.len() ==> recent_count(gr.take(j), #[trigger] gr[j]) < MAX_REQUESTS_PER_WINDOW
}

/// At a new request time, the grants within a window of it are exactly
/// the remembered times that are not stale.
proof fn lemma_recent_is_kept(st: Seq<u64>, gr: Seq<u64>, now: u64, has_prev: bool, last: u64) -> (p: int)
    requires
        nondecreasing(gr),
        latest_grants(st, gr),
        has_prev ==> last <= now && window_at(st, gr, last),
        !has_prev ==> gr.len() == 0,
    ensures
        0 <= p <= gr.len(),
        drop_stale(st, now) == gr.skip(p),
        recent_count(gr, now) == gr.len() - p,
        forall|i: int| 0 <= i < gr.len() ==> #[trigger] gr[i] <= now,
        forall|i: int| 0 <= i < p ==> !within_window(#[trigger] gr[i], now),
        forall|i: int| p <= i < gr.len() ==> within_window(#[trigger] gr[i], now),
{
    assert forall|i: int| 0 <= i < gr.len() implies #[trigger] gr[i] <= now by {
        assert(gr[i] <= last);
    }
    let p0 = gr.len() - st.len();
    assert forall|i: int| 0 <= i < st.len() implies #[trigger] st[i] == gr[p0 + i] by {}
    assert forall|i: int, j: int| 0 <= i <= j < st.len() implies st[i] <= st[j] by {
        assert(st[i] == gr[p0 + i] && st[j] == gr[p0 + j]);
    }
    assert forall|i: int| 0 <= i < st.len() implies #[trigger] st[i] <= now by {
        assert(st[i] == gr[p0 + i]);
    }
    let d = lemma_drop_stale_prefix(st, now);
    let p = p0 + d;
    assert(st.skip(d) =~= gr.skip(p));
    assert forall|i: int| 0 <= i < p implies !within_window(#[trigger] gr[i], now) by {
        if i < p0 {
            assert(!within_window(gr[i], last));
        } else {
            assert(gr[i] == st[i - p0]);
        }
    }
    assert forall|i: int| p <= i < gr.len() implies within_window(#[trigger] gr[i], now) by {
        assert(gr[i] == st[i - p0]);
    }
    assert(gr =~= gr.take(p) + gr.skip(p));
    lemma_recent_count_split(gr.take(p), gr.skip(p), now);
    lemma_recent_count_all(gr.take(p), now, false);
    lemma_recent_count_all(gr.skip(p), now, true);
    p
}

/// One more request keeps what holds along a run.
proof fn lemma_run_step(st: Seq<u64>, gr: Seq<u64>, now: u64, has_prev: bool, last: u64)
    requires
        nondecreasing(gr),
        latest_grants(st, gr),
        grants_spaced(gr),
        has_prev ==> last <= now && window_at(st, gr, last),
        !has_prev ==> gr.len() == 0,
    ensures
        ({
            let step = acquire_step(st, now);
            let gr2 = if step.1 {
                gr.push(now)
            } else {
                gr
            };
            &&& nondecreasing(gr2)
            &&& latest_grants(step.0, gr2)
            &&& grants_spaced(gr2)
            &&& window_at(step.0, gr2, now)
        }),
{
    let p = lemma_recent_is_kept(st, gr, now, has_prev, last);
    let kept = gr.skip(p);
    if kept.len() < MAX_REQUESTS_PER_WINDOW {
        let gr2 = gr.push(now);
        let st2 = kept.push(now);
        assert(st2 =~= gr2.skip(gr2.len() - st2.len()));
        assert forall|j: int| 0 <= j < gr2.len() implies recent_count(gr2.take(j), #[trigger] gr2[j])
            < MAX_REQUESTS_PER_WINDOW by {
            if j < gr.len() {
                assert(gr2.take(j) =~= gr.take(j));
            } else {
                assert(gr2.take(j) =~= gr);
            }
        }
        assert forall|i: int, j: int| 0 <= i <= j < gr2.len() implies gr2[i] <= gr2[j] by {
            if j == gr.len() && i < j {
                assert(gr[i] <= now);
            }
        }
        assert forall|i: int| 0 <= i < st2.len() implies within_window(#[trigger] st2[i], now) by {
            if i < kept.len() {
                assert(st2[i] == gr[p + i]);
            }
        }
        assert forall|i: int| 0 <= i < gr2.len() - st2.len() implies !within_window(#[trigger] gr2[i], now) by {
            assert(gr2[i] == gr[i]);
        }
    } else {
        assert forall|i: int| 0 <= i < kept.len() implies within_window(#[trigger] kept[i], now) by {
            assert(kept[i] == gr[p + i]);
        }
    }
}

/// What stays true along a run: the granted times are sorted, the
/// remembered times are the latest grants, seen from the last request as
/// `window_at` says, and no grant had a window's worth of grants before it.
proof fn lemma_limiter_run(nows: Seq<u64>)
    requires
        nondecreasing(nows),
    ensures
        nondecreasing(limiter_run(nows).1),
        latest_grants(limiter_run(nows).0, limiter_run(nows).1),
        grants_spaced(limiter_run(nows).1),
        nows.len() > 0 ==> window_at(limiter_run(nows).0, limiter_run(nows).1, nows.last()),
        nows.len() == 0 ==> limiter_run(nows).1.len() == 0,
    decreases nows.len(),
{
    if nows.len() == 0 {
        assert(limiter_run(nows).1.skip(0) =~= limiter_run(nows).0);
    } else {
        let prev_nows = nows.drop_last();
        assert forall|i: int, j: int| 0 <= i <= j < prev_nows.len() implies prev_nows[i] <= prev_nows[j] by {
            assert(prev_nows[i] == nows[i] && prev_nows[j] == nows[j]);
        }
        lemma_limiter_run(prev_nows);
        let has_prev = prev_nows.len() > 0;
        let last = if has_prev {
            prev_nows.last()
        } else {
            0
        };
        if has_prev {
            assert(prev_nows.last() == nows[nows.len() - 2]);
        }
        lemma_run_step(limiter_run(prev_nows).0, limiter_run(prev_nows).1, nows.last(), has_prev, last);
    }
}

/// The request-rate limit: over successive slot requests on a new limiter,
/// at non-decreasing times, every granted request has fewer than
/// `MAX_REQUESTS_PER_WINDOW` earlier grants less than a window before it,
/// so no window ever holds more than `MAX_REQUESTS_PER_WINDOW` grants.
pub proof fn law_rate_limit(nows: Seq<u64>)
    requires
        nondecreasing(nows),
    ensures
        forall|j: int|
            0 <= j < limiter_run(nows).1.len() ==> recent_count(
                limiter_run(nows).1.take(j),
                #[trigger] limiter_run(nows).1[j],
            ) < MAX_REQUESTS_PER_WINDOW,
{
    lemma_limiter_run(nows);
}


// ------------------------------------------------------ entrant identity

/// `x` occurs in `s` as a contiguous piece.
pub open spec fn occurs_in(x: Seq<char>, s: Seq<char>) -> bool {
    exists|a: int| 0 <= a && a + x.len() <= s.len() && #[trigger] s.subrange(a, a + x.len()) == x
}

proof fn lemma_join_occurs(parts: Seq<Seq<char>>, sep: Seq<char>, m: int)
    requires
        0 <= m < parts.len(),
    ensures
        occurs_in(parts[m], join(parts, sep)),
    decreases parts.len(),
{
    let x = parts[m];
    let j = join(parts, sep);
    if parts.len() == 1 {
        let a: int = 0;
        assert(j.subrange(a, a + x.len()) =~= x);
        assert(0 <= a && a + x.len() <= j.len() && j.subrange(a, a + x.len()) == x);
    } else {
        let prev = join(parts.drop_last(), sep);
        if m == parts.len() - 1 {
            let a: int = (prev.len() + sep.len()) as int;
            assert(j.subrange(a, a + x.len()) =~= x);
            assert(0 <= a && a + x.len() <= j.len() && j.subrange(a, a + x.len()) == x);
        } else {
            lemma_join_occurs(parts.drop_last(), sep, m);
            assert(parts.drop_last()[m] == x);
            let a = choose|a: int| 0 <= a && a + x.len() <= prev.len() && #[trigger] prev.subrange(a, a + x.len()) == x;
            assert(j.subrange(a, a + x.len()) =~= prev.subrange(a, a + x.len()));
            assert(0 <= a && a + x.len() <= j.len() && j.subrange(a, a + x.len()) == x);
        }
    }
}

proof fn lemma_non_empty_keeps(parts: Seq<Seq<char>>, x: Seq<char>)
    requires
        parts.contains(x),
        x.len() > 0,
    ensures
        non_empty(parts).contains(x),
    decreases parts.len(),
{
    let i = choose|i: int| 0 <= i < parts.len() && parts[i] == x;
    if i == parts.len() - 1 {
        assert(non_empty(parts).last() == x);
    } else {
        assert(parts.drop_last()[i] == x);
        lemma_non_empty_keeps(parts.drop_last(), x);
        let j = choose|j: int| 0 <= j < non_empty(parts.drop_last()).len() && non_empty(parts.drop_last())[j] == x;
        if parts.last().len() != 0 {
            assert(non_empty(parts)[j] == x);
        }
    }
}

/// A non-empty piece of a list survives into the list's non-empty parts
/// joined with any separator.
proof fn lemma_joined_keeps(parts: Seq<Seq<char>>, sep: Seq<char>, x: Seq<char>)
    requires
        parts.contains(x),
        x.len() > 0,
    ensures
        occurs_in(x, join(non_empty(parts), sep)),
        join(non_empty(parts), sep).len() > 0,
{
    lemma_non_empty_keeps(parts, x);
    let m = choose|m: int| 0 <= m < non_empty(parts).len() && non_empty(parts)[m] == x;
    lemma_join_occurs(non_empty(parts), sep, m);
}

proof fn lemma_discriminator_listed(ps: Seq<Option<EntrantsParticipant>>, k: int, d: String)
    requires
        0 <= k < ps.len(),
        ps[k] matches Some(p) && p.user matches Some(u) && u.discriminator == Some(d),
        trim(d@).len() > 0,
    ensures
        participant_discriminators(ps).contains(trim(d@)),
    decreases ps.len(),
{
    let prev = participant_discriminators(ps.drop_last());
    if k == ps.len() - 1 {
        assert(participant_discriminators(ps)[prev.len() as int] == trim(d@));
    } else {
        assert(ps.drop_last()[k] == ps[k]);
        lemma_discriminator_listed(ps.drop_last(), k, d);
        let j = choose|j: int| 0 <= j < prev.len() && prev[j] == trim(d@);
        assert(participant_discriminators(ps)[j] == trim(d@));
    }
}

proof fn lemma_tag_listed(ps: Seq<Option<EntrantsParticipant>>, k: int, t: String)
    requires
        0 <= k < ps.len(),
        ps[k] matches Some(p) && p.gamer_tag == Some(t),
        trim(t@).len() > 0,
    ensures
        participant_tags(ps).contains(trim(t@)),
    decreases ps.len(),
{
    let prev = participant_tags(ps.drop_last());
    if k == ps.len() - 1 {
        assert(participant_tags(ps)[prev.len() as int] == trim(t@));
    } else {
        assert(ps.drop_last()[k] == ps[k]);
        lemma_tag_listed(ps.drop_last(), k, t);
        let j = choose|j: int| 0 <= j < prev.len() && prev[j] == trim(t@);
        assert(participant_tags(ps)[j] == trim(t@));
    }
}

proof fn lemma_prefix_listed(ps: Seq<Option<EntrantsParticipant>>, k: int, x: String)
    requires
        0 <= k < ps.len(),
        ps[k] matches Some(p) && p.prefix == Some(x),
        trim(x@).len() > 0,
    ensures
        participant_prefixes(ps).contains(trim(x@)),
    decreases ps.len(),
{
    let prev = participant_prefixes(ps.drop_last());
    if k == ps.len() - 1 {
        assert(participant_prefixes(ps)[prev.len() as int] == trim(x@));
    } else {
        assert(ps.drop_last()[k] == ps[k]);
        lemma_prefix_listed(ps.drop_last(), k, x);
        let j = choose|j: int| 0 <= j < prev.len() && prev[j] == trim(x@);
        assert(participant_prefixes(ps)[j] == trim(x@));
    }
}

proof fn lemma_username_in_auths(auths: Seq<Option<EntrantsAuthorization>>, a: int, n: String)
    requires
        0 <= a < auths.len(),
        auths[a] matches Some(au) && au.external_username == Some(n),
        trim(n@).len() > 0,
    ensures
        authorization_usernames(auths).contains(trim(n@)),
    decreases auths.len(),
{
    let prev = authorization_usernames(auths.drop_last());
    if a == auths.len() - 1 {
        assert(authorization_usernames(auths)[prev.len() as int] == trim(n@));
    } else {
        assert(auths.drop_last()[a] == auths[a]);
        lemma_username_in_auths(auths.drop_last(), a, n);
        let j = choose|j: int| 0 <= j < prev.len() && prev[j] == trim(n@);
        assert(authorization_usernames(auths)[j] == trim(n@));
    }
}

proof fn lemma_username_listed(ps: Seq<Option<EntrantsParticipant>>, k: int, auths: Vec<Option<EntrantsAuthorization>>, a: int, n: String)
    requires
        0 <= k < ps.len(),
        ps[k] matches Some(p) && p.user matches Some(u) && u.authorizations == Some(auths),
        0 <= a < auths@.len(),
        auths@[a] matches Some(au) && au.external_username == Some(n),
        trim(n@).len() > 0,
    ensures
        participant_usernames(ps).contains(trim(n@)),
    decreases ps.len(),
{
    let prev = participant_usernames(ps.drop_last());
    if k == ps.len() - 1 {
        lemma_username_in_auths(auths@, a, n);
        let j = choose|j: int| 0 <= j < authorization_usernames(auths@).len() && authorization_usernames(auths@)[j] == trim(n@);
        assert(participant_usernames(ps)[prev.len() + j] == trim(n@));
    } else {
        assert(ps.drop_last()[k] == ps[k]);
        lemma_username_listed(ps.drop_last(), k, auths, a, n);
        let j = choose|j: int| 0 <= j < prev.len() && prev[j] == trim(n@);
        assert(participant_usernames(ps)[j] == trim(n@));
    }
}

/// Every participant's discriminator, trimmed, when not empty, is part of
/// the entrant's player discriminator (all participants' discriminators are
/// joined, none is dropped).
pub proof fn law_entrant_keeps_every_discriminator(e: EntrantsEntrant, ps: Vec<Option<EntrantsParticipant>>, k: int, d: String)
    requires
        e.id is Some,
        e.participants == Some(ps),
        0 <= k < ps@.len(),
        ps@[k] matches Some(p) && p.user matches Some(u) && u.discriminator == Some(d),
        trim(d@).len() > 0,
    ensures
        occurs_in(trim(d@), entrant_update(e).unwrap().player_discriminator),
{
    lemma_discriminator_listed(ps@, k, d);
    lemma_joined_keeps(participant_discriminators(ps@), seq![' ', '|', ' '], trim(d@));
}

/// Every participant's gamer tag, trimmed, when not empty, is part of the
/// entrant's player name.
pub proof fn law_entrant_keeps_every_tag(e: EntrantsEntrant, ps: Vec<Option<EntrantsParticipant>>, k: int, t: String)
    requires
        e.id is Some,
        e.participants == Some(ps),
        0 <= k < ps@.len(),
        ps@[k] matches Some(p) && p.gamer_tag == Some(t),
        trim(t@).len() > 0,
    ensures
        occurs_in(trim(t@), entrant_update(e).unwrap().player_name),
{
    lemma_tag_listed(ps@, k, t);
    lemma_joined_keeps(participant_tags(ps@), seq![' ', '/', ' '], trim(t@));
}

/// Every participant's sponsor prefix, trimmed, when not empty, is part of
/// the entrant's player prefix.
pub proof fn law_entrant_keeps_every_prefix(e: EntrantsEntrant, ps: Vec<Option<EntrantsParticipant>>, k: int, x: String)
    requires
        e.id is Some,
        e.participants == Some(ps),
        0 <= k < ps@.len(),
        ps@[k] matches Some(p) && p.prefix == Some(x),
        trim(x@).len() > 0,
    ensures
        occurs_in(trim(x@), entrant_update(e).unwrap().player_prefix),
{
    lemma_prefix_listed(ps@, k, x);
    lemma_joined_keeps(participant_prefixes(ps@), seq![' ', '|', ' '], trim(x@));
}

/// Every external username of every participant's authorizations, trimmed,
/// when not empty, is part of the entrant's Discord usernames.
pub proof fn law_entrant_keeps_every_username(
    e: EntrantsEntrant,
    ps: Vec<Option<EntrantsParticipant>>,
    k: int,
    auths: Vec<Option<EntrantsAuthorization>>,
    a: int,
    n: String,
)
    requires
        e.id is Some,
        e.participants == Some(ps),
        0 <= k < ps@.len(),
        ps@[k] matches Some(p) && p.user matches Some(u) && u.authorizations == Some(auths),
        0 <= a < auths@.len(),
        auths@[a] matches Some(au) && au.external_username == Some(n),
        trim(n@).len() > 0,
    ensures
        occurs_in(trim(n@), entrant_update(e).unwrap().discord_usernames),
{
    lemma_username_listed(ps@, k, auths, a, n);
    lemma_joined_keeps(participant_usernames(ps@), seq![' ', '|', ' '], trim(n@));
}


// ----------------------------------------------------- sets page totals

/// The total page count that a sets event reports, if any.
pub open spec fn reported_total(ev: Option<SetsEvent>) -> Option<i32> {
    match ev {
        Some(e) => sets_total_pages(e),
        None => None,
    }
}

/// After a sets page is folded in, the known total page count is the
/// largest of the count known before and every count the page's events
/// report: at least each of them, and one of them.
pub proof fn law_sets_total_is_largest(accs: Map<Seq<char>, AccView>, known: Option<i32>, events: Seq<Option<SetsEvent>>)
    ensures
        known is Some ==> sets_page_fold(accs, known, events).1 is Some
            && sets_page_fold(accs, known, events).1.unwrap() >= known.unwrap(),
        forall|i: int|
            0 <= i < events.len() && (#[trigger] reported_total(events[i])) is Some
                ==> sets_page_fold(accs, known, events).1 is Some
                && sets_page_fold(accs, known, events).1.unwrap() >= reported_total(events[i]).unwrap(),
        sets_page_fold(accs, known, events).1 is Some ==> known == sets_page_fold(accs, known, events).1
            || exists|i: int| 0 <= i < events.len() && #[trigger] reported_total(events[i]) == sets_page_fold(accs, known, events).1,
    decreases events.len(),
{
    if events.len() > 0 {
        let s = crate::query::sets_event_step(accs, known, events[0]);
        let rest = events.drop_first();
        law_sets_total_is_largest(s.0, s.1, rest);
        let r = sets_page_fold(accs, known, events).1;
        assert(r == sets_page_fold(s.0, s.1, rest).1);
        assert(s.1 == crate::query::merge_total(known, reported_total(events[0])));
        assert forall|i: int|
            0 <= i < events.len() && (#[trigger] reported_total(events[i])) is Some
                implies r is Some && r.unwrap() >= reported_total(events[i]).unwrap() by {
            if i > 0 {
                assert(rest[i - 1] == events[i]);
            }
        }
        if r is Some {
            if s.1 != r {
                let i = choose|i: int| 0 <= i < rest.len() && #[trigger] reported_total(rest[i]) == r;
                assert(events[i + 1] == rest[i]);
                assert(reported_total(events[i + 1]) == r);
            } else if known != r {
                assert(reported_total(events[0]) == r);
            }
        }
    }
}

// --------------------------------------------------------- HTTP retries

/// The transient gateway statuses 502 and 503 are treated alike: while
/// fewer than `MAX_RETRIES` retries were made, each is retried after
/// 250·2ⁿ ms (n the retries so far); after that, each fails.
pub proof fn law_transient_statuses_retry(
    retry: u32,
    content_type: Seq<char>,
    body: Seq<char>,
    slug: Seq<char>,
    query_type: Seq<char>,
)
    ensures
        retry < MAX_RETRIES ==> (expected_decision(retry, 502, content_type, body, slug, query_type) matches DecisionView::Retry(ms, _)
            && ms == 250 * pow_nat(2, retry as nat)),
        retry < MAX_RETRIES ==> (expected_decision(retry, 503, content_type, body, slug, query_type) matches DecisionView::Retry(ms, _)
            && ms == 250 * pow_nat(2, retry as nat)),
        retry >= MAX_RETRIES ==> expected_decision(retry, 502, content_type, body, slug, query_type) is Fail
            && expected_decision(retry, 503, content_type, body, slug, query_type) is Fail,
{
}

/// A rate-limited response (429) is retried after 200·4ⁿ ms while fewer
/// than `MAX_RETRIES` retries were made, and fails after that.
pub proof fn law_rate_limited_retry(
    retry: u32,
    content_type: Seq<char>,
    body: Seq<char>,
    slug: Seq<char>,
    query_type: Seq<char>,
)
    ensures
        retry < MAX_RETRIES ==> (expected_decision(retry, 429, content_type, body, slug, query_type) matches DecisionView::Retry(ms, _)
            && ms == 200 * pow_nat(4, retry as nat)),
        retry >= MAX_RETRIES ==> expected_decision(retry, 429, content_type, body, slug, query_type) is Fail,
{
}

/// Any other status outside 2xx (504 among them) fails at once, whatever
/// the retry count; a 2xx body that is not blank is parsed at once.
pub proof fn law_other_statuses_do_not_retry(
    retry: u32,
    status: u16,
    content_type: Seq<char>,
    body: Seq<char>,
    slug: Seq<char>,
    query_type: Seq<char>,
)
    ensures
        status != 429 && status != 502 && status != 503 && !(200 <= status <= 299)
            ==> expected_decision(retry, status, content_type, body, slug, query_type) is Fail,
        200 <= status <= 299 && trim(crate::http::strip_bom(body)).len() > 0
            ==> expected_decision(retry, status, content_type, body, slug, query_type)
            == DecisionView::Parse(trim(crate::http::strip_bom(body))),
{
}

// ------------------------------------------------------- event metadata

/// The metadata entry is an event with id `key`.
pub open spec fn has_event_id(entry: Option<MetadataEvent>, key: Seq<char>) -> bool {
    entry matches Some(e) && e.id matches Some(id) && id@ == key
}

proof fn lemma_metadata_first(events: Seq<Option<MetadataEvent>>, key: Seq<char>, i: int)
    requires
        0 <= i < events.len(),
        has_event_id(events[i], key),
        forall|j: int| 0 <= j < i ==> !has_event_id(#[trigger] events[j], key),
    ensures
        crate::query::metadata_for(events, key) == Some(events[i].unwrap()),
    decreases i,
{
    if i > 0 {
        assert(!has_event_id(events[0], key));
        let rest = events.drop_first();
        assert forall|j: int| 0 <= j < i - 1 implies !has_event_id(#[trigger] rest[j], key) by {
            assert(rest[j] == events[j + 1]);
            assert(!has_event_id(events[j + 1], key));
        }
        assert(rest[i - 1] == events[i]);
        lemma_metadata_first(rest, key, i - 1);
    }
}

proof fn lemma_metadata_none(events: Seq<Option<MetadataEvent>>, key: Seq<char>)
    requires
        forall|j: int| 0 <= j < events.len() ==> !has_event_id(#[trigger] events[j], key),
    ensures
        crate::query::metadata_for(events, key) is None,
    decreases events.len(),
{
    if events.len() > 0 {
        assert(!has_event_id(events[0], key));
        let rest = events.drop_first();
        assert forall|j: int| 0 <= j < rest.len() implies !has_event_id(#[trigger] rest[j], key) by {
            assert(rest[j] == events[j + 1]);
            assert(!has_event_id(events[j + 1], key));
        }
        lemma_metadata_none(rest, key);
    }
}

/// An event's metadata comes from the first metadata entry with its id,
/// wherever that entry stands and whatever entries with other ids come
/// before it: its name (empty if it has none) and its start date.
pub proof fn law_metadata_from_first_matching_event(events: Seq<Option<MetadataEvent>>, key: Seq<char>, i: int)
    requires
        0 <= i < events.len(),
        has_event_id(events[i], key),
        forall|j: int| 0 <= j < i ==> !has_event_id(#[trigger] events[j], key),
    ensures
        event_name_and_date(events, key).0 == match events[i].unwrap().name {
            Some(n) => n@,
            None => Seq::<char>::empty(),
        },
        event_name_and_date(events, key).1 == match events[i].unwrap().start_at {
            Some(ts) => if chrono_utc_in_range(ts.0 as int) {
                Some(chrono_utc_format(ts.0, date_pattern()))
            } else {
                None
            },
            None => None,
        },
{
    lemma_metadata_first(events, key, i);
}

/// An id that no metadata entry has gets an empty name and no date.
pub proof fn law_metadata_of_unknown_event(events: Seq<Option<MetadataEvent>>, key: Seq<char>)
    requires
        forall|j: int| 0 <= j < events.len() ==> !has_event_id(#[trigger] events[j], key),
    ensures
        event_name_and_date(events, key) == (Seq::<char>::empty(), None::<Seq<char>>),
{
    lemma_metadata_none(events, key);
}

// ------------------------------------------------------------ CSV columns

/// The text of a row's field, looked up by the field's name (a missing
/// value is empty, a number is in decimal).
pub open spec fn column(r: RowView, name: Seq<char>) -> Seq<char> {
    if name == "tournament_slug"@ {
        r.tournament_slug
    } else if name == "tournament_id"@ {
        opt_field(r.tournament_id)
    } else if name == "event_id"@ {
        opt_field(r.event_id)
    } else if name == "event_name"@ {
        r.event_name
    } else if name == "event_date"@ {
        opt_field(r.event_date)
    } else if name == "entrant_id"@ {
        r.entrant_id
    } else if name == "player_id"@ {
        opt_field(r.player_id)
    } else if name == "placement"@ {
        match r.placement {
            Some(p) => int_decimal(p as int),
            None => Seq::empty(),
        }
    } else if name == "wins"@ {
        int_decimal(r.wins)
    } else if name == "losses"@ {
        int_decimal(r.losses)
    } else if name == "player_name"@ {
        r.player_name
    } else if name == "player_prefix"@ {
        r.player_prefix
    } else if name == "player_discriminator"@ {
        r.player_discriminator
    } else if name == "discord_usernames"@ {
        r.discord_usernames
    } else {
        Seq::empty()
    }
}

/// Each CSV record has as many fields as the header, and its i-th field
/// is the row's value for the field that the header's i-th name names.
pub proof fn law_csv_fields_under_their_names(r: RowView)
    ensures
        row_fields(r).len() == header_fields().len(),
        forall|i: int| 0 <= i < header_fields().len() ==> #[trigger] row_fields(r)[i] == column(r, header_fields()[i]),
{
    reveal_strlit("tournament_slug");
    reveal_strlit("tournament_id");
    reveal_strlit("event_id");
    reveal_strlit("event_name");
    reveal_strlit("event_date");
    reveal_strlit("entrant_id");
    reveal_strlit("player_id");
    reveal_strlit("placement");
    reveal_strlit("wins");
    reveal_strlit("losses");
    reveal_strlit("player_name");
    reveal_strlit("player_prefix");
    reveal_strlit("player_discriminator");
    reveal_strlit("discord_usernames");
    let h = header_fields();
    assert(h[0] == "tournament_slug"@ && "tournament_slug"@.len() == 15);
    assert(h[1] == "tournament_id"@ && "tournament_id"@.len() == 13);
    assert(h[2] == "event_id"@ && "event_id"@.len() == 8);
    assert(h[3] == "event_name"@ && "event_name"@.len() == 10);
    assert(h[4] == "event_date"@ && "event_date"@.len() == 10);
    assert(h[5] == "entrant_id"@ && "entrant_id"@.len() == 10);
    assert(h[6] == "player_id"@ && "player_id"@.len() == 9);
    assert(h[7] == "placement"@ && "placement"@.len() == 9);
    assert(h[8] == "wins"@ && "wins"@.len() == 4);
    assert(h[9] == "losses"@ && "losses"@.len() == 6);
    assert(h[10] == "player_name"@ && "player_name"@.len() == 11);
    assert(h[11] == "player_prefix"@ && "player_prefix"@.len() == 13);
    assert(h[12] == "player_discriminator"@ && "player_discriminator"@.len() == 20);
    assert(h[13] == "discord_usernames"@ && "discord_usernames"@.len() == 17);
    assert("tournament_id"@[0] != "player_prefix"@[0]);
    assert("event_name"@[6] != "event_date"@[6]);
    assert("event_name"@[1] != "entrant_id"@[1]);
    assert("event_date"@[1] != "entrant_id"@[1]);
    assert("player_id"@[3] != "placement"@[3]);
    assert forall|i: int| 0 <= i < h.len() implies #[trigger] row_fields(r)[i] == column(r, h[i]) by {
        if i == 0 {
            assert(row_fields(r)[0] == column(r, h[0]));
        } else if i == 1 {
            assert(row_fields(r)[1] == column(r, h[1]));
        } else if i == 2 {
            assert(row_fields(r)[2] == column(r, h[2]));
        } else if i == 3 {
            assert(row_fields(r)[3] == column(r, h[3]));
        } else if i == 4 {
            assert(row_fields(r)[4] == column(r, h[4]));
        } else if i == 5 {
            assert(row_fields(r)[5] == column(r, h[5]));
        } else if i == 6 {
            assert(row_fields(r)[6] == column(r, h[6]));
        } else if i == 7 {
            assert(row_fields(r)[7] == column(r, h[7]));
        } else if i == 8 {
            assert(row_fields(r)[8] == column(r, h[8]));
        } else if i == 9 {
            assert(row_fields(r)[9] == column(r, h[9]));
        } else if i == 10 {
            assert(row_fields(r)[10] == column(r, h[10]));
        } else if i == 11 {
            assert(row_fields(r)[11] == column(r, h[11]));
        } else if i == 12 {
            assert(row_fields(r)[12] == column(r, h[12]));
        } else if i == 13 {
            assert(row_fields(r)[13] == column(r, h[13]));
        }
    }
}

} // verus!
