//! The accumulators of one tournament, one per event id, in the order in
//! which the events were first met.

use vstd::prelude::*;

use crate::accumulator::{
    count_result, event_tally_items, sets_items, slot_items, tally, tally_fits,
    with_tally, AccView,
};
use crate::query::{reply_sets_events, sets_event_step, sets_page_fold, tallies_fit, SetsPageResponse};
use crate::queries::tournament::{EventEntrantsEvent, EventStandingsEvent, SetsEvent, SetsSet, SetsSetSlot};
use crate::types::{EventAccumulator, RowView, TournamentRow};
use crate::laws::carries_header;

verus! {

/// Event accumulators keyed by event id.
pub struct EventTable {
    entries: Vec<(String, EventAccumulator)>,
}

/// The rows of the accumulators, event after event, each with its tally.
pub open spec fn finished_rows(keys: Seq<Seq<char>>, accs: Map<Seq<char>, AccView>) -> Seq<RowView>
    decreases keys.len(),
{
    if keys.len() == 0 {
        Seq::empty()
    } else {
        let a = accs[keys.last()];
        finished_rows(keys.drop_last(), accs) + a.rows.map_values(|r: RowView| with_tally(r, a.tally))
    }
}

/// How many rows the accumulators hold together.
pub open spec fn row_count(keys: Seq<Seq<char>>, accs: Map<Seq<char>, AccView>) -> int
    decreases keys.len(),
{
    if keys.len() == 0 {
        0
    } else {
        row_count(keys.drop_last(), accs) + accs[keys.last()].rows.len()
    }
}

/// Every row of every accumulator carries its event's values.
pub open spec fn accs_carry_header(accs: Map<Seq<char>, AccView>) -> bool {
    forall|k: Seq<char>| #[trigger] accs.contains_key(k) ==> carries_header(accs[k].rows, accs[k].header)
}

spec fn keys_of(entries: Seq<(String, EventAccumulator)>) -> Seq<Seq<char>> {
    entries.map_values(|e: (String, EventAccumulator)| e.0@)
}

spec fn view_of(entries: Seq<(String, EventAccumulator)>) -> Map<Seq<char>, AccView> {
    Map::new(
        |k: Seq<char>| keys_of(entries).contains(k),
        |k: Seq<char>|
            {
                let i = choose|i: int| 0 <= i < keys_of(entries).len() && keys_of(entries)[i] == k;
                entries[i].1@
            },
    )
}

proof fn lemma_view_of_update(entries: Seq<(String, EventAccumulator)>, i: int, acc: EventAccumulator)
    requires
        keys_of(entries).no_duplicates(),
        0 <= i < entries.len(),
    ensures
        keys_of(entries.update(i, (entries[i].0, acc))) == keys_of(entries),
        view_of(entries.update(i, (entries[i].0, acc))) == view_of(entries).insert(entries[i].0@, acc@),
{
    let new = entries.update(i, (entries[i].0, acc));
    assert(keys_of(new) =~= keys_of(entries));
    let k = entries[i].0@;
    assert(keys_of(entries)[i] == k);
    assert forall|q: Seq<char>| #[trigger] view_of(new).contains_key(q) implies view_of(new)[q]
        == view_of(entries).insert(k, acc@)[q] by {
        let j = choose|j: int| 0 <= j < keys_of(new).len() && keys_of(new)[j] == q;
        if q == k {
            assert(keys_of(new)[j] == keys_of(new)[i]);
        } else {
            let j2 = choose|j2: int| 0 <= j2 < keys_of(entries).len() && keys_of(entries)[j2] == q;
            assert(keys_of(entries)[j2] == keys_of(entries)[j]);
        }
    }
    assert(view_of(new) =~= view_of(entries).insert(k, acc@));
}

impl EventTable {
    /// The event ids in first-met order.
    pub closed spec fn keys(&self) -> Seq<Seq<char>> {
        keys_of(self.entries@)
    }

    /// Each event id's accumulator.
    pub closed spec fn view(&self) -> Map<Seq<char>, AccView> {
        view_of(self.entries@)
    }

    /// One entry per event id, and every accumulator well formed, with
    /// every row carrying its event's values.
    pub closed spec fn wf(&self) -> bool {
        &&& self.keys().no_duplicates()
        &&& forall|i: int|
            #![trigger self.entries@[i]]
            0 <= i < self.entries@.len() ==> self.entries@[i].1.wf()
                && self.entries@[i].1.rows_match_header()
    }

    /// In a well-formed table every row carries its event's values.
    pub proof fn lemma_rows_carry_header(&self)
        requires
            self.wf(),
        ensures
            accs_carry_header(self.view()),
    {
        assert forall|k: Seq<char>| #[trigger] self.view().contains_key(k) implies carries_header(
            self.view()[k].rows,
            self.view()[k].header,
        ) by {
            let i = choose|i: int| 0 <= i < self.keys().len() && self.keys()[i] == k;
            self.lemma_view_at(i);
            assert(self.entries@[i].1.rows_match_header());
        }
    }

    proof fn lemma_view_at(&self, i: int)
        requires
            self.wf(),
            0 <= i < self.entries@.len(),
        ensures
            self.view().contains_key(self.entries@[i].0@),
            self.view()[self.entries@[i].0@] == self.entries@[i].1@,
    {
        let k = self.entries@[i].0@;
        assert(self.keys()[i] == k);
        let j = choose|j: int| 0 <= j < self.keys().len() && self.keys()[j] == k;
        assert(self.keys()[j] == self.keys()[i]);
    }

    pub fn new() -> (res: EventTable)
        ensures
            res.wf(),
            res.keys() == Seq::<Seq<char>>::empty(),
            res.view() == Map::<Seq<char>, AccView>::empty(),
    {
        let res = EventTable { entries: Vec::new() };
        assert(res.keys() =~= Seq::<Seq<char>>::empty());
        assert(res.view() =~= Map::<Seq<char>, AccView>::empty());
        res
    }

    pub fn is_empty(&self) -> (res: bool)
        ensures
            res == (self.keys().len() == 0),
    {
        self.entries.len() == 0
    }

    fn find(&self, key: &str) -> (res: Option<usize>)
        ensures
            match res {
                Some(i) => i < self.entries@.len() && self.entries@[i as int].0@ == key@,
                None => !self.keys().contains(key@),
            },
    {
        let mut i: usize = 0;
        while i < self.entries.len()
            invariant
                i <= self.entries.len(),
                forall|j: int| 0 <= j < i ==> self.entries@[j].0@ != key@,
            decreases self.entries.len() - i,
        {
            if crate::text::str_eq(self.entries[i].0.as_str(), key) {
                return Some(i);
            }
            i = i + 1;
        }
        proof {
            if self.keys().contains(key@) {
                let j = choose|j: int| 0 <= j < self.keys().len() && self.keys()[j] == key@;
                assert(self.entries@[j].0@ == key@);
            }
        }
        None
    }

    pub fn contains_key(&self, key: &str) -> (res: bool)
        ensures
            res == self.view().contains_key(key@),
    {
        match self.find(key) {
            Some(i) => {
                assert(self.keys()[i as int] == key@);
                true
            },
            None => false,
        }
    }

    /// Adds the accumulator of a new event id.
    pub fn insert_new(&mut self, key: String, acc: EventAccumulator)
        requires
            old(self).wf(),
            !old(self).view().contains_key(key@),
            acc.wf(),
            acc.rows_match_header(),
        ensures
            final(self).wf(),
            final(self).keys() == old(self).keys().push(key@),
            final(self).view() == old(self).view().insert(key@, acc@),
    {
        let ghost old_keys = self.keys();
        let ghost k = key@;
        let ghost a = acc@;
        self.entries.push((key, acc));
        proof {
            assert(self.keys() =~= old_keys.push(k));
            let n = old_keys.len() as int;
            assert forall|i: int, j: int|
                0 <= i < self.keys().len() && 0 <= j < self.keys().len() && i != j implies self.keys()[i]
                != self.keys()[j] by {
                if i == n && j < n {
                    assert(old_keys[j] == self.keys()[j]);
                }
                if j == n && i < n {
                    assert(old_keys[i] == self.keys()[i]);
                }
            }
            assert(self.keys().no_duplicates());
            assert(self.wf());
            assert forall|q: Seq<char>| #[trigger] self.view().contains_key(q) implies self.view()[q]
                == old(self).view().insert(k, a)[q] by {
                let i = choose|i: int| 0 <= i < self.keys().len() && self.keys()[i] == q;
                self.lemma_view_at(i);
                if i < n {
                    old(self).lemma_view_at(i);
                }
            }
            assert forall|q: Seq<char>| #[trigger] self.view().contains_key(q) <==> old(self).view().insert(
                k,
                a,
            ).contains_key(q) by {
                if old_keys.contains(q) {
                    let i = choose|i: int| 0 <= i < old_keys.len() && old_keys[i] == q;
                    assert(self.keys()[i] == q);
                }
                if self.keys().contains(q) && q != k {
                    let i = choose|i: int| 0 <= i < self.keys().len() && self.keys()[i] == q;
                    assert(old_keys[i] == q);
                }
                assert(self.keys()[n] == k);
            }
            assert(self.view() =~= old(self).view().insert(k, a));
        }
    }
}

impl EventTable {
    /// Folds a standings page into the accumulator of `key`; `None` when the
    /// table has no such event.
    pub fn absorb_standings(&mut self, key: &str, event: EventStandingsEvent) -> (res: Option<bool>)
        requires
            old(self).wf(),
        ensures
            final(self).wf(),
            final(self).keys() == old(self).keys(),
            match res {
                None => !old(self).view().contains_key(key@) && final(self).view() == old(self).view(),
                Some(changed) => old(self).view().contains_key(key@) && ({
                    let a = old(self).view()[key@];
                    let step = crate::accumulator::apply_standings(
                        a.header,
                        a.rows,
                        crate::accumulator::connection_standing_updates(event.standings),
                    );
                    &&& changed == step.1
                    &&& final(self).view() == old(self).view().insert(key@, AccView { rows: step.0, ..a })
                }),
            },
    {
        match self.find(key) {
            None => None,
            Some(i) => {
                let ghost before = self.entries@;
                proof {
                    self.lemma_view_at(i as int);
                }
                let changed = self.entries[i].1.absorb_event_standings_page(event);
                proof {
                    assert(self.entries@ =~= before.update(i as int, (before[i as int].0, self.entries@[i as int].1)));
                    lemma_view_of_update(before, i as int, self.entries@[i as int].1);
                    assert(self.wf());
                }
                Some(changed)
            },
        }
    }
}

impl EventTable {
    /// Folds an entrants page into the accumulator of `key`; `None` when the
    /// table has no such event.
    pub fn absorb_entrants(&mut self, key: &str, event: EventEntrantsEvent) -> (res: Option<bool>)
        requires
            old(self).wf(),
        ensures
            final(self).wf(),
            final(self).keys() == old(self).keys(),
            match res {
                None => !old(self).view().contains_key(key@) && final(self).view() == old(self).view(),
                Some(changed) => old(self).view().contains_key(key@) && ({
                    let a = old(self).view()[key@];
                    let step = crate::accumulator::apply_entrants(
                        a.header,
                        a.rows,
                        crate::accumulator::connection_entrant_updates(event.entrants),
                    );
                    &&& changed == step.1
                    &&& final(self).view() == old(self).view().insert(key@, AccView { rows: step.0, ..a })
                }),
            },
    {
        match self.find(key) {
            None => None,
            Some(i) => {
                let ghost before = self.entries@;
                proof {
                    self.lemma_view_at(i as int);
                }
                let changed = self.entries[i].1.absorb_event_entrants_page(event);
                proof {
                    assert(self.entries@ =~= before.update(i as int, (before[i as int].0, self.entries@[i as int].1)));
                    lemma_view_of_update(before, i as int, self.entries@[i as int].1);
                    assert(self.wf());
                }
                Some(changed)
            },
        }
    }

    /// Counts a sets page into the accumulator of `key`; `None` when the
    /// table has no such event.
    pub fn absorb_sets(&mut self, key: &str, event: SetsEvent) -> (res: Option<bool>)
        requires
            old(self).wf(),
            old(self).view().contains_key(key@) ==> tally_fits(
                tally(old(self).view()[key@].tally, event_tally_items(event)),
            ),
        ensures
            final(self).wf(),
            final(self).keys() == old(self).keys(),
            match res {
                None => !old(self).view().contains_key(key@) && final(self).view() == old(self).view(),
                Some(changed) => old(self).view().contains_key(key@) && ({
                    let a = old(self).view()[key@];
                    &&& changed == (event_tally_items(event).len() > 0)
                    &&& final(self).view() == old(self).view().insert(
                        key@,
                        AccView { tally: tally(a.tally, event_tally_items(event)), ..a },
                    )
                }),
            },
    {
        match self.find(key) {
            None => None,
            Some(i) => {
                let ghost before = self.entries@;
                proof {
                    self.lemma_view_at(i as int);
                }
                let changed = self.entries[i].1.absorb_sets_page(event);
                proof {
                    assert(self.entries@ =~= before.update(i as int, (before[i as int].0, self.entries@[i as int].1)));
                    lemma_view_of_update(before, i as int, self.entries@[i as int].1);
                    assert(self.wf());
                }
                Some(changed)
            },
        }
    }
}

proof fn lemma_row_count_prefix(keys: Seq<Seq<char>>, accs: Map<Seq<char>, AccView>, i: int)
    requires
        0 <= i <= keys.len(),
    ensures
        0 <= row_count(keys.take(i), accs) <= row_count(keys, accs),
    decreases keys.len(),
{
    if i == keys.len() {
        assert(keys.take(i) =~= keys);
        lemma_row_count_nonneg(keys, accs);
    } else {
        lemma_row_count_prefix(keys.drop_last(), accs, i);
        assert(keys.drop_last().take(i) =~= keys.take(i));
    }
}

proof fn lemma_row_count_nonneg(keys: Seq<Seq<char>>, accs: Map<Seq<char>, AccView>)
    ensures
        row_count(keys, accs) >= 0,
    decreases keys.len(),
{
    if keys.len() > 0 {
        lemma_row_count_nonneg(keys.drop_last(), accs);
    }
}

impl EventTable {
    /// How many rows all accumulators hold.
    pub fn total_rows(&self) -> (res: usize)
        requires
            self.wf(),
            row_count(self.keys(), self.view()) <= usize::MAX,
        ensures
            res == row_count(self.keys(), self.view()),
    {
        let mut total: usize = 0;
        let mut i: usize = 0;
        while i < self.entries.len()
            invariant
                self.wf(),
                i <= self.entries.len(),
                row_count(self.keys(), self.view()) <= usize::MAX,
                total == row_count(self.keys().take(i as int), self.view()),
            decreases self.entries.len() - i,
        {
            proof {
                assert(self.keys().take(i + 1).drop_last() =~= self.keys().take(i as int));
                assert(self.keys().take(0) =~= Seq::<Seq<char>>::empty());
                self.lemma_view_at(i as int);
                lemma_row_count_prefix(self.keys(), self.view(), i + 1);
            }
            total = total + self.entries[i].1.row_by_entrant_id.len();
            i = i + 1;
        }
        assert(self.keys().take(self.entries.len() as int) =~= self.keys());
        total
    }

    /// Whether the rows of all accumulators together can be counted in a
    /// `usize` (the test that `total_rows` asks of its callers).
    pub fn row_count_fits(&self) -> (res: bool)
        requires
            self.wf(),
        ensures
            res == (row_count(self.keys(), self.view()) <= usize::MAX),
    {
        let mut total: usize = 0;
        let mut i: usize = 0;
        while i < self.entries.len()
            invariant
                self.wf(),
                i <= self.entries.len(),
                total == row_count(self.keys().take(i as int), self.view()),
            decreases self.entries.len() - i,
        {
            proof {
                assert(self.keys().take(i + 1).drop_last() =~= self.keys().take(i as int));
                assert(self.keys().take(0) =~= Seq::<Seq<char>>::empty());
                self.lemma_view_at(i as int);
                lemma_row_count_prefix(self.keys(), self.view(), i + 1);
            }
            match total.checked_add(self.entries[i].1.row_by_entrant_id.len()) {
                Some(t) => total = t,
                None => {
                    return false;
                },
            }
            i = i + 1;
        }
        assert(self.keys().take(self.entries.len() as int) =~= self.keys());
        true
    }

    /// All rows, event after event, each with its entrant's tallied wins
    /// and losses.
    pub fn into_rows(self) -> (res: Vec<TournamentRow>)
        requires
            self.wf(),
        ensures
            res@.map_values(|r: TournamentRow| r@) == finished_rows(self.keys(), self.view()),
    {
        let ghost keys = self.keys();
        let ghost accs = self.view();
        let ghost original = self.entries@;
        let EventTable { mut entries } = self;
        let mut out: Vec<TournamentRow> = Vec::new();
        let mut i: usize = 0;
        while i < entries.len()
            invariant
                i <= entries.len(),
                entries.len() == original.len(),
                keys == keys_of(original),
                accs == view_of(original),
                keys_of(original).no_duplicates(),
                forall|j: int| 0 <= j < original.len() ==> #[trigger] original[j].1.wf(),
                forall|j: int| i <= j < entries.len() ==> entries@[j] == original[j],
                out@.map_values(|r: TournamentRow| r@) == finished_rows(keys.take(i as int), accs),
            decreases entries.len() - i,
        {
            let mut slot = (String::new(), EventAccumulator::new("", None, None, String::new(), None));
            entries.set_and_swap(i, &mut slot);
            proof {
                assert(slot == original[i as int]);
                assert(keys.take(i + 1).drop_last() =~= keys.take(i as int));
                assert(keys.take(0) =~= Seq::<Seq<char>>::empty());
                assert(keys[i as int] == original[i as int].0@);
                let k = original[i as int].0@;
                let j = choose|j: int| 0 <= j < keys.len() && keys[j] == k;
                assert(keys[j] == keys[i as int]);
                assert(accs[k] == original[i as int].1@);
            }
            let ghost out_before = out@.map_values(|r: TournamentRow| r@);
            let mut rows = slot.1.into_rows();
            let ghost rows_view = rows@.map_values(|r: TournamentRow| r@);
            out.append(&mut rows);
            proof {
                assert(out@.map_values(|r: TournamentRow| r@) =~= out_before + rows_view);
            }
            i = i + 1;
        }
        assert(keys.take(entries.len() as int) =~= keys);
        out
    }
}

/// Every count of every tally is at most `b`.
pub open spec fn counts_at_most(accs: Map<Seq<char>, AccView>, b: int) -> bool {
    forall|key: Seq<char>, k: Seq<char>|
        accs.contains_key(key) && #[trigger] accs[key].tally.contains_key(k) ==> accs[key].tally[k].0
            <= b && accs[key].tally[k].1 <= b
}

/// How many slots the sets of the events have.
pub open spec fn events_slot_count(events: Seq<Option<SetsEvent>>) -> int
    decreases events.len(),
{
    if events.len() == 0 {
        0
    } else {
        (match events[0] {
            Some(e) => match e.sets {
                Some(c) => match c.nodes {
                    Some(v) => nodes_slot_count(v@),
                    None => 0,
                },
                None => 0,
            },
            None => 0,
        }) + events_slot_count(events.drop_first())
    }
}

pub open spec fn nodes_slot_count(nodes: Seq<Option<SetsSet>>) -> int
    decreases nodes.len(),
{
    if nodes.len() == 0 {
        0
    } else {
        (match nodes[0] {
            Some(set) => match set.slots {
                Some(v) => v@.len() as int,
                None => 0,
            },
            None => 0,
        }) + nodes_slot_count(nodes.drop_first())
    }
}

proof fn lemma_slot_items_len(slots: Seq<Option<SetsSetSlot>>, w: Seq<char>)
    ensures
        slot_items(slots, w).len() <= slots.len(),
    decreases slots.len(),
{
    if slots.len() > 0 {
        lemma_slot_items_len(slots.drop_first(), w);
    }
}

proof fn lemma_sets_items_len(nodes: Seq<Option<SetsSet>>)
    ensures
        0 <= sets_items(nodes).len() <= nodes_slot_count(nodes),
    decreases nodes.len(),
{
    if nodes.len() > 0 {
        lemma_sets_items_len(nodes.drop_first());
        match nodes[0] {
            Some(set) => match (set.id, set.winner_id, set.slots) {
                (Some(_), Some(w), Some(slots)) => {
                    lemma_slot_items_len(slots@, crate::text::int_decimal(w as int));
                },
                _ => {},
            },
            None => {},
        }
    }
}

proof fn lemma_tally_bound(m: Map<Seq<char>, (int, int)>, items: Seq<crate::accumulator::TallyItem>, b: int)
    requires
        b >= 0,
        forall|k: Seq<char>| #[trigger] m.contains_key(k) ==> m[k].0 <= b && m[k].1 <= b,
    ensures
        forall|k: Seq<char>|
            #[trigger] tally(m, items).contains_key(k) ==> tally(m, items)[k].0 <= b + items.len()
                && tally(m, items)[k].1 <= b + items.len(),
    decreases items.len(),
{
    if items.len() > 0 {
        let next = count_result(m, items[0]);
        assert forall|k: Seq<char>| #[trigger] next.contains_key(k) implies next[k].0 <= b + 1
            && next[k].1 <= b + 1 by {}
        lemma_tally_bound(next, items.drop_first(), b + 1);
        assert(tally(m, items) == tally(next, items.drop_first()));
    }
}

proof fn lemma_fold_bound(accs: Map<Seq<char>, AccView>, known: Option<i32>, events: Seq<Option<SetsEvent>>, b: int)
    requires
        b >= 0,
        counts_at_most(accs, b),
    ensures
        counts_at_most(sets_page_fold(accs, known, events).0, b + events_slot_count(events)),
    decreases events.len(),
{
    if events.len() > 0 {
        let s = sets_event_step(accs, known, events[0]);
        let here: int = match events[0] {
            Some(e) => match e.sets {
                Some(c) => match c.nodes {
                    Some(v) => nodes_slot_count(v@),
                    None => 0,
                },
                None => 0,
            },
            None => 0,
        };
        match events[0] {
            Some(e) => {
                match e.sets {
                    Some(c) => match c.nodes {
                        Some(v) => lemma_sets_items_len(v@),
                        None => {},
                    },
                    None => {},
                }
                assert(0 <= event_tally_items(e).len() <= here);
                match e.id {
                    Some(id) => if accs.contains_key(id@) {
                        let a = accs[id@];
                        assert forall|k: Seq<char>| #[trigger] a.tally.contains_key(k) implies a.tally[k].0
                            <= b && a.tally[k].1 <= b by {
                            assert(accs.contains_key(id@) && accs[id@].tally.contains_key(k));
                        }
                        lemma_tally_bound(a.tally, event_tally_items(e), b);
                    },
                    None => {},
                }
            },
            None => {},
        }
        assert(here >= 0) by {
            match events[0] {
                Some(e) => match e.sets {
                    Some(c) => match c.nodes {
                        Some(v) => lemma_sets_items_len(v@),
                        None => {},
                    },
                    None => {},
                },
                None => {},
            }
        }
        assert(counts_at_most(s.0, b + here));
        lemma_fold_bound(s.0, s.1, events.drop_first(), b + here);
    }
}

/// Slot counts are never negative.
proof fn lemma_nodes_slot_count_nonneg(nodes: Seq<Option<SetsSet>>)
    ensures
        nodes_slot_count(nodes) >= 0,
    decreases nodes.len(),
{
    if nodes.len() > 0 {
        lemma_nodes_slot_count_nonneg(nodes.drop_first());
    }
}

proof fn lemma_events_slot_count_nonneg(events: Seq<Option<SetsEvent>>)
    ensures
        events_slot_count(events) >= 0,
    decreases events.len(),
{
    if events.len() > 0 {
        lemma_events_slot_count_nonneg(events.drop_first());
        match events[0] {
            Some(e) => match e.sets {
                Some(c) => match c.nodes {
                    Some(v) => lemma_nodes_slot_count_nonneg(v@),
                    None => {},
                },
                None => {},
            },
            None => {},
        }
    }
}

/// A larger bound holds wherever a smaller one does.
proof fn lemma_counts_at_most_mono(accs: Map<Seq<char>, AccView>, c: int, d: int)
    requires
        counts_at_most(accs, c),
        c <= d,
    ensures
        counts_at_most(accs, d),
{
}

impl EventTable {
    /// A quick test that counting this sets page cannot overflow an `i32`
    /// count: true exactly when the page's slot count, added to the largest
    /// win or loss count that the table holds (zero for none), fits an
    /// `i32`; true for a reply without data.
    pub fn sets_page_within_counts(&self, response: &SetsPageResponse) -> (res: bool)
        requires
            self.wf(),
        ensures
            res == match response.sets.data {
                None => true,
                Some(q) => {
                    let slots = events_slot_count(reply_sets_events(q));
                    slots <= i32::MAX && counts_at_most(self.view(), i32::MAX - slots)
                },
            },
            res ==> (response.sets.errors is None ==> (response.sets.data matches Some(q)
                ==> forall|known: Option<i32>|
                tallies_fit(#[trigger] sets_page_fold(self.view(), known, reply_sets_events(q)).0))),
    {
        let mut b: i64 = 0;
        let ghost mut wx: int = 0;
        let ghost mut wy: int = 0;
        let mut i: usize = 0;
        while i < self.entries.len()
            invariant
                self.wf(),
                i <= self.entries.len(),
                0 <= b <= i32::MAX,
                forall|x: int, y: int|
                    0 <= x < i && 0 <= y < self.entries@[x].1.wins_losses@.len() ==> #[trigger] self.entries@[x].1.wins_losses@[y].1.0
                        <= b && self.entries@[x].1.wins_losses@[y].1.1 <= b,
                b == 0 || (0 <= wx < i && 0 <= wy < self.entries@[wx].1.wins_losses@.len() && (
                self.entries@[wx].1.wins_losses@[wy].1.0 == b || self.entries@[wx].1.wins_losses@[wy].1.1
                    == b)),
            decreases self.entries.len() - i,
        {
            let entries = &self.entries[i].1.wins_losses;
            let mut j: usize = 0;
            while j < entries.len()
                invariant
                    i < self.entries.len(),
                    entries@ == self.entries@[i as int].1.wins_losses@,
                    0 <= b <= i32::MAX,
                    j <= entries.len(),
                    forall|x: int, y: int|
                        0 <= x < i && 0 <= y < self.entries@[x].1.wins_losses@.len() ==> #[trigger] self.entries@[x].1.wins_losses@[y].1.0
                            <= b && self.entries@[x].1.wins_losses@[y].1.1 <= b,
                    forall|y: int| 0 <= y < j ==> #[trigger] entries@[y].1.0 <= b && entries@[y].1.1 <= b,
                    b == 0 || (0 <= wx <= i && 0 <= wy < self.entries@[wx].1.wins_losses@.len() && (wx == i
                        ==> wy < j) && (self.entries@[wx].1.wins_losses@[wy].1.0 == b
                        || self.entries@[wx].1.wins_losses@[wy].1.1 == b)),
                decreases entries.len() - j,
            {
                let (w, l) = entries[j].1;
                let ghost old_b = b;
                if w as i64 > b {
                    b = w as i64;
                    proof {
                        wx = i as int;
                        wy = j as int;
                    }
                }
                if l as i64 > b {
                    b = l as i64;
                    proof {
                        wx = i as int;
                        wy = j as int;
                    }
                }
                assert(entries@[j as int].1.0 <= b && entries@[j as int].1.1 <= b);
                assert(old_b <= b);
                j = j + 1;
            }
            i = i + 1;
        }
        proof {
            let accs = self.view();
            assert forall|key: Seq<char>, kk: Seq<char>|
                accs.contains_key(key) && #[trigger] accs[key].tally.contains_key(kk) implies accs[key].tally[kk].0
                <= b && accs[key].tally[kk].1 <= b by {
                let x = choose|x: int| 0 <= x < self.keys().len() && self.keys()[x] == key;
                self.lemma_view_at(x);
                let wl = self.entries@[x].1.wins_losses@;
                let y = choose|y: int| 0 <= y < wl.len() && wl[y].0@ == kk;
                assert(self.entries@[x].1.wins_losses@[y].1.0 <= b);
            }
            assert(counts_at_most(accs, b as int));
            if b > 0 {
                self.lemma_view_at(wx);
                let wl = self.entries@[wx].1.wins_losses@;
                assert(self.entries@[wx].1.wf());
                crate::accumulator::lemma_tally_of_value(wl, wy);
                let key = self.entries@[wx].0@;
                let kk = wl[wy].0@;
                assert(accs[key].tally.contains_key(kk));
                assert(!counts_at_most(accs, b - 1));
            }
        }
        let data = match &response.sets.data {
            Some(q) => q,
            None => {
                return true;
            },
        };
        let empty: Vec<Option<SetsEvent>> = Vec::new();
        let events = match &data.tournament {
            Some(t) => match &t.events {
                Some(v) => v,
                None => &empty,
            },
            None => &empty,
        };
        assert(events@ == reply_sets_events(*data));
        let ghost total = events_slot_count(events@);
        let limit: u64 = (i32::MAX as i64 - b) as u64;
        let mut n: u64 = 0;
        let mut k: usize = 0;
        assert(events@.skip(0) =~= events@);
        while k < events.len()
            invariant
                k <= events@.len(),
                n <= limit,
                limit == i32::MAX - b,
                0 <= b <= i32::MAX,
                total == events_slot_count(events@),
                n + events_slot_count(events@.skip(k as int)) == total,
                counts_at_most(self.view(), b as int),
                b == 0 || !counts_at_most(self.view(), b - 1),
                response.sets.data == Some(*data),
                events@ == reply_sets_events(*data),
            decreases events@.len() - k,
        {
            proof {
                assert(events@.skip(k as int).drop_first() =~= events@.skip(k + 1));
                assert(events@.skip(k as int)[0] == events@[k as int]);
                lemma_events_slot_count_nonneg(events@.skip(k + 1));
            }
            let mut here: u64 = 0;
            if let Some(e) = &events[k] {
                if let Some(c) = &e.sets {
                    if let Some(nodes) = &c.nodes {
                        let mut m: usize = 0;
                        assert(nodes@.skip(0) =~= nodes@);
                        while m < nodes.len()
                            invariant
                                m <= nodes@.len(),
                                n + here <= limit,
                                limit == i32::MAX - b,
                                0 <= b <= i32::MAX,
                                here + nodes_slot_count(nodes@.skip(m as int)) == nodes_slot_count(nodes@),
                                n + nodes_slot_count(nodes@) + events_slot_count(events@.skip(k + 1)) == total,
                                events_slot_count(events@.skip(k + 1)) >= 0,
                                counts_at_most(self.view(), b as int),
                                b == 0 || !counts_at_most(self.view(), b - 1),
                                response.sets.data == Some(*data),
                                events@ == reply_sets_events(*data),
                                total == events_slot_count(events@),
                            decreases nodes@.len() - m,
                        {
                            proof {
                                assert(nodes@.skip(m as int).drop_first() =~= nodes@.skip(m + 1));
                                assert(nodes@.skip(m as int)[0] == nodes@[m as int]);
                                lemma_nodes_slot_count_nonneg(nodes@.skip(m + 1));
                            }
                            if let Some(set) = &nodes[m] {
                                if let Some(slots) = &set.slots {
                                    if slots.len() as u64 > limit - n - here {
                                        proof {
                                            assert(total > i32::MAX - b);
                                            if total <= i32::MAX && b > 0 {
                                                if counts_at_most(self.view(), i32::MAX - total) {
                                                    lemma_counts_at_most_mono(self.view(), i32::MAX - total, b - 1);
                                                }
                                            }
                                        }
                                        return false;
                                    }
                                    here = here + slots.len() as u64;
                                }
                            }
                            m = m + 1;
                        }
                        assert(nodes@.skip(m as int) =~= Seq::<Option<SetsSet>>::empty());
                    }
                }
            }
            n = n + here;
            k = k + 1;
        }
        assert(events@.skip(k as int) =~= Seq::<Option<SetsEvent>>::empty());
        proof {
            let accs = self.view();
            lemma_counts_at_most_mono(accs, b as int, i32::MAX - total);
            assert forall|known: Option<i32>|
                tallies_fit(#[trigger] sets_page_fold(accs, known, events@).0) by {
                lemma_fold_bound(accs, known, events@, b as int);
                let f = sets_page_fold(accs, known, events@).0;
                assert forall|key: Seq<char>| f.contains_key(key) implies tally_fits(#[trigger] f[key].tally) by {
                    assert forall|kk: Seq<char>| f[key].tally.contains_key(kk) implies f[key].tally[kk].0
                        <= i32::MAX && f[key].tally[kk].1 <= i32::MAX by {
                        assert(f.contains_key(key) && f[key].tally.contains_key(kk));
                    }
                }
            }
        }
        true
    }
}

} // verus!
