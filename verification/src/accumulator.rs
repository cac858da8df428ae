//! Folding standings, entrants and sets pages into an event's rows.

use vstd::prelude::*;

use crate::queries::tournament::{
    EntrantsAuthorization, EntrantsEntrant, EntrantsParticipant, EventEntrantsEntrantConnection,
    EventEntrantsEvent, EventStandingsEvent, SetsEvent, SetsSet, SetsSetSlot,
    StandingsStanding, StandingsStandingConnection,
};
use crate::text::{str_eq, int_decimal, join, join_non_empty, non_empty, trim, trim_str};
use crate::types::{opt_text, EventAccumulator, MutableTournamentRow, RowView, TournamentRow};
use crate::utils::{id_to_string, prefix_and_name, split_prefix_and_name, winner_id_to_string};

verus! {

/// The event-level values that every row of an event carries.
pub struct RowHeader {
    pub tournament_slug: Seq<char>,
    pub tournament_id: Option<Seq<char>>,
    pub event_id: Option<Seq<char>>,
    pub event_name: Seq<char>,
    pub event_date: Option<Seq<char>>,
}

/// No two rows belong to the same entrant.
pub open spec fn unique_entrants(rows: Seq<RowView>) -> bool {
    forall|i: int, j: int|
        0 <= i < rows.len() && 0 <= j < rows.len() && i != j ==> rows[i].entrant_id
            != rows[j].entrant_id
}

/// No entrant id has two tally entries.
pub open spec fn unique_keys(entries: Seq<(String, (i32, i32))>) -> bool {
    forall|i: int, j: int|
        0 <= i < entries.len() && 0 <= j < entries.len() && i != j ==> entries[i].0@
            != entries[j].0@
}

/// The tally entries as a map from entrant id to `(wins, losses)`.
pub open spec fn tally_of(entries: Seq<(String, (i32, i32))>) -> Map<Seq<char>, (int, int)> {
    Map::new(
        |k: Seq<char>| exists|i: int| 0 <= i < entries.len() && entries[i].0@ == k,
        |k: Seq<char>|
            {
                let i = choose|i: int| 0 <= i < entries.len() && entries[i].0@ == k;
                (entries[i].1.0 as int, entries[i].1.1 as int)
            },
    )
}

pub open spec fn has_entrant(rows: Seq<RowView>, id: Seq<char>) -> bool {
    exists|i: int| 0 <= i < rows.len() && rows[i].entrant_id == id
}

pub open spec fn entrant_index(rows: Seq<RowView>, id: Seq<char>) -> int {
    choose|i: int| 0 <= i < rows.len() && rows[i].entrant_id == id
}

/// A new row for `id`: the event's values, nothing else known yet.
pub open spec fn fresh_row(h: RowHeader, id: Seq<char>) -> RowView {
    RowView {
        tournament_slug: h.tournament_slug,
        tournament_id: h.tournament_id,
        event_id: h.event_id,
        event_name: h.event_name,
        event_date: h.event_date,
        entrant_id: id,
        player_id: None,
        placement: None,
        wins: 0,
        losses: 0,
        player_name: Seq::empty(),
        player_prefix: Seq::empty(),
        player_discriminator: Seq::empty(),
        discord_usernames: Seq::empty(),
    }
}

// ---------------------------------------------------------------- standings

/// What one standings node tells about an entrant.
pub struct StandingUpdate {
    pub entrant_id: Seq<char>,
    pub placement: Option<i32>,
    pub player_id: Option<Seq<char>>,
}

/// The update that a standings node carries; nodes without an entrant id
/// carry none.
pub open spec fn standing_update(node: Option<StandingsStanding>) -> Option<StandingUpdate> {
    match node {
        Some(st) => match st.entrant {
            Some(e) => match e.id {
                Some(id) => Some(
                    StandingUpdate {
                        entrant_id: id@,
                        placement: st.placement,
                        player_id: match st.player {
                            Some(p) => match p.id {
                                Some(pid) => Some(pid@),
                                None => None,
                            },
                            None => None,
                        },
                    },
                ),
                None => None,
            },
            None => None,
        },
        None => None,
    }
}

pub open spec fn standing_updates(nodes: Seq<Option<StandingsStanding>>) -> Seq<StandingUpdate>
    decreases nodes.len(),
{
    if nodes.len() == 0 {
        Seq::empty()
    } else {
        let rest = standing_updates(nodes.drop_last());
        match standing_update(nodes.last()) {
            Some(u) => rest.push(u),
            None => rest,
        }
    }
}

pub open spec fn connection_standing_updates(standings: Option<StandingsStandingConnection>) -> Seq<
    StandingUpdate,
> {
    match standings {
        Some(c) => match c.nodes {
            Some(v) => standing_updates(v@),
            None => Seq::empty(),
        },
        None => Seq::empty(),
    }
}

/// One standings update: the entrant's row gets the placement and player
/// id (a new row if the entrant is new). Reports whether the entrant was
/// new or either value differed.
pub open spec fn apply_standing(h: RowHeader, rows: Seq<RowView>, u: StandingUpdate) -> (
    Seq<RowView>,
    bool,
) {
    if has_entrant(rows, u.entrant_id) {
        let i = entrant_index(rows, u.entrant_id);
        let r = rows[i];
        (
            rows.update(i, RowView { placement: u.placement, player_id: u.player_id, ..r }),
            r.placement != u.placement || r.player_id != u.player_id,
        )
    } else {
        (
            rows.push(
                RowView {
                    placement: u.placement,
                    player_id: u.player_id,
                    ..fresh_row(h, u.entrant_id)
                },
            ),
            true,
        )
    }
}

pub open spec fn apply_standings(h: RowHeader, rows: Seq<RowView>, us: Seq<StandingUpdate>) -> (
    Seq<RowView>,
    bool,
)
    decreases us.len(),
{
    if us.len() == 0 {
        (rows, false)
    } else {
        let prev = apply_standings(h, rows, us.drop_last());
        let step = apply_standing(h, prev.0, us.last());
        (step.0, prev.1 || step.1)
    }
}

// ----------------------------------------------------------------- entrants

/// What one entrants node tells about an entrant.
pub struct EntrantUpdate {
    pub entrant_id: Seq<char>,
    pub player_name: Seq<char>,
    pub player_prefix: Seq<char>,
    pub player_discriminator: Seq<char>,
    pub discord_usernames: Seq<char>,
}

/// `" | "`
pub open spec fn bar_sep() -> Seq<char> {
    seq![' ', '|', ' ']
}

/// `" / "`
pub open spec fn slash_sep() -> Seq<char> {
    seq![' ', '/', ' ']
}

/// The trimmed text of an optional value, if that is not empty.
pub open spec fn trimmed_value(o: Option<String>) -> Seq<Seq<char>> {
    match o {
        Some(s) => if trim(s@).len() > 0 {
            seq![trim(s@)]
        } else {
            Seq::empty()
        },
        None => Seq::empty(),
    }
}

pub open spec fn participant_prefixes(ps: Seq<Option<EntrantsParticipant>>) -> Seq<Seq<char>>
    decreases ps.len(),
{
    if ps.len() == 0 {
        Seq::empty()
    } else {
        participant_prefixes(ps.drop_last()) + match ps.last() {
            Some(p) => trimmed_value(p.prefix),
            None => Seq::empty(),
        }
    }
}

pub open spec fn participant_tags(ps: Seq<Option<EntrantsParticipant>>) -> Seq<Seq<char>>
    decreases ps.len(),
{
    if ps.len() == 0 {
        Seq::empty()
    } else {
        participant_tags(ps.drop_last()) + match ps.last() {
            Some(p) => trimmed_value(p.gamer_tag),
            None => Seq::empty(),
        }
    }
}

pub open spec fn participant_discriminators(ps: Seq<Option<EntrantsParticipant>>) -> Seq<
    Seq<char>,
>
    decreases ps.len(),
{
    if ps.len() == 0 {
        Seq::empty()
    } else {
        participant_discriminators(ps.drop_last()) + match ps.last() {
            Some(p) => match p.user {
                Some(u) => trimmed_value(u.discriminator),
                None => Seq::empty(),
            },
            None => Seq::empty(),
        }
    }
}

pub open spec fn authorization_usernames(auths: Seq<Option<EntrantsAuthorization>>) -> Seq<
    Seq<char>,
>
    decreases auths.len(),
{
    if auths.len() == 0 {
        Seq::empty()
    } else {
        authorization_usernames(auths.drop_last()) + match auths.last() {
            Some(a) => trimmed_value(a.external_username),
            None => Seq::empty(),
        }
    }
}

pub open spec fn participant_usernames(ps: Seq<Option<EntrantsParticipant>>) -> Seq<Seq<char>>
    decreases ps.len(),
{
    if ps.len() == 0 {
        Seq::empty()
    } else {
        participant_usernames(ps.drop_last()) + match ps.last() {
            Some(p) => match p.user {
                Some(u) => match u.authorizations {
                    Some(a) => authorization_usernames(a@),
                    None => Seq::empty(),
                },
                None => Seq::empty(),
            },
            None => Seq::empty(),
        }
    }
}

/// The identity that an entrants node gives: the participants' prefixes
/// and tags (falling back on the split entrant name), discriminators and
/// Discord usernames, each list joined.
pub open spec fn entrant_update(e: EntrantsEntrant) -> Option<EntrantUpdate> {
    match e.id {
        None => None,
        Some(id) => {
            let name = match e.name {
                Some(n) => n@,
                None => Seq::empty(),
            };
            let split = prefix_and_name(name);
            let ps = match e.participants {
                Some(v) => v@,
                None => Seq::empty(),
            };
            let joined_prefix = join(non_empty(participant_prefixes(ps)), bar_sep());
            let joined_name = join(non_empty(participant_tags(ps)), slash_sep());
            Some(
                EntrantUpdate {
                    entrant_id: id@,
                    player_name: if joined_name.len() == 0 {
                        split.1
                    } else {
                        joined_name
                    },
                    player_prefix: if joined_prefix.len() == 0 {
                        split.0
                    } else {
                        joined_prefix
                    },
                    player_discriminator: join(non_empty(participant_discriminators(ps)), bar_sep()),
                    discord_usernames: join(non_empty(participant_usernames(ps)), bar_sep()),
                },
            )
        },
    }
}

pub open spec fn entrant_updates(nodes: Seq<Option<EntrantsEntrant>>) -> Seq<EntrantUpdate>
    decreases nodes.len(),
{
    if nodes.len() == 0 {
        Seq::empty()
    } else {
        let rest = entrant_updates(nodes.drop_last());
        match nodes.last() {
            Some(e) => match entrant_update(e) {
                Some(u) => rest.push(u),
                None => rest,
            },
            None => rest,
        }
    }
}

pub open spec fn connection_entrant_updates(entrants: Option<EventEntrantsEntrantConnection>) -> Seq<
    EntrantUpdate,
> {
    match entrants {
        Some(c) => match c.nodes {
            Some(v) => entrant_updates(v@),
            None => Seq::empty(),
        },
        None => Seq::empty(),
    }
}

/// A known value is replaced only by a non-empty one.
pub open spec fn merge_text(old: Seq<char>, new: Seq<char>) -> Seq<char> {
    if new.len() > 0 {
        new
    } else {
        old
    }
}

pub open spec fn text_changes(old: Seq<char>, new: Seq<char>) -> bool {
    new.len() > 0 && old != new
}

/// One entrants update: non-empty identity values overwrite the row's
/// (a new row if the entrant is new). Reports whether the entrant was new
/// or any value changed.
pub open spec fn apply_entrant(h: RowHeader, rows: Seq<RowView>, u: EntrantUpdate) -> (
    Seq<RowView>,
    bool,
) {
    if has_entrant(rows, u.entrant_id) {
        let i = entrant_index(rows, u.entrant_id);
        let r = rows[i];
        (
            rows.update(
                i,
                RowView {
                    player_name: merge_text(r.player_name, u.player_name),
                    player_prefix: merge_text(r.player_prefix, u.player_prefix),
                    player_discriminator: merge_text(
                        r.player_discriminator,
                        u.player_discriminator,
                    ),
                    discord_usernames: merge_text(r.discord_usernames, u.discord_usernames),
                    ..r
                },
            ),
            text_changes(r.player_name, u.player_name) || text_changes(
                r.player_prefix,
                u.player_prefix,
            ) || text_changes(r.player_discriminator, u.player_discriminator) || text_changes(
                r.discord_usernames,
                u.discord_usernames,
            ),
        )
    } else {
        (
            rows.push(
                RowView {
                    player_name: u.player_name,
                    player_prefix: u.player_prefix,
                    player_discriminator: u.player_discriminator,
                    discord_usernames: u.discord_usernames,
                    ..fresh_row(h, u.entrant_id)
                },
            ),
            true,
        )
    }
}

pub open spec fn apply_entrants(h: RowHeader, rows: Seq<RowView>, us: Seq<EntrantUpdate>) -> (
    Seq<RowView>,
    bool,
)
    decreases us.len(),
{
    if us.len() == 0 {
        (rows, false)
    } else {
        let prev = apply_entrants(h, rows, us.drop_last());
        let step = apply_entrant(h, prev.0, us.last());
        (step.0, prev.1 || step.1)
    }
}

// --------------------------------------------------------------------- sets

/// One entrant's part in one decided set.
pub struct TallyItem {
    pub entrant_id: Seq<char>,
    pub won: bool,
}

pub open spec fn slot_items(slots: Seq<Option<SetsSetSlot>>, winner: Seq<char>) -> Seq<TallyItem>
    decreases slots.len(),
{
    if slots.len() == 0 {
        Seq::empty()
    } else {
        let first = match slots[0] {
            Some(slot) => match slot.entrant {
                Some(e) => match e.id {
                    Some(id) => seq![TallyItem { entrant_id: id@, won: id@ == winner }],
                    None => Seq::empty(),
                },
                None => Seq::empty(),
            },
            None => Seq::empty(),
        };
        first + slot_items(slots.drop_first(), winner)
    }
}

/// A set counts only with an id, a winner id and slots.
pub open spec fn set_items(node: Option<SetsSet>) -> Seq<TallyItem> {
    match node {
        Some(set) => match (set.id, set.winner_id, set.slots) {
            (Some(_), Some(w), Some(slots)) => slot_items(slots@, int_decimal(w as int)),
            _ => Seq::empty(),
        },
        None => Seq::empty(),
    }
}

pub open spec fn sets_items(nodes: Seq<Option<SetsSet>>) -> Seq<TallyItem>
    decreases nodes.len(),
{
    if nodes.len() == 0 {
        Seq::empty()
    } else {
        set_items(nodes[0]) + sets_items(nodes.drop_first())
    }
}

pub open spec fn event_tally_items(event: SetsEvent) -> Seq<TallyItem> {
    match event.sets {
        Some(c) => match c.nodes {
            Some(v) => sets_items(v@),
            None => Seq::empty(),
        },
        None => Seq::empty(),
    }
}

/// One result counted: a win or a loss more for the entrant.
pub open spec fn count_result(m: Map<Seq<char>, (int, int)>, it: TallyItem) -> Map<
    Seq<char>,
    (int, int),
> {
    let prev = if m.contains_key(it.entrant_id) {
        m[it.entrant_id]
    } else {
        (0, 0)
    };
    m.insert(
        it.entrant_id,
        if it.won {
            (prev.0 + 1, prev.1)
        } else {
            (prev.0, prev.1 + 1)
        },
    )
}

pub open spec fn tally(m: Map<Seq<char>, (int, int)>, items: Seq<TallyItem>) -> Map<
    Seq<char>,
    (int, int),
>
    decreases items.len(),
{
    if items.len() == 0 {
        m
    } else {
        tally(count_result(m, items[0]), items.drop_first())
    }
}

/// Every count fits an `i32`.
pub open spec fn tally_fits(m: Map<Seq<char>, (int, int)>) -> bool {
    forall|k: Seq<char>| m.contains_key(k) ==> m[k].0 <= i32::MAX && m[k].1 <= i32::MAX
}

/// Counting only adds keys and only increases counts.
pub proof fn lemma_tally_grows(m: Map<Seq<char>, (int, int)>, items: Seq<TallyItem>, k: Seq<char>)
    requires
        m.contains_key(k),
    ensures
        tally(m, items).contains_key(k),
        tally(m, items)[k].0 >= m[k].0,
        tally(m, items)[k].1 >= m[k].1,
    decreases items.len(),
{
    if items.len() > 0 {
        lemma_tally_grows(count_result(m, items[0]), items.drop_first(), k);
    }
}

/// A row with its tallied wins and losses, when the tally has its entrant.
pub open spec fn with_tally(r: RowView, t: Map<Seq<char>, (int, int)>) -> RowView {
    if t.contains_key(r.entrant_id) {
        RowView { wins: t[r.entrant_id].0, losses: t[r.entrant_id].1, ..r }
    } else {
        r
    }
}

/// An accumulator as values: the event's values, the rows in first-seen
/// order, and the win/loss tally.
pub struct AccView {
    pub header: RowHeader,
    pub rows: Seq<RowView>,
    pub tally: Map<Seq<char>, (int, int)>,
}

impl View for EventAccumulator {
    type V = AccView;

    open spec fn view(&self) -> AccView {
        AccView { header: self.header(), rows: self.rows(), tally: self.tally() }
    }
}

impl EventAccumulator {
    pub open spec fn header(&self) -> RowHeader {
        RowHeader {
            tournament_slug: self.tournament_slug@,
            tournament_id: opt_text(self.tournament_id),
            event_id: opt_text(self.event_id),
            event_name: self.event_name@,
            event_date: opt_text(self.event_date),
        }
    }

    pub open spec fn rows(&self) -> Seq<RowView> {
        self.row_by_entrant_id@.map_values(|r: MutableTournamentRow| r@)
    }

    pub open spec fn tally(&self) -> Map<Seq<char>, (int, int)> {
        tally_of(self.wins_losses@)
    }

    /// The rows and the tally are keyed by entrant id: one entry per id.
    pub open spec fn wf(&self) -> bool {
        &&& unique_entrants(self.rows())
        &&& unique_keys(self.wins_losses@)
    }

    /// Every row carries the event's values.
    pub open spec fn rows_match_header(&self) -> bool {
        forall|i: int|
            0 <= i < self.rows().len() ==> {
                let r = #[trigger] self.rows()[i];
                &&& r.tournament_slug == self.header().tournament_slug
                &&& r.tournament_id == self.header().tournament_id
                &&& r.event_id == self.header().event_id
                &&& r.event_name == self.header().event_name
                &&& r.event_date == self.header().event_date
            }
    }
}


// ------------------------------------------------------------------ lemmas

proof fn lemma_entrant_index(rows: Seq<RowView>, i: int)
    requires
        unique_entrants(rows),
        0 <= i < rows.len(),
    ensures
        has_entrant(rows, rows[i].entrant_id),
        entrant_index(rows, rows[i].entrant_id) == i,
{
    assert(0 <= i < rows.len() && rows[i].entrant_id == rows[i].entrant_id);
    let j = entrant_index(rows, rows[i].entrant_id);
    assert(rows[j].entrant_id == rows[i].entrant_id);
}

pub(crate) proof fn lemma_tally_of_value(entries: Seq<(String, (i32, i32))>, j: int)
    requires
        unique_keys(entries),
        0 <= j < entries.len(),
    ensures
        tally_of(entries).contains_key(entries[j].0@),
        tally_of(entries)[entries[j].0@] == (entries[j].1.0 as int, entries[j].1.1 as int),
{
    let k = entries[j].0@;
    assert(0 <= j < entries.len() && entries[j].0@ == k);
    let i = choose|i: int| 0 <= i < entries.len() && entries[i].0@ == k;
    assert(i == j);
}

proof fn lemma_tally_of_update(entries: Seq<(String, (i32, i32))>, j: int, e: (String, (i32, i32)))
    requires
        unique_keys(entries),
        0 <= j < entries.len(),
        entries[j].0@ == e.0@,
    ensures
        unique_keys(entries.update(j, e)),
        tally_of(entries.update(j, e)) == tally_of(entries).insert(
            e.0@,
            (e.1.0 as int, e.1.1 as int),
        ),
{
    let new = entries.update(j, e);
    assert(unique_keys(new));
    let lhs = tally_of(new);
    let rhs = tally_of(entries).insert(e.0@, (e.1.0 as int, e.1.1 as int));
    assert forall|k: Seq<char>| lhs.contains_key(k) <==> rhs.contains_key(k) by {
        if lhs.contains_key(k) {
            let i = choose|i: int| 0 <= i < new.len() && new[i].0@ == k;
            if i != j {
                assert(0 <= i < entries.len() && entries[i].0@ == k);
            }
        }
        if rhs.contains_key(k) && k != e.0@ {
            let i = choose|i: int| 0 <= i < entries.len() && entries[i].0@ == k;
            assert(0 <= i < new.len() && new[i].0@ == k);
        }
        if k == e.0@ {
            assert(0 <= j < new.len() && new[j].0@ == k);
        }
    }
    assert forall|k: Seq<char>| #[trigger] lhs.contains_key(k) implies lhs[k] == rhs[k] by {
        let i = choose|i: int| 0 <= i < new.len() && new[i].0@ == k;
        lemma_tally_of_value(new, i);
        if i != j {
            lemma_tally_of_value(entries, i);
        }
    }
    assert(lhs =~= rhs);
}

proof fn lemma_tally_of_push(entries: Seq<(String, (i32, i32))>, e: (String, (i32, i32)))
    requires
        unique_keys(entries),
        !tally_of(entries).contains_key(e.0@),
    ensures
        unique_keys(entries.push(e)),
        tally_of(entries.push(e)) == tally_of(entries).insert(e.0@, (e.1.0 as int, e.1.1 as int)),
{
    let new = entries.push(e);
    let n = entries.len() as int;
    assert forall|i: int| 0 <= i < entries.len() implies entries[i].0@ != e.0@ by {
        if entries[i].0@ == e.0@ {
            assert(0 <= i < entries.len() && entries[i].0@ == e.0@);
        }
    }
    assert(unique_keys(new));
    let lhs = tally_of(new);
    let rhs = tally_of(entries).insert(e.0@, (e.1.0 as int, e.1.1 as int));
    assert forall|k: Seq<char>| lhs.contains_key(k) <==> rhs.contains_key(k) by {
        if lhs.contains_key(k) && k != e.0@ {
            let i = choose|i: int| 0 <= i < new.len() && new[i].0@ == k;
            assert(0 <= i < entries.len() && entries[i].0@ == k);
        }
        if rhs.contains_key(k) && k != e.0@ {
            let i = choose|i: int| 0 <= i < entries.len() && entries[i].0@ == k;
            assert(0 <= i < new.len() && new[i].0@ == k);
        }
        if k == e.0@ {
            assert(0 <= n < new.len() && new[n].0@ == k);
        }
    }
    assert forall|k: Seq<char>| #[trigger] lhs.contains_key(k) implies lhs[k] == rhs[k] by {
        let i = choose|i: int| 0 <= i < new.len() && new[i].0@ == k;
        lemma_tally_of_value(new, i);
        if i != n {
            lemma_tally_of_value(entries, i);
        }
    }
    assert(lhs =~= rhs);
}

// ----------------------------------------------------------------- helpers

fn clone_opt_string(o: &Option<String>) -> (res: Option<String>)
    ensures
        res == *o,
{
    match o {
        Some(s) => Some(s.clone()),
        None => None,
    }
}

fn opt_string_eq(a: &Option<String>, b: &Option<String>) -> (res: bool)
    ensures
        res == (opt_text(*a) == opt_text(*b)),
{
    match (a, b) {
        (Some(x), Some(y)) => *x == *y,
        (None, None) => true,
        _ => false,
    }
}

fn opt_i32_eq(a: Option<i32>, b: Option<i32>) -> (res: bool)
    ensures
        res == (a == b),
{
    match (a, b) {
        (Some(x), Some(y)) => x == y,
        (None, None) => true,
        _ => false,
    }
}

/// Appends the trimmed value when it is not empty.
fn push_trimmed(out: &mut Vec<String>, value: &Option<String>)
    ensures
        final(out).deep_view() == old(out).deep_view() + trimmed_value(*value),
{
    let ghost before = out.deep_view();
    match value {
        Some(v) => {
            let t = trim_str(v.as_str());
            if !t.as_str().is_empty() {
                out.push(t);
                assert(out.deep_view() =~= before + trimmed_value(*value));
            } else {
                assert(out.deep_view() =~= before + trimmed_value(*value));
            }
        },
        None => {
            assert(out.deep_view() =~= before + trimmed_value(*value));
        },
    }
}

fn prefixes_of(ps: &Vec<Option<EntrantsParticipant>>) -> (res: Vec<String>)
    ensures
        res.deep_view() == participant_prefixes(ps@),
{
    let mut out: Vec<String> = Vec::new();
    let mut i: usize = 0;
    while i < ps.len()
        invariant
            i <= ps.len(),
            out.deep_view() == participant_prefixes(ps@.take(i as int)),
        decreases ps.len() - i,
    {
        proof {
            assert(ps@.take(i + 1).drop_last() =~= ps@.take(i as int));
            assert(ps@.take(0) =~= Seq::<Option<EntrantsParticipant>>::empty());
        }
        match &ps[i] {
            Some(p) => push_trimmed(&mut out, &p.prefix),
            None => {
                assert(out.deep_view() =~= out.deep_view() + Seq::<Seq<char>>::empty());
            },
        }
        i = i + 1;
    }
    assert(ps@.take(ps.len() as int) =~= ps@);
    out
}

fn tags_of(ps: &Vec<Option<EntrantsParticipant>>) -> (res: Vec<String>)
    ensures
        res.deep_view() == participant_tags(ps@),
{
    let mut out: Vec<String> = Vec::new();
    let mut i: usize = 0;
    while i < ps.len()
        invariant
            i <= ps.len(),
            out.deep_view() == participant_tags(ps@.take(i as int)),
        decreases ps.len() - i,
    {
        proof {
            assert(ps@.take(i + 1).drop_last() =~= ps@.take(i as int));
            assert(ps@.take(0) =~= Seq::<Option<EntrantsParticipant>>::empty());
        }
        match &ps[i] {
            Some(p) => push_trimmed(&mut out, &p.gamer_tag),
            None => {
                assert(out.deep_view() =~= out.deep_view() + Seq::<Seq<char>>::empty());
            },
        }
        i = i + 1;
    }
    assert(ps@.take(ps.len() as int) =~= ps@);
    out
}

fn discriminators_of(ps: &Vec<Option<EntrantsParticipant>>) -> (res: Vec<String>)
    ensures
        res.deep_view() == participant_discriminators(ps@),
{
    let mut out: Vec<String> = Vec::new();
    let mut i: usize = 0;
    while i < ps.len()
        invariant
            i <= ps.len(),
            out.deep_view() == participant_discriminators(ps@.take(i as int)),
        decreases ps.len() - i,
    {
        proof {
            assert(ps@.take(i + 1).drop_last() =~= ps@.take(i as int));
            assert(ps@.take(0) =~= Seq::<Option<EntrantsParticipant>>::empty());
        }
        match &ps[i] {
            Some(p) => match &p.user {
                Some(u) => push_trimmed(&mut out, &u.discriminator),
                None => {
                    assert(out.deep_view() =~= out.deep_view() + Seq::<Seq<char>>::empty());
                },
            },
            None => {
                assert(out.deep_view() =~= out.deep_view() + Seq::<Seq<char>>::empty());
            },
        }
        i = i + 1;
    }
    assert(ps@.take(ps.len() as int) =~= ps@);
    out
}

fn push_usernames(out: &mut Vec<String>, auths: &Vec<Option<EntrantsAuthorization>>)
    ensures
        final(out).deep_view() == old(out).deep_view() + authorization_usernames(auths@),
{
    let ghost start = out.deep_view();
    let mut i: usize = 0;
    while i < auths.len()
        invariant
            i <= auths.len(),
            out.deep_view() == start + authorization_usernames(auths@.take(i as int)),
        decreases auths.len() - i,
    {
        proof {
            assert(auths@.take(i + 1).drop_last() =~= auths@.take(i as int));
            assert(auths@.take(0) =~= Seq::<Option<EntrantsAuthorization>>::empty());
            assert(start + Seq::<Seq<char>>::empty() =~= start);
        }
        let ghost before = out.deep_view();
        match &auths[i] {
            Some(a) => push_trimmed(out, &a.external_username),
            None => {},
        }
        proof {
            let prev = authorization_usernames(auths@.take(i as int));
            let extra = match auths@[i as int] {
                Some(a) => trimmed_value(a.external_username),
                None => Seq::empty(),
            };
            assert(out.deep_view() =~= before + extra);
            assert(start + (prev + extra) =~= (start + prev) + extra);
        }
        i = i + 1;
    }
    assert(auths@.take(auths.len() as int) =~= auths@);
}

fn usernames_of(ps: &Vec<Option<EntrantsParticipant>>) -> (res: Vec<String>)
    ensures
        res.deep_view() == participant_usernames(ps@),
{
    let mut out: Vec<String> = Vec::new();
    let mut i: usize = 0;
    while i < ps.len()
        invariant
            i <= ps.len(),
            out.deep_view() == participant_usernames(ps@.take(i as int)),
        decreases ps.len() - i,
    {
        proof {
            assert(ps@.take(i + 1).drop_last() =~= ps@.take(i as int));
            assert(ps@.take(0) =~= Seq::<Option<EntrantsParticipant>>::empty());
        }
        let ghost before = out.deep_view();
        match &ps[i] {
            Some(p) => match &p.user {
                Some(u) => match &u.authorizations {
                    Some(a) => push_usernames(&mut out, a),
                    None => {},
                },
                None => {},
            },
            None => {},
        }
        proof {
            let extra = match ps@[i as int] {
                Some(p) => match p.user {
                    Some(u) => match u.authorizations {
                        Some(a) => authorization_usernames(a@),
                        None => Seq::empty(),
                    },
                    None => Seq::empty(),
                },
                None => Seq::empty(),
            };
            assert(out.deep_view() =~= before + extra);
        }
        i = i + 1;
    }
    assert(ps@.take(ps.len() as int) =~= ps@);
    out
}

/// The identity values that an entrants node carries, with its id.
fn entrant_identity(entrant: &EntrantsEntrant) -> (res: Option<(String, String, String, String, String)>)
    ensures
        match entrant_update(*entrant) {
            Some(u) => res matches Some(v) && v.0@ == u.entrant_id && v.1@ == u.player_name && v.2@
                == u.player_prefix && v.3@ == u.player_discriminator && v.4@ == u.discord_usernames,
            None => res is None,
        },
{
    let entrant_id = match &entrant.id {
        Some(id) => id_to_string(id),
        None => {
            return None;
        },
    };
    let entrant_name = match &entrant.name {
        Some(n) => n.clone(),
        None => String::new(),
    };
    let (entrant_prefix, entrant_player_name) = split_prefix_and_name(entrant_name.as_str());
    let empty: Vec<Option<EntrantsParticipant>> = Vec::new();
    let participants = match &entrant.participants {
        Some(v) => v,
        None => &empty,
    };
    let bar = " | ";
    let slash = " / ";
    proof {
        reveal_strlit(" | ");
        reveal_strlit(" / ");
        assert(bar@ =~= bar_sep());
        assert(slash@ =~= slash_sep());
    }
    let joined_prefix = join_non_empty(prefixes_of(participants), bar);
    let player_prefix = if joined_prefix.as_str().is_empty() {
        entrant_prefix
    } else {
        joined_prefix
    };
    let joined_name = join_non_empty(tags_of(participants), slash);
    let player_name = if joined_name.as_str().is_empty() {
        entrant_player_name
    } else {
        joined_name
    };
    let player_discriminator = join_non_empty(discriminators_of(participants), bar);
    let discord_usernames = join_non_empty(usernames_of(participants), bar);
    Some((entrant_id, player_name, player_prefix, player_discriminator, discord_usernames))
}

/// The tally entry of `id`, if any.
fn tally_lookup(entries: &Vec<(String, (i32, i32))>, id: &str) -> (res: Option<(usize, i32, i32)>)
    requires
        unique_keys(entries@),
    ensures
        match res {
            Some(v) => v.0 < entries.len() && entries@[v.0 as int].0@ == id@ && entries@[v.0 as int].1
                == (v.1, v.2) && tally_of(entries@).contains_key(id@) && tally_of(entries@)[id@] == (
            v.1 as int, v.2 as int),
            None => !tally_of(entries@).contains_key(id@),
        },
{
    let mut j: usize = 0;
    while j < entries.len()
        invariant
            j <= entries.len(),
            unique_keys(entries@),
            forall|k: int| 0 <= k < j ==> entries@[k].0@ != id@,
        decreases entries.len() - j,
    {
        if str_eq(entries[j].0.as_str(), id) {
            proof {
                lemma_tally_of_value(entries@, j as int);
            }
            return Some((j, entries[j].1.0, entries[j].1.1));
        }
        j = j + 1;
    }
    proof {
        if tally_of(entries@).contains_key(id@) {
            let i = choose|i: int| 0 <= i < entries@.len() && entries@[i].0@ == id@;
            assert(entries@[i].0@ != id@);
        }
    }
    None
}

impl EventAccumulator {
    /// An empty accumulator for one event.
    pub fn new(
        tournament_slug: &str,
        tournament_id: Option<String>,
        event_id: Option<String>,
        event_name: String,
        event_date: Option<String>,
    ) -> (res: Self)
        ensures
            res.tournament_slug@ == tournament_slug@,
            res.tournament_id == tournament_id,
            res.event_id == event_id,
            res.event_name == event_name,
            res.event_date == event_date,
            res.row_by_entrant_id@ == Seq::<MutableTournamentRow>::empty(),
            res.wins_losses@ == Seq::<(String, (i32, i32))>::empty(),
            res.rows() == Seq::<RowView>::empty(),
            res.tally() == Map::<Seq<char>, (int, int)>::empty(),
            res.wf(),
            res.rows_match_header(),
    {
        let res = EventAccumulator {
            tournament_slug: String::from_str(tournament_slug),
            tournament_id,
            event_id,
            event_name,
            event_date,
            row_by_entrant_id: Vec::new(),
            wins_losses: Vec::new(),
        };
        assert(res.rows() =~= Seq::<RowView>::empty());
        assert(res.tally() =~= Map::<Seq<char>, (int, int)>::empty());
        res
    }

    /// The position of `id`'s row.
    fn find_row(&self, id: &str) -> (res: Option<usize>)
        ensures
            match res {
                Some(i) => i < self.rows().len() && self.rows()[i as int].entrant_id == id@,
                None => !has_entrant(self.rows(), id@),
            },
    {
        let mut j: usize = 0;
        while j < self.row_by_entrant_id.len()
            invariant
                j <= self.row_by_entrant_id.len(),
                forall|k: int| 0 <= k < j ==> self.rows()[k].entrant_id != id@,
            decreases self.row_by_entrant_id.len() - j,
        {
            if str_eq(self.row_by_entrant_id[j].entrant_id.as_str(), id) {
                return Some(j);
            }
            j = j + 1;
        }
        None
    }

    /// A row for `entrant_id` with this event's values and nothing else.
    fn fresh(&self, entrant_id: String) -> (res: MutableTournamentRow)
        ensures
            res@ == fresh_row(self.header(), entrant_id@),
    {
        MutableTournamentRow {
            tournament_slug: self.tournament_slug.clone(),
            tournament_id: clone_opt_string(&self.tournament_id),
            event_id: clone_opt_string(&self.event_id),
            event_name: self.event_name.clone(),
            event_date: clone_opt_string(&self.event_date),
            entrant_id,
            player_id: None,
            placement: None,
            wins: 0,
            losses: 0,
            player_name: String::new(),
            player_prefix: String::new(),
            player_discriminator: String::new(),
            discord_usernames: String::new(),
        }
    }
}

impl EventAccumulator {
    /// Folds a standings connection into the rows: each node with an
    /// entrant id sets that entrant's placement and player id. Returns
    /// whether an entrant was new or a value changed.
    fn absorb_standings_connection(&mut self, standings: Option<StandingsStandingConnection>) -> (changed: bool)
        requires
            old(self).wf(),
        ensures
            final(self).wf(),
            final(self).header() == old(self).header(),
            final(self).wins_losses == old(self).wins_losses,
            (final(self).rows(), changed) == apply_standings(
                old(self).header(),
                old(self).rows(),
                connection_standing_updates(standings),
            ),
    {
        let ghost h = self.header();
        let ghost rows0 = self.rows();
        let mut changed = false;
        let nodes = match standings {
            Some(c) => match c.nodes {
                Some(v) => v,
                None => {
                    return false;
                },
            },
            None => {
                return false;
            },
        };
        let mut i: usize = 0;
        while i < nodes.len()
            invariant
                i <= nodes.len(),
                self.wf(),
                self.header() == h,
                self.wins_losses == old(self).wins_losses,
                (self.rows(), changed) == apply_standings(h, rows0, standing_updates(nodes@.take(i as int))),
            decreases nodes.len() - i,
        {
            proof {
                assert(nodes@.take(i + 1).drop_last() =~= nodes@.take(i as int));
                assert(nodes@.take(0) =~= Seq::<Option<StandingsStanding>>::empty());
            }
            let ghost us = standing_updates(nodes@.take(i as int));
            let ghost rows_before = self.rows();
            if let Some(standing) = &nodes[i] {
                if let Some(entrant) = &standing.entrant {
                    if let Some(eid) = &entrant.id {
                        let entrant_id = id_to_string(eid);
                        let new_player_id = match &standing.player {
                            Some(p) => match &p.id {
                                Some(pid) => Some(id_to_string(pid)),
                                None => None,
                            },
                            None => None,
                        };
                        let ghost u = standing_update(nodes@[i as int]).unwrap();
                        assert(standing_updates(nodes@.take(i + 1)) == us.push(u));
                        assert(us.push(u).drop_last() =~= us);
                        match self.find_row(entrant_id.as_str()) {
                            Some(idx) => {
                                proof {
                                    lemma_entrant_index(rows_before, idx as int);
                                }
                                let same = opt_i32_eq(
                                    self.row_by_entrant_id[idx].placement,
                                    standing.placement,
                                ) && opt_string_eq(
                                    &self.row_by_entrant_id[idx].player_id,
                                    &new_player_id,
                                );
                                if !same {
                                    self.row_by_entrant_id[idx].placement = standing.placement;
                                    self.row_by_entrant_id[idx].player_id = new_player_id;
                                    changed = true;
                                    proof {
                                        let r = rows_before[idx as int];
                                        assert(self.rows() =~= rows_before.update(
                                            idx as int,
                                            RowView { placement: u.placement, player_id: u.player_id, ..r },
                                        ));
                                    }
                                } else {
                                    proof {
                                        let r = rows_before[idx as int];
                                        assert(rows_before.update(
                                            idx as int,
                                            RowView { placement: u.placement, player_id: u.player_id, ..r },
                                        ) =~= rows_before);
                                    }
                                }
                            },
                            None => {
                                let mut row = self.fresh(entrant_id);
                                row.placement = standing.placement;
                                row.player_id = new_player_id;
                                self.row_by_entrant_id.push(row);
                                changed = true;
                                proof {
                                    assert(self.rows() =~= rows_before.push(
                                        RowView {
                                            placement: u.placement,
                                            player_id: u.player_id,
                                            ..fresh_row(h, u.entrant_id)
                                        },
                                    ));
                                }
                            },
                        }
                    } else {
                        assert(standing_updates(nodes@.take(i + 1)) == us);
                    }
                } else {
                    assert(standing_updates(nodes@.take(i + 1)) == us);
                }
            } else {
                assert(standing_updates(nodes@.take(i + 1)) == us);
            }
            i = i + 1;
        }
        assert(nodes@.take(nodes.len() as int) =~= nodes@);
        changed
    }

    /// Folds one page of an event's standings into the rows.
    pub fn absorb_event_standings_page(&mut self, event: EventStandingsEvent) -> (changed: bool)
        requires
            old(self).wf(),
        ensures
            final(self).wf(),
            final(self).header() == old(self).header(),
            final(self).wins_losses == old(self).wins_losses,
            (final(self).rows(), changed) == apply_standings(
                old(self).header(),
                old(self).rows(),
                connection_standing_updates(event.standings),
            ),
            old(self).rows_match_header() ==> final(self).rows_match_header(),
    {
        let ghost us = connection_standing_updates(event.standings);
        let changed = self.absorb_standings_connection(event.standings);
        proof {
            if old(self).rows_match_header() {
                crate::laws::law_standings_keep_rows_and_header(old(self).header(), old(self).rows(), us);
            }
        }
        changed
    }
}

impl EventAccumulator {
    /// Folds one page of an event's entrants into the rows.
    pub fn absorb_event_entrants_page(&mut self, event: EventEntrantsEvent) -> (changed: bool)
        requires
            old(self).wf(),
        ensures
            final(self).wf(),
            final(self).header() == old(self).header(),
            final(self).wins_losses == old(self).wins_losses,
            (final(self).rows(), changed) == apply_entrants(
                old(self).header(),
                old(self).rows(),
                connection_entrant_updates(event.entrants),
            ),
            old(self).rows_match_header() ==> final(self).rows_match_header(),
    {
        let ghost us = connection_entrant_updates(event.entrants);
        let changed = self.absorb_event_entrants_connection(event.entrants);
        proof {
            if old(self).rows_match_header() {
                crate::laws::law_entrants_keep_rows_and_header(old(self).header(), old(self).rows(), us);
            }
        }
        changed
    }

    fn absorb_event_entrants_connection(&mut self, entrants: Option<EventEntrantsEntrantConnection>) -> (changed: bool)
        requires
            old(self).wf(),
        ensures
            final(self).wf(),
            final(self).header() == old(self).header(),
            final(self).wins_losses == old(self).wins_losses,
            (final(self).rows(), changed) == apply_entrants(
                old(self).header(),
                old(self).rows(),
                connection_entrant_updates(entrants),
            ),
    {
        let entrant_nodes = match &entrants {
            Some(c) => match &c.nodes {
                Some(v) => Some(v),
                None => None,
            },
            None => None,
        };
        self.absorb_entrant_nodes(entrant_nodes)
    }

    /// Folds entrants nodes into the rows: each node with an id sets the
    /// entrant's non-empty identity values. Returns whether an entrant was
    /// new or a value changed.
    fn absorb_entrant_nodes(&mut self, entrant_nodes: Option<&Vec<Option<EntrantsEntrant>>>) -> (changed: bool)
        requires
            old(self).wf(),
        ensures
            final(self).wf(),
            final(self).header() == old(self).header(),
            final(self).wins_losses == old(self).wins_losses,
            (final(self).rows(), changed) == apply_entrants(
                old(self).header(),
                old(self).rows(),
                match entrant_nodes {
                    Some(v) => entrant_updates(v@),
                    None => Seq::empty(),
                },
            ),
    {
        let ghost h = self.header();
        let ghost rows0 = self.rows();
        let mut changed = false;
        let nodes = match entrant_nodes {
            Some(v) => v,
            None => {
                return false;
            },
        };
        let mut i: usize = 0;
        while i < nodes.len()
            invariant
                i <= nodes.len(),
                self.wf(),
                self.header() == h,
                self.wins_losses == old(self).wins_losses,
                (self.rows(), changed) == apply_entrants(h, rows0, entrant_updates(nodes@.take(i as int))),
            decreases nodes.len() - i,
        {
            proof {
                assert(nodes@.take(i + 1).drop_last() =~= nodes@.take(i as int));
                assert(nodes@.take(0) =~= Seq::<Option<EntrantsEntrant>>::empty());
            }
            let ghost us = entrant_updates(nodes@.take(i as int));
            let ghost rows_before = self.rows();
            let identity = match &nodes[i] {
                Some(entrant) => entrant_identity(entrant),
                None => None,
            };
            match identity {
                Some((entrant_id, player_name, player_prefix, player_discriminator, discord_usernames)) => {
                    let ghost u = entrant_update(nodes@[i as int].unwrap()).unwrap();
                    assert(entrant_updates(nodes@.take(i + 1)) == us.push(u));
                    assert(us.push(u).drop_last() =~= us);
                    match self.find_row(entrant_id.as_str()) {
                        Some(idx) => {
                            proof {
                                lemma_entrant_index(rows_before, idx as int);
                            }
                            let mut row_changed = false;
                            if !player_name.as_str().is_empty()
                                && !(self.row_by_entrant_id[idx].player_name == player_name) {
                                self.row_by_entrant_id[idx].player_name = player_name;
                                row_changed = true;
                            }
                            if !player_prefix.as_str().is_empty()
                                && !(self.row_by_entrant_id[idx].player_prefix == player_prefix) {
                                self.row_by_entrant_id[idx].player_prefix = player_prefix;
                                row_changed = true;
                            }
                            if !player_discriminator.as_str().is_empty()
                                && !(self.row_by_entrant_id[idx].player_discriminator == player_discriminator) {
                                self.row_by_entrant_id[idx].player_discriminator = player_discriminator;
                                row_changed = true;
                            }
                            if !discord_usernames.as_str().is_empty()
                                && !(self.row_by_entrant_id[idx].discord_usernames == discord_usernames) {
                                self.row_by_entrant_id[idx].discord_usernames = discord_usernames;
                                row_changed = true;
                            }
                            changed = changed || row_changed;
                            proof {
                                let r = rows_before[idx as int];
                                assert(self.rows() =~= rows_before.update(
                                    idx as int,
                                    RowView {
                                        player_name: merge_text(r.player_name, u.player_name),
                                        player_prefix: merge_text(r.player_prefix, u.player_prefix),
                                        player_discriminator: merge_text(
                                            r.player_discriminator,
                                            u.player_discriminator,
                                        ),
                                        discord_usernames: merge_text(
                                            r.discord_usernames,
                                            u.discord_usernames,
                                        ),
                                        ..r
                                    },
                                ));
                            }
                        },
                        None => {
                            let mut row = self.fresh(entrant_id);
                            row.player_name = player_name;
                            row.player_prefix = player_prefix;
                            row.player_discriminator = player_discriminator;
                            row.discord_usernames = discord_usernames;
                            self.row_by_entrant_id.push(row);
                            changed = true;
                            proof {
                                assert(self.rows() =~= rows_before.push(
                                    RowView {
                                        player_name: u.player_name,
                                        player_prefix: u.player_prefix,
                                        player_discriminator: u.player_discriminator,
                                        discord_usernames: u.discord_usernames,
                                        ..fresh_row(h, u.entrant_id)
                                    },
                                ));
                            }
                        },
                    }
                },
                None => {
                    assert(entrant_updates(nodes@.take(i + 1)) == us);
                },
            }
            i = i + 1;
        }
        assert(nodes@.take(nodes.len() as int) =~= nodes@);
        changed
    }
}

impl EventAccumulator {
    /// Counts one result for `entrant_id`: a win when it is the set's
    /// winner, else a loss.
    fn count_slot(&mut self, entrant_id: String, won: bool, Ghost(target): Ghost<Map<Seq<char>, (int, int)>>, Ghost(rest): Ghost<Seq<TallyItem>>)
        requires
            unique_keys(old(self).wins_losses@),
            tally(count_result(old(self).tally(), TallyItem { entrant_id: entrant_id@, won }), rest) == target,
            tally_fits(target),
        ensures
            unique_keys(final(self).wins_losses@),
            final(self).tally() == count_result(old(self).tally(), TallyItem { entrant_id: entrant_id@, won }),
            final(self).row_by_entrant_id == old(self).row_by_entrant_id,
            final(self).header() == old(self).header(),
    {
        let ghost it = TallyItem { entrant_id: entrant_id@, won };
        let ghost next = count_result(self.tally(), it);
        proof {
            lemma_tally_grows(next, rest, entrant_id@);
        }
        match tally_lookup(&self.wins_losses, entrant_id.as_str()) {
            Some((j, wins, losses)) => {
                let counts = if won {
                    (wins + 1, losses)
                } else {
                    (wins, losses + 1)
                };
                let ghost entries = self.wins_losses@;
                let key = self.wins_losses[j].0.clone();
                self.wins_losses.set(j, (key, counts));
                proof {
                    lemma_tally_of_update(entries, j as int, (key, counts));
                }
            },
            None => {
                let counts: (i32, i32) = if won {
                    (1, 0)
                } else {
                    (0, 1)
                };
                let ghost entries = self.wins_losses@;
                self.wins_losses.push((entrant_id, counts));
                proof {
                    lemma_tally_of_push(entries, (entrant_id, counts));
                }
            },
        }
    }

    /// Counts the results of one page of an event's sets: each slot of a
    /// set with an id, a winner id and slots gives its entrant a win if it
    /// is the winner, else a loss. Returns whether anything was counted.
    pub fn absorb_sets_page(&mut self, event: SetsEvent) -> (changed: bool)
        requires
            old(self).wf(),
            tally_fits(tally(old(self).tally(), event_tally_items(event))),
        ensures
            final(self).wf(),
            final(self).header() == old(self).header(),
            final(self).row_by_entrant_id == old(self).row_by_entrant_id,
            final(self).tally() == tally(old(self).tally(), event_tally_items(event)),
            changed == (event_tally_items(event).len() > 0),
            old(self).rows_match_header() ==> final(self).rows_match_header(),
    {
        let ghost items = event_tally_items(event);
        let ghost target = tally(self.tally(), items);
        let mut changed = false;
        let set_nodes = match event.sets {
            Some(c) => match c.nodes {
                Some(v) => v,
                None => {
                    return false;
                },
            },
            None => {
                return false;
            },
        };
        let ghost mut rem: Seq<TallyItem> = items;
        assert(set_nodes@.skip(0) =~= set_nodes@);
        let mut i: usize = 0;
        while i < set_nodes.len()
            invariant
                i <= set_nodes.len(),
                items == sets_items(set_nodes@),
                rem == sets_items(set_nodes@.skip(i as int)),
                unique_entrants(self.rows()),
                unique_keys(self.wins_losses@),
                self.header() == old(self).header(),
                self.row_by_entrant_id == old(self).row_by_entrant_id,
                tally(self.tally(), rem) == target,
                tally_fits(target),
                !changed ==> rem == items,
                changed ==> items.len() > 0,
            decreases set_nodes.len() - i,
        {
            proof {
                assert(set_nodes@.skip(i as int).drop_first() =~= set_nodes@.skip(i + 1));
                assert(set_nodes@.skip(i as int)[0] == set_nodes@[i as int]);
            }
            let ghost after = sets_items(set_nodes@.skip(i + 1));
            let ghost this_set = set_items(set_nodes@[i as int]);
            assert(rem == this_set + after);
            let mut counted = false;
            if let Some(set_item) = &set_nodes[i] {
                if let (Some(_set_id), Some(winner_id), Some(slots)) = (&set_item.id, set_item.winner_id, &set_item.slots) {
                    let winner_id_str = winner_id_to_string(winner_id);
                    let ghost w = int_decimal(winner_id as int);
                    assert(this_set == slot_items(slots@, w));
                    assert(slots@.skip(0) =~= slots@);
                    let mut j: usize = 0;
                    while j < slots.len()
                        invariant
                            j <= slots.len(),
                            winner_id_str@ == w,
                            rem == slot_items(slots@.skip(j as int), w) + after,
                            unique_keys(self.wins_losses@),
                            unique_entrants(self.rows()),
                            self.header() == old(self).header(),
                            self.row_by_entrant_id == old(self).row_by_entrant_id,
                            tally(self.tally(), rem) == target,
                            tally_fits(target),
                            !counted ==> !changed ==> rem == items,
                            counted ==> items.len() > 0,
                            changed ==> items.len() > 0,
                        decreases slots.len() - j,
                    {
                        proof {
                            assert(slots@.skip(j as int).drop_first() =~= slots@.skip(j + 1));
                            assert(slots@.skip(j as int)[0] == slots@[j as int]);
                        }
                        let ghost tail = slot_items(slots@.skip(j + 1), w) + after;
                        let mut hit = false;
                        if let Some(slot) = &slots[j] {
                            if let Some(entrant) = &slot.entrant {
                                if let Some(eid) = &entrant.id {
                                    let entrant_id = id_to_string(eid);
                                    let won = entrant_id == winner_id_str;
                                    let ghost it = TallyItem { entrant_id: entrant_id@, won };
                                    proof {
                                        assert(rem =~= seq![it] + tail);
                                        assert((seq![it] + tail)[0] == it);
                                        assert((seq![it] + tail).drop_first() =~= tail);
                                    }
                                    self.count_slot(entrant_id, won, Ghost(target), Ghost(tail));
                                    hit = true;
                                    counted = true;
                                    proof {
                                        rem = tail;
                                    }
                                }
                            }
                        }
                        if !hit {
                            proof {
                                assert(rem =~= tail);
                                rem = tail;
                            }
                        }
                        j = j + 1;
                    }
                    assert(slots@.skip(slots.len() as int) =~= Seq::<Option<SetsSetSlot>>::empty());
                    assert(rem =~= after);
                } else {
                    assert(this_set =~= Seq::<TallyItem>::empty());
                    assert(rem =~= after);
                    proof {
                        rem = after;
                    }
                }
            } else {
                assert(this_set =~= Seq::<TallyItem>::empty());
                assert(rem =~= after);
            }
            proof {
                rem = after;
            }
            changed = changed || counted;
            i = i + 1;
        }
        assert(set_nodes@.skip(set_nodes.len() as int) =~= Seq::<Option<SetsSet>>::empty());
        changed
    }

    /// The finished rows, in first-seen order, each with its entrant's
    /// tallied wins and losses when the tally has the entrant.
    pub fn into_rows(self) -> (res: Vec<TournamentRow>)
        requires
            self.wf(),
        ensures
            res@.map_values(|r: TournamentRow| r@) == self.rows().map_values(
                |r: RowView| with_tally(r, self.tally()),
            ),
    {
        let ghost rows0 = self.rows();
        let ghost t = self.tally();
        let EventAccumulator { row_by_entrant_id: mut rows, wins_losses, .. } = self;
        let ghost original = rows@;
        let mut out: Vec<TournamentRow> = Vec::new();
        let mut i: usize = 0;
        while i < rows.len()
            invariant
                i <= rows.len(),
                rows.len() == original.len(),
                rows0 == original.map_values(|r: MutableTournamentRow| r@),
                t == tally_of(wins_losses@),
                unique_keys(wins_losses@),
                forall|k: int| i <= k < rows.len() ==> rows@[k] == original[k],
                out@.map_values(|r: TournamentRow| r@) =~= rows0.take(i as int).map_values(
                    |r: RowView| with_tally(r, t),
                ),
            decreases rows.len() - i,
        {
            let mut row = MutableTournamentRow::default();
            rows.set_and_swap(i, &mut row);
            assert(row == original[i as int]);
            let ghost before = row@;
            match tally_lookup(&wins_losses, row.entrant_id.as_str()) {
                Some((_j, wins, losses)) => {
                    row.wins = wins;
                    row.losses = losses;
                },
                None => {},
            }
            assert(row@ == with_tally(before, t));
            let ghost out_before = out@.map_values(|r: TournamentRow| r@);
            let converted = TournamentRow::from(row);
            assert(converted@ == row@);
            out.push(converted);
            proof {
                assert(rows0.take(i + 1) =~= rows0.take(i as int).push(rows0[i as int]));
                assert(out@.map_values(|r: TournamentRow| r@) =~= out_before.push(converted@));
            }
            i = i + 1;
        }
        assert(rows0.take(rows0.len() as int) =~= rows0);
        out
    }
}

} // verus!
