//! The rows that the library produces and the per-event accumulator that
//! builds them.

use vstd::prelude::*;

verus! {

/// One exported row: an entrant of one event of one tournament.
#[derive(Debug)]
pub struct TournamentRow {
    pub tournament_slug: String,
    pub tournament_id: Option<String>,
    pub event_id: Option<String>,
    pub event_name: String,
    pub event_date: Option<String>,
    pub entrant_id: String,
    pub player_id: Option<String>,
    pub placement: Option<i32>,
    pub wins: i32,
    pub losses: i32,
    pub player_name: String,
    pub player_prefix: String,
    pub player_discriminator: String,
    pub discord_usernames: String,
}

/// A progress notice emitted while a tournament is downloaded.
#[derive(Debug, Clone)]
pub struct DownloadProgressEvent {
    pub tournament_slug: String,
    pub page: i32,
    pub message: String,
    pub done: bool,
}

/// A row while its event is still being accumulated.
#[derive(Debug)]
pub struct MutableTournamentRow {
    pub tournament_slug: String,
    pub tournament_id: Option<String>,
    pub event_id: Option<String>,
    pub event_name: String,
    pub event_date: Option<String>,
    pub entrant_id: String,
    pub player_id: Option<String>,
    pub placement: Option<i32>,
    pub wins: i32,
    pub losses: i32,
    pub player_name: String,
    pub player_prefix: String,
    pub player_discriminator: String,
    pub discord_usernames: String,
}

/// Everything gathered so far about one event: a row per entrant, in the
/// order in which entrants were first seen, and a win/loss tally per
/// entrant id.
#[derive(Debug)]
pub struct EventAccumulator {
    pub tournament_slug: String,
    pub tournament_id: Option<String>,
    pub event_id: Option<String>,
    pub event_name: String,
    pub event_date: Option<String>,
    pub row_by_entrant_id: Vec<MutableTournamentRow>,
    pub wins_losses: Vec<(String, (i32, i32))>,
}

/// A progress notice as values.
pub struct ProgressView {
    pub tournament_slug: Seq<char>,
    pub page: i32,
    pub message: Seq<char>,
    pub done: bool,
}

impl View for DownloadProgressEvent {
    type V = ProgressView;

    open spec fn view(&self) -> ProgressView {
        ProgressView {
            tournament_slug: self.tournament_slug@,
            page: self.page,
            message: self.message@,
            done: self.done,
        }
    }
}

/// The text of an optional string.
pub open spec fn opt_text(o: Option<String>) -> Option<Seq<char>> {
    match o {
        Some(s) => Some(s@),
        None => None,
    }
}

/// A row as values: every text as its characters.
pub struct RowView {
    pub tournament_slug: Seq<char>,
    pub tournament_id: Option<Seq<char>>,
    pub event_id: Option<Seq<char>>,
    pub event_name: Seq<char>,
    pub event_date: Option<Seq<char>>,
    pub entrant_id: Seq<char>,
    pub player_id: Option<Seq<char>>,
    pub placement: Option<i32>,
    pub wins: int,
    pub losses: int,
    pub player_name: Seq<char>,
    pub player_prefix: Seq<char>,
    pub player_discriminator: Seq<char>,
    pub discord_usernames: Seq<char>,
}

impl View for MutableTournamentRow {
    type V = RowView;

    open spec fn view(&self) -> RowView {
        RowView {
            tournament_slug: self.tournament_slug@,
            tournament_id: opt_text(self.tournament_id),
            event_id: opt_text(self.event_id),
            event_name: self.event_name@,
            event_date: opt_text(self.event_date),
            entrant_id: self.entrant_id@,
            player_id: opt_text(self.player_id),
            placement: self.placement,
            wins: self.wins as int,
            losses: self.losses as int,
            player_name: self.player_name@,
            player_prefix: self.player_prefix@,
            player_discriminator: self.player_discriminator@,
            discord_usernames: self.discord_usernames@,
        }
    }
}

impl View for TournamentRow {
    type V = RowView;

    open spec fn view(&self) -> RowView {
        RowView {
            tournament_slug: self.tournament_slug@,
            tournament_id: opt_text(self.tournament_id),
            event_id: opt_text(self.event_id),
            event_name: self.event_name@,
            event_date: opt_text(self.event_date),
            entrant_id: self.entrant_id@,
            player_id: opt_text(self.player_id),
            placement: self.placement,
            wins: self.wins as int,
            losses: self.losses as int,
            player_name: self.player_name@,
            player_prefix: self.player_prefix@,
            player_discriminator: self.player_discriminator@,
            discord_usernames: self.discord_usernames@,
        }
    }
}

impl Default for MutableTournamentRow {
    fn default() -> (res: MutableTournamentRow)
        ensures
            res@ == (RowView {
                tournament_slug: Seq::empty(),
                tournament_id: None,
                event_id: None,
                event_name: Seq::empty(),
                event_date: None,
                entrant_id: Seq::empty(),
                player_id: None,
                placement: None,
                wins: 0,
                losses: 0,
                player_name: Seq::empty(),
                player_prefix: Seq::empty(),
                player_discriminator: Seq::empty(),
                discord_usernames: Seq::empty(),
            }),
    {
        MutableTournamentRow {
            tournament_slug: String::new(),
            tournament_id: None,
            event_id: None,
            event_name: String::new(),
            event_date: None,
            entrant_id: String::new(),
            player_id: None,
            placement: None,
            wins: 0,
            losses: 0,
            player_name: String::new(),
            player_prefix: String::new(),
            player_discriminator: String::new(),
            discord_usernames: String::new(),
        }
    }
}

impl From<MutableTournamentRow> for TournamentRow {
    fn from(value: MutableTournamentRow) -> (res: TournamentRow) {
        TournamentRow {
            tournament_slug: value.tournament_slug,
            tournament_id: value.tournament_id,
            event_id: value.event_id,
            event_name: value.event_name,
            event_date: value.event_date,
            entrant_id: value.entrant_id,
            player_id: value.player_id,
            placement: value.placement,
            wins: value.wins,
            losses: value.losses,
            player_name: value.player_name,
            player_prefix: value.player_prefix,
            player_discriminator: value.player_discriminator,
            discord_usernames: value.discord_usernames,
        }
    }
}

impl vstd::std_specs::convert::FromSpecImpl<MutableTournamentRow> for TournamentRow {
    open spec fn obeys_from_spec() -> bool {
        true
    }

    open spec fn from_spec(value: MutableTournamentRow) -> TournamentRow {
        TournamentRow {
            tournament_slug: value.tournament_slug,
            tournament_id: value.tournament_id,
            event_id: value.event_id,
            event_name: value.event_name,
            event_date: value.event_date,
            entrant_id: value.entrant_id,
            player_id: value.player_id,
            placement: value.placement,
            wins: value.wins,
            losses: value.losses,
            player_name: value.player_name,
            player_prefix: value.player_prefix,
            player_discriminator: value.player_discriminator,
            discord_usernames: value.discord_usernames,
        }
    }
}

} // verus!
