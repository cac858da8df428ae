//! The variables and reply shapes of the tournament, event, standings,
//! entrants and sets queries.

use vstd::prelude::*;

use super::scalars::StartggId;

verus! {

/// Variables of the metadata query (slug only).
#[derive(Debug)]
pub struct TournamentMetadataVariables<'a> {
    pub tourney_slug: Option<&'a str>,
}

/// Variables of the paged sets query (slug, page, page size).
#[derive(Debug)]
pub struct TournamentDataVariables<'a> {
    pub tourney_slug: Option<&'a str>,
    pub page: i32,
    pub per_page: i32,
}

/// Variables of the paged entrants query.
#[derive(Debug)]
pub struct EventEntrantsVariables {
    pub event_id: Option<StartggId>,
    pub page: i32,
    pub per_page: i32,
}

/// Variables of the paged standings query.
#[derive(Debug)]
pub struct EventStandingsVariables {
    pub event_id: Option<StartggId>,
    pub page: i32,
    pub per_page: i32,
}

/// Reply of the metadata query.
#[derive(Debug)]
pub struct TournamentMetadataQuery {
    pub tournament: Option<MetadataTournament>,
}

#[derive(Debug)]
pub struct MetadataTournament {
    pub id: Option<StartggId>,
    pub events: Option<Vec<Option<MetadataEvent>>>,
}

#[derive(Debug)]
pub struct MetadataEvent {
    pub id: Option<StartggId>,
    pub name: Option<String>,
    pub start_at: Option<Timestamp>,
}

#[derive(Debug)]
pub struct StandingsStandingConnection {
    pub page_info: Option<PageInfo>,
    pub nodes: Option<Vec<Option<StandingsStanding>>>,
}

#[derive(Debug)]
pub struct StandingsStanding {
    pub placement: Option<i32>,
    pub entrant: Option<Entrant>,
    pub player: Option<StandingsPlayer>,
}

#[derive(Debug)]
pub struct StandingsPlayer {
    pub id: Option<StartggId>,
}

/// Reply of the standings query.
#[derive(Debug)]
pub struct EventStandingsQuery {
    pub event: Option<EventStandingsEvent>,
}

#[derive(Debug)]
pub struct EventStandingsEvent {
    pub id: Option<StartggId>,
    pub standings: Option<StandingsStandingConnection>,
}

/// Reply of the entrants query.
#[derive(Debug)]
pub struct EventEntrantsQuery {
    pub event: Option<EventEntrantsEvent>,
}

#[derive(Debug)]
pub struct EventEntrantsEvent {
    pub id: Option<StartggId>,
    pub entrants: Option<EventEntrantsEntrantConnection>,
}

#[derive(Debug)]
pub struct EventEntrantsEntrantConnection {
    pub page_info: Option<PageInfo>,
    pub nodes: Option<Vec<Option<EntrantsEntrant>>>,
}

#[derive(Debug)]
pub struct EntrantsEntrant {
    pub id: Option<StartggId>,
    pub name: Option<String>,
    pub participants: Option<Vec<Option<EntrantsParticipant>>>,
}

#[derive(Debug)]
pub struct EntrantsParticipant {
    pub gamer_tag: Option<String>,
    pub prefix: Option<String>,
    pub user: Option<EntrantsUser>,
}

#[derive(Debug)]
pub struct EntrantsUser {
    pub discriminator: Option<String>,
    pub authorizations: Option<Vec<Option<EntrantsAuthorization>>>,
}

#[derive(Debug)]
pub struct EntrantsAuthorization {
    pub external_username: Option<String>,
}

/// Reply of the sets query.
#[derive(Debug)]
pub struct TournamentSetsQuery {
    pub tournament: Option<SetsTournament>,
}

#[derive(Debug)]
pub struct SetsTournament {
    pub events: Option<Vec<Option<SetsEvent>>>,
}

#[derive(Debug)]
pub struct SetsEvent {
    pub id: Option<StartggId>,
    pub sets: Option<SetsSetConnection>,
}

#[derive(Debug)]
pub struct SetsSetConnection {
    pub page_info: Option<PageInfo>,
    pub nodes: Option<Vec<Option<SetsSet>>>,
}

#[derive(Debug)]
pub struct SetsSet {
    pub id: Option<StartggId>,
    pub winner_id: Option<i32>,
    pub slots: Option<Vec<Option<SetsSetSlot>>>,
}

#[derive(Debug)]
pub struct SetsSetSlot {
    pub entrant: Option<Entrant>,
}

#[derive(Debug)]
pub struct PageInfo {
    pub total_pages: Option<i32>,
}

#[derive(Debug)]
pub struct Entrant {
    pub id: Option<StartggId>,
}

/// Seconds since the Unix epoch.
#[derive(Debug, Clone, Copy)]
pub struct Timestamp(pub i64);

} // verus!
