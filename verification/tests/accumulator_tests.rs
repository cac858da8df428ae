use startgg_export::csv::rows_to_csv;
use startgg_export::queries::scalars::StartggId;
use startgg_export::queries::tournament::{
    Entrant, EntrantsAuthorization, EntrantsEntrant, EntrantsParticipant, EntrantsUser,
    EventEntrantsEntrantConnection, EventEntrantsEvent, EventStandingsEvent, PageInfo, SetsEvent,
    SetsSet, SetsSetConnection, SetsSetSlot, StandingsPlayer, StandingsStanding,
    StandingsStandingConnection,
};
use startgg_export::types::{EventAccumulator, TournamentRow};

fn id(s: &str) -> Option<StartggId> {
    Some(StartggId::from_text(s))
}

fn acc() -> EventAccumulator {
    EventAccumulator::new(
        "tournament/t",
        Some("100".to_string()),
        Some("200".to_string()),
        "Singles".to_string(),
        Some("2024-01-02".to_string()),
    )
}

fn standing(entrant: &str, placement: Option<i32>, player: Option<&str>) -> Option<StandingsStanding> {
    Some(StandingsStanding {
        placement,
        entrant: Some(Entrant { id: id(entrant) }),
        player: player.map(|p| StandingsPlayer { id: id(p) }),
    })
}

fn standings_page(nodes: Vec<Option<StandingsStanding>>) -> EventStandingsEvent {
    EventStandingsEvent {
        id: id("200"),
        standings: Some(StandingsStandingConnection {
            page_info: Some(PageInfo { total_pages: Some(1) }),
            nodes: Some(nodes),
        }),
    }
}

fn participant(tag: Option<&str>, prefix: Option<&str>, disc: Option<&str>, names: Vec<Option<&str>>) -> Option<EntrantsParticipant> {
    Some(EntrantsParticipant {
        gamer_tag: tag.map(|s| s.to_string()),
        prefix: prefix.map(|s| s.to_string()),
        user: Some(EntrantsUser {
            discriminator: disc.map(|s| s.to_string()),
            authorizations: Some(
                names
                    .into_iter()
                    .map(|n| Some(EntrantsAuthorization { external_username: n.map(|s| s.to_string()) }))
                    .collect(),
            ),
        }),
    })
}

fn entrants_page(nodes: Vec<Option<EntrantsEntrant>>) -> EventEntrantsEvent {
    EventEntrantsEvent {
        id: id("200"),
        entrants: Some(EventEntrantsEntrantConnection {
            page_info: Some(PageInfo { total_pages: Some(1) }),
            nodes: Some(nodes),
        }),
    }
}

fn set(set_id: Option<&str>, winner: Option<i32>, slots: Vec<Option<&str>>) -> Option<SetsSet> {
    Some(SetsSet {
        id: set_id.and_then(id),
        winner_id: winner,
        slots: Some(
            slots
                .into_iter()
                .map(|e| Some(SetsSetSlot { entrant: Some(Entrant { id: e.and_then(id) }) }))
                .collect(),
        ),
    })
}

fn sets_page(nodes: Vec<Option<SetsSet>>) -> SetsEvent {
    SetsEvent {
        id: id("200"),
        sets: Some(SetsSetConnection { page_info: Some(PageInfo { total_pages: Some(3) }), nodes: Some(nodes) }),
    }
}

fn find<'a>(rows: &'a [TournamentRow], entrant: &str) -> &'a TournamentRow {
    rows.iter().find(|r| r.entrant_id == entrant).unwrap()
}

#[test]
fn new_accumulator_is_empty() {
    let a = acc();
    assert_eq!(a.tournament_slug, "tournament/t");
    assert!(a.row_by_entrant_id.is_empty());
    assert!(a.wins_losses.is_empty());
    assert!(a.into_rows().is_empty());
}

#[test]
fn standings_create_and_update_rows() {
    let mut a = acc();
    let changed = a.absorb_event_standings_page(standings_page(vec![
        standing("1", Some(1), Some("p1")),
        standing("2", Some(2), None),
        None,
        Some(StandingsStanding { placement: Some(9), entrant: None, player: None }),
    ]));
    assert!(changed);
    assert_eq!(a.row_by_entrant_id.len(), 2);
    let again = a.absorb_event_standings_page(standings_page(vec![
        standing("1", Some(1), Some("p1")),
        standing("2", Some(2), None),
    ]));
    assert!(!again);
    let moved = a.absorb_event_standings_page(standings_page(vec![standing("2", Some(3), None)]));
    assert!(moved);
    let rows = a.into_rows();
    assert_eq!(rows.len(), 2);
    assert_eq!(rows[0].entrant_id, "1");
    assert_eq!(rows[0].placement, Some(1));
    assert_eq!(rows[0].player_id, Some("p1".to_string()));
    assert_eq!(rows[1].placement, Some(3));
    assert_eq!(rows[1].player_id, None);
    assert_eq!(rows[1].event_name, "Singles");
    assert_eq!(rows[1].event_date, Some("2024-01-02".to_string()));
    assert_eq!(rows[1].tournament_id, Some("100".to_string()));
}

#[test]
fn entrants_identity_from_participants() {
    let mut a = acc();
    let changed = a.absorb_event_entrants_page(entrants_page(vec![
        Some(EntrantsEntrant {
            id: id("1"),
            name: Some("Sponsor | Player".to_string()),
            participants: Some(vec![
                participant(Some(" Alpha "), Some(" TSM "), Some(" 1234 "), vec![Some(" alpha#1 "), None, Some("  ")]),
                participant(Some("Beta"), Some(""), None, vec![Some("beta")]),
                None,
            ]),
        }),
        Some(EntrantsEntrant {
            id: id("2"),
            name: Some("Sponsor | Player".to_string()),
            participants: None,
        }),
        Some(EntrantsEntrant { id: None, name: Some("ignored".to_string()), participants: None }),
        None,
    ]));
    assert!(changed);
    let rows = a.into_rows();
    assert_eq!(rows.len(), 2);
    let r1 = find(&rows, "1");
    assert_eq!(r1.player_name, "Alpha / Beta");
    assert_eq!(r1.player_prefix, "TSM");
    assert_eq!(r1.player_discriminator, "1234");
    assert_eq!(r1.discord_usernames, "alpha#1 | beta");
    let r2 = find(&rows, "2");
    assert_eq!(r2.player_name, "Player");
    assert_eq!(r2.player_prefix, "Sponsor");
    assert_eq!(r2.player_discriminator, "");
    assert_eq!(r2.discord_usernames, "");
}

#[test]
fn entrants_keep_known_values_when_new_ones_are_empty() {
    let mut a = acc();
    a.absorb_event_entrants_page(entrants_page(vec![Some(EntrantsEntrant {
        id: id("1"),
        name: Some("Team | Name".to_string()),
        participants: Some(vec![participant(None, None, Some("77"), vec![Some("d")])]),
    })]));
    let same = a.absorb_event_entrants_page(entrants_page(vec![Some(EntrantsEntrant {
        id: id("1"),
        name: None,
        participants: None,
    })]));
    assert!(!same);
    let rows = a.into_rows();
    assert_eq!(rows[0].player_name, "Name");
    assert_eq!(rows[0].player_prefix, "Team");
    assert_eq!(rows[0].player_discriminator, "77");
    assert_eq!(rows[0].discord_usernames, "d");
}

#[test]
fn entrants_page_absorbed_twice_reports_no_change() {
    let page = || {
        entrants_page(vec![Some(EntrantsEntrant {
            id: id("5"),
            name: Some("X".to_string()),
            participants: Some(vec![participant(Some("Tag"), None, None, vec![])]),
        })])
    };
    let mut a = acc();
    assert!(a.absorb_event_entrants_page(page()));
    assert!(!a.absorb_event_entrants_page(page()));
}

#[test]
fn sets_count_wins_and_losses() {
    let mut a = acc();
    a.absorb_event_standings_page(standings_page(vec![standing("10", Some(1), None), standing("11", Some(2), None)]));
    let changed = a.absorb_sets_page(sets_page(vec![
        set(Some("s1"), Some(10), vec![Some("10"), Some("11")]),
        set(Some("s2"), Some(11), vec![Some("11"), Some("10")]),
        set(Some("s3"), Some(10), vec![Some("10"), Some("11"), None]),
        set(None, Some(10), vec![Some("10"), Some("11")]),
        set(Some("s4"), None, vec![Some("10"), Some("11")]),
        set(Some("s5"), Some(12), vec![Some("12"), Some("10")]),
        None,
    ]));
    assert!(changed);
    let nothing = a.absorb_sets_page(sets_page(vec![set(None, Some(1), vec![Some("10")])]));
    assert!(!nothing);
    let rows = a.into_rows();
    assert_eq!(rows.len(), 2);
    let r10 = find(&rows, "10");
    assert_eq!((r10.wins, r10.losses), (2, 2));
    let r11 = find(&rows, "11");
    assert_eq!((r11.wins, r11.losses), (1, 2));
}

#[test]
fn sets_without_rows_do_not_create_rows() {
    let mut a = acc();
    assert!(a.absorb_sets_page(sets_page(vec![set(Some("s"), Some(1), vec![Some("1"), Some("2")])])));
    assert_eq!(a.wins_losses.len(), 2);
    assert!(a.into_rows().is_empty());
}

#[test]
fn csv_of_rows() {
    let mut a = acc();
    a.absorb_event_entrants_page(entrants_page(vec![Some(EntrantsEntrant {
        id: id("1"),
        name: Some("A, \"B\"".to_string()),
        participants: None,
    })]));
    a.absorb_event_standings_page(standings_page(vec![standing("1", Some(3), Some("9"))]));
    a.absorb_sets_page(sets_page(vec![set(Some("s"), Some(1), vec![Some("1"), Some("2")])]));
    let rows = a.into_rows();
    let text = rows_to_csv(&rows).unwrap();
    assert_eq!(
        text,
        "tournament_slug,tournament_id,event_id,event_name,event_date,entrant_id,player_id,placement,wins,losses,player_name,player_prefix,player_discriminator,discord_usernames\n\
         tournament/t,100,200,Singles,2024-01-02,1,9,3,1,0,\"A, \"\"B\"\"\",,,\n"
    );
}

#[test]
fn csv_of_no_rows_is_empty() {
    assert_eq!(rows_to_csv(&[]).unwrap(), "");
}

#[test]
fn csv_quotes_line_breaks() {
    let mut a = acc();
    a.absorb_event_entrants_page(entrants_page(vec![Some(EntrantsEntrant {
        id: id("1"),
        name: Some("x\ry é".to_string()),
        participants: None,
    })]));
    let rows = a.into_rows();
    let text = rows_to_csv(&rows).unwrap();
    assert!(text.ends_with(",0,0,\"x\ry é\",,,\n"));
}
