use tourney_ingest::identity::IdentityResolver;
use tourney_ingest::remote::Participant;
use tourney_ingest::sink::SinkCommand;

fn text(s: &str) -> String {
    s.to_string()
}

#[test]
fn new_resolver_knows_nothing() {
    let resolver = IdentityResolver::new();
    assert!(!resolver.knows_player("A"));
    assert_eq!(resolver.resolve("seed1"), None);
}

#[test]
fn recording_a_player_twice_is_recording_once() {
    let mut resolver = IdentityResolver::new();
    assert!(resolver.record_player(text("A"), Some(text("Alpha"))));
    assert!(resolver.knows_player("A"));
    assert!(!resolver.record_player(text("A"), Some(text("Other"))));
    assert!(!resolver.record_player(text("A"), None));
    assert!(resolver.knows_player("A"));
    assert!(!resolver.knows_player("B"));
}

#[test]
fn last_association_of_an_entrant_wins() {
    let mut resolver = IdentityResolver::new();
    resolver.map_entrant(text("seed1"), text("A"));
    assert_eq!(resolver.resolve("seed1"), Some(text("A")));
    resolver.map_entrant(text("seed1"), text("B"));
    assert_eq!(resolver.resolve("seed1"), Some(text("B")));
    assert_eq!(resolver.resolve("seed2"), None);
    assert!(!resolver.knows_player("B"));
}

#[test]
fn absorbing_participants_skips_what_is_incomplete() {
    let mut resolver = IdentityResolver::new();
    let writes = resolver.absorb(vec![
        Some(Participant {
            player_id: None,
            gamer_tag: Some(text("Nameless")),
            entrant_ids: vec![Some(text("seed0"))],
        }),
        None,
        Some(Participant {
            player_id: Some(text("A")),
            gamer_tag: None,
            entrant_ids: vec![None, Some(text("seed1")), Some(text("seed2"))],
        }),
        Some(Participant { player_id: Some(text("B")), gamer_tag: Some(text("Beta")), entrant_ids: vec![] }),
    ]);
    assert_eq!(
        writes,
        vec![
            SinkCommand::UpsertPlayer { player_id: text("A"), display_tag: None },
            SinkCommand::RewriteSetResultKey { old_key: text("seed1"), new_player_id: text("A") },
            SinkCommand::RewriteSetResultKey { old_key: text("seed2"), new_player_id: text("A") },
            SinkCommand::UpsertPlayer { player_id: text("B"), display_tag: Some(text("Beta")) },
        ]
    );
    assert_eq!(resolver.resolve("seed0"), None);
    assert_eq!(resolver.resolve("seed1"), Some(text("A")));
    assert_eq!(resolver.resolve("seed2"), Some(text("A")));
    assert!(resolver.knows_player("A"));
    assert!(resolver.knows_player("B"));
}

#[test]
fn known_player_is_not_upserted_again() {
    let mut resolver = IdentityResolver::new();
    resolver.record_player(text("A"), Some(text("Alpha")));
    let writes = resolver.absorb(vec![Some(Participant {
        player_id: Some(text("A")),
        gamer_tag: Some(text("Alpha")),
        entrant_ids: vec![Some(text("seed7"))],
    })]);
    assert_eq!(
        writes,
        vec![SinkCommand::RewriteSetResultKey { old_key: text("seed7"), new_player_id: text("A") }]
    );
    assert_eq!(resolver.absorb(Vec::new()), Vec::new());
}
