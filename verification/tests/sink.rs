use tourney_ingest::results::SetResult;
use tourney_ingest::sink::{SinkCommand, Store};

fn text(s: &str) -> String {
    s.to_string()
}

fn row(set_id: &str, winner: &str, loser: &str) -> SetResult {
    SetResult {
        set_id: Some(text(set_id)),
        event_id: Some(text("e1")),
        winner_key: text(winner),
        loser_key: text(loser),
        winner_score: 2,
        loser_score: 0,
        duration: None,
    }
}

fn keys(store: &Store) -> Vec<(String, String)> {
    store.set_results().iter().map(|r| (r.winner_key.clone(), r.loser_key.clone())).collect()
}

#[test]
fn new_store_is_empty() {
    let store = Store::new();
    assert_eq!(store.player_count(), 0);
    assert!(store.set_results().is_empty());
    assert!(!store.has_player("A"));
}

#[test]
fn upserting_a_player_twice_is_upserting_once() {
    let mut once = Store::new();
    once.upsert_player(text("A"), Some(text("Alpha")));
    let mut twice = Store::new();
    twice.upsert_player(text("A"), Some(text("Alpha")));
    twice.upsert_player(text("A"), Some(text("Alpha")));
    twice.upsert_player(text("A"), None);
    assert_eq!(once.player_count(), 1);
    assert_eq!(twice.player_count(), 1);
    assert!(twice.has_player("A"));
    twice.upsert_player(text("B"), None);
    assert_eq!(twice.player_count(), 2);
}

#[test]
fn rewrite_replaces_the_key_on_both_sides() {
    let mut store = Store::new();
    store.insert_set_result(row("s1", "seed1", "seed2"));
    store.insert_set_result(row("s2", "seed3", "seed1"));
    store.insert_set_result(row("s3", "seed1", "seed1"));
    store.rewrite_set_result_key(&text("seed1"), &text("A"));
    assert_eq!(
        keys(&store),
        vec![(text("A"), text("seed2")), (text("seed3"), text("A")), (text("A"), text("A"))]
    );
    assert_eq!(store.set_results()[0].set_id, Some(text("s1")));
    assert_eq!(store.set_results()[1].winner_score, 2);
}

#[test]
fn rewrite_before_and_after_an_insert_agree() {
    let mut late = Store::new();
    late.insert_set_result(row("s0", "seed1", "seed5"));
    late.insert_set_result(row("s1", "seed1", "seed2"));
    late.rewrite_set_result_key(&text("seed1"), &text("A"));

    let mut early = Store::new();
    early.insert_set_result(row("s0", "seed1", "seed5"));
    early.rewrite_set_result_key(&text("seed1"), &text("A"));
    early.insert_set_result(row("s1", "seed1", "seed2"));
    assert_eq!(keys(&early)[1], (text("seed1"), text("seed2")));
    early.rewrite_set_result_key(&text("seed1"), &text("A"));

    assert_eq!(keys(&early), keys(&late));
    assert_eq!(keys(&late), vec![(text("A"), text("seed5")), (text("A"), text("seed2"))]);
}

#[test]
fn rewriting_twice_is_rewriting_once() {
    let mut store = Store::new();
    store.insert_set_result(row("s1", "seed1", "A"));
    store.rewrite_set_result_key(&text("seed1"), &text("A"));
    let once = keys(&store);
    store.rewrite_set_result_key(&text("seed1"), &text("A"));
    assert_eq!(keys(&store), once);
    store.rewrite_set_result_key(&text("A"), &text("A"));
    assert_eq!(keys(&store), vec![(text("A"), text("A"))]);
}

#[test]
fn commands_are_applied_in_order() {
    let mut store = Store::new();
    store.apply_all(vec![
        SinkCommand::UpsertPlayer { player_id: text("A"), display_tag: Some(text("Alpha")) },
        SinkCommand::InsertSetResult { row: row("s1", "seed1", "seed2") },
        SinkCommand::RewriteSetResultKey { old_key: text("seed1"), new_player_id: text("A") },
        SinkCommand::InsertSetResult { row: row("s2", "seed1", "seed2") },
    ]);
    assert_eq!(keys(&store), vec![(text("A"), text("seed2")), (text("seed1"), text("seed2"))]);
    assert_eq!(store.player_count(), 1);
    store.apply(SinkCommand::RewriteSetResultKey { old_key: text("seed2"), new_player_id: text("B") });
    assert_eq!(keys(&store), vec![(text("A"), text("B")), (text("seed1"), text("B"))]);
    store.apply_all(Vec::new());
    assert_eq!(store.set_results().len(), 2);
}
