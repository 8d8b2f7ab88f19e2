use tourney_ingest::identity::IdentityResolver;
use tourney_ingest::remote::EventSets;
use tourney_ingest::results::{derive_results, durations_fit, RawSet, RawSlot, SetResult};
use tourney_ingest::sink::SinkCommand;

fn text(s: &str) -> String {
    s.to_string()
}

fn resolver() -> IdentityResolver {
    let mut resolver = IdentityResolver::new();
    resolver.map_entrant(text("seed1"), text("A"));
    resolver.map_entrant(text("seed2"), text("B"));
    resolver
}

fn slot(entrant: &str, placement: i64, score: i64) -> RawSlot {
    RawSlot { entrant_id: Some(text(entrant)), placement: Some(placement), score: Some(score) }
}

fn set(slot1: RawSlot, slot2: RawSlot) -> RawSet {
    RawSet {
        id: Some(text("s1")),
        completed_at: Some(100),
        started_at: Some(40),
        slot1: Some(slot1),
        slot2: Some(slot2),
    }
}

fn derive(set: &RawSet) -> Option<SetResult> {
    set.derive_result(&Some(text("e1")), &resolver())
}

#[test]
fn lower_placement_wins() {
    let result = derive(&set(slot("seed1", 1, 2), slot("seed2", 2, 1)));
    assert_eq!(
        result,
        Some(SetResult {
            set_id: Some(text("s1")),
            event_id: Some(text("e1")),
            winner_key: text("A"),
            loser_key: text("B"),
            winner_score: 2,
            loser_score: 1,
            duration: Some(60),
        })
    );
}

#[test]
fn second_slot_wins_with_the_lower_placement() {
    let result = derive(&set(slot("seed1", 2, 0), slot("seed2", 1, 3))).expect("a result");
    assert_eq!(result.winner_key, "B");
    assert_eq!(result.loser_key, "A");
    assert_eq!(result.winner_score, 3);
    assert_eq!(result.loser_score, 0);
}

#[test]
fn equal_placements_give_nothing() {
    assert_eq!(derive(&set(slot("seed1", 1, 2), slot("seed2", 1, 1))), None);
}

#[test]
fn negative_loser_score_gives_nothing() {
    assert_eq!(derive(&set(slot("seed1", 1, 2), slot("seed2", 2, -1))), None);
    assert_eq!(derive(&set(slot("seed1", 2, -1), slot("seed2", 1, 2))), None);
}

#[test]
fn negative_winner_score_is_kept() {
    let result = derive(&set(slot("seed1", 1, -1), slot("seed2", 2, 0))).expect("a result");
    assert_eq!(result.winner_score, -1);
    assert_eq!(result.loser_score, 0);
}

#[test]
fn unresolved_entrant_gives_nothing() {
    assert_eq!(derive(&set(slot("seed1", 1, 2), slot("seed9", 2, 1))), None);
    assert_eq!(derive(&set(slot("seed9", 1, 2), slot("seed2", 2, 1))), None);
    let empty = IdentityResolver::new();
    assert_eq!(set(slot("seed1", 1, 2), slot("seed2", 2, 1)).derive_result(&None, &empty), None);
}

#[test]
fn missing_values_give_nothing() {
    let whole = set(slot("seed1", 1, 2), slot("seed2", 2, 1));
    assert!(derive(&whole).is_some());

    let mut s = whole.clone();
    s.completed_at = None;
    assert_eq!(derive(&s), None);

    let mut s = whole.clone();
    s.slot1 = None;
    assert_eq!(derive(&s), None);

    let mut s = whole.clone();
    s.slot2 = None;
    assert_eq!(derive(&s), None);

    let mut s = whole.clone();
    s.slot1.as_mut().unwrap().placement = None;
    assert_eq!(derive(&s), None);

    let mut s = whole.clone();
    s.slot2.as_mut().unwrap().placement = None;
    assert_eq!(derive(&s), None);

    let mut s = whole.clone();
    s.slot1.as_mut().unwrap().entrant_id = None;
    assert_eq!(derive(&s), None);

    let mut s = whole.clone();
    s.slot2.as_mut().unwrap().entrant_id = None;
    assert_eq!(derive(&s), None);

    let mut s = whole.clone();
    s.slot1.as_mut().unwrap().score = None;
    assert_eq!(derive(&s), None);

    let mut s = whole.clone();
    s.slot2.as_mut().unwrap().score = None;
    assert_eq!(derive(&s), None);
}

#[test]
fn missing_start_gives_unknown_duration() {
    let mut s = set(slot("seed1", 1, 2), slot("seed2", 2, 1));
    s.started_at = None;
    let result = derive(&s).expect("a result");
    assert_eq!(result.duration, None);
}

#[test]
fn missing_set_and_event_identifiers_are_kept_absent() {
    let mut s = set(slot("seed1", 1, 2), slot("seed2", 2, 1));
    s.id = None;
    let result = s.derive_result(&None, &resolver()).expect("a result");
    assert_eq!(result.set_id, None);
    assert_eq!(result.event_id, None);
}

#[test]
fn duration_may_be_negative() {
    let mut s = set(slot("seed1", 1, 2), slot("seed2", 2, 1));
    s.completed_at = Some(10);
    s.started_at = Some(25);
    assert_eq!(derive(&s).expect("a result").duration, Some(-15));
}

#[test]
fn fitting_durations() {
    let mut s = set(slot("seed1", 1, 2), slot("seed2", 2, 1));
    assert!(s.has_fitting_duration());
    s.completed_at = Some(i64::MAX);
    s.started_at = Some(-1);
    assert!(!s.has_fitting_duration());
    s.started_at = Some(0);
    assert!(s.has_fitting_duration());
    s.completed_at = Some(i64::MIN);
    s.started_at = Some(1);
    assert!(!s.has_fitting_duration());
    s.started_at = None;
    assert!(s.has_fitting_duration());
    s.completed_at = None;
    s.started_at = Some(i64::MIN);
    assert!(s.has_fitting_duration());
}

#[test]
fn durations_of_a_page_of_events() {
    let good = set(slot("seed1", 1, 2), slot("seed2", 2, 1));
    let mut bad = good.clone();
    bad.completed_at = Some(i64::MAX);
    bad.started_at = Some(i64::MIN);
    let fine = vec![
        None,
        Some(EventSets { id: None, total_pages: None, sets: vec![None, Some(good.clone())] }),
    ];
    assert!(durations_fit(&fine));
    let broken = vec![
        Some(EventSets { id: None, total_pages: None, sets: vec![Some(good.clone())] }),
        Some(EventSets { id: None, total_pages: None, sets: vec![Some(good), Some(bad)] }),
    ];
    assert!(!durations_fit(&broken));
    assert!(durations_fit(&Vec::new()));
}

#[test]
fn results_of_a_page_follow_events_and_sets() {
    let first = set(slot("seed1", 1, 2), slot("seed2", 2, 1));
    let mut tied = first.clone();
    tied.id = Some(text("s2"));
    tied.slot2.as_mut().unwrap().placement = Some(1);
    let mut third = set(slot("seed2", 1, 3), slot("seed1", 2, 0));
    third.id = Some(text("s3"));
    let mut fourth = first.clone();
    fourth.id = Some(text("s4"));
    let events = vec![
        Some(EventSets {
            id: Some(text("e1")),
            total_pages: Some(1),
            sets: vec![Some(first), None, Some(tied), Some(third)],
        }),
        None,
        Some(EventSets { id: Some(text("e2")), total_pages: Some(1), sets: vec![Some(fourth)] }),
    ];
    let writes = derive_results(&events, &resolver());
    let seen: Vec<(Option<String>, Option<String>, String)> = writes
        .into_iter()
        .map(|w| match w {
            SinkCommand::InsertSetResult { row } => (row.set_id, row.event_id, row.winner_key),
            _ => panic!("only inserts come of sets"),
        })
        .collect();
    assert_eq!(
        seen,
        vec![
            (Some(text("s1")), Some(text("e1")), text("A")),
            (Some(text("s3")), Some(text("e1")), text("B")),
            (Some(text("s4")), Some(text("e2")), text("A")),
        ]
    );
}
