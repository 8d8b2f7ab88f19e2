use tourney_ingest::remote::{copy_texts, EventSets, GetParticipants, GetSets, GetTournaments};

fn event(total_pages: Option<i64>) -> Option<EventSets> {
    Some(EventSets { id: None, total_pages, sets: Vec::new() })
}

#[test]
fn queries_start_at_page_one() {
    assert_eq!(GetTournaments::first(), GetTournaments { page: 1 });
    assert_eq!(
        GetParticipants::first("t1".to_string(), 60),
        GetParticipants { id: "t1".to_string(), page: 1, page_size: 60 }
    );
    assert_eq!(
        GetSets::first("t1".to_string(), vec!["e1".to_string()], 60),
        GetSets { id: "t1".to_string(), events: vec!["e1".to_string()], page: 1, page_size: 60 }
    );
}

#[test]
fn queries_for_another_page_keep_the_rest() {
    assert_eq!(GetTournaments::first().at_page(4), GetTournaments { page: 4 });
    let participants = GetParticipants::first("t1".to_string(), 25).at_page(3);
    assert_eq!(participants, GetParticipants { id: "t1".to_string(), page: 3, page_size: 25 });
    let sets = GetSets::first("t1".to_string(), vec!["e1".to_string(), "e2".to_string()], 60);
    assert_eq!(
        sets.at_page(2),
        GetSets {
            id: "t1".to_string(),
            events: vec!["e1".to_string(), "e2".to_string()],
            page: 2,
            page_size: 60
        }
    );
}

#[test]
fn copies_of_texts() {
    assert_eq!(copy_texts(&vec!["a".to_string(), "b".to_string()]), vec!["a", "b"]);
    assert_eq!(copy_texts(&Vec::new()), Vec::<String>::new());
}

#[test]
fn declared_pages_are_the_largest_of_the_events() {
    assert_eq!(GetSets::total_pages(&vec![event(Some(2)), None, event(Some(5)), event(Some(3))]), Some(5));
    assert_eq!(GetSets::total_pages(&vec![event(None), event(Some(-2)), event(Some(-7))]), Some(-2));
    assert_eq!(GetSets::total_pages(&vec![event(Some(4))]), Some(4));
}

#[test]
fn no_declared_pages_without_an_event_that_declares() {
    assert_eq!(GetSets::total_pages(&Vec::new()), None);
    assert_eq!(GetSets::total_pages(&vec![None, event(None)]), None);
}
