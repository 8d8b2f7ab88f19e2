//! The three paged queries of the remote service and the records that
//! their pages carry.

use vstd::prelude::*;
use crate::results::RawSet;

verus! {

/// The query for one page of tournaments.
#[derive(Debug, Clone, PartialEq, Eq)]
pub struct GetTournaments {
    pub page: i64,
}

/// The query for one page of a tournament's participants.
#[derive(Debug, Clone, PartialEq, Eq)]
pub struct GetParticipants {
    pub id: String,
    pub page: i64,
    pub page_size: i64,
}

/// The query for one page of the sets of some of a tournament's events.
#[derive(Debug, Clone, PartialEq, Eq)]
pub struct GetSets {
    pub id: String,
    pub events: Vec<String>,
    pub page: i64,
    pub page_size: i64,
}

/// An event of a tournament.
#[derive(Debug, Clone, PartialEq, Eq)]
pub struct Event {
    pub id: Option<String>,
    pub name: Option<String>,
}

/// A tournament with its events.
#[derive(Debug, Clone, PartialEq, Eq)]
pub struct Tournament {
    pub id: Option<String>,
    pub name: Option<String>,
    pub start_at: Option<i64>,
    pub events: Vec<Option<Event>>,
}

/// A player's registration in one tournament, with the identifiers of the
/// entrants that stand for the player in its events.
#[derive(Debug, Clone, PartialEq, Eq)]
pub struct Participant {
    pub player_id: Option<String>,
    pub gamer_tag: Option<String>,
    pub entrant_ids: Vec<Option<String>>,
}

/// One page of an event's sets, with the number of pages that the event's
/// sets fill.
#[derive(Debug, Clone, PartialEq, Eq)]
pub struct EventSets {
    pub id: Option<String>,
    pub total_pages: Option<i64>,
    pub sets: Vec<Option<RawSet>>,
}

/// Copies a list of strings.
pub fn copy_texts(texts: &Vec<String>) -> (copy: Vec<String>)
    ensures
        copy@ == texts@,
{
    let mut copy: Vec<String> = Vec::new();
    let count = texts.len();
    let mut i: usize = 0;
    while i < count
        invariant
            i <= count,
            count == texts@.len(),
            copy@ == texts@.take(i as int),
        decreases count - i,
    {
        copy.push(texts[i].clone());
        assert(texts@.take(i + 1) =~= texts@.take(i as int).push(texts@[i as int]));
        i += 1;
    }
    assert(texts@.take(count as int) =~= texts@);
    copy
}

impl GetTournaments {
    /// The query for the first page.
    pub fn first() -> (query: GetTournaments)
        ensures
            query.page == 1,
    {
        GetTournaments { page: 1 }
    }

    /// The same query for another page.
    pub fn at_page(&self, page: i64) -> (query: GetTournaments)
        ensures
            query.page == page,
    {
        GetTournaments { page }
    }
}

impl GetParticipants {
    /// The query for the first page of a tournament's participants.
    pub fn first(id: String, page_size: i64) -> (query: GetParticipants)
        ensures
            query.id == id,
            query.page == 1,
            query.page_size == page_size,
    {
        GetParticipants { id, page: 1, page_size }
    }

    /// The same query for another page.
    pub fn at_page(&self, page: i64) -> (query: GetParticipants)
        ensures
            query.id == self.id,
            query.page == page,
            query.page_size == self.page_size,
    {
        GetParticipants { id: self.id.clone(), page, page_size: self.page_size }
    }
}

impl GetSets {
    /// The query for the first page of the sets of the given events.
    pub fn first(id: String, events: Vec<String>, page_size: i64) -> (query: GetSets)
        ensures
            query.id == id,
            query.events == events,
            query.page == 1,
            query.page_size == page_size,
    {
        GetSets { id, events, page: 1, page_size }
    }

    /// The same query for another page.
    pub fn at_page(&self, page: i64) -> (query: GetSets)
        ensures
            query.id == self.id,
            query.events@ == self.events@,
            query.page == page,
            query.page_size == self.page_size,
    {
        GetSets {
            id: self.id.clone(),
            events: copy_texts(&self.events),
            page,
            page_size: self.page_size,
        }
    }

    /// The number of pages that a page of events declares: the largest
    /// number that any of its events gives for its sets, and none where no
    /// event gives one.
    pub fn total_pages(events: &Vec<Option<EventSets>>) -> (total: Option<i64>)
        ensures
            match total {
                Some(most) => {
                    &&& exists|i: int|
                        0 <= i < events@.len() && #[trigger] declared_pages(events@[i]) == Some(
                            most,
                        )
                    &&& forall|i: int|
                        0 <= i < events@.len() ==> (#[trigger] declared_pages(events@[i])
                            matches Some(t) ==> t <= most)
                },
                None => forall|i: int|
                    0 <= i < events@.len() ==> #[trigger] declared_pages(events@[i]) is None,
            },
    {
        let mut total: Option<i64> = None;
        let count = events.len();
        let mut k: usize = 0;
        while k < count
            invariant
                k <= count,
                count == events@.len(),
                match total {
                    Some(most) => {
                        &&& exists|i: int|
                            0 <= i < k && #[trigger] declared_pages(events@[i]) == Some(most)
                        &&& forall|i: int|
                            0 <= i < k ==> (#[trigger] declared_pages(events@[i]) matches Some(t)
                                ==> t <= most)
                    },
                    None => forall|i: int|
                        0 <= i < k ==> #[trigger] declared_pages(events@[i]) is None,
                },
            decreases count - k,
        {
            let here = match &events[k] {
                Some(event) => event.total_pages,
                None => None,
            };
            assert(here == declared_pages(events@[k as int]));
            match here {
                Some(t) => {
                    let larger = match total {
                        Some(most) => t > most,
                        None => true,
                    };
                    if larger {
                        total = Some(t);
                    }
                },
                None => {},
            }
            k += 1;
        }
        total
    }
}

/// The number of pages that an event gives for its sets, where the event
/// and the number are present.
pub open spec fn declared_pages(event: Option<EventSets>) -> Option<i64> {
    match event {
        Some(e) => e.total_pages,
        None => None,
    }
}

} // verus!
