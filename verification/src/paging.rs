//! Fetching all pages of a paged query.
//!
//! The fetcher is a state machine. Its driver requests page 1 and delivers
//! what came back. The fetcher then asks for the remaining pages, which
//! may be requested at once and delivered in any order, and ends with all
//! items in page order or with the first failure.

use vstd::prelude::*;

verus! {

/// Why a paged fetch failed.
#[derive(Debug, Clone, PartialEq, Eq)]
pub enum FetchError {
    /// The first request failed, or the service answered it with an error
    /// payload; the message is the payload's first, or the transport's.
    RemoteQuery { message: String },
    /// The first page came without an item list.
    Shape,
    /// A later page failed: its request did not complete (with the
    /// transport's message), the service answered it with an error payload
    /// (with the payload's first message), or it came without an item list.
    PartialPage { page: i64, cause: Option<String> },
}

impl FetchError {
    /// The text of the failure, as it is shown.
    pub open spec fn text(self) -> Seq<char> {
        match self {
            FetchError::RemoteQuery { message } => message@,
            FetchError::Shape => "No data"@,
            FetchError::PartialPage { cause: Some(message), .. } => message@,
            FetchError::PartialPage { cause: None, .. } => "No data in page"@,
        }
    }

    /// The text of the failure: the message that came with it, or a fixed
    /// text where none did.
    pub fn message(&self) -> (message: String)
        ensures
            message@ == self.text(),
    {
        match self {
            FetchError::RemoteQuery { message } => message.clone(),
            FetchError::Shape => "No data".to_owned(),
            FetchError::PartialPage { cause: Some(message), .. } => message.clone(),
            FetchError::PartialPage { cause: None, .. } => "No data in page".to_owned(),
        }
    }
}

/// What one page's response holds.
#[derive(Debug, Clone, PartialEq, Eq)]
pub struct PageResponse<T> {
    /// The first message of the response's error payload, if it has one.
    pub error: Option<String>,
    /// The page's items, where the response has an item list.
    pub items: Option<Vec<T>>,
    /// The number of pages that the response declares.
    pub total_pages: Option<i64>,
}

/// What the driver does next.
#[derive(Debug, Clone, Copy, PartialEq, Eq, Structural)]
pub enum FetchAction {
    /// Request the pages `first` to `last`; they may run concurrently.
    Request { first: i64, last: i64 },
    /// Keep delivering the pages that are outstanding.
    Await,
    /// The fetch is over: take its result.
    Finished,
}

/// The state of a fetch.
#[verifier::ext_equal]
pub enum FetchView<T> {
    /// Page 1 is outstanding.
    AwaitingFirst,
    /// Page 1 gave `first` and declared `last_page` pages; `arrived` holds
    /// the later pages delivered so far.
    AwaitingRest { first: Seq<T>, last_page: int, arrived: Map<int, Seq<T>> },
    /// All pages arrived.
    Done { items: Seq<T> },
    /// The fetch failed.
    Failed { error: FetchError },
}

/// The number of pages that a first page declares: none declared counts
/// as zero.
pub open spec fn declared_last_page(total_pages: Option<i64>) -> int {
    match total_pages {
        Some(n) => n as int,
        None => 0,
    }
}

/// The items of the pages `from` to `to`, in page order.
pub open spec fn concat_pages<T>(pages: Map<int, Seq<T>>, from: int, to: int) -> Seq<T>
    decreases to - from + 1,
{
    if to < from {
        Seq::empty()
    } else {
        concat_pages(pages, from, to - 1) + pages[to]
    }
}

/// Whether each of the pages 2 to `last_page` has arrived.
pub open spec fn all_arrived<T>(arrived: Map<int, Seq<T>>, last_page: int) -> bool {
    forall|p: int| 2 <= p <= last_page ==> arrived.contains_key(p)
}

/// Whether a delivery brings no items: the request failed, or the response
/// has an error payload, or it has no item list.
pub open spec fn brings_nothing<T>(outcome: Result<PageResponse<T>, String>) -> bool {
    match outcome {
        Ok(response) => response.error is Some || response.items is None,
        Err(_) => true,
    }
}

impl<T> FetchView<T> {
    /// The state after page 1 is delivered. A failed request and an error
    /// payload end the fetch with that message; a response without an item
    /// list ends it with a shape error. Otherwise the fetch goes on where
    /// more than one page is declared, and is done where not.
    pub open spec fn after_first(outcome: Result<PageResponse<T>, String>) -> FetchView<T> {
        match outcome {
            Err(message) => FetchView::Failed { error: FetchError::RemoteQuery { message } },
            Ok(response) => match response.error {
                Some(message) => FetchView::Failed { error: FetchError::RemoteQuery { message } },
                None => match response.items {
                    None => FetchView::Failed { error: FetchError::Shape },
                    Some(items) => if declared_last_page(response.total_pages) > 1 {
                        FetchView::AwaitingRest {
                            first: items@,
                            last_page: declared_last_page(response.total_pages),
                            arrived: Map::empty(),
                        }
                    } else {
                        FetchView::Done { items: items@ }
                    },
                },
            },
        }
    }

    /// Whether the fetch waits for this page.
    pub open spec fn awaits(self, page: i64) -> bool {
        match self {
            FetchView::AwaitingFirst => page == 1,
            FetchView::AwaitingRest { last_page, arrived, .. } => 2 <= page <= last_page
                && !arrived.contains_key(page as int),
            _ => false,
        }
    }

    /// The state after a delivery. A page that the fetch does not wait for
    /// changes nothing. A later page fails the fetch where its request
    /// failed, where it has an error payload, whatever else it holds, and
    /// where it has no item list. With the last outstanding page the fetch
    /// is done, its items in page order.
    pub open spec fn deliver(self, page: i64, outcome: Result<PageResponse<T>, String>)
        -> FetchView<T> {
        if !self.awaits(page) {
            self
        } else {
            match self {
                FetchView::AwaitingRest { first, last_page, arrived } => match outcome {
                    Err(message) => FetchView::Failed {
                        error: FetchError::PartialPage { page, cause: Some(message) },
                    },
                    Ok(response) => match response.error {
                        Some(message) => FetchView::Failed {
                            error: FetchError::PartialPage { page, cause: Some(message) },
                        },
                        None => match response.items {
                            None => FetchView::Failed {
                                error: FetchError::PartialPage { page, cause: None },
                            },
                            Some(items) => {
                                let now = arrived.insert(page as int, items@);
                                if all_arrived(now, last_page) {
                                    FetchView::Done {
                                        items: first + concat_pages(now, 2, last_page),
                                    }
                                } else {
                                    FetchView::AwaitingRest { first, last_page, arrived: now }
                                }
                            },
                        },
                    },
                },
                _ => Self::after_first(outcome),
            }
        }
    }

    /// The state after a sequence of deliveries, first to last.
    pub open spec fn deliver_all(
        self,
        deliveries: Seq<(i64, Result<PageResponse<T>, String>)>,
    ) -> FetchView<T>
        decreases deliveries.len(),
    {
        if deliveries.len() == 0 {
            self
        } else {
            self.deliver_all(deliveries.drop_last()).deliver(
                deliveries.last().0,
                deliveries.last().1,
            )
        }
    }

    /// Whether the fetch is over.
    pub open spec fn is_over(self) -> bool {
        self is Done || self is Failed
    }

    /// The result of a fetch that is over.
    pub open spec fn result(self) -> Option<Result<Seq<T>, FetchError>> {
        match self {
            FetchView::Done { items } => Some(Ok(items)),
            FetchView::Failed { error } => Some(Err(error)),
            _ => None,
        }
    }
}

/// What the driver does after a delivery that took the fetch from `pre` to
/// `post`: requests go out only when page 1 has declared further pages.
pub open spec fn action_after<T>(pre: FetchView<T>, post: FetchView<T>) -> FetchAction {
    if post.is_over() {
        FetchAction::Finished
    } else if pre is AwaitingFirst && post is AwaitingRest {
        FetchAction::Request { first: 2, last: post->last_page as i64 }
    } else {
        FetchAction::Await
    }
}

/// Two collections of pages that agree on the pages `from` to `to` give
/// the same items for them.
pub proof fn lemma_concat_agrees<T>(a: Map<int, Seq<T>>, b: Map<int, Seq<T>>, from: int, to: int)
    requires
        forall|p: int| from <= p <= to ==> a[p] == b[p],
    ensures
        concat_pages(a, from, to) == concat_pages(b, from, to),
    decreases to - from + 1,
{
    if to >= from {
        lemma_concat_agrees(a, b, from, to - 1);
    }
}

/// An error payload on page 1 ends the fetch with the payload's message,
/// and no request for a further page goes out.
pub proof fn lemma_error_payload_ends_fetch<T>(response: PageResponse<T>, message: String)
    requires
        response.error == Some(message),
    ensures
        FetchView::<T>::AwaitingFirst.deliver(1, Ok(response)) == (FetchView::<T>::Failed {
            error: FetchError::RemoteQuery { message },
        }),
        action_after(
            FetchView::<T>::AwaitingFirst,
            FetchView::<T>::AwaitingFirst.deliver(1, Ok(response)),
        ) == FetchAction::Finished,
{
}

/// An error payload on a later page fails the fetch with the payload's
/// message, whether or not the page also holds items.
pub proof fn lemma_later_error_payload_fails_fetch<T>(
    state: FetchView<T>,
    page: i64,
    response: PageResponse<T>,
    message: String,
)
    requires
        state is AwaitingRest,
        state.awaits(page),
        response.error == Some(message),
    ensures
        state.deliver(page, Ok(response)) == (FetchView::<T>::Failed {
            error: FetchError::PartialPage { page, cause: Some(message) },
        }),
{
}

/// A later page that fails (its request, by an error payload, or for want
/// of an item list) fails the whole fetch, whatever has arrived: the result
/// is an error and holds no items; and nothing that is delivered afterwards
/// changes that.
pub proof fn lemma_failed_page_fails_fetch<T>(
    state: FetchView<T>,
    page: i64,
    outcome: Result<PageResponse<T>, String>,
    later: Seq<(i64, Result<PageResponse<T>, String>)>,
)
    requires
        state is AwaitingRest,
        state.awaits(page),
        brings_nothing(outcome),
    ensures
        state.deliver(page, outcome) is Failed,
        state.deliver(page, outcome).result() matches Some(Err(_)),
        state.deliver(page, outcome).deliver_all(later) == state.deliver(page, outcome),
    decreases later.len(),
{
    if later.len() > 0 {
        lemma_failed_page_fails_fetch(state, page, outcome, later.drop_last());
    }
}

/// Whether the page is among the first `count` deliveries.
pub open spec fn brought_within<T>(
    deliveries: Seq<(i64, Result<PageResponse<T>, String>)>,
    count: int,
    page: int,
) -> bool {
    exists|i: int| 0 <= i < count && (#[trigger] deliveries[i]).0 == page
}

/// Whether the deliveries bring each of the pages 2 to `last_page` exactly
/// once, each without an error payload and with the items that `pages`
/// holds for it.
pub open spec fn delivers_each_once<T>(
    deliveries: Seq<(i64, Result<PageResponse<T>, String>)>,
    pages: Map<int, Seq<T>>,
    last_page: int,
) -> bool {
    &&& forall|i: int|
        0 <= i < deliveries.len() ==> 2 <= (#[trigger] deliveries[i]).0 <= last_page
    &&& forall|i: int, j: int|
        0 <= i < j < deliveries.len() ==> (#[trigger] deliveries[i]).0 != (
        #[trigger] deliveries[j]).0
    &&& forall|p: int|
        2 <= p <= last_page ==> #[trigger] brought_within(deliveries, deliveries.len() as int, p)
    &&& forall|i: int|
        0 <= i < deliveries.len() ==> match (#[trigger] deliveries[i]).1 {
            Ok(response) => response.error is None && (response.items matches Some(items)
                && items@ == pages[deliveries[i].0 as int]),
            Err(_) => false,
        }
}

/// The pages among the first `count` deliveries, with their items.
pub open spec fn arrived_after<T>(
    deliveries: Seq<(i64, Result<PageResponse<T>, String>)>,
    pages: Map<int, Seq<T>>,
    count: int,
) -> Map<int, Seq<T>> {
    Map::new(|p: int| brought_within(deliveries, count, p), |p: int| pages[p])
}

/// While pages are outstanding, the fetch holds exactly the pages
/// delivered so far.
proof fn lemma_partial_deliveries<T>(
    first: Seq<T>,
    last_page: int,
    deliveries: Seq<(i64, Result<PageResponse<T>, String>)>,
    pages: Map<int, Seq<T>>,
    count: int,
)
    requires
        delivers_each_once(deliveries, pages, last_page),
        0 <= count < deliveries.len(),
    ensures
        (FetchView::AwaitingRest { first, last_page, arrived: Map::empty() }).deliver_all(
            deliveries.take(count),
        ) == (FetchView::AwaitingRest {
            first,
            last_page,
            arrived: arrived_after(deliveries, pages, count),
        }),
    decreases count,
{
    let start = FetchView::AwaitingRest { first, last_page, arrived: Map::empty() };
    if count == 0 {
        assert(deliveries.take(0) =~= Seq::empty());
        assert(arrived_after(deliveries, pages, 0) =~= Map::<int, Seq<T>>::empty());
    } else {
        lemma_partial_deliveries(first, last_page, deliveries, pages, count - 1);
        let before = arrived_after(deliveries, pages, count - 1);
        let delivery = deliveries[count - 1];
        assert(deliveries.take(count).drop_last() =~= deliveries.take(count - 1));
        assert(deliveries.take(count).last() == delivery);
        let pre = FetchView::AwaitingRest { first, last_page, arrived: before };
        assert(!before.contains_key(delivery.0 as int));
        assert(pre.awaits(delivery.0));
        let now = before.insert(delivery.0 as int, pages[delivery.0 as int]);
        assert(now =~= arrived_after(deliveries, pages, count));
        let missing = deliveries[count].0;
        assert(!now.contains_key(missing as int));
        assert(!all_arrived(now, last_page));
    }
}

/// In whatever order the pages 2 to `last_page` are delivered, each once
/// and with its items, the fetch ends with the items of page 1 followed by
/// those of the later pages in page order.
pub proof fn lemma_arrival_order_is_immaterial<T>(
    first: Seq<T>,
    last_page: int,
    deliveries: Seq<(i64, Result<PageResponse<T>, String>)>,
    pages: Map<int, Seq<T>>,
)
    requires
        last_page >= 2,
        delivers_each_once(deliveries, pages, last_page),
    ensures
        (FetchView::AwaitingRest { first, last_page, arrived: Map::empty() }).deliver_all(
            deliveries,
        ) == (FetchView::Done { items: first + concat_pages(pages, 2, last_page) }),
{
    assert(brought_within(deliveries, deliveries.len() as int, 2));
    let count = deliveries.len() - 1;
    lemma_partial_deliveries(first, last_page, deliveries, pages, count);
    let before = arrived_after(deliveries, pages, count);
    let delivery = deliveries[count];
    assert(deliveries.take(count) =~= deliveries.drop_last());
    let pre = FetchView::AwaitingRest { first, last_page, arrived: before };
    assert(!before.contains_key(delivery.0 as int));
    assert(pre.awaits(delivery.0));
    let now = before.insert(delivery.0 as int, pages[delivery.0 as int]);
    assert forall|p: int| 2 <= p <= last_page implies #[trigger] now.contains_key(p) by {
        assert(brought_within(deliveries, deliveries.len() as int, p));
        let i = choose|i: int| 0 <= i < deliveries.len() && (#[trigger] deliveries[i]).0 == p;
        if i < count {
            assert(brought_within(deliveries, count, p));
        }
    }
    assert forall|p: int| 2 <= p <= last_page implies #[trigger] now[p] == pages[p] by {
        assert(now.contains_key(p));
    }
    lemma_concat_agrees(now, pages, 2, last_page);
    let start = FetchView::AwaitingRest { first, last_page, arrived: Map::empty() };
    assert(deliveries.last() == delivery);
    assert(start.deliver_all(deliveries.drop_last()) == pre);
    assert(all_arrived(now, last_page));
    assert(pre.deliver(delivery.0, delivery.1) == (FetchView::Done {
        items: first + concat_pages(now, 2, last_page),
    }));
}

/// Where a fetch stands, with what it holds.
enum Stage<T> {
    AwaitingFirst,
    AwaitingRest { first: Vec<T>, last_page: i64, slots: Vec<Option<Vec<T>>> },
    Done { items: Vec<T> },
    Failed { error: FetchError },
}

/// A paged fetch in progress. The slot at index `i` holds the items of
/// page `i + 2` once that page has arrived.
pub struct PagedFetcher<T> {
    stage: Stage<T>,
}

/// The pages that fill their slots, with their items.
spec fn arrived_of<T>(slots: Seq<Option<Vec<T>>>) -> Map<int, Seq<T>> {
    Map::new(
        |p: int| 2 <= p < slots.len() + 2 && slots[p - 2] is Some,
        |p: int| slots[p - 2]->Some_0@,
    )
}

/// Tests whether every slot is filled.
fn all_filled<T>(slots: &Vec<Option<Vec<T>>>) -> (filled: bool)
    ensures
        filled == (forall|i: int| 0 <= i < slots@.len() ==> (#[trigger] slots@[i]) is Some),
{
    let count = slots.len();
    let mut i: usize = 0;
    while i < count
        invariant
            i <= count,
            count == slots@.len(),
            forall|k: int| 0 <= k < i ==> (#[trigger] slots@[k]) is Some,
        decreases count - i,
    {
        if slots[i].is_none() {
            return false;
        }
        i += 1;
    }
    true
}

/// The items of page 1 followed by those of the slots, in order.
fn assemble<T>(first: Vec<T>, slots: Vec<Option<Vec<T>>>) -> (items: Vec<T>)
    requires
        forall|i: int| 0 <= i < slots@.len() ==> (#[trigger] slots@[i]) is Some,
    ensures
        items@ == first@ + concat_pages(arrived_of(slots@), 2, slots@.len() as int + 1),
{
    let mut items = first;
    let ghost pages = arrived_of(slots@);
    assert(items@ =~= first@ + concat_pages(pages, 2, 1));
    for slot in it: slots
        invariant
            it.seq() == slots@,
            pages == arrived_of(slots@),
            forall|i: int| 0 <= i < slots@.len() ==> (#[trigger] slots@[i]) is Some,
            items@ == first@ + concat_pages(pages, 2, it.index() + 1),
    {
        let ghost k = it.index() as int;
        assert(slots@[k] is Some);
        let mut chunk = slot.unwrap();
        assert(pages[k + 2] == chunk@);
        assert(concat_pages(pages, 2, k + 2) == concat_pages(pages, 2, k + 1) + pages[k + 2]);
        items.append(&mut chunk);
        assert(items@ =~= first@ + concat_pages(pages, 2, k + 2));
    }
    items
}

impl<T> View for PagedFetcher<T> {
    type V = FetchView<T>;

    closed spec fn view(&self) -> FetchView<T> {
        match self.stage {
            Stage::AwaitingFirst => FetchView::AwaitingFirst,
            Stage::AwaitingRest { first, last_page, slots } => FetchView::AwaitingRest {
                first: first@,
                last_page: last_page as int,
                arrived: arrived_of(slots@),
            },
            Stage::Done { items } => FetchView::Done { items: items@ },
            Stage::Failed { error } => FetchView::Failed { error },
        }
    }
}

impl<T> PagedFetcher<T> {
    /// While later pages are awaited there is one slot for each of them,
    /// and at least one slot is empty.
    #[verifier::type_invariant]
    spec fn well_formed(self) -> bool {
        match self.stage {
            Stage::AwaitingRest { first, last_page, slots } => {
                &&& last_page >= 2
                &&& slots@.len() == last_page - 1
                &&& exists|i: int| 0 <= i < slots@.len() && (#[trigger] slots@[i]) is None
            },
            _ => true,
        }
    }

    /// A fetch that waits for page 1.
    pub fn new() -> (fetcher: PagedFetcher<T>)
        ensures
            fetcher@ == FetchView::<T>::AwaitingFirst,
    {
        PagedFetcher { stage: Stage::AwaitingFirst }
    }

    /// Takes page 1.
    fn first_page(outcome: Result<PageResponse<T>, String>) -> (fetcher: PagedFetcher<T>)
        ensures
            fetcher@ == FetchView::<T>::after_first(outcome),
    {
        let response = match outcome {
            Ok(response) => response,
            Err(message) => {
                return PagedFetcher {
                    stage: Stage::Failed { error: FetchError::RemoteQuery { message } },
                };
            },
        };
        let PageResponse { error, items, total_pages } = response;
        if let Some(message) = error {
            return PagedFetcher {
                stage: Stage::Failed { error: FetchError::RemoteQuery { message } },
            };
        }
        let first = match items {
            Some(items) => items,
            None => {
                return PagedFetcher { stage: Stage::Failed { error: FetchError::Shape } };
            },
        };
        let last_page = match total_pages {
            Some(n) => n,
            None => 0,
        };
        if last_page <= 1 {
            return PagedFetcher { stage: Stage::Done { items: first } };
        }
        let mut slots: Vec<Option<Vec<T>>> = Vec::new();
        let mut made: i64 = 1;
        while made < last_page
            invariant
                1 <= made <= last_page,
                slots@.len() == made - 1,
                forall|i: int| 0 <= i < slots@.len() ==> (#[trigger] slots@[i]) is None,
            decreases last_page - made,
        {
            slots.push(None);
            made += 1;
        }
        assert(slots@[0] is None);
        assert(arrived_of(slots@) =~= Map::<int, Seq<T>>::empty());
        PagedFetcher { stage: Stage::AwaitingRest { first, last_page, slots } }
    }

    /// Takes what came back for a page and says what to do next. A page
    /// that the fetch does not wait for (one out of range, one that has
    /// arrived, any page once the fetch is over) changes nothing.
    pub fn deliver(self, page: i64, outcome: Result<PageResponse<T>, String>) -> (next: (
        PagedFetcher<T>,
        FetchAction,
    ))
        ensures
            next.0@ == self@.deliver(page, outcome),
            next.1 == action_after(self@, next.0@),
    {
        proof {
            use_type_invariant(&self);
        }
        match self.stage {
            Stage::AwaitingFirst => {
                if page != 1 {
                    return (PagedFetcher { stage: Stage::AwaitingFirst }, FetchAction::Await);
                }
                let fetcher = Self::first_page(outcome);
                let action = match &fetcher.stage {
                    Stage::AwaitingRest { last_page, .. } => FetchAction::Request {
                        first: 2,
                        last: *last_page,
                    },
                    Stage::AwaitingFirst => FetchAction::Await,
                    _ => FetchAction::Finished,
                };
                (fetcher, action)
            },
            Stage::AwaitingRest { first, last_page, mut slots } => {
                if page < 2 || page > last_page {
                    return (
                        PagedFetcher { stage: Stage::AwaitingRest { first, last_page, slots } },
                        FetchAction::Await,
                    );
                }
                assert(0 <= page - 2 < slots.len());
                let index = (page - 2) as usize;
                if slots[index].is_some() {
                    assert(arrived_of(slots@).contains_key(page as int));
                    return (
                        PagedFetcher { stage: Stage::AwaitingRest { first, last_page, slots } },
                        FetchAction::Await,
                    );
                }
                let response = match outcome {
                    Ok(response) => response,
                    Err(message) => {
                        return (
                            PagedFetcher {
                                stage: Stage::Failed {
                                    error: FetchError::PartialPage { page, cause: Some(message) },
                                },
                            },
                            FetchAction::Finished,
                        );
                    },
                };
                let PageResponse { error, items, total_pages: _ } = response;
                if let Some(message) = error {
                    return (
                        PagedFetcher {
                            stage: Stage::Failed {
                                error: FetchError::PartialPage { page, cause: Some(message) },
                            },
                        },
                        FetchAction::Finished,
                    );
                }
                let items = match items {
                    Some(items) => items,
                    None => {
                        return (
                            PagedFetcher {
                                stage: Stage::Failed {
                                    error: FetchError::PartialPage { page, cause: None },
                                },
                            },
                            FetchAction::Finished,
                        );
                    },
                };
                let ghost before = arrived_of(slots@);
                let ghost now = before.insert(page as int, items@);
                slots[index] = Some(items);
                assert(arrived_of(slots@) =~= now);
                if all_filled(&slots) {
                    assert(all_arrived(now, last_page as int));
                    let all = assemble(first, slots);
                    (PagedFetcher { stage: Stage::Done { items: all } }, FetchAction::Finished)
                } else {
                    let ghost gap = choose|i: int|
                        0 <= i < slots@.len() && (#[trigger] slots@[i]) is None;
                    assert(!now.contains_key(gap + 2));
                    (
                        PagedFetcher { stage: Stage::AwaitingRest { first, last_page, slots } },
                        FetchAction::Await,
                    )
                }
            },
            Stage::Done { items } => (
                PagedFetcher { stage: Stage::Done { items } },
                FetchAction::Finished,
            ),
            Stage::Failed { error } => (
                PagedFetcher { stage: Stage::Failed { error } },
                FetchAction::Finished,
            ),
        }
    }

    /// Whether the fetch is over.
    pub fn is_over(&self) -> (over: bool)
        ensures
            over == self@.is_over(),
    {
        match &self.stage {
            Stage::Done { .. } => true,
            Stage::Failed { .. } => true,
            _ => false,
        }
    }

    /// The result of the fetch: all items in page order, or the failure;
    /// nothing while pages are outstanding.
    pub fn into_result(self) -> (result: Option<Result<Vec<T>, FetchError>>)
        ensures
            match result {
                Some(Ok(items)) => self@.result() == Some(Ok::<Seq<T>, FetchError>(items@)),
                Some(Err(error)) => self@.result() == Some(Err::<Seq<T>, FetchError>(error)),
                None => self@.result() is None,
            },
    {
        match self.stage {
            Stage::Done { items } => Some(Ok(items)),
            Stage::Failed { error } => Some(Err(error)),
            _ => None,
        }
    }
}

} // verus!
