//! The ingestion run: tournaments, then for each retained tournament its
//! participants and the sets of its events.
//!
//! The run is a state machine. Its driver performs the action that a step
//! returns (a paged fetch or a pause), sends the step's writes to the sink,
//! and hands back what happened as the next event.

use vstd::prelude::*;
use crate::identity::{IdentityResolver, Roster};
use crate::paging::FetchError;
use crate::remote::{
    Event, EventSets, GetParticipants, GetSets, GetTournaments, Participant, Tournament,
};
use crate::results::{
    derive_results, event_rows, events_fit, insert_commands, lemma_event_rows_are_sound,
    row_is_sound,
};
use crate::sink::{command_views, SinkCommand, SinkCommandView};
use crate::text::{contains_text, text_contains};

verus! {

/// The settings of a run.
#[derive(Debug, Clone, PartialEq, Eq)]
pub struct IngestConfig {
    /// Only tournaments whose name contains this text are processed.
    pub name_filter: String,
    /// The page size of the participant and set queries.
    pub page_size: i64,
    /// The number of events that one set query covers; at least 1.
    pub batch_size: usize,
    /// The pause after a tournament's participants, in milliseconds.
    pub participants_pause_ms: u64,
    /// The pause after each set query, in milliseconds.
    pub sets_pause_ms: u64,
}

impl IngestConfig {
    /// The usual settings: tournaments named as trials, pages of 60, one
    /// event per set query, and pauses of 300 and 700 milliseconds.
    pub fn standard() -> (config: IngestConfig)
        ensures
            config.name_filter@ == "Trial"@,
            config.page_size == 60,
            config.batch_size == 1,
            config.participants_pause_ms == 300,
            config.sets_pause_ms == 700,
    {
        IngestConfig {
            name_filter: "Trial".to_owned(),
            page_size: 60,
            batch_size: 1,
            participants_pause_ms: 300,
            sets_pause_ms: 700,
        }
    }
}

/// Where a run stands.
#[derive(Debug, Clone, Copy, PartialEq, Eq, Structural)]
pub enum IngestStage {
    AwaitingTournaments,
    AwaitingParticipants,
    PausedAfterParticipants,
    AwaitingSets,
    PausedAfterSets,
    Finished,
    Aborted,
}

/// What the driver reports back.
#[derive(Debug, PartialEq, Eq)]
pub enum IngestEvent {
    Tournaments(Result<Vec<Option<Tournament>>, FetchError>),
    Participants(Result<Vec<Option<Participant>>, FetchError>),
    Sets(Result<Vec<Option<EventSets>>, FetchError>),
    PauseElapsed,
}

/// What the driver does next.
#[derive(Debug, PartialEq, Eq)]
pub enum IngestAction {
    /// Fetch all pages of the tournaments, starting with this query.
    FetchTournaments(GetTournaments),
    /// Fetch all pages of a tournament's participants.
    FetchParticipants(GetParticipants),
    /// Fetch all pages of the sets of a batch of events.
    FetchSets(GetSets),
    /// Wait before the next request.
    Pause { millis: u64 },
    /// The run is complete.
    Finish,
    /// The run is abandoned because a fetch failed.
    Abort { error: FetchError },
    /// The event does not fit the run's stage; nothing has changed.
    Unexpected,
}

/// An action with its lists as sequences.
pub enum IngestActionView {
    FetchTournaments { page: i64 },
    FetchParticipants { id: String, page: i64, page_size: i64 },
    FetchSets { id: String, events: Seq<String>, page: i64, page_size: i64 },
    Pause { millis: u64 },
    Finish,
    Abort { error: FetchError },
    Unexpected,
}

impl View for IngestAction {
    type V = IngestActionView;

    open spec fn view(&self) -> IngestActionView {
        match *self {
            IngestAction::FetchTournaments(query) => IngestActionView::FetchTournaments {
                page: query.page,
            },
            IngestAction::FetchParticipants(query) => IngestActionView::FetchParticipants {
                id: query.id,
                page: query.page,
                page_size: query.page_size,
            },
            IngestAction::FetchSets(query) => IngestActionView::FetchSets {
                id: query.id,
                events: query.events@,
                page: query.page,
                page_size: query.page_size,
            },
            IngestAction::Pause { millis } => IngestActionView::Pause { millis },
            IngestAction::Finish => IngestActionView::Finish,
            IngestAction::Abort { error } => IngestActionView::Abort { error },
            IngestAction::Unexpected => IngestActionView::Unexpected,
        }
    }
}

/// What a step hands to the driver: the writes for the sink, in order, and
/// the next action.
#[derive(Debug, PartialEq, Eq)]
pub struct IngestStep {
    pub writes: Vec<SinkCommand>,
    pub action: IngestAction,
}

/// Whether a tournament is processed: it is present, has an identifier,
/// and has a name that contains the filter text.
pub open spec fn is_retained(tournament: Option<Tournament>, filter: Seq<char>) -> bool {
    match tournament {
        Some(t) => t.id is Some && match t.name {
            Some(name) => contains_text(name@, filter),
            None => false,
        },
        None => false,
    }
}

/// The tournaments that are processed, in their order.
pub open spec fn retained(all: Seq<Option<Tournament>>, filter: Seq<char>) -> Seq<Tournament>
    decreases all.len(),
{
    if all.len() == 0 {
        Seq::empty()
    } else {
        let earlier = retained(all.drop_last(), filter);
        if is_retained(all.last(), filter) {
            earlier.push(all.last()->Some_0)
        } else {
            earlier
        }
    }
}

/// The identifiers of the events that are present and have one, in their
/// order.
pub open spec fn present_ids(events: Seq<Option<Event>>) -> Seq<String>
    decreases events.len(),
{
    if events.len() == 0 {
        Seq::empty()
    } else {
        let earlier = present_ids(events.drop_last());
        match events.last() {
            Some(event) => match event.id {
                Some(id) => earlier.push(id),
                None => earlier,
            },
            None => earlier,
        }
    }
}

/// The state of a run.
#[verifier::ext_equal]
pub struct IngestView {
    pub stage: IngestStage,
    pub config: IngestConfig,
    /// The known players: identifier to display tag.
    pub players: Map<Seq<char>, Option<Seq<char>>>,
    /// The known associations: entrant identifier to player identifier.
    pub entrants: Map<Seq<char>, Seq<char>>,
    /// The tournaments that are processed.
    pub tournaments: Seq<Tournament>,
    /// The index of the tournament in progress.
    pub current: int,
    /// The event identifiers of the tournament in progress.
    pub event_ids: Seq<String>,
    /// The index of the first event of the batch in progress.
    pub offset: int,
}

/// The outcome of a step: the state after it, the writes for the sink, and
/// the next action.
#[verifier::ext_equal]
pub struct Transition {
    pub state: IngestView,
    pub writes: Seq<SinkCommandView>,
    pub action: IngestActionView,
}

impl IngestView {
    /// The state in which a run starts.
    pub open spec fn initial(config: IngestConfig) -> IngestView {
        IngestView {
            stage: IngestStage::AwaitingTournaments,
            config,
            players: Map::empty(),
            entrants: Map::empty(),
            tournaments: Seq::empty(),
            current: 0,
            event_ids: Seq::empty(),
            offset: 0,
        }
    }

    /// The index behind the last event of the batch that starts at
    /// `offset`.
    pub open spec fn batch_end(self, offset: int) -> int {
        if offset + self.config.batch_size >= self.event_ids.len() {
            self.event_ids.len() as int
        } else {
            offset + self.config.batch_size
        }
    }

    /// The run is abandoned.
    pub open spec fn abort(self, error: FetchError) -> Transition {
        Transition {
            state: IngestView { stage: IngestStage::Aborted, ..self },
            writes: Seq::empty(),
            action: IngestActionView::Abort { error },
        }
    }

    /// The run turns to the tournament at index `k`: its participants are
    /// fetched. Behind the last tournament the run is complete.
    pub open spec fn enter_tournament(self, k: int) -> Transition {
        if 0 <= k < self.tournaments.len() {
            Transition {
                state: IngestView {
                    stage: IngestStage::AwaitingParticipants,
                    current: k,
                    event_ids: present_ids(self.tournaments[k].events@),
                    offset: 0,
                    ..self
                },
                writes: Seq::empty(),
                action: IngestActionView::FetchParticipants {
                    id: self.tournaments[k].id->Some_0,
                    page: 1,
                    page_size: self.config.page_size,
                },
            }
        } else {
            Transition {
                state: IngestView {
                    stage: IngestStage::Finished,
                    current: k,
                    event_ids: Seq::empty(),
                    offset: 0,
                    ..self
                },
                writes: Seq::empty(),
                action: IngestActionView::Finish,
            }
        }
    }

    /// The run turns to the batch of events that starts at `offset`: their
    /// sets are fetched. Behind the last event the run turns to the next
    /// tournament.
    pub open spec fn enter_batch(self, offset: int) -> Transition {
        if 0 <= offset < self.event_ids.len() {
            Transition {
                state: IngestView { stage: IngestStage::AwaitingSets, offset, ..self },
                writes: Seq::empty(),
                action: IngestActionView::FetchSets {
                    id: self.tournaments[self.current].id->Some_0,
                    events: self.event_ids.subrange(offset, self.batch_end(offset)),
                    page: 1,
                    page_size: self.config.page_size,
                },
            }
        } else {
            self.enter_tournament(self.current + 1)
        }
    }

    /// The participants of the tournament in progress have arrived: the
    /// identities are taken in, and the run pauses.
    pub open spec fn take_participants(self, participants: Seq<Option<Participant>>) -> Transition {
        let roster = (Roster {
            players: self.players,
            entrants: self.entrants,
            writes: Seq::empty(),
        }).with_participants(participants);
        Transition {
            state: IngestView {
                stage: IngestStage::PausedAfterParticipants,
                players: roster.players,
                entrants: roster.entrants,
                ..self
            },
            writes: roster.writes,
            action: IngestActionView::Pause { millis: self.config.participants_pause_ms },
        }
    }

    /// The sets of the batch in progress have arrived: each outcome is
    /// inserted, and the run pauses.
    pub open spec fn take_sets(self, events: Seq<Option<EventSets>>) -> Transition {
        Transition {
            state: IngestView { stage: IngestStage::PausedAfterSets, ..self },
            writes: insert_commands(event_rows(events, self.entrants)),
            action: IngestActionView::Pause { millis: self.config.sets_pause_ms },
        }
    }

    /// Nothing changes.
    pub open spec fn stay(self) -> Transition {
        Transition { state: self, writes: Seq::empty(), action: IngestActionView::Unexpected }
    }

    /// The outcome of a step. A failed fetch, of whatever stage, abandons
    /// the run. An event that does not fit the stage changes nothing.
    pub open spec fn step(self, event: IngestEvent) -> Transition {
        match self.stage {
            IngestStage::AwaitingTournaments => match event {
                IngestEvent::Tournaments(Ok(all)) => (IngestView {
                    tournaments: retained(all@, self.config.name_filter@),
                    ..self
                }).enter_tournament(0),
                IngestEvent::Tournaments(Err(error)) => self.abort(error),
                _ => self.stay(),
            },
            IngestStage::AwaitingParticipants => match event {
                IngestEvent::Participants(Ok(participants)) => self.take_participants(
                    participants@,
                ),
                IngestEvent::Participants(Err(error)) => self.abort(error),
                _ => self.stay(),
            },
            IngestStage::PausedAfterParticipants => match event {
                IngestEvent::PauseElapsed => self.enter_batch(0),
                _ => self.stay(),
            },
            IngestStage::AwaitingSets => match event {
                IngestEvent::Sets(Ok(events)) => self.take_sets(events@),
                IngestEvent::Sets(Err(error)) => self.abort(error),
                _ => self.stay(),
            },
            IngestStage::PausedAfterSets => match event {
                IngestEvent::PauseElapsed => self.enter_batch(self.batch_end(self.offset)),
                _ => self.stay(),
            },
            _ => self.stay(),
        }
    }
}

/// A failed fetch abandons the run at whatever stage it is awaited: no
/// tournament, participant or set of the failed fetch is processed, and
/// nothing is written.
pub proof fn lemma_failed_fetch_aborts(state: IngestView, error: FetchError)
    ensures
        state.stage == IngestStage::AwaitingTournaments ==> state.step(
            IngestEvent::Tournaments(Err(error)),
        ) == state.abort(error),
        state.stage == IngestStage::AwaitingParticipants ==> state.step(
            IngestEvent::Participants(Err(error)),
        ) == state.abort(error),
        state.stage == IngestStage::AwaitingSets ==> state.step(IngestEvent::Sets(Err(error)))
            == state.abort(error),
        state.abort(error).state.stage == IngestStage::Aborted,
        state.abort(error).writes.len() == 0,
{
}

/// A run that is finished or abandoned stays as it is, whatever is
/// reported to it.
pub proof fn lemma_ended_run_stays(state: IngestView, event: IngestEvent)
    requires
        state.stage == IngestStage::Finished || state.stage == IngestStage::Aborted,
    ensures
        state.step(event) == state.stay(),
{
}

/// What a run writes for a page of sets are inserts of rows whose keys
/// are players that known entrants resolve to, with a loser's score that
/// is not negative.
pub proof fn lemma_set_writes_name_players(state: IngestView, events: Seq<Option<EventSets>>)
    ensures
        forall|k: int|
            0 <= k < state.take_sets(events).writes.len() ==> match #[trigger] state.take_sets(
                events,
            ).writes[k] {
                SinkCommandView::InsertSetResult { row } => row_is_sound(row, state.entrants),
                _ => false,
            },
{
    lemma_event_rows_are_sound(events, state.entrants);
    let rows = event_rows(events, state.entrants);
    assert forall|k: int|
        0 <= k < state.take_sets(events).writes.len() implies match #[trigger] state.take_sets(
        events,
    ).writes[k] {
        SinkCommandView::InsertSetResult { row } => row_is_sound(row, state.entrants),
        _ => false,
    } by {
        assert(row_is_sound(rows[k], state.entrants));
    }
}

/// Whether the event may be handed to a run in this state: the durations
/// of the sets that it brings fit.
pub open spec fn event_fits_stage(state: IngestView, event: IngestEvent) -> bool {
    state.stage == IngestStage::AwaitingSets ==> match event {
        IngestEvent::Sets(Ok(events)) => events_fit(events@),
        _ => true,
    }
}

/// Keeps the tournaments that are processed.
pub fn retain_tournaments(all: Vec<Option<Tournament>>, filter: &str) -> (kept: Vec<Tournament>)
    ensures
        kept@ == retained(all@, filter@),
        forall|k: int| 0 <= k < kept@.len() ==> (#[trigger] kept@[k]).id is Some,
{
    let mut kept: Vec<Tournament> = Vec::new();
    for tournament in it: all
        invariant
            it.seq() == all@,
            kept@ == retained(all@.take(it.index() as int), filter@),
            forall|k: int| 0 <= k < kept@.len() ==> (#[trigger] kept@[k]).id is Some,
    {
        proof {
            let k = it.index() as int;
            assert(all@.take(k + 1).drop_last() =~= all@.take(k));
        }
        match tournament {
            Some(t) => {
                let named = match &t.name {
                    Some(name) => text_contains(name.as_str(), filter),
                    None => false,
                };
                if named && t.id.is_some() {
                    kept.push(t);
                }
            },
            None => {},
        }
    }
    assert(all@.take(all@.len() as int) =~= all@);
    kept
}

/// Collects the identifiers of the events that are present and have one.
pub fn event_ids_of(events: &Vec<Option<Event>>) -> (ids: Vec<String>)
    ensures
        ids@ == present_ids(events@),
{
    let mut ids: Vec<String> = Vec::new();
    let count = events.len();
    let mut i: usize = 0;
    while i < count
        invariant
            i <= count,
            count == events@.len(),
            ids@ == present_ids(events@.take(i as int)),
        decreases count - i,
    {
        assert(events@.take(i + 1).drop_last() =~= events@.take(i as int));
        match &events[i] {
            Some(event) => match &event.id {
                Some(id) => {
                    ids.push(id.clone());
                },
                None => {},
            },
            None => {},
        }
        i += 1;
    }
    assert(events@.take(count as int) =~= events@);
    ids
}

/// Copies the strings from index `from` up to index `to`.
fn copy_range(texts: &Vec<String>, from: usize, to: usize) -> (copy: Vec<String>)
    requires
        from <= to <= texts@.len(),
    ensures
        copy@ == texts@.subrange(from as int, to as int),
{
    let mut copy: Vec<String> = Vec::new();
    let mut i: usize = from;
    while i < to
        invariant
            from <= i <= to <= texts@.len(),
            copy@ == texts@.subrange(from as int, i as int),
        decreases to - i,
    {
        copy.push(texts[i].clone());
        assert(texts@.subrange(from as int, i + 1) =~= texts@.subrange(from as int, i as int).push(
            texts@[i as int],
        ));
        i += 1;
    }
    copy
}

/// A run in progress.
pub struct Ingestion {
    config: IngestConfig,
    resolver: IdentityResolver,
    stage: IngestStage,
    tournaments: Vec<Tournament>,
    current: usize,
    event_ids: Vec<String>,
    offset: usize,
}

impl View for Ingestion {
    type V = IngestView;

    closed spec fn view(&self) -> IngestView {
        IngestView {
            stage: self.stage,
            config: self.config,
            players: self.resolver.players(),
            entrants: self.resolver.entrants(),
            tournaments: self.tournaments@,
            current: self.current as int,
            event_ids: self.event_ids@,
            offset: self.offset as int,
        }
    }
}

impl Ingestion {
    /// Batches are not empty, every tournament has an identifier, and the
    /// indices are in range.
    #[verifier::type_invariant]
    spec fn well_formed(self) -> bool {
        &&& self.config.batch_size >= 1
        &&& forall|k: int|
            0 <= k < self.tournaments@.len() ==> (#[trigger] self.tournaments@[k]).id is Some
        &&& self.current <= self.tournaments@.len()
        &&& self.offset <= self.event_ids@.len()
        &&& (self.stage == IngestStage::AwaitingParticipants || self.stage
            == IngestStage::PausedAfterParticipants || self.stage == IngestStage::AwaitingSets
            || self.stage == IngestStage::PausedAfterSets) ==> self.current
            < self.tournaments@.len()
    }

    /// Starts a run: the tournaments are fetched first.
    pub fn start(config: IngestConfig) -> (begun: (Ingestion, IngestAction))
        requires
            config.batch_size >= 1,
        ensures
            begun.0@ == IngestView::initial(config),
            begun.1@ == (IngestActionView::FetchTournaments { page: 1 }),
    {
        let run = Ingestion {
            config,
            resolver: IdentityResolver::new(),
            stage: IngestStage::AwaitingTournaments,
            tournaments: Vec::new(),
            current: 0,
            event_ids: Vec::new(),
            offset: 0,
        };
        (run, IngestAction::FetchTournaments(GetTournaments::first()))
    }

    /// The stage of the run.
    pub fn stage(&self) -> (stage: IngestStage)
        ensures
            stage == self@.stage,
    {
        self.stage
    }

    /// What the run has learnt of identities.
    pub fn resolver(&self) -> (resolver: &IdentityResolver)
        ensures
            resolver.players() == self@.players,
            resolver.entrants() == self@.entrants,
    {
        &self.resolver
    }

    /// Turns to the tournament at index `k`, or finishes behind the last.
    fn enter_tournament(
        config: IngestConfig,
        resolver: IdentityResolver,
        tournaments: Vec<Tournament>,
        k: usize,
        Ghost(pre): Ghost<IngestView>,
    ) -> (next: (Ingestion, IngestStep))
        requires
            config.batch_size >= 1,
            forall|i: int| 0 <= i < tournaments@.len() ==> (#[trigger] tournaments@[i]).id is Some,
            k <= tournaments@.len(),
            pre.config == config,
            pre.players == resolver.players(),
            pre.entrants == resolver.entrants(),
            pre.tournaments == tournaments@,
        ensures
            next.0@ == pre.enter_tournament(k as int).state,
            command_views(next.1.writes@) == pre.enter_tournament(k as int).writes,
            next.1.action@ == pre.enter_tournament(k as int).action,
    {
        let writes: Vec<SinkCommand> = Vec::new();
        assert(command_views(writes@) =~= Seq::empty());
        if k < tournaments.len() {
            let event_ids = event_ids_of(&tournaments[k].events);
            let id = match &tournaments[k].id {
                Some(id) => id.clone(),
                None => String::new(),
            };
            let query = GetParticipants::first(id, config.page_size);
            let run = Ingestion {
                config,
                resolver,
                stage: IngestStage::AwaitingParticipants,
                tournaments,
                current: k,
                event_ids,
                offset: 0,
            };
            (run, IngestStep { writes, action: IngestAction::FetchParticipants(query) })
        } else {
            let run = Ingestion {
                config,
                resolver,
                stage: IngestStage::Finished,
                tournaments,
                current: k,
                event_ids: Vec::new(),
                offset: 0,
            };
            (run, IngestStep { writes, action: IngestAction::Finish })
        }
    }

    /// Turns to the batch of events that starts at `offset`, or to the next
    /// tournament behind the last event.
    fn enter_batch(
        config: IngestConfig,
        resolver: IdentityResolver,
        tournaments: Vec<Tournament>,
        current: usize,
        event_ids: Vec<String>,
        offset: usize,
        Ghost(pre): Ghost<IngestView>,
    ) -> (next: (Ingestion, IngestStep))
        requires
            config.batch_size >= 1,
            forall|i: int| 0 <= i < tournaments@.len() ==> (#[trigger] tournaments@[i]).id is Some,
            current < tournaments@.len(),
            offset <= event_ids@.len(),
            pre.config == config,
            pre.players == resolver.players(),
            pre.entrants == resolver.entrants(),
            pre.tournaments == tournaments@,
            pre.current == current,
            pre.event_ids == event_ids@,
        ensures
            next.0@ == pre.enter_batch(offset as int).state,
            command_views(next.1.writes@) == pre.enter_batch(offset as int).writes,
            next.1.action@ == pre.enter_batch(offset as int).action,
    {
        if offset < event_ids.len() {
            let left = event_ids.len() - offset;
            let end = if config.batch_size >= left {
                event_ids.len()
            } else {
                offset + config.batch_size
            };
            let events = copy_range(&event_ids, offset, end);
            let id = match &tournaments[current].id {
                Some(id) => id.clone(),
                None => String::new(),
            };
            let query = GetSets::first(id, events, config.page_size);
            let writes: Vec<SinkCommand> = Vec::new();
            assert(command_views(writes@) =~= Seq::empty());
            let run = Ingestion {
                config,
                resolver,
                stage: IngestStage::AwaitingSets,
                tournaments,
                current,
                event_ids,
                offset,
            };
            (run, IngestStep { writes, action: IngestAction::FetchSets(query) })
        } else {
            assert(current < tournaments.len());
            Self::enter_tournament(config, resolver, tournaments, current + 1, Ghost(pre))
        }
    }

    /// Takes an event and returns the run after it, with the writes for
    /// the sink and the next action.
    pub fn step(self, event: IngestEvent) -> (next: (Ingestion, IngestStep))
        requires
            event_fits_stage(self@, event),
        ensures
            next.0@ == self@.step(event).state,
            command_views(next.1.writes@) == self@.step(event).writes,
            next.1.action@ == self@.step(event).action,
    {
        proof {
            use_type_invariant(&self);
        }
        let ghost pre = self@;
        let Ingestion { config, mut resolver, stage, tournaments, current, event_ids, offset } =
            self;
        match (stage, event) {
            (IngestStage::AwaitingTournaments, IngestEvent::Tournaments(Ok(all))) => {
                let kept = retain_tournaments(all, config.name_filter.as_str());
                let ghost turned = IngestView { tournaments: kept@, ..pre };
                Self::enter_tournament(config, resolver, kept, 0, Ghost(turned))
            },
            (IngestStage::AwaitingParticipants, IngestEvent::Participants(Ok(participants))) => {
                let writes = resolver.absorb(participants);
                let millis = config.participants_pause_ms;
                let run = Ingestion {
                    config,
                    resolver,
                    stage: IngestStage::PausedAfterParticipants,
                    tournaments,
                    current,
                    event_ids,
                    offset,
                };
                (run, IngestStep { writes, action: IngestAction::Pause { millis } })
            },
            (IngestStage::PausedAfterParticipants, IngestEvent::PauseElapsed) => {
                Self::enter_batch(config, resolver, tournaments, current, event_ids, 0, Ghost(pre))
            },
            (IngestStage::AwaitingSets, IngestEvent::Sets(Ok(events))) => {
                let writes = derive_results(&events, &resolver);
                let millis = config.sets_pause_ms;
                let run = Ingestion {
                    config,
                    resolver,
                    stage: IngestStage::PausedAfterSets,
                    tournaments,
                    current,
                    event_ids,
                    offset,
                };
                (run, IngestStep { writes, action: IngestAction::Pause { millis } })
            },
            (IngestStage::PausedAfterSets, IngestEvent::PauseElapsed) => {
                let left = event_ids.len() - offset;
                let end = if config.batch_size >= left {
                    event_ids.len()
                } else {
                    offset + config.batch_size
                };
                Self::enter_batch(
                    config,
                    resolver,
                    tournaments,
                    current,
                    event_ids,
                    end,
                    Ghost(pre),
                )
            },
            (IngestStage::AwaitingTournaments, IngestEvent::Tournaments(Err(error)))
            | (IngestStage::AwaitingParticipants, IngestEvent::Participants(Err(error)))
            | (IngestStage::AwaitingSets, IngestEvent::Sets(Err(error))) => {
                let writes: Vec<SinkCommand> = Vec::new();
                assert(command_views(writes@) =~= Seq::empty());
                let run = Ingestion {
                    config,
                    resolver,
                    stage: IngestStage::Aborted,
                    tournaments,
                    current,
                    event_ids,
                    offset,
                };
                (run, IngestStep { writes, action: IngestAction::Abort { error } })
            },
            (stage, _) => {
                let writes: Vec<SinkCommand> = Vec::new();
                assert(command_views(writes@) =~= Seq::empty());
                let run = Ingestion {
                    config,
                    resolver,
                    stage,
                    tournaments,
                    current,
                    event_ids,
                    offset,
                };
                (run, IngestStep { writes, action: IngestAction::Unexpected })
            },
        }
    }
}

} // verus!
