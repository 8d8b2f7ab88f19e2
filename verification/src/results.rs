//! Derivation of a set's outcome from its two slots.
//!
//! A raw set names two entrants with their placements and scores. The
//! outcome names the two players behind them, winner first. A set with
//! anything missing yields no outcome.

use vstd::prelude::*;
use crate::identity::IdentityResolver;
use crate::remote::EventSets;
use crate::sink::{command_views, SinkCommand, SinkCommandView};
use crate::text::{copy_opt_text, opt_text};

verus! {

/// One side of a set as the remote service reports it.
#[derive(Debug, Clone, PartialEq, Eq)]
pub struct RawSlot {
    pub entrant_id: Option<String>,
    pub placement: Option<i64>,
    pub score: Option<i64>,
}

/// A set as the remote service reports it.
#[derive(Debug, Clone, PartialEq, Eq)]
pub struct RawSet {
    pub id: Option<String>,
    pub completed_at: Option<i64>,
    pub started_at: Option<i64>,
    pub slot1: Option<RawSlot>,
    pub slot2: Option<RawSlot>,
}

/// The outcome of one set. The two keys are player identifiers once the
/// identities are resolved.
#[derive(Debug, Clone, PartialEq, Eq)]
pub struct SetResult {
    pub set_id: Option<String>,
    pub event_id: Option<String>,
    pub winner_key: String,
    pub loser_key: String,
    pub winner_score: i64,
    pub loser_score: i64,
    pub duration: Option<i64>,
}

/// A set result with its texts as character sequences.
pub struct SetResultView {
    pub set_id: Option<Seq<char>>,
    pub event_id: Option<Seq<char>>,
    pub winner_key: Seq<char>,
    pub loser_key: Seq<char>,
    pub winner_score: int,
    pub loser_score: int,
    pub duration: Option<int>,
}

impl View for SetResult {
    type V = SetResultView;

    open spec fn view(&self) -> SetResultView {
        SetResultView {
            set_id: opt_text(self.set_id),
            event_id: opt_text(self.event_id),
            winner_key: self.winner_key@,
            loser_key: self.loser_key@,
            winner_score: self.winner_score as int,
            loser_score: self.loser_score as int,
            duration: match self.duration {
                Some(d) => Some(d as int),
                None => None,
            },
        }
    }
}

impl RawSlot {
    /// Whether the slot names an entrant whose player is known.
    pub open spec fn resolves(&self, entrants: Map<Seq<char>, Seq<char>>) -> bool {
        self.entrant_id matches Some(id) && entrants.contains_key(id@)
    }
}

impl RawSet {
    /// The two slots, winner first: the slot with the strictly lower
    /// placement wins. None where a slot or a placement is missing, or where
    /// the placements are equal.
    pub open spec fn ranked(&self) -> Option<(RawSlot, RawSlot)> {
        match (self.slot1, self.slot2) {
            (Some(a), Some(b)) => match (a.placement, b.placement) {
                (Some(pa), Some(pb)) => if pa < pb {
                    Some((a, b))
                } else if pb < pa {
                    Some((b, a))
                } else {
                    None
                },
                _ => None,
            },
            _ => None,
        }
    }

    /// Completion time minus start time, where the set has a start time.
    pub open spec fn duration(&self) -> Option<int> {
        match (self.completed_at, self.started_at) {
            (Some(done), Some(begun)) => Some(done - begun),
            _ => None,
        }
    }

    /// Whether the duration, where there is one, fits the integer type that
    /// carries it.
    pub open spec fn duration_fits(&self) -> bool {
        self.duration() matches Some(d) ==> i64::MIN <= d <= i64::MAX
    }

    /// The outcome of the set under the given entrant-to-player
    /// associations. There is one only where the completion time, both
    /// slots, both placements, both entrant identifiers, both players and
    /// both scores are present, the placements differ, and the loser's score
    /// is not negative.
    pub open spec fn outcome(
        &self,
        event_id: Option<Seq<char>>,
        entrants: Map<Seq<char>, Seq<char>>,
    ) -> Option<SetResultView> {
        match (self.completed_at, self.ranked()) {
            (Some(_), Some((winner, loser))) => match (
                winner.entrant_id,
                loser.entrant_id,
                winner.score,
                loser.score,
            ) {
                (Some(w), Some(l), Some(ws), Some(ls)) => if entrants.contains_key(w@)
                    && entrants.contains_key(l@) && ls >= 0 {
                    Some(
                        SetResultView {
                            set_id: opt_text(self.id),
                            event_id,
                            winner_key: entrants[w@],
                            loser_key: entrants[l@],
                            winner_score: ws as int,
                            loser_score: ls as int,
                            duration: self.duration(),
                        },
                    )
                } else {
                    None
                },
                _ => None,
            },
            _ => None,
        }
    }

    /// Tests whether the duration fits.
    pub fn has_fitting_duration(&self) -> (fits: bool)
        ensures
            fits == self.duration_fits(),
    {
        match (self.completed_at, self.started_at) {
            (Some(done), Some(begun)) => done.checked_sub(begun).is_some(),
            _ => true,
        }
    }

    /// Derives the outcome of the set, resolving both entrants through the
    /// resolver. A set that lacks any required value, whose placements tie,
    /// whose entrants do not both resolve, or whose loser has a negative
    /// score yields nothing.
    pub fn derive_result(&self, event_id: &Option<String>, resolver: &IdentityResolver) -> (result:
        Option<SetResult>)
        requires
            self.duration_fits(),
        ensures
            match result {
                Some(r) => self.outcome(opt_text(*event_id), resolver.entrants()) == Some(r@),
                None => self.outcome(opt_text(*event_id), resolver.entrants()) is None,
            },
            self.ranked() matches Some((_, loser)) && loser.score matches Some(ls) && ls < 0
                ==> result is None,
            (self.slot1 matches Some(a) && !a.resolves(resolver.entrants())) ==> result is None,
            (self.slot2 matches Some(b) && !b.resolves(resolver.entrants())) ==> result is None,
    {
        let done = match self.completed_at {
            Some(t) => t,
            None => { return None; },
        };
        let (a, b) = match (&self.slot1, &self.slot2) {
            (Some(a), Some(b)) => (a, b),
            _ => { return None; },
        };
        let (pa, pb) = match (a.placement, b.placement) {
            (Some(pa), Some(pb)) => (pa, pb),
            _ => { return None; },
        };
        let (winner, loser) = if pa < pb {
            (a, b)
        } else if pb < pa {
            (b, a)
        } else {
            return None;
        };
        let (winner_id, loser_id) = match (&winner.entrant_id, &loser.entrant_id) {
            (Some(w), Some(l)) => (w, l),
            _ => { return None; },
        };
        let winner_key = match resolver.resolve(winner_id.as_str()) {
            Some(p) => p,
            None => { return None; },
        };
        let loser_key = match resolver.resolve(loser_id.as_str()) {
            Some(p) => p,
            None => { return None; },
        };
        let (winner_score, loser_score) = match (winner.score, loser.score) {
            (Some(ws), Some(ls)) => (ws, ls),
            _ => { return None; },
        };
        if loser_score < 0 {
            return None;
        }
        let duration = match self.started_at {
            Some(begun) => Some(done - begun),
            None => None,
        };
        Some(
            SetResult {
                set_id: copy_opt_text(&self.id),
                event_id: copy_opt_text(event_id),
                winner_key,
                loser_key,
                winner_score,
                loser_score,
                duration,
            },
        )
    }
}

/// Whether the set, where there is one, has a duration that fits.
pub open spec fn set_fits(set: Option<RawSet>) -> bool {
    set matches Some(s) ==> s.duration_fits()
}

/// Whether every set of the event, where there is one, has a duration that
/// fits.
pub open spec fn event_fits(event: Option<EventSets>) -> bool {
    event matches Some(e) ==> forall|j: int|
        0 <= j < e.sets@.len() ==> set_fits(#[trigger] e.sets@[j])
}

/// Whether every set of every event has a duration that fits.
pub open spec fn events_fit(events: Seq<Option<EventSets>>) -> bool {
    forall|i: int| 0 <= i < events.len() ==> event_fits(#[trigger] events[i])
}

/// The outcomes of the sets that have one, in the order of the sets.
pub open spec fn set_rows(
    sets: Seq<Option<RawSet>>,
    event_id: Option<Seq<char>>,
    entrants: Map<Seq<char>, Seq<char>>,
) -> Seq<SetResultView>
    decreases sets.len(),
{
    if sets.len() == 0 {
        Seq::empty()
    } else {
        let earlier = set_rows(sets.drop_last(), event_id, entrants);
        match sets.last() {
            Some(set) => match set.outcome(event_id, entrants) {
                Some(row) => earlier.push(row),
                None => earlier,
            },
            None => earlier,
        }
    }
}

/// The outcomes of the sets of the events, event by event. A missing event
/// adds nothing.
pub open spec fn event_rows(events: Seq<Option<EventSets>>, entrants: Map<Seq<char>, Seq<char>>)
    -> Seq<SetResultView>
    decreases events.len(),
{
    if events.len() == 0 {
        Seq::empty()
    } else {
        let earlier = event_rows(events.drop_last(), entrants);
        match events.last() {
            Some(event) => earlier + set_rows(event.sets@, opt_text(event.id), entrants),
            None => earlier,
        }
    }
}

/// Whether the key is the player identifier of some known entrant.
pub open spec fn names_player(entrants: Map<Seq<char>, Seq<char>>, key: Seq<char>) -> bool {
    exists|entrant: Seq<char>| #[trigger] entrants.contains_key(entrant) && entrants[entrant] == key
}

/// Whether both keys of the row are player identifiers of known entrants
/// and the loser's score is not negative.
pub open spec fn row_is_sound(row: SetResultView, entrants: Map<Seq<char>, Seq<char>>) -> bool {
    &&& names_player(entrants, row.winner_key)
    &&& names_player(entrants, row.loser_key)
    &&& row.loser_score >= 0
}

/// Every outcome names two players that entrants resolve to, never an
/// unresolved entrant, and has a loser's score that is not negative.
pub proof fn lemma_outcome_is_sound(
    set: RawSet,
    event_id: Option<Seq<char>>,
    entrants: Map<Seq<char>, Seq<char>>,
)
    ensures
        set.outcome(event_id, entrants) matches Some(row) ==> row_is_sound(row, entrants),
{
}

/// Whether every row is sound.
pub open spec fn rows_are_sound(rows: Seq<SetResultView>, entrants: Map<Seq<char>, Seq<char>>)
    -> bool {
    forall|k: int| 0 <= k < rows.len() ==> row_is_sound(#[trigger] rows[k], entrants)
}

/// Every row that a list of sets gives is sound.
pub proof fn lemma_set_rows_are_sound(
    sets: Seq<Option<RawSet>>,
    event_id: Option<Seq<char>>,
    entrants: Map<Seq<char>, Seq<char>>,
)
    ensures
        rows_are_sound(set_rows(sets, event_id, entrants), entrants),
    decreases sets.len(),
{
    if sets.len() > 0 {
        lemma_set_rows_are_sound(sets.drop_last(), event_id, entrants);
        let earlier = set_rows(sets.drop_last(), event_id, entrants);
        let rows = set_rows(sets, event_id, entrants);
        if let Some(set) = sets.last() {
            lemma_outcome_is_sound(set, event_id, entrants);
        }
        assert forall|k: int| 0 <= k < rows.len() implies row_is_sound(
            #[trigger] rows[k],
            entrants,
        ) by {
            if k < earlier.len() {
                assert(rows[k] == earlier[k]);
            }
        }
    }
}

/// Every row that a page of events gives is sound: what ingestion inserts
/// refers to players only, and never records a negative loser's score.
pub proof fn lemma_event_rows_are_sound(
    events: Seq<Option<EventSets>>,
    entrants: Map<Seq<char>, Seq<char>>,
)
    ensures
        rows_are_sound(event_rows(events, entrants), entrants),
    decreases events.len(),
{
    if events.len() > 0 {
        lemma_event_rows_are_sound(events.drop_last(), entrants);
        let earlier = event_rows(events.drop_last(), entrants);
        let rows = event_rows(events, entrants);
        if let Some(event) = events.last() {
            let added = set_rows(event.sets@, opt_text(event.id), entrants);
            lemma_set_rows_are_sound(event.sets@, opt_text(event.id), entrants);
            assert forall|k: int| 0 <= k < rows.len() implies row_is_sound(
                #[trigger] rows[k],
                entrants,
            ) by {
                if k < earlier.len() {
                    assert(rows[k] == earlier[k]);
                } else {
                    assert(rows[k] == added[k - earlier.len()]);
                }
            }
        }
    }
}

/// One insert command for each row.
pub open spec fn insert_commands(rows: Seq<SetResultView>) -> Seq<SinkCommandView> {
    Seq::new(rows.len(), |i: int| SinkCommandView::InsertSetResult { row: rows[i] })
}

/// Tests whether every set of every event has a duration that fits.
pub fn durations_fit(events: &Vec<Option<EventSets>>) -> (fit: bool)
    ensures
        fit == events_fit(events@),
{
    let count = events.len();
    let mut i: usize = 0;
    while i < count
        invariant
            i <= count,
            count == events@.len(),
            forall|k: int| 0 <= k < i ==> event_fits(#[trigger] events@[k]),
        decreases count - i,
    {
        match &events[i] {
            Some(event) => {
                let sets = event.sets.len();
                let mut j: usize = 0;
                while j < sets
                    invariant
                        j <= sets,
                        sets == event.sets@.len(),
                        i < count,
                        count == events@.len(),
                        events@[i as int] == Some(*event),
                        forall|k: int| 0 <= k < j ==> set_fits(#[trigger] event.sets@[k]),
                    decreases sets - j,
                {
                    let fits = match &event.sets[j] {
                        Some(set) => set.has_fitting_duration(),
                        None => true,
                    };
                    if !fits {
                        assert(!set_fits(event.sets@[j as int]));
                        assert(!event_fits(events@[i as int]));
                        return false;
                    }
                    j += 1;
                }
            },
            None => {},
        }
        i += 1;
    }
    true
}

/// Derives the outcomes of one page of events and returns an insert
/// command for each, in the order of the events and of their sets.
pub fn derive_results(events: &Vec<Option<EventSets>>, resolver: &IdentityResolver) -> (writes:
    Vec<SinkCommand>)
    requires
        events_fit(events@),
    ensures
        command_views(writes@) == insert_commands(event_rows(events@, resolver.entrants())),
{
    let mut writes: Vec<SinkCommand> = Vec::new();
    let ghost entrants = resolver.entrants();
    assert(command_views(writes@) =~= insert_commands(Seq::empty()));
    let count = events.len();
    let mut i: usize = 0;
    while i < count
        invariant
            i <= count,
            count == events@.len(),
            events_fit(events@),
            entrants == resolver.entrants(),
            command_views(writes@) == insert_commands(event_rows(events@.take(i as int), entrants)),
        decreases count - i,
    {
        assert(events@.take(i + 1).drop_last() =~= events@.take(i as int));
        assert(event_fits(events@[i as int]));
        match &events[i] {
            Some(event) => {
                let ghost earlier = event_rows(events@.take(i as int), entrants);
                let ghost id = opt_text(event.id);
                let sets = event.sets.len();
                let mut j: usize = 0;
                assert(event.sets@.take(0) =~= Seq::empty());
                assert(earlier + set_rows(event.sets@.take(0), id, entrants) =~= earlier);
                while j < sets
                    invariant
                        j <= sets,
                        sets == event.sets@.len(),
                        event_fits(Some(*event)),
                        entrants == resolver.entrants(),
                        id == opt_text(event.id),
                        command_views(writes@) == insert_commands(
                            earlier + set_rows(event.sets@.take(j as int), id, entrants),
                        ),
                    decreases sets - j,
                {
                    assert(event.sets@.take(j + 1).drop_last() =~= event.sets@.take(j as int));
                    assert(set_fits(event.sets@[j as int]));
                    let ghost before = earlier + set_rows(event.sets@.take(j as int), id, entrants);
                    match &event.sets[j] {
                        Some(set) => match set.derive_result(&event.id, resolver) {
                            Some(row) => {
                                let ghost views = command_views(writes@);
                                writes.push(SinkCommand::InsertSetResult { row });
                                assert(command_views(writes@) =~= views.push(
                                    SinkCommandView::InsertSetResult { row: row@ },
                                ));
                                assert(views.push(SinkCommandView::InsertSetResult { row: row@ })
                                    =~= insert_commands(before.push(row@)));
                                assert(before.push(row@) =~= earlier + set_rows(
                                    event.sets@.take(j + 1),
                                    id,
                                    entrants,
                                ));
                            },
                            None => {},
                        },
                        None => {},
                    }
                    j += 1;
                }
                assert(event.sets@.take(sets as int) =~= event.sets@);
            },
            None => {},
        }
        i += 1;
    }
    assert(events@.take(count as int) =~= events@);
    writes
}

} // verus!
