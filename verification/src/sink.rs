//! The persistence sink: the three writes that ingestion issues, and an
//! in-memory store that carries them out.

use vstd::prelude::*;
use vstd::hash_map::StringHashMap;
use crate::results::{SetResult, SetResultView};
use crate::text::opt_text;

verus! {

/// A write that ingestion asks of the sink.
#[derive(Debug, Clone, PartialEq, Eq)]
pub enum SinkCommand {
    /// Insert the player unless one with this identifier is stored.
    UpsertPlayer { player_id: String, display_tag: Option<String> },
    /// Append a set result.
    InsertSetResult { row: SetResult },
    /// Replace a key by a player identifier in every stored set result.
    RewriteSetResultKey { old_key: String, new_player_id: String },
}

/// A sink command with its texts as character sequences.
pub enum SinkCommandView {
    UpsertPlayer { player_id: Seq<char>, display_tag: Option<Seq<char>> },
    InsertSetResult { row: SetResultView },
    RewriteSetResultKey { old_key: Seq<char>, new_player_id: Seq<char> },
}

impl View for SinkCommand {
    type V = SinkCommandView;

    open spec fn view(&self) -> SinkCommandView {
        match *self {
            SinkCommand::UpsertPlayer { player_id, display_tag } => SinkCommandView::UpsertPlayer {
                player_id: player_id@,
                display_tag: opt_text(display_tag),
            },
            SinkCommand::InsertSetResult { row } => SinkCommandView::InsertSetResult { row: row@ },
            SinkCommand::RewriteSetResultKey {
                old_key,
                new_player_id,
            } => SinkCommandView::RewriteSetResultKey {
                old_key: old_key@,
                new_player_id: new_player_id@,
            },
        }
    }
}

/// The views of a sequence of commands.
pub open spec fn command_views(commands: Seq<SinkCommand>) -> Seq<SinkCommandView> {
    Seq::new(commands.len(), |i: int| commands[i]@)
}

impl SetResultView {
    /// The row with each key equal to `old_key` replaced by `new_player_id`.
    pub open spec fn rekeyed(self, old_key: Seq<char>, new_player_id: Seq<char>) -> SetResultView {
        SetResultView {
            winner_key: if self.winner_key == old_key {
                new_player_id
            } else {
                self.winner_key
            },
            loser_key: if self.loser_key == old_key {
                new_player_id
            } else {
                self.loser_key
            },
            ..self
        }
    }
}

/// What a store holds: the players by identifier, and the set results in
/// the order of their insertion.
#[verifier::ext_equal]
pub struct StoreView {
    pub players: Map<Seq<char>, Option<Seq<char>>>,
    pub set_results: Seq<SetResultView>,
}

impl StoreView {
    /// The store that holds nothing.
    pub open spec fn empty() -> StoreView {
        StoreView { players: Map::empty(), set_results: Seq::empty() }
    }

    /// The store after an upsert: unchanged where the player is stored.
    pub open spec fn upsert_player(self, player_id: Seq<char>, display_tag: Option<Seq<char>>)
        -> StoreView {
        if self.players.contains_key(player_id) {
            self
        } else {
            StoreView { players: self.players.insert(player_id, display_tag), ..self }
        }
    }

    /// The store with one more set result at the end.
    pub open spec fn insert_set_result(self, row: SetResultView) -> StoreView {
        StoreView { set_results: self.set_results.push(row), ..self }
    }

    /// The store with `old_key` replaced by `new_player_id` wherever it is
    /// the winner's or the loser's key.
    pub open spec fn rewrite_set_result_key(self, old_key: Seq<char>, new_player_id: Seq<char>)
        -> StoreView {
        StoreView {
            set_results: Seq::new(
                self.set_results.len(),
                |i: int| self.set_results[i].rekeyed(old_key, new_player_id),
            ),
            ..self
        }
    }

    /// The store after one command.
    pub open spec fn apply(self, command: SinkCommandView) -> StoreView {
        match command {
            SinkCommandView::UpsertPlayer { player_id, display_tag } => self.upsert_player(
                player_id,
                display_tag,
            ),
            SinkCommandView::InsertSetResult { row } => self.insert_set_result(row),
            SinkCommandView::RewriteSetResultKey {
                old_key,
                new_player_id,
            } => self.rewrite_set_result_key(old_key, new_player_id),
        }
    }

    /// The store after a sequence of commands, first to last.
    pub open spec fn apply_all(self, commands: Seq<SinkCommandView>) -> StoreView
        decreases commands.len(),
    {
        if commands.len() == 0 {
            self
        } else {
            self.apply_all(commands.drop_last()).apply(commands.last())
        }
    }
}

/// Upserting a player a second time, with whatever display tag, changes
/// nothing: the store is as after the first upsert.
pub proof fn lemma_upsert_player_twice(
    store: StoreView,
    player_id: Seq<char>,
    display_tag: Option<Seq<char>>,
    later_tag: Option<Seq<char>>,
)
    ensures
        store.upsert_player(player_id, display_tag).upsert_player(player_id, later_tag)
            == store.upsert_player(player_id, display_tag),
{
}

/// Rewriting a key a second time changes nothing.
pub proof fn lemma_rewrite_twice(store: StoreView, old_key: Seq<char>, new_player_id: Seq<char>)
    ensures
        store.rewrite_set_result_key(old_key, new_player_id).rewrite_set_result_key(
            old_key,
            new_player_id,
        ) == store.rewrite_set_result_key(old_key, new_player_id),
{
    let once = store.rewrite_set_result_key(old_key, new_player_id);
    let twice = once.rewrite_set_result_key(old_key, new_player_id);
    assert(twice.set_results =~= once.set_results);
}

/// A rewrite after an insert gives the same store whether or not the same
/// rewrite also ran before the insert, and in it the inserted row carries
/// the player identifier wherever it carried the old key.
pub proof fn lemma_rewrite_around_insert(
    store: StoreView,
    row: SetResultView,
    old_key: Seq<char>,
    new_player_id: Seq<char>,
)
    ensures
        store.rewrite_set_result_key(old_key, new_player_id).insert_set_result(
            row,
        ).rewrite_set_result_key(old_key, new_player_id) == store.insert_set_result(
            row,
        ).rewrite_set_result_key(old_key, new_player_id),
        ({
            let stored = store.insert_set_result(row).rewrite_set_result_key(
                old_key,
                new_player_id,
            ).set_results.last();
            &&& row.winner_key == old_key ==> stored.winner_key == new_player_id
            &&& row.loser_key == old_key ==> stored.loser_key == new_player_id
        }),
{
    let early = store.rewrite_set_result_key(old_key, new_player_id).insert_set_result(
        row,
    ).rewrite_set_result_key(old_key, new_player_id);
    let late = store.insert_set_result(row).rewrite_set_result_key(old_key, new_player_id);
    assert(early.set_results =~= late.set_results);
}

/// An in-memory sink.
pub struct Store {
    players: StringHashMap<Option<String>>,
    set_results: Vec<SetResult>,
}

impl View for Store {
    type V = StoreView;

    closed spec fn view(&self) -> StoreView {
        StoreView {
            players: Map::new(
                |id: Seq<char>| self.players@.contains_key(id),
                |id: Seq<char>| opt_text(self.players@[id]),
            ),
            set_results: Seq::new(self.set_results@.len(), |i: int| self.set_results@[i]@),
        }
    }
}

impl Store {
    /// A store that holds nothing.
    pub fn new() -> (store: Store)
        ensures
            store@ == StoreView::empty(),
    {
        let store = Store { players: StringHashMap::new(), set_results: Vec::new() };
        assert(store@.players =~= Map::<Seq<char>, Option<Seq<char>>>::empty());
        assert(store@.set_results =~= Seq::<SetResultView>::empty());
        store
    }

    /// Inserts the player unless one with this identifier is stored.
    pub fn upsert_player(&mut self, player_id: String, display_tag: Option<String>)
        ensures
            final(self)@ == old(self)@.upsert_player(player_id@, opt_text(display_tag)),
    {
        if !self.players.contains_key(player_id.as_str()) {
            self.players.insert(player_id, display_tag);
            assert(self@.players =~= old(self)@.players.insert(player_id@, opt_text(display_tag)));
            assert(self@.set_results =~= old(self)@.set_results);
        }
    }

    /// Appends a set result.
    pub fn insert_set_result(&mut self, row: SetResult)
        ensures
            final(self)@ == old(self)@.insert_set_result(row@),
    {
        self.set_results.push(row);
        assert(self@.set_results =~= old(self)@.set_results.push(row@));
        assert(self@.players =~= old(self)@.players);
    }

    /// Replaces `old_key` by `new_player_id` wherever it is the winner's or
    /// the loser's key of a stored set result.
    pub fn rewrite_set_result_key(&mut self, old_key: &String, new_player_id: &String)
        ensures
            final(self)@ == old(self)@.rewrite_set_result_key(old_key@, new_player_id@),
    {
        let count = self.set_results.len();
        let mut i: usize = 0;
        while i < count
            invariant
                i <= count,
                count == self.set_results@.len(),
                count == old(self).set_results@.len(),
                self.players == old(self).players,
                forall|j: int|
                    0 <= j < i ==> (#[trigger] self.set_results@[j])@ == old(
                        self,
                    ).set_results@[j]@.rekeyed(old_key@, new_player_id@),
                forall|j: int|
                    i <= j < count ==> #[trigger] self.set_results@[j] == old(
                        self,
                    ).set_results@[j],
            decreases count - i,
        {
            if self.set_results[i].winner_key == *old_key {
                self.set_results[i].winner_key = new_player_id.clone();
            }
            if self.set_results[i].loser_key == *old_key {
                self.set_results[i].loser_key = new_player_id.clone();
            }
            i += 1;
        }
        assert(self@.set_results =~= old(self)@.rewrite_set_result_key(
            old_key@,
            new_player_id@,
        ).set_results);
        assert(self@.players =~= old(self)@.players);
    }

    /// Carries out one command.
    pub fn apply(&mut self, command: SinkCommand)
        ensures
            final(self)@ == old(self)@.apply(command@),
    {
        match command {
            SinkCommand::UpsertPlayer { player_id, display_tag } => {
                self.upsert_player(player_id, display_tag);
            },
            SinkCommand::InsertSetResult { row } => {
                self.insert_set_result(row);
            },
            SinkCommand::RewriteSetResultKey { old_key, new_player_id } => {
                self.rewrite_set_result_key(&old_key, &new_player_id);
            },
        }
    }

    /// Carries out the commands, first to last.
    pub fn apply_all(&mut self, commands: Vec<SinkCommand>)
        ensures
            final(self)@ == old(self)@.apply_all(command_views(commands@)),
    {
        let ghost all = command_views(commands@);
        for command in it: commands
            invariant
                it.seq() == commands@,
                all == command_views(commands@),
                self@ == old(self)@.apply_all(all.take(it.index() as int)),
        {
            proof {
                let k = it.index() as int;
                assert(all.take(k + 1).drop_last() =~= all.take(k));
                assert(all.take(k + 1).last() == command@);
            }
            self.apply(command);
        }
        assert(all.take(commands@.len() as int) =~= all);
    }

    /// Whether a player with this identifier is stored.
    pub fn has_player(&self, player_id: &str) -> (stored: bool)
        ensures
            stored == self@.players.contains_key(player_id@),
    {
        self.players.contains_key(player_id)
    }

    /// The number of players stored.
    pub fn player_count(&self) -> (count: usize)
        ensures
            count == self@.players.len(),
    {
        broadcast use vstd::hash_map::group_hash_map_axioms;

        proof {
            assert(self@.players.dom() =~= self.players@.dom());
        }
        self.players.len()
    }

    /// The set results stored, in the order of their insertion.
    pub fn set_results(&self) -> (rows: &Vec<SetResult>)
        ensures
            rows@.len() == self@.set_results.len(),
            forall|i: int| 0 <= i < rows@.len() ==> (#[trigger] rows@[i])@ == self@.set_results[i],
    {
        &self.set_results
    }
}

} // verus!
