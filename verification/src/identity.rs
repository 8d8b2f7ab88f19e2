//! Resolution of tournament-scoped entrant identifiers to durable player
//! identifiers.

use vstd::prelude::*;
use vstd::hash_map::StringHashMap;
use crate::remote::Participant;
use crate::sink::{command_views, SinkCommand, SinkCommandView};
use crate::text::{copy_opt_text, opt_text};

verus! {

/// What a resolver knows, with the sink commands that its growth has
/// called for so far.
#[verifier::ext_equal]
pub struct Roster {
    pub players: Map<Seq<char>, Option<Seq<char>>>,
    pub entrants: Map<Seq<char>, Seq<char>>,
    pub writes: Seq<SinkCommandView>,
}

impl Roster {
    /// The roster after one entrant of a player: the association is
    /// recorded, replacing an earlier one, and the stored set results are to
    /// be rewritten from the entrant's identifier to the player's. An
    /// entrant without an identifier is passed over.
    pub open spec fn with_entrant(self, entrant_id: Option<String>, player_id: Seq<char>)
        -> Roster {
        match entrant_id {
            Some(e) => Roster {
                entrants: self.entrants.insert(e@, player_id),
                writes: self.writes.push(
                    SinkCommandView::RewriteSetResultKey {
                        old_key: e@,
                        new_player_id: player_id,
                    },
                ),
                ..self
            },
            None => self,
        }
    }

    /// The roster after the entrants of a player, first to last.
    pub open spec fn with_entrants(self, entrant_ids: Seq<Option<String>>, player_id: Seq<char>)
        -> Roster
        decreases entrant_ids.len(),
    {
        if entrant_ids.len() == 0 {
            self
        } else {
            self.with_entrants(entrant_ids.drop_last(), player_id).with_entrant(
                entrant_ids.last(),
                player_id,
            )
        }
    }

    /// The roster after one participant: the player is recorded and
    /// upserted unless already known, then the entrants follow. A
    /// participant that is missing, or has no player identifier, is passed
    /// over.
    pub open spec fn with_participant(self, participant: Option<Participant>) -> Roster {
        match participant {
            Some(p) => match p.player_id {
                Some(id) => {
                    let recorded = if self.players.contains_key(id@) {
                        self
                    } else {
                        Roster {
                            players: self.players.insert(id@, opt_text(p.gamer_tag)),
                            writes: self.writes.push(
                                SinkCommandView::UpsertPlayer {
                                    player_id: id@,
                                    display_tag: opt_text(p.gamer_tag),
                                },
                            ),
                            ..self
                        }
                    };
                    recorded.with_entrants(p.entrant_ids@, id@)
                },
                None => self,
            },
            None => self,
        }
    }

    /// The roster after the participants, first to last.
    pub open spec fn with_participants(self, participants: Seq<Option<Participant>>) -> Roster
        decreases participants.len(),
    {
        if participants.len() == 0 {
            self
        } else {
            self.with_participants(participants.drop_last()).with_participant(participants.last())
        }
    }
}

/// Whether the participant, being present and having a player identifier,
/// lists the entrant.
pub open spec fn lists_entrant(participant: Option<Participant>, entrant: Seq<char>) -> bool {
    match participant {
        Some(p) => p.player_id is Some && exists|j: int|
            0 <= j < p.entrant_ids@.len() && opt_text(#[trigger] p.entrant_ids@[j]) == Some(
                entrant,
            ),
        None => false,
    }
}

/// After the entrants of a player are taken in, each of them that has an
/// identifier is associated, and no earlier association is lost.
pub proof fn lemma_entrants_are_kept(
    roster: Roster,
    entrant_ids: Seq<Option<String>>,
    player_id: Seq<char>,
)
    ensures
        forall|e: Seq<char>|
            roster.entrants.contains_key(e) ==> #[trigger] roster.with_entrants(
                entrant_ids,
                player_id,
            ).entrants.contains_key(e),
        forall|j: int, e: Seq<char>|
            0 <= j < entrant_ids.len() && opt_text(#[trigger] entrant_ids[j]) == Some(e)
                ==> #[trigger] roster.with_entrants(
                entrant_ids,
                player_id,
            ).entrants.contains_key(e),
    decreases entrant_ids.len(),
{
    if entrant_ids.len() > 0 {
        let front = entrant_ids.drop_last();
        lemma_entrants_are_kept(roster, front, player_id);
        let earlier = roster.with_entrants(front, player_id);
        let after = roster.with_entrants(entrant_ids, player_id);
        assert(after == earlier.with_entrant(entrant_ids.last(), player_id));
        assert forall|e: Seq<char>|
            roster.entrants.contains_key(e) implies #[trigger] after.entrants.contains_key(e) by {
            assert(earlier.entrants.contains_key(e));
        }
        assert forall|j: int, e: Seq<char>|
            0 <= j < entrant_ids.len() && opt_text(#[trigger] entrant_ids[j]) == Some(
                e,
            ) implies #[trigger] after.entrants.contains_key(e) by {
            if j < entrant_ids.len() - 1 {
                assert(front[j] == entrant_ids[j]);
                assert(earlier.entrants.contains_key(e));
            }
        }
    }
}

/// After a page of participants is taken in, every entrant that one of
/// them lists resolves to a player, and so does every entrant that
/// resolved before: the sets that follow find each entrant of the page.
pub proof fn lemma_listed_entrants_resolve(roster: Roster, participants: Seq<Option<Participant>>)
    ensures
        forall|e: Seq<char>|
            roster.entrants.contains_key(e) ==> #[trigger] roster.with_participants(
                participants,
            ).entrants.contains_key(e),
        forall|i: int, e: Seq<char>|
            0 <= i < participants.len() && lists_entrant(#[trigger] participants[i], e)
                ==> #[trigger] roster.with_participants(participants).entrants.contains_key(e),
    decreases participants.len(),
{
    if participants.len() > 0 {
        let front = participants.drop_last();
        lemma_listed_entrants_resolve(roster, front);
        let earlier = roster.with_participants(front);
        let after = roster.with_participants(participants);
        let last = participants.last();
        assert(after == earlier.with_participant(last));
        lemma_participant_is_kept(earlier, last);
        assert forall|e: Seq<char>|
            roster.entrants.contains_key(e) implies #[trigger] after.entrants.contains_key(e) by {
            assert(earlier.entrants.contains_key(e));
        }
        assert forall|i: int, e: Seq<char>|
            0 <= i < participants.len() && lists_entrant(
                #[trigger] participants[i],
                e,
            ) implies #[trigger] after.entrants.contains_key(e) by {
            if i < participants.len() - 1 {
                assert(front[i] == participants[i]);
                assert(earlier.entrants.contains_key(e));
            }
        }
    }
}

/// After one participant is taken in, the entrants that it lists resolve,
/// and no earlier association is lost.
proof fn lemma_participant_is_kept(roster: Roster, participant: Option<Participant>)
    ensures
        forall|e: Seq<char>|
            roster.entrants.contains_key(e) ==> #[trigger] roster.with_participant(
                participant,
            ).entrants.contains_key(e),
        forall|e: Seq<char>|
            lists_entrant(participant, e) ==> #[trigger] roster.with_participant(
                participant,
            ).entrants.contains_key(e),
{
    if let Some(p) = participant {
        if let Some(id) = p.player_id {
            let recorded = if roster.players.contains_key(id@) {
                roster
            } else {
                Roster {
                    players: roster.players.insert(id@, opt_text(p.gamer_tag)),
                    writes: roster.writes.push(
                        SinkCommandView::UpsertPlayer {
                            player_id: id@,
                            display_tag: opt_text(p.gamer_tag),
                        },
                    ),
                    ..roster
                }
            };
            let after = roster.with_participant(participant);
            assert(after == recorded.with_entrants(p.entrant_ids@, id@));
            lemma_entrants_are_kept(recorded, p.entrant_ids@, id@);
            assert forall|e: Seq<char>|
                roster.entrants.contains_key(e) implies #[trigger] after.entrants.contains_key(
                e,
            ) by {
                assert(recorded.entrants.contains_key(e));
            }
            assert forall|e: Seq<char>|
                lists_entrant(participant, e) implies #[trigger] after.entrants.contains_key(
                e,
            ) by {
                let j = choose|j: int|
                    0 <= j < p.entrant_ids@.len() && opt_text(#[trigger] p.entrant_ids@[j])
                        == Some(e);
                assert(opt_text(p.entrant_ids@[j]) == Some(e));
            }
        }
    }
}

/// The player that the command upserts, if it is an upsert.
pub open spec fn upserted(command: SinkCommandView) -> Option<Seq<char>> {
    match command {
        SinkCommandView::UpsertPlayer { player_id, .. } => Some(player_id),
        _ => None,
    }
}

/// Whether no player is upserted twice, and each upserted player is known.
pub open spec fn upserts_once(roster: Roster) -> bool {
    &&& forall|k: int|
        0 <= k < roster.writes.len() && upserted(#[trigger] roster.writes[k]) is Some
            ==> roster.players.contains_key(upserted(roster.writes[k])->Some_0)
    &&& forall|i: int, j: int|
        0 <= i < j < roster.writes.len() && upserted(#[trigger] roster.writes[i]) is Some
            ==> upserted(roster.writes[i]) != upserted(#[trigger] roster.writes[j])
}

/// Taking in entrants upserts no player.
proof fn lemma_entrants_upsert_nothing(
    roster: Roster,
    entrant_ids: Seq<Option<String>>,
    player_id: Seq<char>,
)
    requires
        upserts_once(roster),
    ensures
        upserts_once(roster.with_entrants(entrant_ids, player_id)),
        roster.with_entrants(entrant_ids, player_id).players == roster.players,
    decreases entrant_ids.len(),
{
    if entrant_ids.len() > 0 {
        lemma_entrants_upsert_nothing(roster, entrant_ids.drop_last(), player_id);
    }
}

/// However many pages of participants are taken in, each player is
/// upserted at most once: a roster that has upserted no player twice
/// still has not after a further page.
pub proof fn lemma_players_are_upserted_once(
    roster: Roster,
    participants: Seq<Option<Participant>>,
)
    requires
        upserts_once(roster),
    ensures
        upserts_once(roster.with_participants(participants)),
    decreases participants.len(),
{
    if participants.len() > 0 {
        lemma_players_are_upserted_once(roster, participants.drop_last());
        let earlier = roster.with_participants(participants.drop_last());
        if let Some(p) = participants.last() {
            if let Some(id) = p.player_id {
                let recorded = if earlier.players.contains_key(id@) {
                    earlier
                } else {
                    Roster {
                        players: earlier.players.insert(id@, opt_text(p.gamer_tag)),
                        writes: earlier.writes.push(
                            SinkCommandView::UpsertPlayer {
                                player_id: id@,
                                display_tag: opt_text(p.gamer_tag),
                            },
                        ),
                        ..earlier
                    }
                };
                assert(upserts_once(recorded));
                lemma_entrants_upsert_nothing(recorded, p.entrant_ids@, id@);
            }
        }
    }
}

/// The players seen so far and the entrant-to-player associations of one
/// ingestion run.
pub struct IdentityResolver {
    players: StringHashMap<Option<String>>,
    entrants: StringHashMap<String>,
}

impl IdentityResolver {
    /// The known players: player identifier to display tag.
    pub closed spec fn players(&self) -> Map<Seq<char>, Option<Seq<char>>> {
        Map::new(
            |id: Seq<char>| self.players@.contains_key(id),
            |id: Seq<char>| opt_text(self.players@[id]),
        )
    }

    /// The recorded associations: entrant identifier to player identifier.
    pub closed spec fn entrants(&self) -> Map<Seq<char>, Seq<char>> {
        Map::new(
            |id: Seq<char>| self.entrants@.contains_key(id),
            |id: Seq<char>| self.entrants@[id]@,
        )
    }

    /// A resolver that knows no player and no entrant.
    pub fn new() -> (resolver: IdentityResolver)
        ensures
            resolver.players() == Map::<Seq<char>, Option<Seq<char>>>::empty(),
            resolver.entrants() == Map::<Seq<char>, Seq<char>>::empty(),
    {
        let resolver = IdentityResolver {
            players: StringHashMap::new(),
            entrants: StringHashMap::new(),
        };
        assert(resolver.players() =~= Map::<Seq<char>, Option<Seq<char>>>::empty());
        assert(resolver.entrants() =~= Map::<Seq<char>, Seq<char>>::empty());
        resolver
    }

    /// Whether the player is already known.
    pub fn knows_player(&self, player_id: &str) -> (known: bool)
        ensures
            known == self.players().contains_key(player_id@),
    {
        self.players.contains_key(player_id)
    }

    /// Records a player unless one with this identifier is already known.
    /// Returns whether the player was new.
    pub fn record_player(&mut self, player_id: String, display_tag: Option<String>) -> (fresh: bool)
        ensures
            fresh == !old(self).players().contains_key(player_id@),
            fresh ==> final(self).players() == old(self).players().insert(
                player_id@,
                opt_text(display_tag),
            ),
            !fresh ==> final(self).players() == old(self).players(),
            final(self).entrants() == old(self).entrants(),
    {
        if self.players.contains_key(player_id.as_str()) {
            false
        } else {
            let ghost before = self.players();
            let ghost id = player_id@;
            self.players.insert(player_id, display_tag);
            assert(self.players() =~= before.insert(id, opt_text(display_tag)));
            true
        }
    }

    /// Associates an entrant with a player. A later association of the same
    /// entrant replaces the earlier one.
    pub fn map_entrant(&mut self, entrant_id: String, player_id: String)
        ensures
            final(self).entrants() == old(self).entrants().insert(entrant_id@, player_id@),
            final(self).players() == old(self).players(),
    {
        let ghost before = self.entrants();
        let ghost entrant = entrant_id@;
        let ghost player = player_id@;
        self.entrants.insert(entrant_id, player_id);
        assert(self.entrants() =~= before.insert(entrant, player));
    }

    /// What the resolver knows, with the given commands.
    pub open spec fn roster(&self, writes: Seq<SinkCommandView>) -> Roster {
        Roster { players: self.players(), entrants: self.entrants(), writes }
    }

    /// Takes in the entrants of one player, adding to `writes` the commands
    /// that this calls for.
    fn absorb_entrants(
        &mut self,
        writes: &mut Vec<SinkCommand>,
        entrant_ids: Vec<Option<String>>,
        player_id: &String,
    )
        ensures
            final(self).roster(command_views(final(writes)@)) == old(self).roster(
                command_views(old(writes)@),
            ).with_entrants(entrant_ids@, player_id@),
    {
        let ghost start = self.roster(command_views(writes@));
        for entrant_id in it: entrant_ids
            invariant
                it.seq() == entrant_ids@,
                self.roster(command_views(writes@)) == start.with_entrants(
                    entrant_ids@.take(it.index() as int),
                    player_id@,
                ),
        {
            proof {
                let k = it.index() as int;
                assert(entrant_ids@.take(k + 1).drop_last() =~= entrant_ids@.take(k));
            }
            let ghost before = self.roster(command_views(writes@));
            match entrant_id {
                Some(e) => {
                    self.map_entrant(e.clone(), player_id.clone());
                    writes.push(
                        SinkCommand::RewriteSetResultKey {
                            old_key: e,
                            new_player_id: player_id.clone(),
                        },
                    );
                    assert(command_views(writes@) =~= before.writes.push(
                        SinkCommandView::RewriteSetResultKey {
                            old_key: e@,
                            new_player_id: player_id@,
                        },
                    ));
                },
                None => {},
            }
            assert(self.roster(command_views(writes@)) == before.with_entrant(
                entrant_id,
                player_id@,
            ));
        }
        assert(entrant_ids@.take(entrant_ids@.len() as int) =~= entrant_ids@);
    }

    /// Takes in one page of participants: records each new player,
    /// associates each entrant with its player, and returns the sink
    /// commands that this calls for, in order. Participants without a
    /// player identifier and entrants without an identifier are passed over.
    pub fn absorb(&mut self, participants: Vec<Option<Participant>>) -> (writes: Vec<SinkCommand>)
        ensures
            final(self).roster(command_views(writes@)) == old(self).roster(
                Seq::empty(),
            ).with_participants(participants@),
    {
        let mut writes: Vec<SinkCommand> = Vec::new();
        assert(command_views(writes@) =~= Seq::empty());
        let ghost start = self.roster(Seq::empty());
        for participant in it: participants
            invariant
                it.seq() == participants@,
                self.roster(command_views(writes@)) == start.with_participants(
                    participants@.take(it.index() as int),
                ),
        {
            proof {
                let k = it.index() as int;
                assert(participants@.take(k + 1).drop_last() =~= participants@.take(k));
            }
            let ghost before = self.roster(command_views(writes@));
            match participant {
                Some(p) => {
                    let Participant { player_id, gamer_tag, entrant_ids } = p;
                    match player_id {
                        Some(id) => {
                            let fresh = self.record_player(id.clone(), copy_opt_text(&gamer_tag));
                            if fresh {
                                writes.push(
                                    SinkCommand::UpsertPlayer {
                                        player_id: id.clone(),
                                        display_tag: gamer_tag,
                                    },
                                );
                                assert(command_views(writes@) =~= before.writes.push(
                                    SinkCommandView::UpsertPlayer {
                                        player_id: id@,
                                        display_tag: opt_text(gamer_tag),
                                    },
                                ));
                            }
                            self.absorb_entrants(&mut writes, entrant_ids, &id);
                        },
                        None => {},
                    }
                },
                None => {},
            }
            assert(self.roster(command_views(writes@)) == before.with_participant(participant));
        }
        assert(participants@.take(participants@.len() as int) =~= participants@);
        writes
    }

    /// The player that an entrant stands for, if the association is known.
    pub fn resolve(&self, entrant_id: &str) -> (player: Option<String>)
        ensures
            match player {
                Some(p) => self.entrants().contains_key(entrant_id@) && p@
                    == self.entrants()[entrant_id@],
                None => !self.entrants().contains_key(entrant_id@),
            },
    {
        match self.entrants.get(entrant_id) {
            Some(p) => Some(p.clone()),
            None => None,
        }
    }
}

} // verus!
