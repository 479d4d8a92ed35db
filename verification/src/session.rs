//! Sessions: how players join, leave and are kicked, the heartbeat that
//! finds the ones that fell silent, and the shutdown of the server.

use vstd::prelude::*;
use crate::connection::{
    find_by_addr, find_by_id, has_addr, has_id, ids_of, index_of_addr, index_of_id,
    ClientConnection, PeerAddr,
};
use crate::constants::{FULL_HEALTH, HITBOX_HEIGHT, HITBOX_WIDTH};
use crate::grid::distinct;
use crate::lists::{contains_id, lemma_without, without};
use crate::movement::{enter_loaded, leave_loaded};
use crate::network::{Outbound, PacketOutcome, PacketTypes};
use crate::player::{Acceleration, Player, Velocity};
use crate::random::random_u32;
use crate::scalar::{block_to_scalar, cell_origin};
use crate::world::{lemma_same_chunks_same_grid, World, WorldError};

verus! {

/// The id a new player gets when `start` was drawn for it: `start` itself
/// if no connected player has it, and else the next id after it, counting up
/// and around, that none has. Only the first `fuel` ids from `start` on are
/// looked at; if all of them are taken the result is the id after them.
pub open spec fn next_unused(players: Seq<ClientConnection>, start: u32, fuel: nat) -> u32
    decreases fuel,
{
    if fuel == 0 || !has_id(players, start) {
        start
    } else {
        next_unused(
            players,
            if start == u32::MAX {
                0u32
            } else {
                (start + 1) as u32
            },
            (fuel - 1) as nat,
        )
    }
}

/// The id a new player gets when `draw` was drawn for it.
pub open spec fn fresh_id(players: Seq<ClientConnection>, draw: u32) -> u32 {
    next_unused(players, draw, 0x1_0000_0000)
}

/// The message that tells `to` that `subject` joined the server.
pub open spec fn player_join(to: PeerAddr, subject: ClientConnection) -> Outbound {
    Outbound {
        addr: to,
        packet: PacketTypes::ServerPlayerJoin { player_name: subject.name, player_id: subject.id },
    }
}

/// The message that tells `to` that `subject` left the server.
pub open spec fn player_leave(to: PeerAddr, subject: ClientConnection) -> Outbound {
    Outbound {
        addr: to,
        packet: PacketTypes::ServerPlayerLeave { player_name: subject.name, player_id: subject.id },
    }
}

/// The messages that tell the first `n` of `players` that `joiner` joined;
/// those of them in `holders`, who hold the chunk the joiner spawned in, and
/// the joiner are also told that they see each other.
pub open spec fn welcome_packets(
    players: Seq<ClientConnection>,
    holders: Seq<u32>,
    joiner: ClientConnection,
    n: int,
) -> Seq<Outbound>
    decreases n,
{
    if n <= 0 {
        Seq::empty()
    } else {
        let before = welcome_packets(players, holders, joiner, n - 1);
        let p = players[n - 1];
        if holders.contains(p.id) {
            before.push(player_join(p.addr, joiner)).push(enter_loaded(p.addr, joiner)).push(
                enter_loaded(joiner.addr, p),
            )
        } else {
            before.push(player_join(p.addr, joiner))
        }
    }
}

/// The messages that tell the first `n` of `players` that `gone` left the
/// server; those of them in `holders`, who had the player in sight, are then
/// told that it went out of sight.
pub open spec fn farewell_packets(
    players: Seq<ClientConnection>,
    holders: Seq<u32>,
    gone: ClientConnection,
    n: int,
) -> Seq<Outbound>
    decreases n,
{
    if n <= 0 {
        Seq::empty()
    } else {
        let before = farewell_packets(players, holders, gone, n - 1);
        let p = players[n - 1];
        if holders.contains(p.id) {
            before.push(player_leave(p.addr, gone)).push(leave_loaded(p.addr, gone))
        } else {
            before.push(player_leave(p.addr, gone))
        }
    }
}

/// The messages that tell the first `n` of `players` that `gone` was
/// kicked: those of them in `holders`, who had the player in sight, are told
/// that it went out of sight, and each is told that it left the server.
pub open spec fn kick_notices(
    players: Seq<ClientConnection>,
    holders: Seq<u32>,
    gone: ClientConnection,
    n: int,
) -> Seq<Outbound>
    decreases n,
{
    if n <= 0 {
        Seq::empty()
    } else {
        let before = kick_notices(players, holders, gone, n - 1);
        let p = players[n - 1];
        if holders.contains(p.id) {
            before.push(leave_loaded(p.addr, gone)).push(player_leave(p.addr, gone))
        } else {
            before.push(player_leave(p.addr, gone))
        }
    }
}

/// The list of players without the one at `index`: the last player takes
/// its place.
pub open spec fn departed(players: Seq<ClientConnection>, index: int) -> Seq<ClientConnection> {
    players.update(index, players.last()).drop_last()
}

/// A list of players with distinct ids keeps distinct ids when a player
/// leaves, and holds every id it held but the one that left.
pub proof fn lemma_departed(players: Seq<ClientConnection>, index: int)
    requires
        distinct(ids_of(players)),
        0 <= index < players.len(),
    ensures
        distinct(ids_of(departed(players, index))),
        !has_id(departed(players, index), players[index].id),
        forall|id: u32|
            id != players[index].id ==> (has_id(departed(players, index), id) <==> has_id(
                players,
                id,
            )),
{
    let rest = departed(players, index);
    let ids = ids_of(players);
    let last = players.len() - 1;
    assert forall|a: int, b: int| 0 <= a < b < rest.len() implies ids_of(rest)[a] != ids_of(
        rest,
    )[b] by {
        let ia = if a == index {
            last
        } else {
            a
        };
        let ib = if b == index {
            last
        } else {
            b
        };
        assert(ids[ia] == rest[a].id && ids[ib] == rest[b].id);
        if ia < ib {
            assert(ids[ia] != ids[ib]);
        } else {
            assert(ids[ib] != ids[ia]);
        }
    }
    if has_id(rest, players[index].id) {
        let w = choose|w: int| 0 <= w < rest.len() && rest[w].id == players[index].id;
        let iw = if w == index {
            last
        } else {
            w
        };
        assert(ids[iw] == players[index].id && ids[index] == players[index].id);
        if iw < index {
            assert(ids[iw] != ids[index]);
        } else {
            assert(ids[index] != ids[iw]);
        }
    }
    assert forall|id: u32| id != players[index].id implies (has_id(rest, id) <==> has_id(
        players,
        id,
    )) by {
        if has_id(rest, id) {
            let w = choose|w: int| 0 <= w < rest.len() && rest[w].id == id;
            let iw = if w == index {
                last
            } else {
                w
            };
            assert(players[iw].id == id);
        }
        if has_id(players, id) {
            let w = choose|w: int| 0 <= w < players.len() && players[w].id == id;
            if w == last {
                assert(rest[index].id == id);
            } else {
                assert(rest[w].id == id);
            }
        }
    }
}

/// The message that tells `to` that it was kicked, and why.
pub open spec fn kicked(to: PeerAddr, reason: String) -> Outbound {
    Outbound { addr: to, packet: PacketTypes::ServerKick { msg: reason } }
}

/// The list of players after the player `id` left, if there is such a
/// player.
pub open spec fn without_player(players: Seq<ClientConnection>, id: u32) -> Seq<ClientConnection> {
    if has_id(players, id) {
        departed(players, index_of_id(players, id))
    } else {
        players
    }
}

/// The interest lists without the player `id`.
pub open spec fn unloaded(interest: Seq<Seq<u32>>, id: u32) -> Seq<Seq<u32>> {
    Seq::new(interest.len(), |i: int| without(interest[i], id))
}

/// The players with the mark of life taken from each.
pub open spec fn silenced(players: Seq<ClientConnection>) -> Seq<ClientConnection> {
    Seq::new(players.len(), |i: int| ClientConnection { connection_alive: false, ..players[i] })
}

/// The ids of the players that bear no mark of life, in order.
pub open spec fn idle_ids(players: Seq<ClientConnection>) -> Seq<u32>
    decreases players.len(),
{
    if players.len() == 0 {
        Seq::empty()
    } else if players.last().connection_alive {
        idle_ids(players.drop_last())
    } else {
        idle_ids(players.drop_last()).push(players.last().id)
    }
}

/// The heartbeats for the players that bear the mark of life, in order.
pub open spec fn beat_packets(players: Seq<ClientConnection>) -> Seq<Outbound>
    decreases players.len(),
{
    if players.len() == 0 {
        Seq::empty()
    } else if players.last().connection_alive {
        beat_packets(players.drop_last()).push(
            Outbound { addr: players.last().addr, packet: PacketTypes::ServerHeartbeat {  } },
        )
    } else {
        beat_packets(players.drop_last())
    }
}

/// The list of players after the players `ids` were kicked one after the
/// other.
pub open spec fn purged_players(players: Seq<ClientConnection>, ids: Seq<u32>) -> Seq<
    ClientConnection,
>
    decreases ids.len(),
{
    if ids.len() == 0 {
        players
    } else {
        without_player(purged_players(players, ids.drop_last()), ids.last())
    }
}

/// The interest lists after the players `ids` were kicked one after the
/// other.
pub open spec fn purged_interest(interest: Seq<Seq<u32>>, ids: Seq<u32>) -> Seq<Seq<u32>>
    decreases ids.len(),
{
    if ids.len() == 0 {
        interest
    } else {
        unloaded(purged_interest(interest, ids.drop_last()), ids.last())
    }
}

/// The messages that tell every one of `players` that the server kicks it.
pub open spec fn shutdown_packets(players: Seq<ClientConnection>, reason: String) -> Seq<Outbound> {
    Seq::new(players.len(), |i: int| kicked(players[i].addr, reason))
}

impl World {
    /// Whether `p` is a freshly spawned player in column `x`: it stands on
    /// the ground of the column, still, in full health and with empty hands.
    pub open spec fn is_spawn(&self, p: Player, x: u32) -> bool {
        &&& p.x == cell_origin(x as int)
        &&& p.y == cell_origin(self.surface(x as int) + 1)
        &&& p.health == FULL_HEALTH
        &&& p.hitbox_width == HITBOX_WIDTH
        &&& p.hitbox_height == HITBOX_HEIGHT
        &&& p.velocity == (Velocity { x: 0, y: 0 })
        &&& p.acceleration == (Acceleration { x: 0, y: 0 })
        &&& !p.do_jump
        &&& p.selected_slot == 0
        &&& forall|i: int| 0 <= i < 9 ==> p.inventory@[i] == None::<crate::item::ItemStack>
    }

    /// Whether this world is `before` after the player at `index` left:
    /// the player is gone from the list of players and from every interest
    /// list, and nothing else changed.
    pub open spec fn is_departure_of(&self, before: World, index: int) -> bool {
        &&& self.chunks == before.chunks
        &&& self.same_shape(before)
        &&& self.physics_update_queue == before.physics_update_queue
        &&& self.to_update == before.to_update
        &&& self.spawn_point == before.spawn_point
        &&& self.spawn_range == before.spawn_range
        &&& self.players@ == departed(before.players@, index)
        &&& self.player_loaded@.len() == before.player_loaded@.len()
        &&& forall|i: int|
            0 <= i < before.player_loaded@.len() ==> (#[trigger] self.player_loaded@[i])@
                == without(before.player_loaded@[i]@, before.players@[index].id)
    }

    /// The messages sent when `joiner` joins this world: the joiner is told
    /// the sizes of the world and where it spawned; every player is told of
    /// the joiner, and those that hold the chunk it spawned in and the joiner
    /// are told that they see each other; last the joiner is told of itself.
    pub open spec fn join_packets(&self, joiner: ClientConnection) -> Seq<Outbound> {
        let c = self.chunk_near(joiner.server_player.x, joiner.server_player.y);
        seq![
            Outbound {
                addr: joiner.addr,
                packet: PacketTypes::ServerSync {
                    player_id: joiner.id,
                    world_width: self.width,
                    world_height: self.height,
                    chunk_size: self.chunk_size,
                    spawn_x: joiner.server_player.x,
                    spawn_y: joiner.server_player.y,
                },
            },
        ] + welcome_packets(
            self.players@,
            self.interest(c.0, c.1),
            joiner,
            self.players@.len() as int,
        ).push(player_join(joiner.addr, joiner))
    }

    /// After a player has left a sound world, the world is sound.
    pub proof fn lemma_departure_wf(&self, before: World, index: int)
        requires
            before.wf(),
            0 <= index < before.players@.len(),
            self.is_departure_of(before, index),
        ensures
            self.wf(),
    {
        lemma_same_chunks_same_grid(before, *self);
        lemma_departed(before.players@, index);
        let id = before.players@[index].id;
        assert forall|i: int| 0 <= i < self.players@.len() implies (
        #[trigger] self.players@[i]).server_player.wf() by {
            if i == index {
                assert(self.players@[i] == before.players@[before.players@.len() - 1]);
            } else {
                assert(self.players@[i] == before.players@[i]);
            }
        }
        assert forall|i: int| 0 <= i < self.player_loaded@.len() implies distinct(
            (#[trigger] self.player_loaded@[i])@,
        ) by {
            lemma_without(before.player_loaded@[i]@, id);
            assert(distinct(before.player_loaded@[i]@));
        }
        assert forall|i: int, k: int|
            0 <= i < self.player_loaded@.len() && 0 <= k
                < self.player_loaded@[i]@.len() implies has_id(
            self.players@,
            #[trigger] self.player_loaded@[i]@[k],
        ) by {
            lemma_without(before.player_loaded@[i]@, id);
            let v = self.player_loaded@[i]@[k];
            assert(self.player_loaded@[i]@.contains(v));
            assert(before.player_loaded@[i]@.contains(v));
            let j = choose|j: int|
                0 <= j < before.player_loaded@[i]@.len() && before.player_loaded@[i]@[j] == v;
            assert(has_id(before.players@, before.player_loaded@[i]@[j]));
        }
    }

    /// The id a new player gets when `draw` was drawn for it.
    pub fn unused_id(&self, draw: u32) -> (id: u32)
        ensures
            id == fresh_id(self.players@, draw),
    {
        let mut id: u32 = draw;
        let mut fuel: u64 = 0x1_0000_0000;
        while fuel > 0 && find_by_id(&self.players, id).is_some()
            invariant
                0 <= fuel <= 0x1_0000_0000,
                fresh_id(self.players@, draw) == next_unused(self.players@, id, fuel as nat),
            decreases fuel,
        {
            id = if id == u32::MAX {
                0
            } else {
                id + 1
            };
            fuel = fuel - 1;
        }
        id
    }

    /// Takes the player at `index` out of the world: out of the list of
    /// players and out of every interest list.
    pub fn remove_player(&mut self, index: usize) -> (gone: ClientConnection)
        requires
            old(self).wf(),
            index < old(self).players@.len(),
        ensures
            gone == old(self).players@[index as int],
            final(self).is_departure_of(*old(self), index as int),
            final(self).wf(),
    {
        let gone: ClientConnection = self.players.swap_remove(index);
        proof {
            lemma_same_chunks_same_grid(*old(self), *self);
        }
        self.unload_all_for(gone.id);
        proof {
            self.lemma_departure_wf(*old(self), index as int);
        }
        gone
    }

    /// The interest lists, chunk by chunk.
    pub open spec fn interest_view(&self) -> Seq<Seq<u32>> {
        Seq::new(self.player_loaded@.len(), |i: int| self.player_loaded@[i]@)
    }

    /// The players that have `gone` in sight when `interest` are the
    /// interest lists: the other holders of the chunk near which it is.
    pub open spec fn watchers_of(&self, interest: Seq<Seq<u32>>, gone: ClientConnection) -> Seq<
        u32,
    > {
        let c = self.chunk_near(gone.server_player.x, gone.server_player.y);
        without(interest[self.chunk_index(c.0, c.1)], gone.id)
    }

    /// The messages sent when the player `id` is kicked for `reason` from
    /// among `players`, when `interest` are the interest lists: the player is
    /// told, then the others, in the order they are left in.
    pub open spec fn kick_packets(
        &self,
        players: Seq<ClientConnection>,
        interest: Seq<Seq<u32>>,
        id: u32,
        reason: String,
    ) -> Seq<Outbound> {
        let gone = players[index_of_id(players, id)];
        let rest = without_player(players, id);
        seq![kicked(gone.addr, reason)] + kick_notices(
            rest,
            self.watchers_of(interest, gone),
            gone,
            rest.len() as int,
        )
    }

    /// The messages sent when the player with the address `addr` says
    /// goodbye: the others are told, in the order they are left in.
    pub open spec fn goodbye_packets(&self, addr: PeerAddr) -> Seq<Outbound> {
        let index = index_of_addr(self.players@, addr);
        let gone = self.players@[index];
        let rest = departed(self.players@, index);
        farewell_packets(
            rest,
            self.watchers_of(self.interest_view(), gone),
            gone,
            rest.len() as int,
        )
    }

    /// The messages sent when the players `ids` are kicked for `reason` one
    /// after the other, beginning with `players` and the interest lists
    /// `interest`. An id that is no player's by its turn is passed over.
    pub open spec fn purge_packets(
        &self,
        players: Seq<ClientConnection>,
        interest: Seq<Seq<u32>>,
        ids: Seq<u32>,
        reason: String,
    ) -> Seq<Outbound>
        decreases ids.len(),
    {
        if ids.len() == 0 {
            Seq::empty()
        } else {
            let before = self.purge_packets(players, interest, ids.drop_last(), reason);
            let left = purged_players(players, ids.drop_last());
            if has_id(left, ids.last()) {
                before + self.kick_packets(
                    left,
                    purged_interest(interest, ids.drop_last()),
                    ids.last(),
                    reason,
                )
            } else {
                before
            }
        }
    }

    /// Whether this world is `before` with the players `players` and the
    /// interest lists `interest`, and nothing else changed.
    pub open spec fn is_crowd_change_of(
        &self,
        before: World,
        players: Seq<ClientConnection>,
        interest: Seq<Seq<u32>>,
    ) -> bool {
        &&& self.chunks == before.chunks
        &&& self.same_shape(before)
        &&& self.physics_update_queue == before.physics_update_queue
        &&& self.to_update == before.to_update
        &&& self.spawn_point == before.spawn_point
        &&& self.spawn_range == before.spawn_range
        &&& self.players@ == players
        &&& self.interest_view() == interest
    }

    /// Lets `connection` into the world, unless a player has its id already:
    /// the messages of [`World::join_packets`] go out and the connection
    /// becomes the last of the players.
    pub fn join(&mut self, to_network: &mut Vec<Outbound>, connection: ClientConnection) -> (outcome:
        PacketOutcome)
        requires
            old(self).wf(),
            connection.server_player.wf(),
        ensures
            final(self).wf(),
            has_id(old(self).players@, connection.id) ==> outcome == PacketOutcome::ServerFull
                && *final(self) == *old(self) && final(to_network)@ == old(to_network)@,
            !has_id(old(self).players@, connection.id) ==> outcome == PacketOutcome::Done
                && final(self).is_crowd_change_of(
                *old(self),
                old(self).players@.push(connection),
                old(self).interest_view(),
            ) && final(self).player_loaded == old(self).player_loaded && final(to_network)@ == old(to_network)@ + old(self).join_packets(connection),
    {
        if find_by_id(&self.players, connection.id).is_some() {
            return PacketOutcome::ServerFull;
        }
        to_network.push(
            Outbound {
                addr: connection.addr,
                packet: PacketTypes::ServerSync {
                    player_id: connection.id,
                    world_width: self.width,
                    world_height: self.height,
                    chunk_size: self.chunk_size,
                    spawn_x: connection.server_player.x,
                    spawn_y: connection.server_player.y,
                },
            },
        );
        let (chunk_x, chunk_y): (u32, u32) = self.chunk_near_position(
            connection.server_player.x,
            connection.server_player.y,
        );
        let slot: usize = self.chunk_slot(chunk_x, chunk_y);
        let ghost holders = self.interest(chunk_x as int, chunk_y as int);
        let ghost sent = to_network@;
        let mut i: usize = 0;
        while i < self.players.len()
            invariant
                *self == *old(self),
                slot < self.player_loaded@.len(),
                holders == self.player_loaded@[slot as int]@,
                0 <= i <= self.players@.len(),
                to_network@ == sent + welcome_packets(self.players@, holders, connection, i as int),
            decreases self.players@.len() - i,
        {
            let player: &ClientConnection = &self.players[i];
            to_network.push(
                Outbound {
                    addr: player.addr,
                    packet: PacketTypes::ServerPlayerJoin {
                        player_name: connection.name.clone(),
                        player_id: connection.id,
                    },
                },
            );
            if contains_id(&self.player_loaded[slot], player.id) {
                to_network.push(
                    Outbound {
                        addr: player.addr,
                        packet: PacketTypes::ServerPlayerEnterLoaded {
                            player_name: connection.name.clone(),
                            player_id: connection.id,
                            pos_x: connection.server_player.x,
                            pos_y: connection.server_player.y,
                        },
                    },
                );
                to_network.push(
                    Outbound {
                        addr: connection.addr,
                        packet: PacketTypes::ServerPlayerEnterLoaded {
                            player_name: player.name.clone(),
                            player_id: player.id,
                            pos_x: player.server_player.x,
                            pos_y: player.server_player.y,
                        },
                    },
                );
            }
            i = i + 1;
            assert(to_network@ =~= sent + welcome_packets(
                self.players@,
                holders,
                connection,
                i as int,
            ));
        }
        to_network.push(
            Outbound {
                addr: connection.addr,
                packet: PacketTypes::ServerPlayerJoin {
                    player_name: connection.name.clone(),
                    player_id: connection.id,
                },
            },
        );
        assert(to_network@ =~= old(to_network)@ + old(self).join_packets(connection));
        self.players.push(connection);
        proof {
            lemma_same_chunks_same_grid(*old(self), *self);
            assert(self.interest_view() =~= old(self).interest_view());
            assert(ids_of(self.players@) =~= ids_of(old(self).players@).push(connection.id));
            assert(!ids_of(old(self).players@).contains(connection.id)) by {
                if ids_of(old(self).players@).contains(connection.id) {
                    let w = choose|w: int|
                        0 <= w < ids_of(old(self).players@).len() && ids_of(old(self).players@)[w]
                            == connection.id;
                    assert(old(self).players@[w].id == connection.id);
                }
            }
            crate::lists::lemma_push_distinct(ids_of(old(self).players@), connection.id);
            assert forall|k: int| 0 <= k < self.players@.len() implies (
            #[trigger] self.players@[k]).server_player.wf() by {
                if k < old(self).players@.len() {
                    assert(self.players@[k] == old(self).players@[k]);
                }
            }
            assert forall|c: int, k: int|
                0 <= c < self.player_loaded@.len() && 0 <= k
                    < self.player_loaded@[c]@.len() implies has_id(
                self.players@,
                #[trigger] self.player_loaded@[c]@[k],
            ) by {
                let id = self.player_loaded@[c]@[k];
                assert(has_id(old(self).players@, old(self).player_loaded@[c]@[k]));
                let w = choose|w: int|
                    0 <= w < old(self).players@.len() && old(self).players@[w].id == id;
                assert(self.players@[w].id == id);
            }
        }
        PacketOutcome::Done
    }

    /// Takes the player at `index` out of the world and gives the player
    /// and the ids of those that had it in sight.
    fn part(&mut self, index: usize) -> (r: (ClientConnection, Vec<u32>))
        requires
            old(self).wf(),
            index < old(self).players@.len(),
        ensures
            r.0 == old(self).players@[index as int],
            r.1@ == old(self).watchers_of(old(self).interest_view(), r.0),
            final(self).is_departure_of(*old(self), index as int),
            final(self).is_crowd_change_of(
                *old(self),
                departed(old(self).players@, index as int),
                unloaded(old(self).interest_view(), r.0.id),
            ),
            final(self).wf(),
    {
        let gone: ClientConnection = self.remove_player(index);
        let (chunk_x, chunk_y): (u32, u32) = self.chunk_near_position(
            gone.server_player.x,
            gone.server_player.y,
        );
        let holders: Vec<u32> = self.peer_ids(chunk_x, chunk_y, gone.id);
        proof {
            old(self).lemma_chunk_in_list(chunk_x as int, chunk_y as int);
            let slot = self.chunk_index(chunk_x as int, chunk_y as int);
            lemma_without(old(self).player_loaded@[slot]@, gone.id);
            lemma_without(without(old(self).player_loaded@[slot]@, gone.id), gone.id);
            assert(self.interest_view() =~= unloaded(old(self).interest_view(), gone.id));
        }
        (gone, holders)
    }

    /// Carries out the goodbye of the peer `addr`: its player leaves the
    /// world and the others are told.
    pub fn goodbye(&mut self, to_network: &mut Vec<Outbound>, addr: PeerAddr) -> (outcome:
        PacketOutcome)
        requires
            old(self).wf(),
        ensures
            final(self).wf(),
            !has_addr(old(self).players@, addr) ==> outcome == PacketOutcome::UnknownPeer
                && *final(self) == *old(self) && final(to_network)@ == old(to_network)@,
            has_addr(old(self).players@, addr) ==> outcome == PacketOutcome::Done && final(self).is_departure_of(*old(self), index_of_addr(old(self).players@, addr)) && final(to_network)@ == old(to_network)@ + old(self).goodbye_packets(addr),
    {
        let index: usize = match find_by_addr(&self.players, addr) {
            None => {
                return PacketOutcome::UnknownPeer;
            },
            Some(i) => i,
        };
        let (gone, holders): (ClientConnection, Vec<u32>) = self.part(index);
        let mut i: usize = 0;
        while i < self.players.len()
            invariant
                0 <= i <= self.players@.len(),
                to_network@ == old(to_network)@ + farewell_packets(
                    self.players@,
                    holders@,
                    gone,
                    i as int,
                ),
            decreases self.players@.len() - i,
        {
            let player: &ClientConnection = &self.players[i];
            to_network.push(
                Outbound {
                    addr: player.addr,
                    packet: PacketTypes::ServerPlayerLeave {
                        player_name: gone.name.clone(),
                        player_id: gone.id,
                    },
                },
            );
            if contains_id(&holders, player.id) {
                to_network.push(
                    Outbound {
                        addr: player.addr,
                        packet: PacketTypes::ServerPlayerLeaveLoaded {
                            player_name: gone.name.clone(),
                            player_id: gone.id,
                        },
                    },
                );
            }
            i = i + 1;
            assert(to_network@ =~= old(to_network)@ + farewell_packets(
                self.players@,
                holders@,
                gone,
                i as int,
            ));
        }
        PacketOutcome::Done
    }

    /// Kicks the player `id` for the reason `reason`: the player is told,
    /// leaves the world, and the others are told. Gives whether there was
    /// such a player.
    pub fn kick_for(&mut self, to_network: &mut Vec<Outbound>, id: u32, reason: &String) -> (found:
        bool)
        requires
            old(self).wf(),
        ensures
            final(self).wf(),
            found == has_id(old(self).players@, id),
            !found ==> *final(self) == *old(self) && final(to_network)@ == old(to_network)@,
            found ==> final(self).is_departure_of(*old(self), index_of_id(old(self).players@, id))
                && final(to_network)@ == old(to_network)@ + old(self).kick_packets(
                old(self).players@,
                old(self).interest_view(),
                id,
                *reason,
            ),
            final(self).is_crowd_change_of(
                *old(self),
                without_player(old(self).players@, id),
                if found {
                    unloaded(old(self).interest_view(), id)
                } else {
                    old(self).interest_view()
                },
            ),
    {
        let index: usize = match find_by_id(&self.players, id) {
            None => {
                return false;
            },
            Some(i) => i,
        };
        let (gone, holders): (ClientConnection, Vec<u32>) = self.part(index);
        to_network.push(
            Outbound { addr: gone.addr, packet: PacketTypes::ServerKick { msg: reason.clone() } },
        );
        let ghost sent = to_network@;
        let mut i: usize = 0;
        while i < self.players.len()
            invariant
                0 <= i <= self.players@.len(),
                to_network@ == sent + kick_notices(self.players@, holders@, gone, i as int),
            decreases self.players@.len() - i,
        {
            let player: &ClientConnection = &self.players[i];
            if contains_id(&holders, player.id) {
                to_network.push(
                    Outbound {
                        addr: player.addr,
                        packet: PacketTypes::ServerPlayerLeaveLoaded {
                            player_name: gone.name.clone(),
                            player_id: gone.id,
                        },
                    },
                );
            }
            to_network.push(
                Outbound {
                    addr: player.addr,
                    packet: PacketTypes::ServerPlayerLeave {
                        player_name: gone.name.clone(),
                        player_id: gone.id,
                    },
                },
            );
            i = i + 1;
            assert(to_network@ =~= sent + kick_notices(self.players@, holders@, gone, i as int));
        }
        assert(to_network@ =~= old(to_network)@ + old(self).kick_packets(
            old(self).players@,
            old(self).interest_view(),
            id,
            *reason,
        ));
        true
    }

    /// Kicks the player `id`, for the reason `msg` if one is given. Gives
    /// whether there was such a player.
    pub fn kick(&mut self, to_network: &mut Vec<Outbound>, id: u32, msg: Option<&str>) -> (found:
        bool)
        requires
            old(self).wf(),
        ensures
            final(self).wf(),
            found == has_id(old(self).players@, id),
            !found ==> *final(self) == *old(self) && final(to_network)@ == old(to_network)@,
            found ==> final(self).is_departure_of(*old(self), index_of_id(old(self).players@, id))
                && exists|reason: String|
                reason@ == (match msg {
                    Some(m) => m@,
                    None => "No kick message provided"@,
                }) && final(to_network)@ == old(to_network)@ + #[trigger] old(self).kick_packets(
                    old(self).players@,
                    old(self).interest_view(),
                    id,
                    reason,
                ),
    {
        let reason: String = match msg {
            Some(m) => m.to_owned(),
            None => "No kick message provided".to_owned(),
        };
        self.kick_for(to_network, id, &reason)
    }

    /// Shuts the server down: every player is told that it is kicked, and
    /// no player and no interest is left.
    pub fn shutdown(&mut self, to_network: &mut Vec<Outbound>)
        requires
            old(self).wf(),
        ensures
            final(self).wf(),
            final(self).chunks == old(self).chunks,
            final(self).same_shape(*old(self)),
            final(self).physics_update_queue == old(self).physics_update_queue,
            final(self).to_update == old(self).to_update,
            final(self).spawn_point == old(self).spawn_point,
            final(self).spawn_range == old(self).spawn_range,
            final(self).players@.len() == 0,
            final(self).player_loaded@.len() == old(self).player_loaded@.len(),
            forall|i: int|
                0 <= i < final(self).player_loaded@.len() ==> (#[trigger] final(self).player_loaded@[i])@.len() == 0,
            exists|reason: String|
                reason@ == "Server shutting down"@ && final(to_network)@ == old(to_network)@
                    + #[trigger] shutdown_packets(old(self).players@, reason),
    {
        let kick_msg: String = "Server shutting down".to_owned();
        let mut c: usize = 0;
        while c < self.player_loaded.len()
            invariant
                0 <= c <= self.player_loaded@.len(),
                self.player_loaded@.len() == old(self).player_loaded@.len(),
                self.chunks == old(self).chunks,
                self.same_shape(*old(self)),
                self.players == old(self).players,
                self.physics_update_queue == old(self).physics_update_queue,
                self.to_update == old(self).to_update,
                self.spawn_point == old(self).spawn_point,
                self.spawn_range == old(self).spawn_range,
                forall|i: int| 0 <= i < c ==> (#[trigger] self.player_loaded@[i])@.len() == 0,
            decreases self.player_loaded@.len() - c,
        {
            self.player_loaded[c].clear();
            c = c + 1;
        }
        let ghost expected = shutdown_packets(old(self).players@, kick_msg);
        let mut i: usize = 0;
        while i < self.players.len()
            invariant
                0 <= i <= self.players@.len(),
                self.players == old(self).players,
                expected == shutdown_packets(old(self).players@, kick_msg),
                to_network@ == old(to_network)@ + expected.subrange(0, i as int),
            decreases self.players@.len() - i,
        {
            to_network.push(
                Outbound {
                    addr: self.players[i].addr,
                    packet: PacketTypes::ServerKick { msg: kick_msg.clone() },
                },
            );
            i = i + 1;
            assert(to_network@ =~= old(to_network)@ + expected.subrange(0, i as int));
        }
        assert(expected.subrange(0, expected.len() as int) =~= expected);
        self.players.clear();
        proof {
            lemma_same_chunks_same_grid(*old(self), *self);
            assert(ids_of(self.players@) =~= Seq::<u32>::empty());
        }
    }
}

impl Player {
    /// A fresh player on the ground of column `x`.
    pub fn spawn_at(world: &World, x: u32) -> (r: Result<Player, WorldError>)
        requires
            world.grid_wf(),
        ensures
            x < world.width ==> (r matches Ok(p) && world.is_spawn(p, x) && p.wf()),
            x >= world.width ==> (r matches Err(e) && e == WorldError::OutOfBoundsBlock(x, 0)),
    {
        match world.get_highest_block_at(x) {
            Err(e) => Err(e),
            Ok((highest_x, highest_y)) => {
                let p = Player {
                    x: block_to_scalar(highest_x),
                    y: block_to_scalar(highest_y + 1),
                    health: FULL_HEALTH,
                    hitbox_width: HITBOX_WIDTH,
                    hitbox_height: HITBOX_HEIGHT,
                    velocity: Velocity { x: 0, y: 0 },
                    acceleration: Acceleration { x: 0, y: 0 },
                    do_jump: false,
                    inventory: [None;9],
                    selected_slot: 0,
                };
                Ok(p)
            },
        }
    }
}

impl ClientConnection {
    /// A connection for a peer that joins `world` in column `x` when `draw`
    /// was drawn for its id.
    pub fn spawn(addr: PeerAddr, world: &World, x: u32, name: String, draw: u32) -> (r: Result<
        ClientConnection,
        WorldError,
    >)
        requires
            world.grid_wf(),
        ensures
            x < world.width ==> (r matches Ok(c) && c.addr == addr && c.name == name && c.id
                == fresh_id(world.players@, draw) && c.connection_alive && world.is_spawn(
                c.server_player,
                x,
            ) && c.server_player.wf()),
            x >= world.width ==> (r matches Err(e) && e == WorldError::OutOfBoundsBlock(x, 0)),
    {
        match Player::spawn_at(world, x) {
            Err(e) => Err(e),
            Ok(player) => Ok(
                ClientConnection {
                    addr,
                    name,
                    server_player: player,
                    id: world.unused_id(draw),
                    connection_alive: true,
                },
            ),
        }
    }

    /// A connection for a peer that joins `world` in column `x`, under an
    /// id drawn at random and moved on to the next unused one if it is taken.
    pub fn new_at(addr: PeerAddr, world: &World, x: u32, name: String) -> (r: Result<
        ClientConnection,
        WorldError,
    >)
        requires
            world.grid_wf(),
        ensures
            x < world.width ==> (r matches Ok(c) && c.addr == addr && c.name == name
                && c.connection_alive && world.is_spawn(c.server_player, x)
                && c.server_player.wf() && exists|draw: u32|
                c.id == fresh_id(world.players@, draw)),
            x >= world.width ==> (r matches Err(e) && e == WorldError::OutOfBoundsBlock(x, 0)),
    {
        let draw: u32 = random_u32();
        ClientConnection::spawn(addr, world, x, name, draw)
    }
}

} // verus!
