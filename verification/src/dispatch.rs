//! The dispatcher: what the server does with each packet a peer sends, and
//! the heartbeat round.

use vstd::prelude::*;
use crate::block::{block_properties, is_solid, solid, Block};
use crate::chunk::{Chunk, NetworkChunk};
use crate::connection::{
    find_by_addr, find_by_id, has_addr, has_id, ids_of, index_of_addr, index_of_id,
    ClientConnection, PeerAddr,
};
use crate::constants::{KNOCKBACK_POWER, MAX_INTERACT_RANGE};
use crate::fluid::SurroundingBlocks;
use crate::inventory::{consume_at, insert_into, network_slots, slots_to_network};
use crate::item::{hit_damage, item_block, item_breaking_power, ItemStack};
use crate::lists::{lemma_without, without};
use crate::movement::{queue_put, queue_view};
use crate::network::{kind_of, Outbound, PacketOutcome, PacketTypes};
use crate::player::{cell_is_solid, cell_solid, Acceleration, Player, Velocity};
use crate::lists::contains_id;
use crate::random::random_u32;
use crate::scalar::{
    cell_origin, clamp_i64, isqrt, sat_sub, sqrt_floor, trunc_div, Scalar, HALF_UNIT, UNIT,
};
use crate::session::{
    beat_packets, fresh_id, idle_ids, purged_interest, purged_players, silenced, unloaded,
};
use crate::world::{lemma_same_chunks_same_grid, World, WorldError};

verus! {

/// In a sound world, taking a player that is not connected out of the
/// interest lists changes nothing.
pub proof fn lemma_unload_stranger(world: World, id: u32)
    requires
        world.wf(),
        !has_id(world.players@, id),
    ensures
        unloaded(world.interest_view(), id) == world.interest_view(),
{
    let iv = world.interest_view();
    assert forall|i: int| 0 <= i < iv.len() implies crate::lists::without(iv[i], id) == iv[i] by {
        lemma_without(iv[i], id);
        if iv[i].contains(id) {
            let k = choose|k: int| 0 <= k < iv[i].len() && iv[i][k] == id;
            assert(has_id(world.players@, world.player_loaded@[i]@[k]));
        }
    }
    assert(unloaded(iv, id) =~= iv);
}


/// The farthest a player reaches, in sub-block units.
pub open spec fn reach() -> int {
    MAX_INTERACT_RANGE * UNIT
}

/// Whether a point at the offset `(dx, dy)` is within reach.
pub open spec fn within_reach(dx: int, dy: int) -> bool {
    dx * dx + dy * dy <= reach() * reach()
}

/// The offset of the centre of the block `(x, y)` from the centre of the
/// hitbox of `p`.
pub open spec fn block_offset(p: Player, x: u32, y: u32) -> (int, int) {
    (
        cell_origin(x as int) + HALF_UNIT - (p.x + p.hitbox_width * HALF_UNIT),
        cell_origin(y as int) + HALF_UNIT - (p.y + p.hitbox_height * HALF_UNIT),
    )
}

/// Whether the player `p` reaches the block `(x, y)`.
pub open spec fn block_in_reach(p: Player, x: u32, y: u32) -> bool {
    within_reach(block_offset(p, x, y).0, block_offset(p, x, y).1)
}

/// Whether the player `a` reaches the player `b`.
pub open spec fn player_in_reach(a: Player, b: Player) -> bool {
    within_reach(b.x - a.x, b.y - a.y)
}

/// The push that a hit gives: the acceleration of the knockback power along
/// the offset `(dx, dy)` from the attacker to the target, each part rounded
/// towards zero; none if the two are at the same place.
pub open spec fn knockback(dx: int, dy: int) -> Acceleration {
    let len = sqrt_floor(dx * dx + dy * dy);
    if len == 0 {
        Acceleration { x: 0, y: 0 }
    } else {
        Acceleration {
            x: trunc_div(dx * KNOCKBACK_POWER, len) as i64,
            y: trunc_div(dy * KNOCKBACK_POWER, len) as i64,
        }
    }
}

/// The message that carries `msg`, said by `speaker`, to `to`.
pub open spec fn chat_line(to: PeerAddr, speaker: ClientConnection, msg: String) -> Outbound {
    Outbound {
        addr: to,
        packet: PacketTypes::ServerSendMessage {
            player_name: speaker.name,
            player_id: speaker.id,
            msg,
        },
    }
}

/// The messages that carry `msg`, said by `speaker`, to every player.
pub open spec fn chat_packets(
    players: Seq<ClientConnection>,
    speaker: ClientConnection,
    msg: String,
) -> Seq<Outbound> {
    Seq::new(players.len(), |i: int| chat_line(players[i].addr, speaker, msg))
}

/// Whether `o` carries the chunk `chunk` to `to`.
pub open spec fn is_chunk_response(o: Outbound, to: PeerAddr, chunk: Chunk) -> bool {
    o.addr == to && (o.packet matches PacketTypes::ServerChunkResponse { chunk: wire }
        && wire.describes(chunk))
}

/// Whether `o` carries the inventory `slots` to `to`.
pub open spec fn is_inventory_update(o: Outbound, to: PeerAddr, slots: Seq<Option<ItemStack>>) -> bool {
    o.addr == to && (o.packet matches PacketTypes::ServerUpdateInventory { inv } && inv@
        == network_slots(slots))
}

/// The message that tells `to` its health.
pub open spec fn health_update(to: PeerAddr, health: Scalar) -> Outbound {
    Outbound { addr: to, packet: PacketTypes::ServerUpdateHealth { health } }
}

/// Whether a point at the offset `(dx, dy)` is within reach.
pub fn in_reach(dx: i128, dy: i128) -> (b: bool)
    ensures
        b == within_reach(dx as int, dy as int),
{
    if dx > 15_625_000 || dx < -15_625_000 || dy > 15_625_000 || dy < -15_625_000 {
        proof {
            let r = reach();
            assert(r == 15_625_000);
            assert(dx * dx + dy * dy > r * r) by (nonlinear_arith)
                requires
                    r == 15_625_000,
                    dx > r || dx < -r || dy > r || dy < -r,
            ;
        }
        false
    } else {
        proof {
            assert(0 <= dx * dx <= 15_625_000 * 15_625_000 && 0 <= dy * dy <= 15_625_000
                * 15_625_000) by (nonlinear_arith)
                requires
                    -15_625_000 <= dx <= 15_625_000,
                    -15_625_000 <= dy <= 15_625_000,
            ;
            let r = reach();
            assert(r * r == 244_140_625_000_000) by (nonlinear_arith)
                requires
                    r == 15_625_000,
            ;
        }
        dx * dx + dy * dy <= 244_140_625_000_000
    }
}

/// One part of the push that a hit gives: the knockback power along `d`,
/// for an offset of length `len`.
fn knock(d: i128, len: u64) -> (a: Scalar)
    requires
        -15_625_000 <= d <= 15_625_000,
        1 <= len,
    ensures
        a == trunc_div(d * KNOCKBACK_POWER, len as int),
{
    let far: u64 = if d >= 0 {
        d as u64
    } else {
        (-d) as u64
    };
    let q: u64 = (far * 5_000) / len;
    proof {
        assert(q <= far * 5_000) by (nonlinear_arith)
            requires
                q == (far * 5_000) / (len as int),
                len >= 1,
                far >= 0,
        ;
        if d < 0 {
            assert(-(d * KNOCKBACK_POWER) == far * 5_000);
        }
    }
    if d >= 0 {
        q as i64
    } else {
        -(q as i64)
    }
}

/// The push that a hit gives along an offset within reach.
pub fn knockback_for(dx: i128, dy: i128) -> (a: Acceleration)
    requires
        within_reach(dx as int, dy as int),
    ensures
        a == knockback(dx as int, dy as int),
{
    proof {
        let r = reach();
        assert(r == 15_625_000);
        assert(r * r == 244_140_625_000_000) by (nonlinear_arith)
            requires
                r == 15_625_000,
        ;
        assert(dx * dx + dy * dy <= 244_140_625_000_000);
        assert(-r <= dx <= r && -r <= dy <= r && 0 <= dx * dx && 0 <= dy * dy) by (nonlinear_arith)
            requires
                r == 15_625_000,
                dx * dx + dy * dy <= r * r,
        ;
    }
    let n: u64 = (dx * dx + dy * dy) as u64;
    let len: u64 = isqrt(n);
    if len == 0 {
        Acceleration { x: 0, y: 0 }
    } else {
        Acceleration { x: knock(dx, len), y: knock(dy, len) }
    }
}

impl Player {
    /// Tells the peer `addr` what the player carries.
    pub fn notify_inventory_changed(&self, to_network: &mut Vec<Outbound>, addr: PeerAddr)
        ensures
            final(to_network)@.len() == old(to_network)@.len() + 1,
            final(to_network)@.drop_last() == old(to_network)@,
            is_inventory_update(final(to_network)@.last(), addr, self.inventory@),
    {
        to_network.push(
            Outbound {
                addr,
                packet: PacketTypes::ServerUpdateInventory { inv: slots_to_network(&self.inventory) },
            },
        );
        assert(to_network@.drop_last() =~= old(to_network)@);
    }
}

impl World {
    /// Whether this world is `before` with the player at `index` replaced by
    /// `player`, and nothing else changed.
    pub open spec fn is_player_change_of(&self, before: World, index: int, player: Player) -> bool {
        &&& self.chunks == before.chunks
        &&& self.same_shape(before)
        &&& self.player_loaded == before.player_loaded
        &&& self.physics_update_queue == before.physics_update_queue
        &&& self.to_update == before.to_update
        &&& self.spawn_point == before.spawn_point
        &&& self.spawn_range == before.spawn_range
        &&& self.players@ == before.players@.update(
            index,
            ClientConnection { server_player: player, ..before.players@[index] },
        )
    }

    /// Whether this world is `before` with the mark of life given to the
    /// player at `index`, and nothing else changed.
    pub open spec fn is_revival_of(&self, before: World, index: int) -> bool {
        &&& self.chunks == before.chunks
        &&& self.same_shape(before)
        &&& self.player_loaded == before.player_loaded
        &&& self.physics_update_queue == before.physics_update_queue
        &&& self.to_update == before.to_update
        &&& self.spawn_point == before.spawn_point
        &&& self.spawn_range == before.spawn_range
        &&& self.players@ == before.players@.update(
            index,
            ClientConnection { connection_alive: true, ..before.players@[index] },
        )
    }

    /// The player of the peer `addr`.
    pub open spec fn actor(&self, addr: PeerAddr) -> ClientConnection {
        self.players@[index_of_addr(self.players@, addr)]
    }

    /// Whether a solid block touches a side of the cell `(x, y)`.
    pub open spec fn touches_solid(&self, x: u32, y: u32) -> bool {
        cell_solid(self.sampled(x as int, y + 1)) || cell_solid(self.sampled(x as int, y - 1))
            || cell_solid(self.sampled(x - 1, y as int)) || cell_solid(
            self.sampled(x + 1, y as int),
        )
    }

    /// Why the peer `addr` may not touch the block `(x, y)`, if it may not:
    /// it has not joined, the block is outside the world, its player does not
    /// hold the chunk of the block, or the block is out of reach.
    pub open spec fn touch_refusal(&self, addr: PeerAddr, x: u32, y: u32) -> Option<PacketOutcome> {
        if !has_addr(self.players@, addr) {
            Some(PacketOutcome::UnknownPeer)
        } else if !self.in_bounds(x as int, y as int) {
            Some(PacketOutcome::Failed(WorldError::OutOfBoundsBlock(x, y)))
        } else if !self.interest(
            self.chunk_of(x as int, y as int).0,
            self.chunk_of(x as int, y as int).1,
        ).contains(self.actor(addr).id) {
            Some(PacketOutcome::ChunkNotLoaded)
        } else if !block_in_reach(self.actor(addr).server_player, x, y) {
            Some(PacketOutcome::OutOfRange)
        } else {
            None
        }
    }

    /// What becomes of the request of the peer `addr` to place a block in
    /// the cell `(x, y)`.
    pub open spec fn place_outcome(&self, addr: PeerAddr, x: u32, y: u32) -> PacketOutcome {
        match self.touch_refusal(addr, x, y) {
            Some(refusal) => refusal,
            None => if solid(self.block_at(x as int, y as int)) {
                PacketOutcome::Occupied
            } else if !self.free_placement && !self.touches_solid(x, y) {
                PacketOutcome::Unsupported
            } else if self.placed_block(addr) is None {
                PacketOutcome::NothingToPlace
            } else {
                PacketOutcome::Done
            },
        }
    }

    /// The block that the player of the peer `addr` places from its selected
    /// slot, if the slot holds a material.
    pub open spec fn placed_block(&self, addr: PeerAddr) -> Option<Block> {
        match self.actor(addr).server_player.current_item() {
            Some(item) => item_block(item),
            None => None,
        }
    }

    /// What becomes of the request of the peer `addr` to break the block in
    /// the cell `(x, y)`.
    pub open spec fn break_outcome(&self, addr: PeerAddr, x: u32, y: u32) -> PacketOutcome {
        match self.touch_refusal(addr, x, y) {
            Some(refusal) => refusal,
            None => if !solid(self.block_at(x as int, y as int)) {
                PacketOutcome::NothingToBreak
            } else if (match self.actor(addr).server_player.current_item() {
                Some(item) => item_breaking_power(item),
                None => 0,
            }) < block_properties(self.block_at(x as int, y as int)).hardness {
                PacketOutcome::TooHard
            } else {
                PacketOutcome::Done
            },
        }
    }

    /// What becomes of the request of the peer `addr` to hit the player
    /// `target_id`.
    pub open spec fn attack_outcome(&self, addr: PeerAddr, target_id: u32) -> PacketOutcome {
        if !has_addr(self.players@, addr) {
            PacketOutcome::UnknownPeer
        } else if !has_id(self.players@, target_id) {
            PacketOutcome::UnknownTarget
        } else if !player_in_reach(
            self.actor(addr).server_player,
            self.players@[index_of_id(self.players@, target_id)].server_player,
        ) {
            PacketOutcome::OutOfRange
        } else {
            PacketOutcome::Done
        }
    }

    /// What becomes of the request of the peer `addr` for the chunk
    /// `(chunk_x, chunk_y)`.
    pub open spec fn chunk_request_outcome(
        &self,
        addr: PeerAddr,
        chunk_x: u32,
        chunk_y: u32,
    ) -> PacketOutcome {
        if !has_addr(self.players@, addr) {
            PacketOutcome::UnknownPeer
        } else if !self.chunk_in_bounds(chunk_x as int, chunk_y as int) {
            PacketOutcome::Failed(WorldError::OutOfBoundsChunk(chunk_x, chunk_y))
        } else if self.interest(chunk_x as int, chunk_y as int).contains(self.actor(addr).id) {
            PacketOutcome::Failed(WorldError::ChunkAlreadyLoaded)
        } else {
            PacketOutcome::Done
        }
    }

    /// What a jump request of the peer `addr` does: its player will jump at
    /// the next physics tick if it stands on the ground then.
    pub open spec fn jump_post(&self, before: World, outcome: PacketOutcome, addr: PeerAddr) -> bool {
        if has_addr(before.players@, addr) {
            outcome == PacketOutcome::Done && self.is_player_change_of(
                before,
                index_of_addr(before.players@, addr),
                Player { do_jump: true, ..before.actor(addr).server_player },
            )
        } else {
            outcome == PacketOutcome::UnknownPeer && *self == before
        }
    }

    /// What a speed request of the peer `addr` does: its player has the
    /// horizontal speed `vel_x`.
    pub open spec fn velocity_post(
        &self,
        before: World,
        outcome: PacketOutcome,
        addr: PeerAddr,
        vel_x: Scalar,
    ) -> bool {
        if has_addr(before.players@, addr) {
            outcome == PacketOutcome::Done && self.is_player_change_of(
                before,
                index_of_addr(before.players@, addr),
                Player {
                    velocity: Velocity { x: vel_x, y: before.actor(addr).server_player.velocity.y },
                    ..before.actor(addr).server_player
                },
            )
        } else {
            outcome == PacketOutcome::UnknownPeer && *self == before
        }
    }

    /// What a slot request of the peer `addr` does: its player has the slot
    /// `slot`, counted around the nine slots, selected.
    pub open spec fn slot_post(
        &self,
        before: World,
        outcome: PacketOutcome,
        addr: PeerAddr,
        slot: u8,
    ) -> bool {
        if has_addr(before.players@, addr) {
            outcome == PacketOutcome::Done && self.is_player_change_of(
                before,
                index_of_addr(before.players@, addr),
                Player { selected_slot: (slot % 9) as u8, ..before.actor(addr).server_player },
            )
        } else {
            outcome == PacketOutcome::UnknownPeer && *self == before
        }
    }

    /// What a heartbeat of the peer `addr` does: its player bears the mark
    /// of life.
    pub open spec fn alive_post(&self, before: World, outcome: PacketOutcome, addr: PeerAddr) -> bool {
        if has_addr(before.players@, addr) {
            outcome == PacketOutcome::Done && self.is_revival_of(
                before,
                index_of_addr(before.players@, addr),
            )
        } else {
            outcome == PacketOutcome::UnknownPeer && *self == before
        }
    }

    /// What a chat line of the peer `addr` does: it goes to every player.
    pub open spec fn say_post(
        &self,
        sent: Seq<Outbound>,
        outcome: PacketOutcome,
        addr: PeerAddr,
        msg: String,
    ) -> bool {
        if has_addr(self.players@, addr) {
            outcome == PacketOutcome::Done && sent == chat_packets(
                self.players@,
                self.actor(addr),
                msg,
            )
        } else {
            outcome == PacketOutcome::UnknownPeer && sent == Seq::<Outbound>::empty()
        }
    }

    /// What the request of the peer `addr` for the chunk
    /// `(chunk_x, chunk_y)` does: the chunk is recorded as held by the player
    /// and sent to the peer, unless the request is refused.
    pub open spec fn chunk_request_post(
        &self,
        before: World,
        sent: Seq<Outbound>,
        outcome: PacketOutcome,
        addr: PeerAddr,
        chunk_x: u32,
        chunk_y: u32,
    ) -> bool {
        &&& outcome == before.chunk_request_outcome(addr, chunk_x, chunk_y)
        &&& if outcome == PacketOutcome::Done {
            &&& self.is_interest_change_of(
                before,
                before.chunk_index(chunk_x as int, chunk_y as int),
                before.interest(chunk_x as int, chunk_y as int).push(before.actor(addr).id),
            )
            &&& sent.len() == 1
            &&& is_chunk_response(sent[0], addr, before.chunk_at(chunk_x as int, chunk_y as int))
        } else {
            *self == before && sent == Seq::<Outbound>::empty()
        }
    }

    /// What the notice of the peer `addr` that it dropped the chunk
    /// `(chunk_x, chunk_y)` does: the player no longer holds the chunk.
    pub open spec fn unload_post(
        &self,
        before: World,
        outcome: PacketOutcome,
        addr: PeerAddr,
        chunk_x: u32,
        chunk_y: u32,
    ) -> bool {
        if !has_addr(before.players@, addr) {
            outcome == PacketOutcome::UnknownPeer && *self == before
        } else if !before.chunk_in_bounds(chunk_x as int, chunk_y as int) {
            outcome == PacketOutcome::Failed(WorldError::OutOfBoundsChunk(chunk_x, chunk_y))
                && *self == before
        } else {
            outcome == PacketOutcome::Done && self.is_interest_change_of(
                before,
                before.chunk_index(chunk_x as int, chunk_y as int),
                without(before.interest(chunk_x as int, chunk_y as int), before.actor(addr).id),
            )
        }
    }

    /// What the request of the peer `addr` to place a block in the cell
    /// `(x, y)` does. If it is not refused, the block of the material in the
    /// selected slot is written into the cell, the holders of the chunk are
    /// told, one item leaves the slot, and the peer is told what it carries.
    pub open spec fn place_post(
        &self,
        before: World,
        sent: Seq<Outbound>,
        outcome: PacketOutcome,
        addr: PeerAddr,
        x: u32,
        y: u32,
    ) -> bool {
        &&& outcome == before.place_outcome(addr, x, y)
        &&& if outcome == PacketOutcome::Done {
            let index = index_of_addr(before.players@, addr);
            let block = before.placed_block(addr)->0;
            let p = before.actor(addr).server_player;
            let q = self.players@[index].server_player;
            &&& self.is_write_of(before, x as int, y as int, block)
            &&& self.to_update@ == (if block == Block::Water {
                before.to_update@.push((x, y))
            } else {
                without(before.to_update@, (x, y))
            })
            &&& self.player_loaded == before.player_loaded
            &&& self.physics_update_queue == before.physics_update_queue
            &&& self.spawn_point == before.spawn_point
            &&& self.spawn_range == before.spawn_range
            &&& self.players@ == before.players@.update(
                index,
                ClientConnection { server_player: q, ..before.players@[index] },
            )
            &&& q == (Player { inventory: q.inventory, ..p })
            &&& q.inventory@ == consume_at(p.inventory@, p.selected_slot as int)
            &&& sent.len() >= 1
            &&& sent.drop_last() == before.update_block_packets(x, y, block)
            &&& is_inventory_update(sent.last(), addr, q.inventory@)
        } else {
            *self == before && sent == Seq::<Outbound>::empty()
        }
    }

    /// What the request of the peer `addr` to break the block in the cell
    /// `(x, y)` does. If it is not refused, what the block drops goes into
    /// the inventory of the player, as far as it has room, the peer is told
    /// what it carries, the cell turns into air, and the holders of the chunk
    /// are told.
    pub open spec fn break_post(
        &self,
        before: World,
        sent: Seq<Outbound>,
        outcome: PacketOutcome,
        addr: PeerAddr,
        x: u32,
        y: u32,
    ) -> bool {
        &&& outcome == before.break_outcome(addr, x, y)
        &&& if outcome == PacketOutcome::Done {
            let index = index_of_addr(before.players@, addr);
            let item = block_properties(before.block_at(x as int, y as int)).item->0;
            let p = before.actor(addr).server_player;
            let q = self.players@[index].server_player;
            &&& self.is_write_of(before, x as int, y as int, Block::Air)
            &&& self.to_update@ == without(before.to_update@, (x, y))
            &&& self.player_loaded == before.player_loaded
            &&& self.physics_update_queue == before.physics_update_queue
            &&& self.spawn_point == before.spawn_point
            &&& self.spawn_range == before.spawn_range
            &&& self.players@ == before.players@.update(
                index,
                ClientConnection { server_player: q, ..before.players@[index] },
            )
            &&& q == (Player { inventory: q.inventory, ..p })
            &&& q.inventory@ == insert_into(p.inventory@, ItemStack { item, count: 1 }).0
            &&& sent.len() >= 1
            &&& is_inventory_update(sent[0], addr, q.inventory@)
            &&& sent.skip(1) == before.update_block_packets(x, y, Block::Air)
        } else {
            *self == before && sent == Seq::<Outbound>::empty()
        }
    }

    /// What the request of the peer `addr` to hit the player `target_id`
    /// does. If it is not refused, the target loses the health that the
    /// attacker's weapon takes, is pushed away from the attacker, and is told
    /// its health.
    pub open spec fn attack_post(
        &self,
        before: World,
        sent: Seq<Outbound>,
        outcome: PacketOutcome,
        addr: PeerAddr,
        target_id: u32,
    ) -> bool {
        &&& outcome == before.attack_outcome(addr, target_id)
        &&& if outcome == PacketOutcome::Done {
            let attacker = before.actor(addr).server_player;
            let index = index_of_id(before.players@, target_id);
            let target = before.players@[index];
            let health = clamp_i64(
                target.server_player.health - hit_damage(attacker.current_item()),
            );
            &&& self.is_player_change_of(
                before,
                index,
                Player {
                    health,
                    acceleration: knockback(
                        target.server_player.x - attacker.x,
                        target.server_player.y - attacker.y,
                    ),
                    ..target.server_player
                },
            )
            &&& sent == seq![health_update(target.addr, health)]
        } else {
            *self == before && sent == Seq::<Outbound>::empty()
        }
    }

    /// Whether this world is `before` after the player at `index` spawned
    /// anew in column `x`: the player is a fresh one there, its move is dealt
    /// with as [`World::notify_player_moved`] says, and `sent` went out.
    pub open spec fn is_respawn_of(
        &self,
        before: World,
        sent: Seq<Outbound>,
        index: int,
        x: u32,
    ) -> bool {
        let was = before.players@[index];
        let now = self.players@[index];
        &&& self.chunks == before.chunks
        &&& self.same_shape(before)
        &&& self.player_loaded == before.player_loaded
        &&& self.to_update == before.to_update
        &&& self.spawn_point == before.spawn_point
        &&& self.spawn_range == before.spawn_range
        &&& self.players@ == before.players@.update(index, now)
        &&& now == (ClientConnection { server_player: now.server_player, ..was })
        &&& before.is_spawn(now.server_player, x)
        &&& queue_view(self.physics_update_queue@) == queue_put(
            queue_view(before.physics_update_queue@),
            was.id,
            (now.server_player.x, now.server_player.y, before.move_recipients(now)),
        )
        &&& sent == before.move_packets(now, was.server_player.x, was.server_player.y)
    }

    /// Whether this world is `before` after the peer `addr` asked to join
    /// under the name `name`, when the column `x` and the id `draw` were drawn
    /// for it: unless no id is free, a fresh player in that column is the last
    /// of the players, and the messages of [`World::join_packets`] went out.
    pub open spec fn is_admission_of(
        &self,
        before: World,
        sent: Seq<Outbound>,
        outcome: PacketOutcome,
        addr: PeerAddr,
        name: String,
        x: u32,
        draw: u32,
    ) -> bool {
        let id = fresh_id(before.players@, draw);
        if has_id(before.players@, id) {
            outcome == PacketOutcome::ServerFull && *self == before && sent == Seq::<
                Outbound,
            >::empty()
        } else {
            let joiner = self.players@.last();
            &&& outcome == PacketOutcome::Done
            &&& self.players@.len() == before.players@.len() + 1
            &&& joiner.addr == addr
            &&& joiner.name == name
            &&& joiner.id == id
            &&& joiner.connection_alive
            &&& before.is_spawn(joiner.server_player, x)
            &&& self.is_crowd_change_of(
                before,
                before.players@.push(joiner),
                before.interest_view(),
            )
            &&& sent == before.join_packets(joiner)
        }
    }

    /// A sound world stays sound when one of its players is replaced by a
    /// well-formed player under the same id.
    pub proof fn lemma_player_change_wf(&self, before: World, index: int)
        requires
            before.wf(),
            0 <= index < before.players@.len(),
            self.chunks == before.chunks,
            self.same_shape(before),
            self.player_loaded == before.player_loaded,
            self.physics_update_queue == before.physics_update_queue,
            self.to_update == before.to_update,
            self.spawn_point == before.spawn_point,
            self.spawn_range == before.spawn_range,
            self.players@.len() == before.players@.len(),
            forall|k: int|
                0 <= k < before.players@.len() && k != index ==> self.players@[k]
                    == before.players@[k],
            self.players@[index].id == before.players@[index].id,
            self.players@[index].server_player.wf(),
        ensures
            self.wf(),
    {
        lemma_same_chunks_same_grid(before, *self);
        assert(ids_of(self.players@) =~= ids_of(before.players@));
        assert forall|k: int| 0 <= k < self.players@.len() implies (
        #[trigger] self.players@[k]).server_player.wf() by {
            if k != index {
                assert(before.players@[k].server_player.wf());
            }
        }
        assert forall|c: int, k: int|
            0 <= c < self.player_loaded@.len() && 0 <= k
                < self.player_loaded@[c]@.len() implies has_id(
            self.players@,
            #[trigger] self.player_loaded@[c]@[k],
        ) by {
            let id = self.player_loaded@[c]@[k];
            assert(has_id(before.players@, before.player_loaded@[c]@[k]));
            let w = choose|w: int| 0 <= w < before.players@.len() && before.players@[w].id == id;
            assert(self.players@[w].id == id);
        }
    }

    /// Replaces the player at `index`.
    pub fn set_player(&mut self, index: usize, player: Player)
        requires
            old(self).grid_wf(),
            index < old(self).players@.len(),
        ensures
            final(self).is_player_change_of(*old(self), index as int, player),
            final(self).grid_wf(),
            old(self).wf() && player.wf() ==> final(self).wf(),
    {
        self.players[index].server_player = player;
        proof {
            lemma_same_chunks_same_grid(*old(self), *self);
            if old(self).wf() && player.wf() {
                self.lemma_player_change_wf(*old(self), index as int);
            }
            assert(self.players@ =~= old(self).players@.update(
                index as int,
                ClientConnection { server_player: player, ..old(self).players@[index as int] },
            ));
        }
    }

    /// Carries out a jump request of the peer `addr`.
    pub fn request_jump(&mut self, addr: PeerAddr) -> (outcome: PacketOutcome)
        requires
            old(self).wf(),
        ensures
            final(self).wf(),
            final(self).jump_post(*old(self), outcome, addr),
    {
        match find_by_addr(&self.players, addr) {
            None => PacketOutcome::UnknownPeer,
            Some(idx) => {
                let mut player: Player = self.players[idx].server_player;
                player.do_jump = true;
                self.set_player(idx, player);
                PacketOutcome::Done
            },
        }
    }

    /// Sets the horizontal speed of the player of the peer `addr`.
    pub fn set_x_velocity(&mut self, addr: PeerAddr, vel_x: Scalar) -> (outcome: PacketOutcome)
        requires
            old(self).wf(),
        ensures
            final(self).wf(),
            final(self).velocity_post(*old(self), outcome, addr, vel_x),
    {
        match find_by_addr(&self.players, addr) {
            None => PacketOutcome::UnknownPeer,
            Some(idx) => {
                let mut player: Player = self.players[idx].server_player;
                player.velocity.x = vel_x;
                self.set_player(idx, player);
                PacketOutcome::Done
            },
        }
    }

    /// Selects a slot of the player of the peer `addr`.
    pub fn change_slot(&mut self, addr: PeerAddr, slot: u8) -> (outcome: PacketOutcome)
        requires
            old(self).wf(),
        ensures
            final(self).wf(),
            final(self).slot_post(*old(self), outcome, addr, slot),
    {
        match find_by_addr(&self.players, addr) {
            None => PacketOutcome::UnknownPeer,
            Some(idx) => {
                let mut player: Player = self.players[idx].server_player;
                player.selected_slot = slot % 9;
                self.set_player(idx, player);
                PacketOutcome::Done
            },
        }
    }

    /// Notes that the peer `addr` answered the heartbeat.
    pub fn note_alive(&mut self, addr: PeerAddr) -> (outcome: PacketOutcome)
        requires
            old(self).wf(),
        ensures
            final(self).wf(),
            final(self).alive_post(*old(self), outcome, addr),
    {
        match find_by_addr(&self.players, addr) {
            None => PacketOutcome::UnknownPeer,
            Some(idx) => {
                self.players[idx].connection_alive = true;
                proof {
                    self.lemma_player_change_wf(*old(self), idx as int);
                    assert(self.players@ =~= old(self).players@.update(
                        idx as int,
                        ClientConnection {
                            connection_alive: true,
                            ..old(self).players@[idx as int]
                        },
                    ));
                }
                PacketOutcome::Done
            },
        }
    }

    /// Passes what the peer `addr` says on to every player.
    pub fn say(&self, to_network: &mut Vec<Outbound>, addr: PeerAddr, msg: String) -> (outcome:
        PacketOutcome)
        ensures
            exists|sent: Seq<Outbound>|
                final(to_network)@ == old(to_network)@ + sent && #[trigger] self.say_post(
                    sent,
                    outcome,
                    addr,
                    msg,
                ),
    {
        match find_by_addr(&self.players, addr) {
            None => {
                assert(to_network@ =~= old(to_network)@ + Seq::<Outbound>::empty());
                assert(self.say_post(Seq::<Outbound>::empty(), PacketOutcome::UnknownPeer, addr, msg));
                PacketOutcome::UnknownPeer
            },
            Some(idx) => {
                let ghost expected = chat_packets(self.players@, self.players@[idx as int], msg);
                let mut i: usize = 0;
                while i < self.players.len()
                    invariant
                        0 <= i <= self.players@.len(),
                        idx < self.players@.len(),
                        expected == chat_packets(self.players@, self.players@[idx as int], msg),
                        to_network@ == old(to_network)@ + expected.subrange(0, i as int),
                    decreases self.players@.len() - i,
                {
                    to_network.push(
                        Outbound {
                            addr: self.players[i].addr,
                            packet: PacketTypes::ServerSendMessage {
                                player_name: self.players[idx].name.clone(),
                                player_id: self.players[idx].id,
                                msg: msg.clone(),
                            },
                        },
                    );
                    i = i + 1;
                    assert(to_network@ =~= old(to_network)@ + expected.subrange(0, i as int));
                }
                assert(expected.subrange(0, expected.len() as int) =~= expected);
                assert(self.say_post(expected, PacketOutcome::Done, addr, msg));
                PacketOutcome::Done
            },
        }
    }

    /// Carries out the request of the peer `addr` for the chunk
    /// `(chunk_x, chunk_y)`.
    pub fn request_chunk(
        &mut self,
        to_network: &mut Vec<Outbound>,
        addr: PeerAddr,
        chunk_x: u32,
        chunk_y: u32,
    ) -> (outcome: PacketOutcome)
        requires
            old(self).wf(),
        ensures
            final(self).wf(),
            exists|sent: Seq<Outbound>|
                final(to_network)@ == old(to_network)@ + sent && #[trigger] final(self).chunk_request_post(*old(self), sent, outcome, addr, chunk_x, chunk_y),
    {
        let idx: usize = match find_by_addr(&self.players, addr) {
            None => {
                assert(to_network@ =~= old(to_network)@ + Seq::<Outbound>::empty());
                assert(self.chunk_request_post(
                    *old(self),
                    Seq::<Outbound>::empty(),
                    PacketOutcome::UnknownPeer,
                    addr,
                    chunk_x,
                    chunk_y,
                ));
                return PacketOutcome::UnknownPeer;
            },
            Some(i) => i,
        };
        let id: u32 = self.players[idx].id;
        match self.mark_chunk_loaded_by_id(chunk_x, chunk_y, id) {
            Ok(chunk) => {
                let wire: NetworkChunk = chunk.to_network();
                to_network.push(
                    Outbound { addr, packet: PacketTypes::ServerChunkResponse { chunk: wire } },
                );
                proof {
                    let sent = seq![to_network@.last()];
                    assert(to_network@ =~= old(to_network)@ + sent);
                    assert(has_id(old(self).players@, id));
                    assert(self.chunk_request_post(
                        *old(self),
                        sent,
                        PacketOutcome::Done,
                        addr,
                        chunk_x,
                        chunk_y,
                    ));
                }
                PacketOutcome::Done
            },
            Err(e) => {
                assert(to_network@ =~= old(to_network)@ + Seq::<Outbound>::empty());
                assert(self.chunk_request_post(
                    *old(self),
                    Seq::<Outbound>::empty(),
                    PacketOutcome::Failed(e),
                    addr,
                    chunk_x,
                    chunk_y,
                ));
                PacketOutcome::Failed(e)
            },
        }
    }

    /// Carries out the notice of the peer `addr` that it dropped the chunk
    /// `(chunk_x, chunk_y)`.
    pub fn unload_chunk(&mut self, addr: PeerAddr, chunk_x: u32, chunk_y: u32) -> (outcome:
        PacketOutcome)
        requires
            old(self).wf(),
        ensures
            final(self).wf(),
            final(self).unload_post(*old(self), outcome, addr, chunk_x, chunk_y),
    {
        let idx: usize = match find_by_addr(&self.players, addr) {
            None => {
                return PacketOutcome::UnknownPeer;
            },
            Some(i) => i,
        };
        let id: u32 = self.players[idx].id;
        match self.unmark_loaded_chunk_for(chunk_x, chunk_y, id) {
            Ok(_) => PacketOutcome::Done,
            Err(e) => PacketOutcome::Failed(e),
        }
    }
}


impl World {
    /// Whether the player at `index` reaches the block `(x, y)`.
    pub fn reaches_block(&self, index: usize, x: u32, y: u32) -> (b: bool)
        requires
            index < self.players@.len(),
        ensures
            b == block_in_reach(self.players@[index as int].server_player, x, y),
    {
        let p: &Player = &self.players[index].server_player;
        let dx: i128 = (x as i128) * 1_562_500 + 781_250 - ((p.x as i128) + (
        p.hitbox_width as i128) * 781_250);
        let dy: i128 = (y as i128) * 1_562_500 + 781_250 - ((p.y as i128) + (
        p.hitbox_height as i128) * 781_250);
        in_reach(dx, dy)
    }

    /// Whether a solid block touches a side of the cell `(x, y)`.
    pub fn check_block_placement(&self, x: u32, y: u32) -> (b: bool)
        requires
            self.grid_wf(),
        ensures
            b == self.touches_solid(x, y),
    {
        let n: SurroundingBlocks = self.get_neighbours(x, y);
        cell_is_solid(n.top) || cell_is_solid(n.bottom) || cell_is_solid(n.left) || cell_is_solid(
            n.right,
        )
    }

    /// Finds the player of the peer `addr` and checks that it may touch the
    /// block `(x, y)`.
    pub fn may_touch(&self, addr: PeerAddr, x: u32, y: u32) -> (r: Result<usize, PacketOutcome>)
        requires
            self.wf(),
        ensures
            match r {
                Ok(i) => self.touch_refusal(addr, x, y) is None && i == index_of_addr(
                    self.players@,
                    addr,
                ) && i < self.players@.len() && self.in_bounds(x as int, y as int),
                Err(refusal) => self.touch_refusal(addr, x, y) == Some(refusal),
            },
    {
        let idx: usize = match find_by_addr(&self.players, addr) {
            None => {
                return Err(PacketOutcome::UnknownPeer);
            },
            Some(i) => i,
        };
        let (chunk_x, chunk_y): (u32, u32) = match self.get_chunk_block_is_in(x, y) {
            Err(e) => {
                return Err(PacketOutcome::Failed(e));
            },
            Ok(c) => c,
        };
        let slot: usize = self.chunk_slot(chunk_x, chunk_y);
        if !contains_id(&self.player_loaded[slot], self.players[idx].id) {
            return Err(PacketOutcome::ChunkNotLoaded);
        }
        if !self.reaches_block(idx, x, y) {
            return Err(PacketOutcome::OutOfRange);
        }
        Ok(idx)
    }

    /// Carries out the request of the peer `addr` to place a block in the
    /// cell `(x, y)`.
    pub fn place_block(&mut self, to_network: &mut Vec<Outbound>, addr: PeerAddr, x: u32, y: u32) -> (outcome:
        PacketOutcome)
        requires
            old(self).wf(),
        ensures
            final(self).wf(),
            exists|sent: Seq<Outbound>|
                final(to_network)@ == old(to_network)@ + sent && #[trigger] final(self).place_post(
                    *old(self),
                    sent,
                    outcome,
                    addr,
                    x,
                    y,
                ),
    {
        let ghost none = Seq::<Outbound>::empty();
        assert(to_network@ =~= old(to_network)@ + none);
        let idx: usize = match self.may_touch(addr, x, y) {
            Err(refusal) => {
                assert(self.place_post(*old(self), none, refusal, addr, x, y));
                return refusal;
            },
            Ok(i) => i,
        };
        let block_there: Block = match self.get_block(x, y) {
            Ok(b) => b,
            Err(_) => Block::Air,
        };
        if is_solid(block_there) {
            assert(self.place_post(*old(self), none, PacketOutcome::Occupied, addr, x, y));
            return PacketOutcome::Occupied;
        }
        if !self.free_placement && !self.check_block_placement(x, y) {
            assert(self.place_post(*old(self), none, PacketOutcome::Unsupported, addr, x, y));
            return PacketOutcome::Unsupported;
        }
        let block: Block = match self.players[idx].server_player.get_current_itemstack() {
            None => {
                assert(self.place_post(*old(self), none, PacketOutcome::NothingToPlace, addr, x, y));
                return PacketOutcome::NothingToPlace;
            },
            Some(stack) => match stack.item.block() {
                None => {
                    assert(self.place_post(
                        *old(self),
                        none,
                        PacketOutcome::NothingToPlace,
                        addr,
                        x,
                        y,
                    ));
                    return PacketOutcome::NothingToPlace;
                },
                Some(b) => b,
            },
        };
        let _ = self.set_block_and_notify(to_network, x, y, block);
        let ghost mid = *self;
        let ghost told = to_network@;
        let mut player: Player = self.players[idx].server_player;
        player.consume_current();
        self.set_player(idx, player);
        player.notify_inventory_changed(to_network, addr);
        proof {
            lemma_same_chunks_same_grid(mid, *self);
            let sent = old(self).update_block_packets(x, y, block).push(to_network@.last());
            assert(to_network@ =~= told.push(to_network@.last()));
            assert(to_network@ =~= old(to_network)@ + sent);
            assert(sent.drop_last() =~= old(self).update_block_packets(x, y, block));
            assert(self.place_post(*old(self), sent, PacketOutcome::Done, addr, x, y));
        }
        PacketOutcome::Done
    }

    /// Carries out the request of the peer `addr` to break the block in the
    /// cell `(x, y)`.
    pub fn break_block(&mut self, to_network: &mut Vec<Outbound>, addr: PeerAddr, x: u32, y: u32) -> (outcome:
        PacketOutcome)
        requires
            old(self).wf(),
        ensures
            final(self).wf(),
            exists|sent: Seq<Outbound>|
                final(to_network)@ == old(to_network)@ + sent && #[trigger] final(self).break_post(
                    *old(self),
                    sent,
                    outcome,
                    addr,
                    x,
                    y,
                ),
    {
        let ghost none = Seq::<Outbound>::empty();
        assert(to_network@ =~= old(to_network)@ + none);
        let idx: usize = match self.may_touch(addr, x, y) {
            Err(refusal) => {
                assert(self.break_post(*old(self), none, refusal, addr, x, y));
                return refusal;
            },
            Ok(i) => i,
        };
        let block: Block = match self.get_block(x, y) {
            Ok(b) => b,
            Err(_) => Block::Air,
        };
        if !is_solid(block) {
            assert(self.break_post(*old(self), none, PacketOutcome::NothingToBreak, addr, x, y));
            return PacketOutcome::NothingToBreak;
        }
        if self.players[idx].server_player.get_current_breaking_power() < block.hardness() {
            assert(self.break_post(*old(self), none, PacketOutcome::TooHard, addr, x, y));
            return PacketOutcome::TooHard;
        }
        let mut player: Player = self.players[idx].server_player;
        match block.drop_item() {
            Some(item) => {
                let _ = player.insert(ItemStack::single(item));
            },
            None => {},
        }
        player.notify_inventory_changed(to_network, addr);
        let ghost first = to_network@.last();
        let ghost told = to_network@;
        let _ = self.set_block_and_notify(to_network, x, y, Block::Air);
        let ghost mid = *self;
        self.set_player(idx, player);
        proof {
            lemma_same_chunks_same_grid(mid, *self);
            let sent = seq![first] + old(self).update_block_packets(x, y, Block::Air);
            assert(told =~= old(to_network)@.push(first));
            assert(to_network@ =~= old(to_network)@ + sent);
            assert(sent.skip(1) =~= old(self).update_block_packets(x, y, Block::Air));
            assert(self.break_post(*old(self), sent, PacketOutcome::Done, addr, x, y));
        }
        PacketOutcome::Done
    }

    /// Carries out the request of the peer `addr` to hit the player
    /// `target_id`.
    pub fn try_attack(&mut self, to_network: &mut Vec<Outbound>, addr: PeerAddr, target_id: u32) -> (outcome:
        PacketOutcome)
        requires
            old(self).wf(),
        ensures
            final(self).wf(),
            exists|sent: Seq<Outbound>|
                final(to_network)@ == old(to_network)@ + sent && #[trigger] final(self).attack_post(
                    *old(self),
                    sent,
                    outcome,
                    addr,
                    target_id,
                ),
    {
        let ghost none = Seq::<Outbound>::empty();
        assert(to_network@ =~= old(to_network)@ + none);
        let attacker_idx: usize = match find_by_addr(&self.players, addr) {
            None => {
                assert(self.attack_post(*old(self), none, PacketOutcome::UnknownPeer, addr, target_id));
                return PacketOutcome::UnknownPeer;
            },
            Some(i) => i,
        };
        let attacked_idx: usize = match find_by_id(&self.players, target_id) {
            None => {
                assert(self.attack_post(
                    *old(self),
                    none,
                    PacketOutcome::UnknownTarget,
                    addr,
                    target_id,
                ));
                return PacketOutcome::UnknownTarget;
            },
            Some(i) => i,
        };
        let attacker: Player = self.players[attacker_idx].server_player;
        let mut attacked: Player = self.players[attacked_idx].server_player;
        let dist_x: i128 = (attacked.x as i128) - (attacker.x as i128);
        let dist_y: i128 = (attacked.y as i128) - (attacker.y as i128);
        if !in_reach(dist_x, dist_y) {
            assert(self.attack_post(*old(self), none, PacketOutcome::OutOfRange, addr, target_id));
            return PacketOutcome::OutOfRange;
        }
        let damage: Scalar = attacker.get_current_damage();
        attacked.health = sat_sub(attacked.health, damage);
        to_network.push(
            Outbound {
                addr: self.players[attacked_idx].addr,
                packet: PacketTypes::ServerUpdateHealth { health: attacked.health },
            },
        );
        attacked.acceleration = knockback_for(dist_x, dist_y);
        self.set_player(attacked_idx, attacked);
        proof {
            let sent = seq![to_network@.last()];
            assert(to_network@ =~= old(to_network)@ + sent);
            assert(self.attack_post(*old(self), sent, PacketOutcome::Done, addr, target_id));
        }
        PacketOutcome::Done
    }

    /// Spawns the player at `index` anew in column `x`.
    pub fn respawn(&mut self, to_network: &mut Vec<Outbound>, index: usize, x: u32)
        requires
            old(self).wf(),
            index < old(self).players@.len(),
            x < old(self).width,
        ensures
            final(self).wf(),
            exists|sent: Seq<Outbound>|
                final(to_network)@ == old(to_network)@ + sent && #[trigger] final(self).is_respawn_of(*old(self), sent, index as int, x),
    {
        let old_x: Scalar = self.players[index].server_player.x;
        let old_y: Scalar = self.players[index].server_player.y;
        match Player::spawn_at(self, x) {
            Err(_) => {},
            Ok(player) => {
                let conn: ClientConnection = ClientConnection::with(&self.players[index], player);
                self.notify_player_moved(to_network, &conn, old_x, old_y);
                let ghost mid = *self;
                self.set_player(index, player);
                proof {
                    lemma_same_chunks_same_grid(mid, *self);
                    let sent = old(self).move_packets(conn, old_x, old_y);
                    assert(self.players@[index as int] == conn);
                    assert(forall|a: int| old(self).surface(a) == self.surface(a)) by {
                        assert forall|a: int, n: int| old(self).surface_below(a, n)
                            == self.surface_below(a, n) by {
                            lemma_same_surface(*old(self), *self, a, n);
                        }
                    }
                    assert(self.is_respawn_of(*old(self), sent, index as int, x));
                }
            },
        }
    }

    /// Spawns the player of the peer `addr` anew, in a column drawn from the
    /// spawn area.
    pub fn respawn_peer(&mut self, to_network: &mut Vec<Outbound>, addr: PeerAddr) -> (outcome:
        PacketOutcome)
        requires
            old(self).wf(),
        ensures
            final(self).wf(),
            !has_addr(old(self).players@, addr) ==> outcome == PacketOutcome::UnknownPeer
                && *final(self) == *old(self) && final(to_network)@ == old(to_network)@,
            has_addr(old(self).players@, addr) && !old(self).has_spawn_area() ==> outcome
                == PacketOutcome::NoSpawnArea && *final(self) == *old(self) && final(to_network)@
                == old(to_network)@,
            has_addr(old(self).players@, addr) && old(self).has_spawn_area() ==> outcome
                == PacketOutcome::Done && exists|sent: Seq<Outbound>, x: u32|
                old(self).spawn_start() <= x < old(self).spawn_end() && final(to_network)@ == old(
                    to_network,
                )@ + sent && #[trigger] final(self).is_respawn_of(
                    *old(self),
                    sent,
                    index_of_addr(old(self).players@, addr),
                    x,
                ),
    {
        match find_by_addr(&self.players, addr) {
            None => PacketOutcome::UnknownPeer,
            Some(idx) => {
                if !self.spawn_area_exists() {
                    return PacketOutcome::NoSpawnArea;
                }
                let spawn: u32 = self.get_spawn();
                self.respawn(to_network, idx, spawn);
                PacketOutcome::Done
            },
        }
    }

    /// Lets the peer `addr` join under the name `name`, in column `x` and
    /// under the id drawn as `draw`.
    pub fn let_in(
        &mut self,
        to_network: &mut Vec<Outbound>,
        addr: PeerAddr,
        name: String,
        x: u32,
        draw: u32,
    ) -> (outcome: PacketOutcome)
        requires
            old(self).wf(),
            x < old(self).width,
        ensures
            final(self).wf(),
            exists|sent: Seq<Outbound>|
                final(to_network)@ == old(to_network)@ + sent && #[trigger] final(self).is_admission_of(*old(self), sent, outcome, addr, name, x, draw),
    {
        match ClientConnection::spawn(addr, self, x, name, draw) {
            Err(e) => {
                PacketOutcome::Failed(e)
            },
            Ok(connection) => {
                let ghost joiner = connection;
                let outcome: PacketOutcome = self.join(to_network, connection);
                proof {
                    if outcome == PacketOutcome::Done {
                        let sent = old(self).join_packets(joiner);
                        assert(self.is_admission_of(*old(self), sent, outcome, addr, name, x, draw));
                    } else {
                        let sent = Seq::<Outbound>::empty();
                        assert(to_network@ =~= old(to_network)@ + sent);
                        assert(self.is_admission_of(*old(self), sent, outcome, addr, name, x, draw));
                    }
                }
                outcome
            },
        }
    }

    /// Lets the peer `addr` join under the name `name`, in a column drawn
    /// from the spawn area and under an id drawn at random.
    pub fn hello(&mut self, to_network: &mut Vec<Outbound>, addr: PeerAddr, name: String) -> (outcome:
        PacketOutcome)
        requires
            old(self).wf(),
        ensures
            final(self).wf(),
            exists|sent: Seq<Outbound>, x: u32, draw: u32|
                final(to_network)@ == old(to_network)@ + sent && #[trigger] final(self).hello_post(
                    *old(self),
                    sent,
                    outcome,
                    addr,
                    name,
                    x,
                    draw,
                ),
    {
        if !self.spawn_area_exists() {
            proof {
                let none = Seq::<Outbound>::empty();
                assert(to_network@ =~= old(to_network)@ + none);
                assert(self.hello_post(
                    *old(self),
                    none,
                    PacketOutcome::NoSpawnArea,
                    addr,
                    name,
                    0,
                    0,
                ));
            }
            return PacketOutcome::NoSpawnArea;
        }
        let spawn_x: u32 = self.get_spawn();
        let draw: u32 = random_u32();
        let outcome: PacketOutcome = self.let_in(to_network, addr, name, spawn_x, draw);
        proof {
            let sent = choose|sent: Seq<Outbound>|
                to_network@ == old(to_network)@ + sent && #[trigger] self.is_admission_of(
                    *old(self),
                    sent,
                    outcome,
                    addr,
                    name,
                    spawn_x,
                    draw,
                );
            assert(self.hello_post(*old(self), sent, outcome, addr, name, spawn_x, draw));
        }
        outcome
    }
}

/// Two worlds with the same blocks have the same ground.
pub proof fn lemma_same_surface(a: World, b: World, x: int, n: int)
    requires
        a.chunks == b.chunks,
        a.same_shape(b),
    ensures
        a.surface_below(x, n) == b.surface_below(x, n),
    decreases n,
{
    lemma_same_chunks_same_grid(a, b);
    if n > 0 {
        lemma_same_surface(a, b, x, n - 1);
    }
}


impl World {
    /// What the goodbye of the peer `addr` does: its player leaves the world
    /// and the others are told.
    pub open spec fn goodbye_post(
        &self,
        before: World,
        sent: Seq<Outbound>,
        outcome: PacketOutcome,
        addr: PeerAddr,
    ) -> bool {
        if has_addr(before.players@, addr) {
            outcome == PacketOutcome::Done && self.is_departure_of(
                before,
                index_of_addr(before.players@, addr),
            ) && sent == before.goodbye_packets(addr)
        } else {
            outcome == PacketOutcome::UnknownPeer && *self == before && sent == Seq::<
                Outbound,
            >::empty()
        }
    }

    /// What the request of the peer `addr` to spawn anew does: its player
    /// spawns in a column `x` of the spawn area, if there is one.
    pub open spec fn respawn_post(
        &self,
        before: World,
        sent: Seq<Outbound>,
        outcome: PacketOutcome,
        addr: PeerAddr,
        x: u32,
    ) -> bool {
        if has_addr(before.players@, addr) && before.has_spawn_area() {
            outcome == PacketOutcome::Done && before.spawn_start() <= x < before.spawn_end()
                && self.is_respawn_of(before, sent, index_of_addr(before.players@, addr), x)
        } else if has_addr(before.players@, addr) {
            outcome == PacketOutcome::NoSpawnArea && *self == before && sent == Seq::<
                Outbound,
            >::empty()
        } else {
            outcome == PacketOutcome::UnknownPeer && *self == before && sent == Seq::<
                Outbound,
            >::empty()
        }
    }

    /// What the request of the peer `addr` to join under the name `name`
    /// does: it is let in, in the column `x` of the spawn area and under the
    /// id drawn as `draw`; if the spawn area is empty, it is refused.
    pub open spec fn hello_post(
        &self,
        before: World,
        sent: Seq<Outbound>,
        outcome: PacketOutcome,
        addr: PeerAddr,
        name: String,
        x: u32,
        draw: u32,
    ) -> bool {
        if before.has_spawn_area() {
            before.spawn_start() <= x < before.spawn_end() && self.is_admission_of(
                before,
                sent,
                outcome,
                addr,
                name,
                x,
                draw,
            )
        } else {
            outcome == PacketOutcome::NoSpawnArea && *self == before && sent == Seq::<
                Outbound,
            >::empty()
        }
    }

    /// What the packet `packet` from the peer `addr` does to the world
    /// `before`: this world comes of it, `sent` goes out, and `outcome` is
    /// reported. A packet from a peer that has not joined does nothing, but
    /// for a request to join; a packet of a kind that only the server sends
    /// does nothing.
    pub open spec fn dispatch_post(
        &self,
        before: World,
        sent: Seq<Outbound>,
        outcome: PacketOutcome,
        packet: PacketTypes,
        addr: PeerAddr,
    ) -> bool {
        let quiet = sent == Seq::<Outbound>::empty();
        match packet {
            PacketTypes::ClientHello { name } => exists|x: u32, draw: u32| #[trigger]
                self.hello_post(before, sent, outcome, addr, name, x, draw),
            PacketTypes::ClientGoodbye {  } => self.goodbye_post(before, sent, outcome, addr),
            PacketTypes::ClientRequestChunk {
                chunk_coords_x,
                chunk_coords_y,
            } => self.chunk_request_post(
                before,
                sent,
                outcome,
                addr,
                chunk_coords_x,
                chunk_coords_y,
            ),
            PacketTypes::ClientUnloadChunk { chunk_coords_x, chunk_coords_y } => quiet
                && self.unload_post(before, outcome, addr, chunk_coords_x, chunk_coords_y),
            PacketTypes::ClientPlaceBlock { x, y } => self.place_post(
                before,
                sent,
                outcome,
                addr,
                x,
                y,
            ),
            PacketTypes::ClientBreakBlock { x, y } => self.break_post(
                before,
                sent,
                outcome,
                addr,
                x,
                y,
            ),
            PacketTypes::ClientPlayerJump {  } => quiet && self.jump_post(before, outcome, addr),
            PacketTypes::ClientPlayerXVelocity { vel_x } => quiet && self.velocity_post(
                before,
                outcome,
                addr,
                vel_x,
            ),
            PacketTypes::ClientChangeSlot { slot } => quiet && self.slot_post(
                before,
                outcome,
                addr,
                slot,
            ),
            PacketTypes::ClientHeartbeat {  } => quiet && self.alive_post(before, outcome, addr),
            PacketTypes::ClientSendMessage { msg } => *self == before && before.say_post(
                sent,
                outcome,
                addr,
                msg,
            ),
            PacketTypes::ClientTryAttack { player_id } => self.attack_post(
                before,
                sent,
                outcome,
                addr,
                player_id,
            ),
            PacketTypes::ClientPlayerRespawn {  } => exists|x: u32| #[trigger]
                self.respawn_post(before, sent, outcome, addr, x),
            _ => quiet && outcome == PacketOutcome::NotForServer && *self == before,
        }
    }
}

/// Carries out the packet `packet` that came from the peer `addr`, and
/// reports what became of it.
pub fn process_client_packet(
    to_network: &mut Vec<Outbound>,
    packet: PacketTypes,
    addr: PeerAddr,
    world: &mut World,
) -> (outcome: PacketOutcome)
    requires
        old(world).wf(),
    ensures
        final(world).wf(),
        outcome == PacketOutcome::NotForServer <==> !kind_of(packet).from_client(),
        exists|sent: Seq<Outbound>|
            final(to_network)@ == old(to_network)@ + sent && #[trigger] final(world).dispatch_post(
                *old(world),
                sent,
                outcome,
                packet,
                addr,
            ),
{
    let ghost none = Seq::<Outbound>::empty();
    assert(to_network@ =~= old(to_network)@ + none);
    match packet {
        PacketTypes::ClientHello { name } => {
            let outcome: PacketOutcome = world.hello(to_network, addr, name);
            proof {
                let (sent, x, draw) = choose|sent: Seq<Outbound>, x: u32, draw: u32|
                    to_network@ == old(to_network)@ + sent && #[trigger] world.hello_post(
                        *old(world),
                        sent,
                        outcome,
                        addr,
                        name,
                        x,
                        draw,
                    );
                assert(world.dispatch_post(*old(world), sent, outcome, packet, addr));
            }
            outcome
        },
        PacketTypes::ClientGoodbye {  } => {
            let outcome: PacketOutcome = world.goodbye(to_network, addr);
            proof {
                let sent = if has_addr(old(world).players@, addr) {
                    old(world).goodbye_packets(addr)
                } else {
                    none
                };
                assert(world.dispatch_post(*old(world), sent, outcome, packet, addr));
            }
            outcome
        },
        PacketTypes::ClientRequestChunk { chunk_coords_x, chunk_coords_y } => {
            let outcome: PacketOutcome = world.request_chunk(
                to_network,
                addr,
                chunk_coords_x,
                chunk_coords_y,
            );
            proof {
                let sent = choose|sent: Seq<Outbound>|
                    to_network@ == old(to_network)@ + sent && #[trigger] world.chunk_request_post(
                        *old(world),
                        sent,
                        outcome,
                        addr,
                        chunk_coords_x,
                        chunk_coords_y,
                    );
                assert(world.dispatch_post(*old(world), sent, outcome, packet, addr));
            }
            outcome
        },
        PacketTypes::ClientUnloadChunk { chunk_coords_x, chunk_coords_y } => {
            let outcome: PacketOutcome = world.unload_chunk(addr, chunk_coords_x, chunk_coords_y);
            assert(world.dispatch_post(*old(world), none, outcome, packet, addr));
            outcome
        },
        PacketTypes::ClientPlaceBlock { x, y } => {
            let outcome: PacketOutcome = world.place_block(to_network, addr, x, y);
            proof {
                let sent = choose|sent: Seq<Outbound>|
                    to_network@ == old(to_network)@ + sent && #[trigger] world.place_post(
                        *old(world),
                        sent,
                        outcome,
                        addr,
                        x,
                        y,
                    );
                assert(world.dispatch_post(*old(world), sent, outcome, packet, addr));
            }
            outcome
        },
        PacketTypes::ClientBreakBlock { x, y } => {
            let outcome: PacketOutcome = world.break_block(to_network, addr, x, y);
            proof {
                let sent = choose|sent: Seq<Outbound>|
                    to_network@ == old(to_network)@ + sent && #[trigger] world.break_post(
                        *old(world),
                        sent,
                        outcome,
                        addr,
                        x,
                        y,
                    );
                assert(world.dispatch_post(*old(world), sent, outcome, packet, addr));
            }
            outcome
        },
        PacketTypes::ClientPlayerJump {  } => {
            let outcome: PacketOutcome = world.request_jump(addr);
            assert(world.dispatch_post(*old(world), none, outcome, packet, addr));
            outcome
        },
        PacketTypes::ClientPlayerXVelocity { vel_x } => {
            let outcome: PacketOutcome = world.set_x_velocity(addr, vel_x);
            assert(world.dispatch_post(*old(world), none, outcome, packet, addr));
            outcome
        },
        PacketTypes::ClientChangeSlot { slot } => {
            let outcome: PacketOutcome = world.change_slot(addr, slot);
            assert(world.dispatch_post(*old(world), none, outcome, packet, addr));
            outcome
        },
        PacketTypes::ClientHeartbeat {  } => {
            let outcome: PacketOutcome = world.note_alive(addr);
            assert(world.dispatch_post(*old(world), none, outcome, packet, addr));
            outcome
        },
        PacketTypes::ClientSendMessage { msg } => {
            let outcome: PacketOutcome = world.say(to_network, addr, msg);
            proof {
                let sent = choose|sent: Seq<Outbound>|
                    to_network@ == old(to_network)@ + sent && #[trigger] world.say_post(
                        sent,
                        outcome,
                        addr,
                        msg,
                    );
                assert(world.dispatch_post(*old(world), sent, outcome, packet, addr));
            }
            outcome
        },
        PacketTypes::ClientTryAttack { player_id } => {
            let outcome: PacketOutcome = world.try_attack(to_network, addr, player_id);
            proof {
                let sent = choose|sent: Seq<Outbound>|
                    to_network@ == old(to_network)@ + sent && #[trigger] world.attack_post(
                        *old(world),
                        sent,
                        outcome,
                        addr,
                        player_id,
                    );
                assert(world.dispatch_post(*old(world), sent, outcome, packet, addr));
            }
            outcome
        },
        PacketTypes::ClientPlayerRespawn {  } => {
            let outcome: PacketOutcome = world.respawn_peer(to_network, addr);
            proof {
                if has_addr(old(world).players@, addr) && old(world).has_spawn_area() {
                    let (sent, x) = choose|sent: Seq<Outbound>, x: u32|
                        old(world).spawn_start() <= x < old(world).spawn_end() && to_network@
                            == old(to_network)@ + sent && #[trigger] world.is_respawn_of(
                            *old(world),
                            sent,
                            index_of_addr(old(world).players@, addr),
                            x,
                        );
                    assert(world.respawn_post(*old(world), sent, outcome, addr, x));
                    assert(world.dispatch_post(*old(world), sent, outcome, packet, addr));
                } else {
                    assert(world.respawn_post(*old(world), none, outcome, addr, 0));
                    assert(world.dispatch_post(*old(world), none, outcome, packet, addr));
                }
            }
            outcome
        },
        _ => {
            assert(world.dispatch_post(*old(world), none, PacketOutcome::NotForServer, packet, addr));
            PacketOutcome::NotForServer
        },
    }
}

/// One heartbeat round. Every player that bears the mark of life is sent a
/// heartbeat and loses the mark; a reply will give it back. Every player that
/// bears none, having sent nothing since the last round, is then kicked for
/// inactivity, one after the other in the order of the list of players.
pub fn heartbeat(to_network: &mut Vec<Outbound>, world: &mut World)
    requires
        old(world).wf(),
    ensures
        final(world).wf(),
        final(world).is_crowd_change_of(
            *old(world),
            purged_players(silenced(old(world).players@), idle_ids(old(world).players@)),
            purged_interest(old(world).interest_view(), idle_ids(old(world).players@)),
        ),
        exists|reason: String|
            reason@ == "Kicked due to inactivity."@ && final(to_network)@ == old(to_network)@
                + beat_packets(old(world).players@) + #[trigger] old(world).purge_packets(
                silenced(old(world).players@),
                old(world).interest_view(),
                idle_ids(old(world).players@),
                reason,
            ),
{
    let mut inactive: Vec<u32> = Vec::new();
    let mut i: usize = 0;
    while i < world.players.len()
        invariant
            0 <= i <= world.players@.len(),
            world.players@.len() == old(world).players@.len(),
            world.chunks == old(world).chunks,
            world.same_shape(*old(world)),
            world.player_loaded == old(world).player_loaded,
            world.physics_update_queue == old(world).physics_update_queue,
            world.to_update == old(world).to_update,
            world.spawn_point == old(world).spawn_point,
            world.spawn_range == old(world).spawn_range,
            forall|k: int|
                0 <= k < i ==> #[trigger] world.players@[k] == (ClientConnection {
                    connection_alive: false,
                    ..old(world).players@[k]
                }),
            forall|k: int|
                i <= k < world.players@.len() ==> #[trigger] world.players@[k] == old(world).players@[k],
            to_network@ == old(to_network)@ + beat_packets(old(world).players@.take(i as int)),
            inactive@ == idle_ids(old(world).players@.take(i as int)),
        decreases world.players@.len() - i,
    {
        assert(old(world).players@.take(i + 1).drop_last() =~= old(world).players@.take(i as int));
        if world.players[i].connection_alive {
            to_network.push(
                Outbound { addr: world.players[i].addr, packet: PacketTypes::ServerHeartbeat {  } },
            );
            world.players[i].connection_alive = false;
        } else {
            inactive.push(world.players[i].id);
        }
        i = i + 1;
        assert(to_network@ =~= old(to_network)@ + beat_packets(
            old(world).players@.take(i as int),
        ));
    }
    let ghost quiet = silenced(old(world).players@);
    let ghost interest = old(world).interest_view();
    proof {
        assert(old(world).players@.take(old(world).players@.len() as int) =~= old(world).players@);
        assert(world.players@ =~= quiet);
        lemma_same_chunks_same_grid(*old(world), *world);
        assert(ids_of(world.players@) =~= ids_of(old(world).players@));
        assert forall|k: int| 0 <= k < world.players@.len() implies (
        #[trigger] world.players@[k]).server_player.wf() by {
            assert(old(world).players@[k].server_player.wf());
        }
        assert forall|c: int, k: int|
            0 <= c < world.player_loaded@.len() && 0 <= k
                < world.player_loaded@[c]@.len() implies has_id(
            world.players@,
            #[trigger] world.player_loaded@[c]@[k],
        ) by {
            let id = world.player_loaded@[c]@[k];
            assert(has_id(old(world).players@, old(world).player_loaded@[c]@[k]));
            let w = choose|w: int|
                0 <= w < old(world).players@.len() && old(world).players@[w].id == id;
            assert(world.players@[w].id == id);
        }
        assert(world.interest_view() =~= interest);
    }
    let reason: String = "Kicked due to inactivity.".to_owned();
    let ghost sent = to_network@;
    let mut k: usize = 0;
    while k < inactive.len()
        invariant
            0 <= k <= inactive@.len(),
            world.wf(),
            world.is_crowd_change_of(
                *old(world),
                purged_players(quiet, inactive@.take(k as int)),
                purged_interest(interest, inactive@.take(k as int)),
            ),
            to_network@ == sent + old(world).purge_packets(
                quiet,
                interest,
                inactive@.take(k as int),
                reason,
            ),
        decreases inactive@.len() - k,
    {
        assert(inactive@.take(k + 1).drop_last() =~= inactive@.take(k as int));
        let ghost prev = *world;
        let ghost prev_sent = to_network@;
        let found: bool = world.kick_for(to_network, inactive[k], &reason);
        proof {
            let id = inactive@[k as int];
            if !found {
                lemma_unload_stranger(prev, id);
            } else {
                assert(prev.kick_packets(prev.players@, prev.interest_view(), id, reason)
                    =~= old(world).kick_packets(prev.players@, prev.interest_view(), id, reason));
            }
        }
        k = k + 1;
        assert(to_network@ =~= sent + old(world).purge_packets(
            quiet,
            interest,
            inactive@.take(k as int),
            reason,
        ));
    }
    assert(inactive@.take(inactive@.len() as int) =~= inactive@);
    assert(to_network@ =~= old(to_network)@ + beat_packets(old(world).players@) + old(world).purge_packets(quiet, interest, idle_ids(old(world).players@), reason));
}

} // verus!
