//! The periodic work of the server: the physics tick over all players, the
//! flush of queued position updates, and the world tick.

use vstd::prelude::*;
use crate::connection::{has_id, ids_of, ClientConnection, PeerAddr};
use crate::movement::{queue_put, queue_view, update_view, UpdateView};
use crate::network::{Outbound, PacketTypes};
use crate::player::{Player, Surrounding};
use crate::scalar::{nearest_cell, round_to_cell, Scalar};
use crate::world::{lemma_same_chunks_same_grid, PositionUpdate, World};

verus! {

/// The messages that carry one queued position update: one to each address
/// it lists, in order.
pub open spec fn update_packets(id: u32, update: UpdateView) -> Seq<Outbound> {
    Seq::new(
        update.2.len(),
        |k: int|
            Outbound {
                addr: update.2[k],
                packet: PacketTypes::ServerPlayerUpdatePos {
                    player_id: id,
                    pos_x: update.0,
                    pos_y: update.1,
                },
            },
    )
}

/// The messages that carry the waiting position updates of the players
/// `order`, player by player.
pub open spec fn flush_packets(order: Seq<u32>, queue: Map<u32, UpdateView>) -> Seq<Outbound>
    decreases order.len(),
{
    if order.len() == 0 {
        Seq::empty()
    } else {
        flush_packets(order.drop_last(), queue) + update_packets(order.last(), queue[order.last()])
    }
}

/// Neither half of a physics tick touches what a player carries.
pub proof fn lemma_tick_keeps_inventory(p: Player, s: Surrounding)
    ensures
        p.after_move(s).0.inventory == p.inventory,
        p.after_move(s).0.selected_slot == p.selected_slot,
        p.after_move(s).0.health == p.health,
        p.after_collision(s).0.inventory == p.inventory,
        p.after_collision(s).0.selected_slot == p.selected_slot,
        p.after_collision(s).0.health == p.health,
        p.wf() ==> p.after_move(s).0.wf() && p.after_collision(s).0.wf(),
{
}

impl World {
    /// The twelve cells around the hitbox of `player`, taken on the grid
    /// cell nearest to the player's position.
    pub open spec fn neighbourhood(&self, player: Player) -> Surrounding {
        let gx = nearest_cell(player.x as int);
        let gy = nearest_cell(player.y as int);
        let w = player.hitbox_width as int;
        let h = player.hitbox_height as int;
        Surrounding {
            top_left: self.sampled(gx - 1, gy + h),
            top_center: self.sampled(gx, gy + h),
            top_right: self.sampled(gx + w, gy + h),
            left_up: self.sampled(gx - 1, gy + h / 2),
            upper_body: self.sampled(gx, gy + h / 2),
            right_up: self.sampled(gx + w, gy + h / 2),
            left_down: self.sampled(gx - 1, gy),
            lower_body: self.sampled(gx, gy),
            right_down: self.sampled(gx + w, gy),
            bottom_left: self.sampled(gx - 1, gy - 1),
            bottom_center: self.sampled(gx, gy - 1),
            bottom_right: self.sampled(gx + w, gy - 1),
        }
    }

    /// One physics tick of one player: the player after motion and
    /// collision in its neighbourhood, and whether either moved it.
    pub open spec fn stepped(&self, conn: ClientConnection) -> (ClientConnection, bool) {
        let s = self.neighbourhood(conn.server_player);
        let (moved, in_motion) = conn.server_player.after_move(s);
        let (settled, pushed) = moved.after_collision(s);
        (ClientConnection { server_player: settled, ..conn }, in_motion || pushed)
    }

    /// The messages that a physics tick sends at once for the first `n`
    /// players.
    pub open spec fn tick_packets(&self, n: int) -> Seq<Outbound>
        decreases n,
    {
        if n <= 0 {
            Seq::empty()
        } else {
            let conn = self.players@[n - 1];
            let next = self.stepped(conn);
            if next.1 {
                self.tick_packets(n - 1) + self.move_packets(
                    next.0,
                    conn.server_player.x,
                    conn.server_player.y,
                )
            } else {
                self.tick_packets(n - 1)
            }
        }
    }

    /// The queue of position updates after a physics tick has dealt with the
    /// first `n` players.
    pub open spec fn tick_queue(&self, n: int) -> Map<u32, UpdateView>
        decreases n,
    {
        if n <= 0 {
            queue_view(self.physics_update_queue@)
        } else {
            let conn = self.players@[n - 1];
            let next = self.stepped(conn);
            if next.1 {
                queue_put(
                    self.tick_queue(n - 1),
                    conn.id,
                    (
                        next.0.server_player.x,
                        next.0.server_player.y,
                        self.move_recipients(next.0),
                    ),
                )
            } else {
                self.tick_queue(n - 1)
            }
        }
    }

    /// The twelve cells around the hitbox of `player`.
    pub fn get_neighbours_of_player(&self, player: &Player) -> (s: Surrounding)
        requires
            self.grid_wf(),
        ensures
            s == self.neighbourhood(*player),
    {
        let grid_x: i64 = round_to_cell(player.x);
        let grid_y: i64 = round_to_cell(player.y);
        let hitbox_width: i64 = player.hitbox_width as i64;
        let hitbox_height: i64 = player.hitbox_height as i64;
        let half: i64 = (player.hitbox_height / 2) as i64;
        Surrounding {
            top_left: self.sample(grid_x - 1, grid_y + hitbox_height),
            top_center: self.sample(grid_x, grid_y + hitbox_height),
            top_right: self.sample(grid_x + hitbox_width, grid_y + hitbox_height),
            left_up: self.sample(grid_x - 1, grid_y + half),
            upper_body: self.sample(grid_x, grid_y + half),
            right_up: self.sample(grid_x + hitbox_width, grid_y + half),
            left_down: self.sample(grid_x - 1, grid_y),
            lower_body: self.sample(grid_x, grid_y),
            right_down: self.sample(grid_x + hitbox_width, grid_y),
            bottom_left: self.sample(grid_x - 1, grid_y - 1),
            bottom_center: self.sample(grid_x, grid_y - 1),
            bottom_right: self.sample(grid_x + hitbox_width, grid_y - 1),
        }
    }

    /// One physics tick. Every player, in the order of the list of players,
    /// goes through motion and collision in the neighbourhood it had when the
    /// tick began; for each one that either of them moved, the peers are told
    /// as [`World::notify_player_moved`] says, by the positions that the
    /// players had when the tick began.
    pub fn physics_tick(&mut self, to_network: &mut Vec<Outbound>)
        requires
            old(self).wf(),
        ensures
            final(self).wf(),
            final(self).chunks == old(self).chunks,
            final(self).same_shape(*old(self)),
            final(self).player_loaded == old(self).player_loaded,
            final(self).to_update == old(self).to_update,
            final(self).spawn_point == old(self).spawn_point,
            final(self).spawn_range == old(self).spawn_range,
            final(self).players@.len() == old(self).players@.len(),
            forall|i: int|
                0 <= i < old(self).players@.len() ==> #[trigger] final(self).players@[i] == old(self).stepped(old(self).players@[i]).0,
            final(to_network)@ == old(to_network)@ + old(self).tick_packets(
                old(self).players@.len() as int,
            ),
            queue_view(final(self).physics_update_queue@) == old(self).tick_queue(
                old(self).players@.len() as int,
            ),
    {
        let mut new_players: Vec<ClientConnection> = Vec::new();
        let mut i: usize = 0;
        while i < self.players.len()
            invariant
                old(self).wf(),
                self.wf(),
                0 <= i <= self.players@.len(),
                self.chunks == old(self).chunks,
                self.same_shape(*old(self)),
                self.players == old(self).players,
                self.player_loaded == old(self).player_loaded,
                self.to_update == old(self).to_update,
                self.spawn_point == old(self).spawn_point,
                self.spawn_range == old(self).spawn_range,
                new_players@.len() == i,
                forall|k: int|
                    0 <= k < i ==> #[trigger] new_players@[k] == old(self).stepped(
                        old(self).players@[k],
                    ).0,
                to_network@ == old(to_network)@ + old(self).tick_packets(i as int),
                queue_view(self.physics_update_queue@) == old(self).tick_queue(i as int),
            decreases self.players@.len() - i,
        {
            let surr: Surrounding = self.get_neighbours_of_player(&self.players[i].server_player);
            let old_x: Scalar = self.players[i].server_player.x;
            let old_y: Scalar = self.players[i].server_player.y;
            let (moved, has_jumped): (Player, bool) = self.players[i].server_player.do_move(surr);
            let (settled, has_changed_collision): (Player, bool) = moved.do_collision(surr);
            let new_player: ClientConnection = ClientConnection::with(&self.players[i], settled);
            proof {
                lemma_same_chunks_same_grid(*old(self), *self);
                assert(surr == old(self).neighbourhood(old(self).players@[i as int].server_player));
                assert(new_player == old(self).stepped(old(self).players@[i as int]).0);
            }
            let ghost waiting = queue_view(self.physics_update_queue@);
            if has_jumped || has_changed_collision {
                let ghost before = *self;
                self.notify_player_moved(to_network, &new_player, old_x, old_y);
                proof {
                    assert(before.move_packets(new_player, old_x, old_y) =~= old(self).move_packets(new_player, old_x, old_y));
                    assert(before.move_recipients(new_player) =~= old(self).move_recipients(
                        new_player,
                    ));
                    assert(queue_view(self.physics_update_queue@) == queue_put(
                        waiting,
                        new_player.id,
                        (
                            new_player.server_player.x,
                            new_player.server_player.y,
                            old(self).move_recipients(new_player),
                        ),
                    ));
                }
            }
            new_players.push(new_player);
            i = i + 1;
            assert(to_network@ =~= old(to_network)@ + old(self).tick_packets(i as int));
            assert(queue_view(self.physics_update_queue@) == old(self).tick_queue(i as int));
        }
        self.players = new_players;
        proof {
            lemma_same_chunks_same_grid(*old(self), *self);
            assert(ids_of(self.players@) =~= ids_of(old(self).players@));
            assert forall|k: int| 0 <= k < self.players@.len() implies (
            #[trigger] self.players@[k]).server_player.wf() by {
                let conn = old(self).players@[k];
                let s = old(self).neighbourhood(conn.server_player);
                lemma_tick_keeps_inventory(conn.server_player, s);
                lemma_tick_keeps_inventory(conn.server_player.after_move(s).0, s);
            }
            assert forall|c: int, k: int|
                0 <= c < self.player_loaded@.len() && 0 <= k
                    < self.player_loaded@[c]@.len() implies has_id(
                self.players@,
                #[trigger] self.player_loaded@[c]@[k],
            ) by {
                let id = self.player_loaded@[c]@[k];
                assert(has_id(old(self).players@, old(self).player_loaded@[c]@[k]));
                let w = choose|w: int|
                    0 <= w < old(self).players@.len() && old(self).players@[w].id == id;
                assert(self.players@[w].id == id);
            }
        }
    }

    /// Sends every waiting position update to the addresses it lists and
    /// leaves none waiting. The updates go out player by player, each player
    /// that has one waiting once; in which order the players come is not
    /// fixed.
    pub fn flush_physics_queue(&mut self, to_network: &mut Vec<Outbound>)
        ensures
            *final(self) == (World {
                physics_update_queue: final(self).physics_update_queue,
                ..*old(self)
            }),
            final(self).physics_update_queue@ == Map::<u32, PositionUpdate>::empty(),
            exists|order: Seq<u32>|
                {
                    &&& order.no_duplicates()
                    &&& forall|id: u32|
                        order.contains(id) <==> old(self).physics_update_queue@.contains_key(id)
                    &&& final(to_network)@ == old(to_network)@ + #[trigger] flush_packets(
                        order,
                        queue_view(old(self).physics_update_queue@),
                    )
                },
            old(self).wf() ==> final(self).wf(),
    {
        let ghost waiting = self.physics_update_queue@;
        let ghost queue = queue_view(self.physics_update_queue@);
        let ghost mut order: Seq<u32> = Seq::empty();
        for entry in it: self.physics_update_queue.iter()
            invariant
                *self == *old(self),
                waiting == self.physics_update_queue@,
                queue == queue_view(waiting),
                order.len() == it.index(),
                forall|i: int| 0 <= i < order.len() ==> order[i] == *(#[trigger] it.seq()[i]).0,
                it.seq().no_duplicates(),
                forall|id: u32| #[trigger]
                    waiting.contains_key(id) ==> it.seq().contains((&id, &waiting[id])),
                forall|i: int|
                    0 <= i < it.seq().len() ==> waiting.contains_key(*(#[trigger] it.seq()[i]).0)
                        && waiting[*it.seq()[i].0] == *it.seq()[i].1,
                order.no_duplicates(),
                it.index() == it.seq().len() ==> (forall|id: u32|
                    order.contains(id) <==> waiting.contains_key(id)),
                to_network@ == old(to_network)@ + flush_packets(order, queue),
        {
            let player_id: u32 = *entry.0;
            let update: &PositionUpdate = entry.1;
            let pos_x: Scalar = update.pos_x;
            let pos_y: Scalar = update.pos_y;
            let ghost sent = to_network@;
            let ghost expected = update_packets(player_id, update_view(*update));
            let mut k: usize = 0;
            while k < update.recievers.len()
                invariant
                    expected == update_packets(player_id, update_view(*update)),
                    pos_x == update.pos_x,
                    pos_y == update.pos_y,
                    0 <= k <= update.recievers@.len(),
                    to_network@ == sent + expected.subrange(0, k as int),
                decreases update.recievers@.len() - k,
            {
                let reciever: PeerAddr = update.recievers[k];
                to_network.push(
                    Outbound {
                        addr: reciever,
                        packet: PacketTypes::ServerPlayerUpdatePos { player_id, pos_x, pos_y },
                    },
                );
                k = k + 1;
                assert(to_network@ =~= sent + expected.subrange(0, k as int));
            }
            let ghost walked = order;
            proof {
                order = order.push(player_id);
            }
            assert(expected.subrange(0, expected.len() as int) =~= expected);
            assert(order.drop_last() =~= walked);
            assert(queue[player_id] == update_view(*update));
            assert(to_network@ =~= old(to_network)@ + flush_packets(order, queue));
            assert forall|i: int, j: int|
                0 <= i < order.len() && 0 <= j < order.len() && i != j implies order[i]
                != order[j] by {
                assert(waiting[*it.seq()[i].0] == *it.seq()[i].1 && waiting[*it.seq()[j].0]
                    == *it.seq()[j].1);
                assert(it.seq()[i] != it.seq()[j]);
            }
            assert forall|id: u32| order.len() == it.seq().len() implies (order.contains(id)
                <==> waiting.contains_key(id)) by {
                assert(waiting.contains_key(id) ==> order[it.seq().index_of((&id, &waiting[id]))]
                    == id);
                assert(order.contains(id) ==> waiting.contains_key(
                    *it.seq()[choose|i: int| 0 <= i < order.len() && order[i] == id].0,
                ));
            }
        }
        self.physics_update_queue.clear();
        proof {
            lemma_same_chunks_same_grid(*old(self), *self);
        }
    }

    /// One world tick: one tick of the water automaton.
    pub fn world_tick(&mut self, to_network: &mut Vec<Outbound>)
        requires
            old(self).wf(),
        ensures
            final(self).wf(),
            final(self).queue_is_wet(),
            final(self).is_flood_of(*old(self), old(self).flow_targets(old(self).to_update@)),
            final(self).to_update@ == old(self).flow_targets(old(self).to_update@),
            final(to_network)@ == old(to_network)@ + old(self).flow_packets(
                old(self).flow_targets(old(self).to_update@),
            ),
            final(self).players == old(self).players,
            final(self).player_loaded == old(self).player_loaded,
            final(self).physics_update_queue == old(self).physics_update_queue,
            final(self).spawn_point == old(self).spawn_point,
            final(self).spawn_range == old(self).spawn_range,
    {
        let _ = self.tick_water(to_network);
    }
}

} // verus!
