//! What follows from a player's move: who sees the player appear or vanish,
//! who is to hear of the new position, and the queue in which position
//! updates wait for the next flush.

use vstd::prelude::*;
use crate::connection::{find_by_id, has_id, index_of_id, ClientConnection, PeerAddr};
use crate::grid::distinct;
use crate::lists::{contains_id, lemma_without, without};
use crate::network::{Outbound, PacketTypes};
use crate::scalar::{nearest_block, round_to_block, Scalar};
use crate::world::{lemma_same_chunks_same_grid, PositionUpdate, World};

verus! {

/// What a queued position update says: the position and the addresses to
/// tell.
pub type UpdateView = (Scalar, Scalar, Seq<PeerAddr>);

/// A queued position update as a mathematical value.
pub open spec fn update_view(update: PositionUpdate) -> UpdateView {
    (update.pos_x, update.pos_y, update.recievers@)
}

/// The waiting position updates as a mathematical value: for each player
/// that has one waiting, its update.
pub open spec fn queue_view(queue: Map<u32, PositionUpdate>) -> Map<u32, UpdateView> {
    queue.map_values(|update: PositionUpdate| update_view(update))
}

/// The waiting updates with `update` as the update of player `id`: it takes
/// the place of an update the player has waiting.
pub open spec fn queue_put(queue: Map<u32, UpdateView>, id: u32, update: UpdateView) -> Map<
    u32,
    UpdateView,
> {
    queue.insert(id, update)
}

/// The connection of the player `id`.
pub open spec fn conn_of(players: Seq<ClientConnection>, id: u32) -> ClientConnection {
    players[index_of_id(players, id)]
}

/// The addresses of the players `ids`, in order.
pub open spec fn addrs_of(players: Seq<ClientConnection>, ids: Seq<u32>) -> Seq<PeerAddr> {
    Seq::new(ids.len(), |k: int| conn_of(players, ids[k]).addr)
}

/// The message that tells `to` that `subject` went out of sight.
pub open spec fn leave_loaded(to: PeerAddr, subject: ClientConnection) -> Outbound {
    Outbound {
        addr: to,
        packet: PacketTypes::ServerPlayerLeaveLoaded {
            player_name: subject.name,
            player_id: subject.id,
        },
    }
}

/// The message that tells `to` that `subject` came into sight, and where.
pub open spec fn enter_loaded(to: PeerAddr, subject: ClientConnection) -> Outbound {
    Outbound {
        addr: to,
        packet: PacketTypes::ServerPlayerEnterLoaded {
            player_name: subject.name,
            player_id: subject.id,
            pos_x: subject.server_player.x,
            pos_y: subject.server_player.y,
        },
    }
}

/// The messages for the peers that lose sight of the mover: for each player
/// of `old_ids` that is not in `new_ids`, in order, one that tells the mover
/// that the peer went out of sight and one that tells the peer that the mover
/// did.
pub open spec fn leave_packets(
    players: Seq<ClientConnection>,
    old_ids: Seq<u32>,
    new_ids: Seq<u32>,
    mover: ClientConnection,
) -> Seq<Outbound>
    decreases old_ids.len(),
{
    if old_ids.len() == 0 {
        Seq::empty()
    } else {
        let before = leave_packets(players, old_ids.drop_last(), new_ids, mover);
        let peer = conn_of(players, old_ids.last());
        if new_ids.contains(old_ids.last()) {
            before
        } else {
            before.push(leave_loaded(mover.addr, peer)).push(leave_loaded(peer.addr, mover))
        }
    }
}

/// The messages for the peers that catch sight of the mover: for each
/// player of `new_ids` that is not in `old_ids`, in order, one that tells the
/// mover that the peer came into sight and one that tells the peer that the
/// mover did.
pub open spec fn enter_packets(
    players: Seq<ClientConnection>,
    new_ids: Seq<u32>,
    old_ids: Seq<u32>,
    mover: ClientConnection,
) -> Seq<Outbound>
    decreases new_ids.len(),
{
    if new_ids.len() == 0 {
        Seq::empty()
    } else {
        let before = enter_packets(players, new_ids.drop_last(), old_ids, mover);
        let peer = conn_of(players, new_ids.last());
        if old_ids.contains(new_ids.last()) {
            before
        } else {
            before.push(enter_loaded(mover.addr, peer)).push(enter_loaded(peer.addr, mover))
        }
    }
}

/// The players of `a` that are not in `b`, in order.
pub open spec fn except(a: Seq<u32>, b: Seq<u32>) -> Seq<u32>
    decreases a.len(),
{
    if a.len() == 0 {
        a
    } else if b.contains(a.last()) {
        except(a.drop_last(), b)
    } else {
        except(a.drop_last(), b).push(a.last())
    }
}

/// The players of `a` that are also in `b`, in order.
pub open spec fn common(a: Seq<u32>, b: Seq<u32>) -> Seq<u32>
    decreases a.len(),
{
    if a.len() == 0 {
        a
    } else if b.contains(a.last()) {
        common(a.drop_last(), b).push(a.last())
    } else {
        common(a.drop_last(), b)
    }
}

/// What `except` and `common` hold: a player of `a` is in exactly one of
/// them, by whether it is in `b`, and neither holds anything else nor, if `a`
/// is free of repetitions, anything twice.
pub proof fn lemma_except_common(a: Seq<u32>, b: Seq<u32>)
    ensures
        forall|v: u32| except(a, b).contains(v) <==> a.contains(v) && !b.contains(v),
        forall|v: u32| common(a, b).contains(v) <==> a.contains(v) && b.contains(v),
        distinct(a) ==> distinct(except(a, b)) && distinct(common(a, b)),
    decreases a.len(),
{
    if a.len() > 0 {
        let head = a.drop_last();
        let last = a.last();
        lemma_except_common(head, b);
        assert(a =~= head.push(last));
        let e0 = except(head, b);
        let c0 = common(head, b);
        assert forall|v: u32| a.contains(v) <==> head.contains(v) || v == last by {
            if a.contains(v) {
                let i = choose|i: int| 0 <= i < a.len() && a[i] == v;
                if i < head.len() {
                    assert(head[i] == v);
                }
            }
            if head.contains(v) {
                let i = choose|i: int| 0 <= i < head.len() && head[i] == v;
                assert(a[i] == v);
            }
            if v == last {
                assert(a[a.len() - 1] == v);
            }
        }
        lemma_push_contains(e0, last);
        lemma_push_contains(c0, last);
        if distinct(a) {
            assert(distinct(head));
            assert(!head.contains(last)) by {
                if head.contains(last) {
                    let i = choose|i: int| 0 <= i < head.len() && head[i] == last;
                    assert(a[i] == a[a.len() - 1]);
                }
            }
            crate::lists::lemma_push_distinct(e0, last);
            crate::lists::lemma_push_distinct(c0, last);
        }
    }
}

/// A list with a value appended holds that value and what it held before.
pub proof fn lemma_push_contains<T>(s: Seq<T>, v: T)
    ensures
        forall|x: T| s.push(v).contains(x) <==> s.contains(x) || x == v,
{
    assert forall|x: T| s.push(v).contains(x) <==> s.contains(x) || x == v by {
        if s.push(v).contains(x) {
            let i = choose|i: int| 0 <= i < s.push(v).len() && s.push(v)[i] == x;
            if i < s.len() {
                assert(s[i] == x);
            }
        }
        if s.contains(x) {
            let i = choose|i: int| 0 <= i < s.len() && s[i] == x;
            assert(s.push(v)[i] == x);
        }
        if x == v {
            assert(s.push(v)[s.len() as int] == x);
        }
    }
}

/// When a player moves from a chunk whose other holders are `old_ids` to one
/// whose other holders are `new_ids`, every peer in either list is of exactly
/// one of three kinds: it loses sight of the mover (it is in
/// `except(old_ids, new_ids)`), it catches sight of the mover (it is in
/// `except(new_ids, old_ids)`), or it keeps the mover in sight (it is in
/// `common(new_ids, old_ids)`). Each kind lists a peer once.
pub proof fn lemma_interest_diff_partition(old_ids: Seq<u32>, new_ids: Seq<u32>, peer: u32)
    requires
        distinct(old_ids),
        distinct(new_ids),
        old_ids.contains(peer) || new_ids.contains(peer),
    ensures
        ({
            let leaves = except(old_ids, new_ids).contains(peer);
            let enters = except(new_ids, old_ids).contains(peer);
            let stays = common(new_ids, old_ids).contains(peer);
            (leaves && !enters && !stays) || (!leaves && enters && !stays) || (!leaves && !enters
                && stays)
        }),
        distinct(except(old_ids, new_ids)),
        distinct(except(new_ids, old_ids)),
        distinct(common(new_ids, old_ids)),
{
    lemma_except_common(old_ids, new_ids);
    lemma_except_common(new_ids, old_ids);
}

/// Each peer that loses sight of the mover is told so once: the messages
/// for the leavers are, for the `k`-th player of `except(old_ids, new_ids)`,
/// one to the mover about that player and one to that player about the mover,
/// and there are no others.
pub proof fn lemma_leave_packets(
    players: Seq<ClientConnection>,
    old_ids: Seq<u32>,
    new_ids: Seq<u32>,
    mover: ClientConnection,
)
    ensures
        leave_packets(players, old_ids, new_ids, mover).len() == 2 * except(old_ids, new_ids).len(),
        forall|k: int|
            0 <= k < except(old_ids, new_ids).len() ==> leave_packets(
                players,
                old_ids,
                new_ids,
                mover,
            )[2 * k] == leave_loaded(
                mover.addr,
                conn_of(players, #[trigger] except(old_ids, new_ids)[k]),
            ) && leave_packets(players, old_ids, new_ids, mover)[2 * k + 1] == leave_loaded(
                conn_of(players, except(old_ids, new_ids)[k]).addr,
                mover,
            ),
    decreases old_ids.len(),
{
    if old_ids.len() > 0 {
        lemma_leave_packets(players, old_ids.drop_last(), new_ids, mover);
    }
}

/// Each peer that catches sight of the mover is told so once: the messages
/// for the enterers are, for the `k`-th player of `except(new_ids, old_ids)`,
/// one to the mover about that player and one to that player about the mover,
/// and there are no others.
pub proof fn lemma_enter_packets(
    players: Seq<ClientConnection>,
    new_ids: Seq<u32>,
    old_ids: Seq<u32>,
    mover: ClientConnection,
)
    ensures
        enter_packets(players, new_ids, old_ids, mover).len() == 2 * except(new_ids, old_ids).len(),
        forall|k: int|
            0 <= k < except(new_ids, old_ids).len() ==> enter_packets(
                players,
                new_ids,
                old_ids,
                mover,
            )[2 * k] == enter_loaded(
                mover.addr,
                conn_of(players, #[trigger] except(new_ids, old_ids)[k]),
            ) && enter_packets(players, new_ids, old_ids, mover)[2 * k + 1] == enter_loaded(
                conn_of(players, except(new_ids, old_ids)[k]).addr,
                mover,
            ),
    decreases new_ids.len(),
{
    if new_ids.len() > 0 {
        lemma_enter_packets(players, new_ids.drop_last(), old_ids, mover);
    }
}

impl World {
    /// The chunk that holds the block nearest to the position `(x, y)`, or
    /// the chunk `(0, 0)` if that block is outside the world.
    pub open spec fn chunk_near(&self, x: Scalar, y: Scalar) -> (int, int) {
        let bx = nearest_block(x as int);
        let by = nearest_block(y as int);
        if self.in_bounds(bx as int, by as int) {
            self.chunk_of(bx as int, by as int)
        } else {
            (0, 0)
        }
    }

    /// The players other than `id` that hold the chunk `c`.
    pub open spec fn peers(&self, c: (int, int), id: u32) -> Seq<u32> {
        without(self.interest(c.0, c.1), id)
    }

    /// The messages sent at once when `mover`, who was at
    /// `(old_x, old_y)`, has moved: none if the player is still in the same
    /// chunk, and else those for the peers that lose sight of the player,
    /// then those for the peers that catch sight of it.
    pub open spec fn move_packets(
        &self,
        mover: ClientConnection,
        old_x: Scalar,
        old_y: Scalar,
    ) -> Seq<Outbound> {
        let oc = self.chunk_near(old_x, old_y);
        let nc = self.chunk_near(mover.server_player.x, mover.server_player.y);
        if oc == nc {
            Seq::empty()
        } else {
            leave_packets(
                self.players@,
                self.peers(oc, mover.id),
                self.peers(nc, mover.id),
                mover,
            ) + enter_packets(
                self.players@,
                self.peers(nc, mover.id),
                self.peers(oc, mover.id),
                mover,
            )
        }
    }

    /// The addresses that are to hear of the new position of `mover`: the
    /// other holders of the chunk the player is in now, then the player.
    pub open spec fn move_recipients(&self, mover: ClientConnection) -> Seq<PeerAddr> {
        addrs_of(
            self.players@,
            self.peers(
                self.chunk_near(mover.server_player.x, mover.server_player.y),
                mover.id,
            ),
        ).push(mover.addr)
    }

    /// Whether this world is `before` with `update` queued as the position
    /// update of player `id`, and nothing else changed.
    pub open spec fn is_queueing_of(&self, before: World, id: u32, update: UpdateView) -> bool {
        &&& self.chunks == before.chunks
        &&& self.same_shape(before)
        &&& self.players == before.players
        &&& self.player_loaded == before.player_loaded
        &&& self.to_update == before.to_update
        &&& self.spawn_point == before.spawn_point
        &&& self.spawn_range == before.spawn_range
        &&& queue_view(self.physics_update_queue@) == queue_put(
            queue_view(before.physics_update_queue@),
            id,
            update,
        )
    }

    /// The chunk that holds the block nearest to the position `(x, y)`, or
    /// the chunk `(0, 0)` if that block is outside the world.
    pub fn chunk_near_position(&self, x: Scalar, y: Scalar) -> (c: (u32, u32))
        requires
            self.grid_wf(),
        ensures
            (c.0 as int, c.1 as int) == self.chunk_near(x, y),
            self.chunk_in_bounds(c.0 as int, c.1 as int),
    {
        proof {
            assert(self.width_chunks >= 1 && self.height_chunks >= 1) by (nonlinear_arith)
                requires
                    self.width == self.width_chunks * self.chunk_size,
                    self.height == self.height_chunks * self.chunk_size,
                    self.width >= 1,
                    self.height >= 1,
            ;
        }
        match self.get_chunk_block_is_in(round_to_block(x), round_to_block(y)) {
            Ok(c) => c,
            Err(_) => (0, 0),
        }
    }

    /// The players other than `id` that hold the chunk `(chunk_x, chunk_y)`.
    pub fn peer_ids(&self, chunk_x: u32, chunk_y: u32, id: u32) -> (ids: Vec<u32>)
        requires
            self.wf(),
            self.chunk_in_bounds(chunk_x as int, chunk_y as int),
        ensures
            ids@ == self.peers((chunk_x as int, chunk_y as int), id),
            distinct(ids@),
            forall|k: int| 0 <= k < ids@.len() ==> has_id(self.players@, #[trigger] ids@[k]),
    {
        let slot: usize = self.chunk_slot(chunk_x, chunk_y);
        let list: &Vec<u32> = &self.player_loaded[slot];
        let mut ids: Vec<u32> = Vec::new();
        let mut i: usize = 0;
        while i < list.len()
            invariant
                0 <= i <= list@.len(),
                ids@ == without(list@.take(i as int), id),
            decreases list@.len() - i,
        {
            assert(list@.take(i + 1).drop_last() =~= list@.take(i as int));
            if list[i] != id {
                ids.push(list[i]);
            }
            i = i + 1;
        }
        proof {
            assert(list@.take(list@.len() as int) =~= list@);
            lemma_without(list@, id);
            assert(distinct(list@));
            assert forall|k: int| 0 <= k < ids@.len() implies has_id(
                self.players@,
                #[trigger] ids@[k],
            ) by {
                assert(ids@.contains(ids@[k]));
                assert(list@.contains(ids@[k]));
                let j = choose|j: int| 0 <= j < list@.len() && list@[j] == ids@[k];
                assert(has_id(self.players@, self.player_loaded@[slot as int]@[j]));
            }
        }
        ids
    }

    /// Queues `update` as the position update of player `id`; it takes the
    /// place of an update the player has waiting.
    pub fn queue_position(&mut self, id: u32, update: PositionUpdate)
        requires
            old(self).wf(),
        ensures
            final(self).wf(),
            final(self).is_queueing_of(
                *old(self),
                id,
                (update.pos_x, update.pos_y, update.recievers@),
            ),
    {
        let ghost view = update_view(update);
        self.physics_update_queue.insert(id, update);
        proof {
            lemma_same_chunks_same_grid(*old(self), *self);
            assert(queue_view(self.physics_update_queue@) =~= queue_put(
                queue_view(old(self).physics_update_queue@),
                id,
                view,
            ));
        }
    }

    /// Deals with the move of a player: `new_player` is the player as it is
    /// now, `(old_x, old_y)` where it was. If the move took the player into
    /// another chunk, the holders of the old chunk that do not hold the new
    /// one and the player are told that they lost sight of each other, and
    /// the holders of the new chunk that did not hold the old one and the
    /// player that they caught sight of each other. The new position is
    /// queued for the holders of the new chunk and the player.
    pub fn notify_player_moved(
        &mut self,
        to_network: &mut Vec<Outbound>,
        new_player: &ClientConnection,
        old_x: Scalar,
        old_y: Scalar,
    )
        requires
            old(self).wf(),
        ensures
            final(self).wf(),
            final(to_network)@ == old(to_network)@ + old(self).move_packets(
                *new_player,
                old_x,
                old_y,
            ),
            final(self).is_queueing_of(
                *old(self),
                new_player.id,
                (
                    new_player.server_player.x,
                    new_player.server_player.y,
                    old(self).move_recipients(*new_player),
                ),
            ),
    {
        let (old_chunk_x, old_chunk_y): (u32, u32) = self.chunk_near_position(old_x, old_y);
        let (chunk_x, chunk_y): (u32, u32) = self.chunk_near_position(
            new_player.server_player.x,
            new_player.server_player.y,
        );
        let new_ids: Vec<u32> = self.peer_ids(chunk_x, chunk_y, new_player.id);
        if old_chunk_x != chunk_x || old_chunk_y != chunk_y {
            let old_ids: Vec<u32> = self.peer_ids(old_chunk_x, old_chunk_y, new_player.id);
            let mut k: usize = 0;
            while k < old_ids.len()
                invariant
                    *self == *old(self),
                    0 <= k <= old_ids@.len(),
                    forall|j: int|
                        0 <= j < old_ids@.len() ==> has_id(self.players@, #[trigger] old_ids@[j]),
                    to_network@ == old(to_network)@ + leave_packets(
                        self.players@,
                        old_ids@.take(k as int),
                        new_ids@,
                        *new_player,
                    ),
                decreases old_ids@.len() - k,
            {
                assert(old_ids@.take(k + 1).drop_last() =~= old_ids@.take(k as int));
                assert(has_id(self.players@, old_ids@[k as int]));
                if !contains_id(&new_ids, old_ids[k]) {
                    match find_by_id(&self.players, old_ids[k]) {
                        Some(i) => {
                            let conn: &ClientConnection = &self.players[i];
                            to_network.push(
                                Outbound {
                                    addr: new_player.addr,
                                    packet: PacketTypes::ServerPlayerLeaveLoaded {
                                        player_name: conn.name.clone(),
                                        player_id: conn.id,
                                    },
                                },
                            );
                            to_network.push(
                                Outbound {
                                    addr: conn.addr,
                                    packet: PacketTypes::ServerPlayerLeaveLoaded {
                                        player_name: new_player.name.clone(),
                                        player_id: new_player.id,
                                    },
                                },
                            );
                        },
                        None => {},
                    }
                }
                k = k + 1;
                assert(to_network@ =~= old(to_network)@ + leave_packets(
                    self.players@,
                    old_ids@.take(k as int),
                    new_ids@,
                    *new_player,
                ));
            }
            assert(old_ids@.take(old_ids@.len() as int) =~= old_ids@);
            let ghost sent = to_network@;
            let mut k: usize = 0;
            while k < new_ids.len()
                invariant
                    *self == *old(self),
                    0 <= k <= new_ids@.len(),
                    forall|j: int|
                        0 <= j < new_ids@.len() ==> has_id(self.players@, #[trigger] new_ids@[j]),
                    to_network@ == sent + enter_packets(
                        self.players@,
                        new_ids@.take(k as int),
                        old_ids@,
                        *new_player,
                    ),
                decreases new_ids@.len() - k,
            {
                assert(new_ids@.take(k + 1).drop_last() =~= new_ids@.take(k as int));
                assert(has_id(self.players@, new_ids@[k as int]));
                if !contains_id(&old_ids, new_ids[k]) {
                    match find_by_id(&self.players, new_ids[k]) {
                        Some(i) => {
                            let conn: &ClientConnection = &self.players[i];
                            to_network.push(
                                Outbound {
                                    addr: new_player.addr,
                                    packet: PacketTypes::ServerPlayerEnterLoaded {
                                        player_name: conn.name.clone(),
                                        player_id: conn.id,
                                        pos_x: conn.server_player.x,
                                        pos_y: conn.server_player.y,
                                    },
                                },
                            );
                            to_network.push(
                                Outbound {
                                    addr: conn.addr,
                                    packet: PacketTypes::ServerPlayerEnterLoaded {
                                        player_name: new_player.name.clone(),
                                        player_id: new_player.id,
                                        pos_x: new_player.server_player.x,
                                        pos_y: new_player.server_player.y,
                                    },
                                },
                            );
                        },
                        None => {},
                    }
                }
                k = k + 1;
                assert(to_network@ =~= sent + enter_packets(
                    self.players@,
                    new_ids@.take(k as int),
                    old_ids@,
                    *new_player,
                ));
            }
            assert(new_ids@.take(new_ids@.len() as int) =~= new_ids@);
            assert(to_network@ =~= old(to_network)@ + old(self).move_packets(
                *new_player,
                old_x,
                old_y,
            ));
        } else {
            assert(to_network@ =~= old(to_network)@ + old(self).move_packets(
                *new_player,
                old_x,
                old_y,
            ));
        }
        let mut update_queue: Vec<PeerAddr> = Vec::new();
        let mut k: usize = 0;
        while k < new_ids.len()
            invariant
                *self == *old(self),
                0 <= k <= new_ids@.len(),
                forall|j: int|
                    0 <= j < new_ids@.len() ==> has_id(self.players@, #[trigger] new_ids@[j]),
                update_queue@ == addrs_of(self.players@, new_ids@).subrange(0, k as int),
            decreases new_ids@.len() - k,
        {
            assert(has_id(self.players@, new_ids@[k as int]));
            match find_by_id(&self.players, new_ids[k]) {
                Some(i) => {
                    update_queue.push(self.players[i].addr);
                },
                None => {},
            }
            k = k + 1;
            assert(update_queue@ =~= addrs_of(self.players@, new_ids@).subrange(0, k as int));
        }
        assert(update_queue@ =~= addrs_of(self.players@, new_ids@));
        update_queue.push(new_player.addr);
        self.queue_position(
            new_player.id,
            PositionUpdate {
                pos_x: new_player.server_player.x,
                pos_y: new_player.server_player.y,
                recievers: update_queue,
            },
        );
    }
}

} // verus!
