//! What the server does with each command of the operator.

use vstd::prelude::*;
use crate::block::Block;
use crate::connection::{find_by_id, has_id, index_of_id, ClientConnection};
use crate::console::Command;
use crate::constants::{PHYS_TICKS_PER_SECOND, TICKS_PER_SECOND};
use crate::inventory::Slots;
use crate::lists::without;
use crate::movement::{queue_put, queue_view};
use crate::network::Outbound;
use crate::player::{Acceleration, BlockPos, Player, Velocity};
use crate::scalar::Scalar;
use crate::world::{lemma_same_chunks_same_grid, World, WorldError};

verus! {

/// What the server answers to a command.
#[derive(Debug)]
pub enum CommandReply {
    /// The list of commands is to be shown.
    Help,
    /// The server stops.
    Stopping,
    /// Nanoseconds per tick: of the last physics tick, of the last world
    /// tick, and the eight running averages of the world tick.
    Mspt { physics: u64, last: u64, averages: [u64; 8] },
    /// Ticks per second, figure by figure as for `Mspt`.
    Tps { physics: u64, last: u64, averages: [u64; 8] },
    /// So many players are online.
    Players(usize),
    /// The player was kicked.
    Kicked(u32),
    /// There is no such player.
    NoSuchPlayer(u32),
    /// The player spawned anew.
    Respawned(u32),
    /// No column of the world is within the spawn range of the spawn point.
    NoSpawnArea,
    /// The player was moved.
    Teleported(u32),
    /// The block was written.
    BlockSet(BlockPos),
    /// The cell holds this block.
    BlockAt(BlockPos),
    /// The world refused.
    Refused(WorldError),
    /// The spawn point was moved.
    SpawnSet(u32),
    /// The spawn range was set.
    SpawnRangeSet(u32),
    /// The player carries this.
    Inventory(Slots),
}

/// Ticks per second when a tick takes `nanos` nanoseconds and no more than
/// `rate` ticks are begun in a second.
pub open spec fn ticks_per_second(nanos: u64, rate: u64) -> u64 {
    let millis = nanos as int / 1_000_000;
    let least = 1000int / (rate as int);
    if millis >= least {
        (1000int / millis) as u64
    } else {
        (1000int / least) as u64
    }
}

/// Ticks per second when a tick takes `nanos` nanoseconds and no more than
/// `rate` ticks are begun in a second.
pub fn tps(nanos: u64, rate: u64) -> (r: u64)
    requires
        1 <= rate <= 1000,
    ensures
        r == ticks_per_second(nanos, rate),
{
    let millis: u64 = nanos / 1_000_000;
    let least: u64 = 1000 / rate;
    assert(least >= 1) by (nonlinear_arith)
        requires
            least == 1000int / (rate as int),
            1 <= rate <= 1000,
    ;
    if millis >= least {
        1000 / millis
    } else {
        1000 / least
    }
}

impl World {
    /// Whether this world is `before` after the player at `index` was moved
    /// to `(x, y)`: the player is there, at rest, its move is dealt with as
    /// [`World::notify_player_moved`] says, and `sent` went out.
    pub open spec fn is_teleport_of(
        &self,
        before: World,
        sent: Seq<Outbound>,
        index: int,
        x: Scalar,
        y: Scalar,
    ) -> bool {
        let was = before.players@[index];
        let now = ClientConnection {
            server_player: Player {
                x,
                y,
                velocity: Velocity { x: 0, y: 0 },
                acceleration: Acceleration { x: 0, y: 0 },
                ..was.server_player
            },
            ..was
        };
        &&& self.chunks == before.chunks
        &&& self.same_shape(before)
        &&& self.player_loaded == before.player_loaded
        &&& self.to_update == before.to_update
        &&& self.spawn_point == before.spawn_point
        &&& self.spawn_range == before.spawn_range
        &&& self.players@ == before.players@.update(index, now)
        &&& queue_view(self.physics_update_queue@) == queue_put(
            queue_view(before.physics_update_queue@),
            was.id,
            (x, y, before.move_recipients(now)),
        )
        &&& sent == before.move_packets(now, was.server_player.x, was.server_player.y)
    }

    /// Moves the player at `index` to `(x, y)`.
    pub fn teleport(&mut self, to_network: &mut Vec<Outbound>, index: usize, x: Scalar, y: Scalar)
        requires
            old(self).wf(),
            index < old(self).players@.len(),
        ensures
            final(self).wf(),
            exists|sent: Seq<Outbound>|
                final(to_network)@ == old(to_network)@ + sent && #[trigger] final(self).is_teleport_of(*old(self), sent, index as int, x, y),
    {
        let old_x: Scalar = self.players[index].server_player.x;
        let old_y: Scalar = self.players[index].server_player.y;
        let mut player: Player = self.players[index].server_player;
        player.x = x;
        player.y = y;
        player.velocity = Velocity { x: 0, y: 0 };
        player.acceleration = Acceleration { x: 0, y: 0 };
        let conn: ClientConnection = ClientConnection::with(&self.players[index], player);
        self.notify_player_moved(to_network, &conn, old_x, old_y);
        let ghost mid = *self;
        self.set_player(index, player);
        proof {
            lemma_same_chunks_same_grid(mid, *self);
            let sent = old(self).move_packets(conn, old_x, old_y);
            assert(self.players@[index as int] == conn);
            assert(self.is_teleport_of(*old(self), sent, index as int, x, y));
        }
    }

    /// What the command `command` does to the world `before`: this world
    /// comes of it, `sent` goes out and `reply` is answered. The last three
    /// arguments are the nanoseconds that the eight running averages of the
    /// world tick, the last world tick and the last physics tick took.
    pub open spec fn command_post(
        &self,
        before: World,
        sent: Seq<Outbound>,
        reply: CommandReply,
        command: Command,
        tick_times_saved: [u64; 8],
        last_tick_time: u64,
        phys_last_tick_time: u64,
    ) -> bool {
        let quiet = *self == before && sent == Seq::<Outbound>::empty();
        match command {
            Command::Help => quiet && reply is Help,
            Command::Shutdown => quiet && reply is Stopping,
            Command::Mspt => quiet && (reply matches CommandReply::Mspt {
                physics,
                last,
                averages,
            } && physics == phys_last_tick_time && last == last_tick_time && averages@
                == tick_times_saved@),
            Command::Tps => quiet && (reply matches CommandReply::Tps { physics, last, averages }
                && physics == ticks_per_second(phys_last_tick_time, PHYS_TICKS_PER_SECOND) && last
                == ticks_per_second(last_tick_time, TICKS_PER_SECOND) && averages@.len() == 8
                && forall|i: int|
                0 <= i < 8 ==> averages@[i] == ticks_per_second(
                    tick_times_saved@[i],
                    TICKS_PER_SECOND,
                )),
            Command::Players => quiet && (reply matches CommandReply::Players(n) && n
                == before.players@.len()),
            Command::Kick(id, msg) => if has_id(before.players@, id) {
                (reply matches CommandReply::Kicked(who) && who == id) && self.is_departure_of(
                    before,
                    index_of_id(before.players@, id),
                ) && exists|reason: String|
                    reason@ == msg@ && sent == #[trigger] before.kick_packets(
                        before.players@,
                        before.interest_view(),
                        id,
                        reason,
                    )
            } else {
                quiet && (reply matches CommandReply::NoSuchPlayer(who) && who == id)
            },
            Command::Respawn(id) => if has_id(before.players@, id) && !before.has_spawn_area() {
                quiet && reply is NoSpawnArea
            } else if has_id(before.players@, id) {
                (reply matches CommandReply::Respawned(who) && who == id) && exists|x: u32|
                    before.spawn_start() <= x < before.spawn_end() && #[trigger] self.is_respawn_of(
                        before,
                        sent,
                        index_of_id(before.players@, id),
                        x,
                    )
            } else {
                quiet && (reply matches CommandReply::NoSuchPlayer(who) && who == id)
            },
            Command::Teleport { id, x, y } => if has_id(before.players@, id) {
                (reply matches CommandReply::Teleported(who) && who == id) && self.is_teleport_of(
                    before,
                    sent,
                    index_of_id(before.players@, id),
                    x,
                    y,
                )
            } else {
                quiet && (reply matches CommandReply::NoSuchPlayer(who) && who == id)
            },
            Command::SetBlock { pos } => if before.in_bounds(pos.0 as int, pos.1 as int) {
                &&& reply matches CommandReply::BlockSet(done) && done == pos
                &&& self.is_write_of(before, pos.0 as int, pos.1 as int, pos.2)
                &&& self.to_update@ == (if pos.2 == Block::Water {
                    before.to_update@.push((pos.0, pos.1))
                } else {
                    without(before.to_update@, (pos.0, pos.1))
                })
                &&& self.players == before.players
                &&& self.player_loaded == before.player_loaded
                &&& self.physics_update_queue == before.physics_update_queue
                &&& self.spawn_point == before.spawn_point
                &&& self.spawn_range == before.spawn_range
                &&& sent == before.update_block_packets(pos.0, pos.1, pos.2)
            } else {
                quiet && (reply matches CommandReply::Refused(e) && e
                    == WorldError::OutOfBoundsBlock(pos.0, pos.1))
            },
            Command::GetBlock { x, y } => quiet && if before.in_bounds(x as int, y as int) {
                reply matches CommandReply::BlockAt(pos) && pos == (
                    x,
                    y,
                    before.block_at(x as int, y as int),
                )
            } else {
                reply matches CommandReply::Refused(e) && e == WorldError::OutOfBoundsBlock(x, y)
            },
            Command::SetSpawn(x) => sent == Seq::<Outbound>::empty() && if x < before.width {
                (reply matches CommandReply::SpawnSet(at) && at == x) && *self == (World {
                    spawn_point: x,
                    ..before
                })
            } else {
                *self == before && (reply matches CommandReply::Refused(e) && e
                    == WorldError::OutOfBoundsBlock(x, 0))
            },
            Command::SetSpawnRange(range) => sent == Seq::<Outbound>::empty() && if range
                <= before.width / 2 {
                (reply matches CommandReply::SpawnRangeSet(r) && r == range) && *self == (World {
                    spawn_range: range,
                    ..before
                })
            } else {
                *self == before && (reply matches CommandReply::Refused(e) && e
                    == WorldError::SpawnRangeTooLarge)
            },
            Command::InventorySee(id) => quiet && if has_id(before.players@, id) {
                reply matches CommandReply::Inventory(slots) && slots@
                    == before.players@[index_of_id(before.players@, id)].server_player.inventory@
            } else {
                reply matches CommandReply::NoSuchPlayer(who) && who == id
            },
        }
    }
}

/// Carries out a command of the operator and gives the answer to it. The
/// last three arguments are the nanoseconds that the eight running averages
/// of the world tick, the last world tick and the last physics tick took.
pub fn process_command(
    to_network: &mut Vec<Outbound>,
    world: &mut World,
    command: Command,
    tick_times_saved: [u64; 8],
    last_tick_time: u64,
    phys_last_tick_time: u64,
) -> (reply: CommandReply)
    requires
        old(world).wf(),
        command matches Command::SetSpawnRange(range) ==> range >= 1,
    ensures
        final(world).wf(),
        exists|sent: Seq<Outbound>|
            final(to_network)@ == old(to_network)@ + sent && #[trigger] final(world).command_post(
                *old(world),
                sent,
                reply,
                command,
                tick_times_saved,
                last_tick_time,
                phys_last_tick_time,
            ),
{
    let ghost none = Seq::<Outbound>::empty();
    let ghost start = to_network@;
    assert(to_network@ =~= start + none);
    let ghost sent: Seq<Outbound> = none;
    let reply: CommandReply = match command {
        Command::Help => CommandReply::Help,
        Command::Shutdown => CommandReply::Stopping,
        Command::Mspt => CommandReply::Mspt {
            physics: phys_last_tick_time,
            last: last_tick_time,
            averages: tick_times_saved,
        },
        Command::Tps => {
            let mut averages: [u64; 8] = [0;8];
            let mut i: usize = 0;
            while i < 8
                invariant
                    0 <= i <= 8,
                    averages@.len() == 8,
                    tick_times_saved@.len() == 8,
                    forall|k: int|
                        0 <= k < i ==> averages@[k] == ticks_per_second(
                            tick_times_saved@[k],
                            TICKS_PER_SECOND,
                        ),
                decreases 8 - i,
            {
                averages[i] = tps(tick_times_saved[i], TICKS_PER_SECOND);
                i = i + 1;
            }
            CommandReply::Tps {
                physics: tps(phys_last_tick_time, PHYS_TICKS_PER_SECOND),
                last: tps(last_tick_time, TICKS_PER_SECOND),
                averages,
            }
        },
        Command::Players => CommandReply::Players(world.players.len()),
        Command::Kick(id, msg) => {
            if world.kick_for(to_network, id, &msg) {
                proof {
                    sent = old(world).kick_packets(
                        old(world).players@,
                        old(world).interest_view(),
                        id,
                        msg,
                    );
                }
                CommandReply::Kicked(id)
            } else {
                CommandReply::NoSuchPlayer(id)
            }
        },
        Command::Respawn(id) => match find_by_id(&world.players, id) {
            None => CommandReply::NoSuchPlayer(id),
            Some(idx) => {
                if world.spawn_area_exists() {
                    let spawn: u32 = world.get_spawn();
                    world.respawn(to_network, idx, spawn);
                    proof {
                        sent = choose|sent: Seq<Outbound>|
                            to_network@ == start + sent && #[trigger] world.is_respawn_of(
                                *old(world),
                                sent,
                                idx as int,
                                spawn,
                            );
                    }
                    CommandReply::Respawned(id)
                } else {
                    CommandReply::NoSpawnArea
                }
            },
        },
        Command::Teleport { id, x, y } => match find_by_id(&world.players, id) {
            None => CommandReply::NoSuchPlayer(id),
            Some(idx) => {
                world.teleport(to_network, idx, x, y);
                proof {
                    sent = choose|sent: Seq<Outbound>|
                        to_network@ == start + sent && #[trigger] world.is_teleport_of(
                            *old(world),
                            sent,
                            idx as int,
                            x,
                            y,
                        );
                }
                CommandReply::Teleported(id)
            },
        },
        Command::SetBlock { pos } => {
            let (x, y, block): (u32, u32, Block) = pos;
            match world.set_block_and_notify(to_network, x, y, block) {
                Ok(_) => {
                    proof {
                        sent = old(world).update_block_packets(x, y, block);
                    }
                    CommandReply::BlockSet(pos)
                },
                Err(e) => CommandReply::Refused(e),
            }
        },
        Command::GetBlock { x, y } => match world.get_block(x, y) {
            Ok(bl) => CommandReply::BlockAt((x, y, bl)),
            Err(e) => CommandReply::Refused(e),
        },
        Command::SetSpawn(x) => match world.set_spawn(x) {
            Ok(_) => CommandReply::SpawnSet(x),
            Err(e) => CommandReply::Refused(e),
        },
        Command::SetSpawnRange(range) => match world.set_spawn_range(range) {
            Ok(_) => CommandReply::SpawnRangeSet(range),
            Err(e) => CommandReply::Refused(e),
        },
        Command::InventorySee(id) => match find_by_id(&world.players, id) {
            Some(idx) => CommandReply::Inventory(world.players[idx].server_player.inventory),
            None => CommandReply::NoSuchPlayer(id),
        },
    };
    proof {
        assert(to_network@ =~= start + sent);
        assert(world.command_post(
            *old(world),
            sent,
            reply,
            command,
            tick_times_saved,
            last_tick_time,
            phys_last_tick_time,
        ));
    }
    reply
}

} // verus!
