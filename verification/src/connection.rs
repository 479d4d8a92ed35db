//! Peers and the record the server keeps of each connected player.

use vstd::prelude::*;
use crate::player::Player;

verus! {

/// The address of a peer: an internet address, with a version 4 address
/// written in its version 6 form, and a port.
#[derive(Clone, Copy, Debug, PartialEq, Eq, Hash, Structural)]
pub struct PeerAddr {
    pub ip: u128,
    pub port: u16,
}

/// One connected player.
#[derive(Clone, Debug)]
pub struct ClientConnection {
    pub addr: PeerAddr,
    pub name: String,
    pub id: u32,
    pub server_player: Player,
    /// Whether the peer has answered since the last heartbeat round.
    pub connection_alive: bool,
}

impl ClientConnection {
    /// The connection `old` with its player replaced by `new_player`.
    pub fn with(old: &ClientConnection, new_player: Player) -> (c: ClientConnection)
        ensures
            c == (ClientConnection { server_player: new_player, ..*old }),
    {
        ClientConnection {
            id: old.id,
            name: old.name.clone(),
            addr: old.addr,
            server_player: new_player,
            connection_alive: old.connection_alive,
        }
    }

    /// A fresh, live connection.
    pub fn new(addr: PeerAddr, name: String, id: u32, player: Player) -> (c: ClientConnection)
        ensures
            c == (ClientConnection {
                addr,
                name,
                id,
                server_player: player,
                connection_alive: true,
            }),
    {
        ClientConnection { addr, name, id, server_player: player, connection_alive: true }
    }
}

/// The ids of a list of connections, in order.
pub open spec fn ids_of(players: Seq<ClientConnection>) -> Seq<u32> {
    Seq::new(players.len(), |i: int| players[i].id)
}

/// The position of the first connection with the id `id`, or the length of
/// the list if there is none.
pub open spec fn index_of_id(players: Seq<ClientConnection>, id: u32) -> int
    decreases players.len(),
{
    if players.len() == 0 {
        0
    } else if players[0].id == id {
        0
    } else {
        1 + index_of_id(players.skip(1), id)
    }
}

/// The position of the first connection with the address `addr`, or the
/// length of the list if there is none.
pub open spec fn index_of_addr(players: Seq<ClientConnection>, addr: PeerAddr) -> int
    decreases players.len(),
{
    if players.len() == 0 {
        0
    } else if players[0].addr == addr {
        0
    } else {
        1 + index_of_addr(players.skip(1), addr)
    }
}

/// Whether some connection of the list has the id `id`.
pub open spec fn has_id(players: Seq<ClientConnection>, id: u32) -> bool {
    exists|i: int| 0 <= i < players.len() && players[i].id == id
}

/// Whether some connection of the list has the address `addr`.
pub open spec fn has_addr(players: Seq<ClientConnection>, addr: PeerAddr) -> bool {
    exists|i: int| 0 <= i < players.len() && players[i].addr == addr
}

/// The first position with an id is a position of the list exactly if the id
/// occurs, and then holds that id and is the first to do so.
pub proof fn lemma_index_of_id(players: Seq<ClientConnection>, id: u32)
    ensures
        0 <= index_of_id(players, id) <= players.len(),
        index_of_id(players, id) < players.len() <==> has_id(players, id),
        index_of_id(players, id) < players.len() ==> players[index_of_id(players, id)].id == id,
        forall|k: int| 0 <= k < index_of_id(players, id) ==> (#[trigger] players[k]).id != id,
    decreases players.len(),
{
    if players.len() == 0 {
    } else if players[0].id == id {
    } else {
        let rest = players.skip(1);
        lemma_index_of_id(rest, id);
        let r = index_of_id(rest, id);
        if r < rest.len() {
            assert(players[r + 1] == rest[r]);
        }
        if has_id(players, id) {
            let w = choose|i: int| 0 <= i < players.len() && players[i].id == id;
            assert(rest[w - 1] == players[w]);
        }
        assert forall|k: int| 0 <= k < 1 + r implies (#[trigger] players[k]).id != id by {
            if k > 0 {
                assert(players[k] == rest[k - 1]);
            }
        }
    }
}

/// The first position with an address is a position of the list exactly if
/// the address occurs, and then holds that address and is the first to do so.
pub proof fn lemma_index_of_addr(players: Seq<ClientConnection>, addr: PeerAddr)
    ensures
        0 <= index_of_addr(players, addr) <= players.len(),
        index_of_addr(players, addr) < players.len() <==> has_addr(players, addr),
        index_of_addr(players, addr) < players.len() ==> players[index_of_addr(
            players,
            addr,
        )].addr == addr,
        forall|k: int|
            0 <= k < index_of_addr(players, addr) ==> (#[trigger] players[k]).addr != addr,
    decreases players.len(),
{
    if players.len() == 0 {
    } else if players[0].addr == addr {
    } else {
        let rest = players.skip(1);
        lemma_index_of_addr(rest, addr);
        let r = index_of_addr(rest, addr);
        if r < rest.len() {
            assert(players[r + 1] == rest[r]);
        }
        if has_addr(players, addr) {
            let w = choose|i: int| 0 <= i < players.len() && players[i].addr == addr;
            assert(rest[w - 1] == players[w]);
        }
        assert forall|k: int| 0 <= k < 1 + r implies (#[trigger] players[k]).addr != addr by {
            if k > 0 {
                assert(players[k] == rest[k - 1]);
            }
        }
    }
}

/// The position of the first connection with the id `id`.
pub fn find_by_id(players: &Vec<ClientConnection>, id: u32) -> (r: Option<usize>)
    ensures
        r is Some <==> has_id(players@, id),
        r matches Some(i) ==> i == index_of_id(players@, id) && i < players@.len()
            && players@[i as int].id == id,
{
    proof {
        lemma_index_of_id(players@, id);
    }
    let mut i: usize = 0;
    while i < players.len()
        invariant
            0 <= i <= players@.len(),
            forall|k: int| 0 <= k < i ==> (#[trigger] players@[k]).id != id,
            0 <= index_of_id(players@, id) <= players@.len(),
            index_of_id(players@, id) < players@.len() <==> has_id(players@, id),
            index_of_id(players@, id) < players@.len() ==> players@[index_of_id(
                players@,
                id,
            )].id == id,
            forall|k: int|
                0 <= k < index_of_id(players@, id) ==> (#[trigger] players@[k]).id != id,
        decreases players@.len() - i,
    {
        if players[i].id == id {
            return Some(i);
        }
        i = i + 1;
    }
    None
}

/// The position of the first connection with the address `addr`.
pub fn find_by_addr(players: &Vec<ClientConnection>, addr: PeerAddr) -> (r: Option<usize>)
    ensures
        r is Some <==> has_addr(players@, addr),
        r matches Some(i) ==> i == index_of_addr(players@, addr) && i < players@.len()
            && players@[i as int].addr == addr,
{
    proof {
        lemma_index_of_addr(players@, addr);
    }
    let mut i: usize = 0;
    while i < players.len()
        invariant
            0 <= i <= players@.len(),
            forall|k: int| 0 <= k < i ==> (#[trigger] players@[k]).addr != addr,
            0 <= index_of_addr(players@, addr) <= players@.len(),
            index_of_addr(players@, addr) < players@.len() <==> has_addr(players@, addr),
            index_of_addr(players@, addr) < players@.len() ==> players@[index_of_addr(
                players@,
                addr,
            )].addr == addr,
            forall|k: int|
                0 <= k < index_of_addr(players@, addr) ==> (#[trigger] players@[k]).addr != addr,
        decreases players@.len() - i,
    {
        if players[i].addr == addr {
            return Some(i);
        }
        i = i + 1;
    }
    None
}

} // verus!
