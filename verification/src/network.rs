//! The messages of the wire protocol and the outbound queue.

use vstd::prelude::*;
use crate::chunk::NetworkChunk;
use crate::connection::PeerAddr;
use crate::item::NetworkItemStack;
use crate::scalar::Scalar;

verus! {

/// A message of the protocol. Names that begin with `Client` travel from a
/// client to the server, names that begin with `Server` the other way.
#[derive(Clone, Debug)]
pub enum PacketTypes {
    ClientHello { name: String },
    ServerSync {
        player_id: u32,
        world_width: u32,
        world_height: u32,
        chunk_size: u32,
        spawn_x: Scalar,
        spawn_y: Scalar,
    },
    ClientRequestChunk { chunk_coords_x: u32, chunk_coords_y: u32 },
    ServerChunkResponse { chunk: NetworkChunk },
    ClientUnloadChunk { chunk_coords_x: u32, chunk_coords_y: u32 },
    ServerPlayerJoin { player_name: String, player_id: u32 },
    ServerPlayerEnterLoaded { player_name: String, player_id: u32, pos_x: Scalar, pos_y: Scalar },
    ServerPlayerLeaveLoaded { player_name: String, player_id: u32 },
    ServerPlayerLeave { player_name: String, player_id: u32 },
    ClientGoodbye {  },
    ClientPlaceBlock { x: u32, y: u32 },
    ServerUpdateBlock { block: u8, x: u32, y: u32 },
    ClientPlayerXVelocity { vel_x: Scalar },
    ClientPlayerJump {  },
    ClientPlayerRespawn {  },
    ServerPlayerUpdatePos { player_id: u32, pos_x: Scalar, pos_y: Scalar },
    ServerKick { msg: String },
    ServerHeartbeat {  },
    ClientHeartbeat {  },
    ClientSendMessage { msg: String },
    ServerSendMessage { player_name: String, player_id: u32, msg: String },
    ClientBreakBlock { x: u32, y: u32 },
    ClientTryAttack { player_id: u32 },
    ClientChangeSlot { slot: u8 },
    ServerUpdateHealth { health: Scalar },
    ServerUpdateInventory { inv: [Option<NetworkItemStack>; 9] },
}

/// The kind of a message, without its fields. `Invalid` stands for every tag
/// that names no kind.
#[derive(Clone, Copy, Debug, PartialEq, Eq, Hash, Structural)]
pub enum PacketKind {
    Invalid,
    ClientHello,
    ServerSync,
    ClientRequestChunk,
    ServerChunkResponse,
    ClientUnloadChunk,
    ServerPlayerJoin,
    ServerPlayerEnterLoaded,
    ServerPlayerLeaveLoaded,
    ServerPlayerLeave,
    ClientGoodbye,
    ClientPlaceBlock,
    ServerUpdateBlock,
    ClientPlayerXVelocity,
    ClientPlayerJump,
    ServerPlayerUpdatePos,
    ServerKick,
    ServerHeartbeat,
    ClientHeartbeat,
    ClientSendMessage,
    ServerSendMessage,
    ClientBreakBlock,
    ClientTryAttack,
    ClientChangeSlot,
    ServerUpdateHealth,
    ServerUpdateInventory,
    ClientPlayerRespawn,
}

/// The stable tag of a message kind; `Invalid` has tag 0.
pub open spec fn kind_tag(kind: PacketKind) -> u8 {
    match kind {
        PacketKind::Invalid => 0,
        PacketKind::ClientHello => 1,
        PacketKind::ServerSync => 2,
        PacketKind::ClientRequestChunk => 3,
        PacketKind::ServerChunkResponse => 4,
        PacketKind::ClientUnloadChunk => 5,
        PacketKind::ServerPlayerJoin => 6,
        PacketKind::ServerPlayerEnterLoaded => 7,
        PacketKind::ServerPlayerLeaveLoaded => 8,
        PacketKind::ServerPlayerLeave => 9,
        PacketKind::ClientGoodbye => 10,
        PacketKind::ClientPlaceBlock => 11,
        PacketKind::ServerUpdateBlock => 12,
        PacketKind::ClientPlayerXVelocity => 13,
        PacketKind::ClientPlayerJump => 14,
        PacketKind::ServerPlayerUpdatePos => 15,
        PacketKind::ServerKick => 16,
        PacketKind::ServerHeartbeat => 17,
        PacketKind::ClientHeartbeat => 18,
        PacketKind::ClientSendMessage => 19,
        PacketKind::ServerSendMessage => 20,
        PacketKind::ClientBreakBlock => 21,
        PacketKind::ClientTryAttack => 22,
        PacketKind::ClientChangeSlot => 23,
        PacketKind::ServerUpdateHealth => 24,
        PacketKind::ServerUpdateInventory => 25,
        PacketKind::ClientPlayerRespawn => 26,
    }
}

/// The message kind a tag names; a tag that names none gives `Invalid`.
pub open spec fn kind_of_tag(tag: u8) -> PacketKind {
    if tag == 1 {
        PacketKind::ClientHello
    } else if tag == 2 {
        PacketKind::ServerSync
    } else if tag == 3 {
        PacketKind::ClientRequestChunk
    } else if tag == 4 {
        PacketKind::ServerChunkResponse
    } else if tag == 5 {
        PacketKind::ClientUnloadChunk
    } else if tag == 6 {
        PacketKind::ServerPlayerJoin
    } else if tag == 7 {
        PacketKind::ServerPlayerEnterLoaded
    } else if tag == 8 {
        PacketKind::ServerPlayerLeaveLoaded
    } else if tag == 9 {
        PacketKind::ServerPlayerLeave
    } else if tag == 10 {
        PacketKind::ClientGoodbye
    } else if tag == 11 {
        PacketKind::ClientPlaceBlock
    } else if tag == 12 {
        PacketKind::ServerUpdateBlock
    } else if tag == 13 {
        PacketKind::ClientPlayerXVelocity
    } else if tag == 14 {
        PacketKind::ClientPlayerJump
    } else if tag == 15 {
        PacketKind::ServerPlayerUpdatePos
    } else if tag == 16 {
        PacketKind::ServerKick
    } else if tag == 17 {
        PacketKind::ServerHeartbeat
    } else if tag == 18 {
        PacketKind::ClientHeartbeat
    } else if tag == 19 {
        PacketKind::ClientSendMessage
    } else if tag == 20 {
        PacketKind::ServerSendMessage
    } else if tag == 21 {
        PacketKind::ClientBreakBlock
    } else if tag == 22 {
        PacketKind::ClientTryAttack
    } else if tag == 23 {
        PacketKind::ClientChangeSlot
    } else if tag == 24 {
        PacketKind::ServerUpdateHealth
    } else if tag == 25 {
        PacketKind::ServerUpdateInventory
    } else if tag == 26 {
        PacketKind::ClientPlayerRespawn
    } else {
        PacketKind::Invalid
    }
}

/// The kind of a message.
pub open spec fn kind_of(packet: PacketTypes) -> PacketKind {
    match packet {
        PacketTypes::ClientHello { .. } => PacketKind::ClientHello,
        PacketTypes::ServerSync { .. } => PacketKind::ServerSync,
        PacketTypes::ClientRequestChunk { .. } => PacketKind::ClientRequestChunk,
        PacketTypes::ServerChunkResponse { .. } => PacketKind::ServerChunkResponse,
        PacketTypes::ClientUnloadChunk { .. } => PacketKind::ClientUnloadChunk,
        PacketTypes::ServerPlayerJoin { .. } => PacketKind::ServerPlayerJoin,
        PacketTypes::ServerPlayerEnterLoaded { .. } => PacketKind::ServerPlayerEnterLoaded,
        PacketTypes::ServerPlayerLeaveLoaded { .. } => PacketKind::ServerPlayerLeaveLoaded,
        PacketTypes::ServerPlayerLeave { .. } => PacketKind::ServerPlayerLeave,
        PacketTypes::ClientGoodbye { .. } => PacketKind::ClientGoodbye,
        PacketTypes::ClientPlaceBlock { .. } => PacketKind::ClientPlaceBlock,
        PacketTypes::ServerUpdateBlock { .. } => PacketKind::ServerUpdateBlock,
        PacketTypes::ClientPlayerXVelocity { .. } => PacketKind::ClientPlayerXVelocity,
        PacketTypes::ClientPlayerJump { .. } => PacketKind::ClientPlayerJump,
        PacketTypes::ClientPlayerRespawn { .. } => PacketKind::ClientPlayerRespawn,
        PacketTypes::ServerPlayerUpdatePos { .. } => PacketKind::ServerPlayerUpdatePos,
        PacketTypes::ServerKick { .. } => PacketKind::ServerKick,
        PacketTypes::ServerHeartbeat { .. } => PacketKind::ServerHeartbeat,
        PacketTypes::ClientHeartbeat { .. } => PacketKind::ClientHeartbeat,
        PacketTypes::ClientSendMessage { .. } => PacketKind::ClientSendMessage,
        PacketTypes::ServerSendMessage { .. } => PacketKind::ServerSendMessage,
        PacketTypes::ClientBreakBlock { .. } => PacketKind::ClientBreakBlock,
        PacketTypes::ClientTryAttack { .. } => PacketKind::ClientTryAttack,
        PacketTypes::ClientChangeSlot { .. } => PacketKind::ClientChangeSlot,
        PacketTypes::ServerUpdateHealth { .. } => PacketKind::ServerUpdateHealth,
        PacketTypes::ServerUpdateInventory { .. } => PacketKind::ServerUpdateInventory,
    }
}

impl PacketKind {
    /// The stable tag of this kind.
    pub fn tag(self) -> (t: u8)
        ensures
            t == kind_tag(self),
            kind_of_tag(t) == self,
    {
        match self {
            PacketKind::Invalid => 0,
            PacketKind::ClientHello => 1,
            PacketKind::ServerSync => 2,
            PacketKind::ClientRequestChunk => 3,
            PacketKind::ServerChunkResponse => 4,
            PacketKind::ClientUnloadChunk => 5,
            PacketKind::ServerPlayerJoin => 6,
            PacketKind::ServerPlayerEnterLoaded => 7,
            PacketKind::ServerPlayerLeaveLoaded => 8,
            PacketKind::ServerPlayerLeave => 9,
            PacketKind::ClientGoodbye => 10,
            PacketKind::ClientPlaceBlock => 11,
            PacketKind::ServerUpdateBlock => 12,
            PacketKind::ClientPlayerXVelocity => 13,
            PacketKind::ClientPlayerJump => 14,
            PacketKind::ServerPlayerUpdatePos => 15,
            PacketKind::ServerKick => 16,
            PacketKind::ServerHeartbeat => 17,
            PacketKind::ClientHeartbeat => 18,
            PacketKind::ClientSendMessage => 19,
            PacketKind::ServerSendMessage => 20,
            PacketKind::ClientBreakBlock => 21,
            PacketKind::ClientTryAttack => 22,
            PacketKind::ClientChangeSlot => 23,
            PacketKind::ServerUpdateHealth => 24,
            PacketKind::ServerUpdateInventory => 25,
            PacketKind::ClientPlayerRespawn => 26,
        }
    }

    /// The kind a tag names; a tag that names none gives `Invalid`.
    pub fn from_tag(tag: u8) -> (k: PacketKind)
        ensures
            k == kind_of_tag(tag),
    {
        match tag {
            1 => PacketKind::ClientHello,
            2 => PacketKind::ServerSync,
            3 => PacketKind::ClientRequestChunk,
            4 => PacketKind::ServerChunkResponse,
            5 => PacketKind::ClientUnloadChunk,
            6 => PacketKind::ServerPlayerJoin,
            7 => PacketKind::ServerPlayerEnterLoaded,
            8 => PacketKind::ServerPlayerLeaveLoaded,
            9 => PacketKind::ServerPlayerLeave,
            10 => PacketKind::ClientGoodbye,
            11 => PacketKind::ClientPlaceBlock,
            12 => PacketKind::ServerUpdateBlock,
            13 => PacketKind::ClientPlayerXVelocity,
            14 => PacketKind::ClientPlayerJump,
            15 => PacketKind::ServerPlayerUpdatePos,
            16 => PacketKind::ServerKick,
            17 => PacketKind::ServerHeartbeat,
            18 => PacketKind::ClientHeartbeat,
            19 => PacketKind::ClientSendMessage,
            20 => PacketKind::ServerSendMessage,
            21 => PacketKind::ClientBreakBlock,
            22 => PacketKind::ClientTryAttack,
            23 => PacketKind::ClientChangeSlot,
            24 => PacketKind::ServerUpdateHealth,
            25 => PacketKind::ServerUpdateInventory,
            26 => PacketKind::ClientPlayerRespawn,
            _ => PacketKind::Invalid,
        }
    }

    /// Whether messages of this kind travel from a client to the server.
    pub open spec fn from_client(self) -> bool {
        match self {
            PacketKind::ClientHello
            | PacketKind::ClientRequestChunk
            | PacketKind::ClientUnloadChunk
            | PacketKind::ClientGoodbye
            | PacketKind::ClientPlaceBlock
            | PacketKind::ClientPlayerXVelocity
            | PacketKind::ClientPlayerJump
            | PacketKind::ClientPlayerRespawn
            | PacketKind::ClientHeartbeat
            | PacketKind::ClientSendMessage
            | PacketKind::ClientBreakBlock
            | PacketKind::ClientTryAttack
            | PacketKind::ClientChangeSlot => true,
            _ => false,
        }
    }
}

impl PacketTypes {
    /// The kind of this message.
    pub fn kind(&self) -> (k: PacketKind)
        ensures
            k == kind_of(*self),
            k != PacketKind::Invalid,
    {
        match self {
            PacketTypes::ClientHello { .. } => PacketKind::ClientHello,
            PacketTypes::ServerSync { .. } => PacketKind::ServerSync,
            PacketTypes::ClientRequestChunk { .. } => PacketKind::ClientRequestChunk,
            PacketTypes::ServerChunkResponse { .. } => PacketKind::ServerChunkResponse,
            PacketTypes::ClientUnloadChunk { .. } => PacketKind::ClientUnloadChunk,
            PacketTypes::ServerPlayerJoin { .. } => PacketKind::ServerPlayerJoin,
            PacketTypes::ServerPlayerEnterLoaded { .. } => PacketKind::ServerPlayerEnterLoaded,
            PacketTypes::ServerPlayerLeaveLoaded { .. } => PacketKind::ServerPlayerLeaveLoaded,
            PacketTypes::ServerPlayerLeave { .. } => PacketKind::ServerPlayerLeave,
            PacketTypes::ClientGoodbye { .. } => PacketKind::ClientGoodbye,
            PacketTypes::ClientPlaceBlock { .. } => PacketKind::ClientPlaceBlock,
            PacketTypes::ServerUpdateBlock { .. } => PacketKind::ServerUpdateBlock,
            PacketTypes::ClientPlayerXVelocity { .. } => PacketKind::ClientPlayerXVelocity,
            PacketTypes::ClientPlayerJump { .. } => PacketKind::ClientPlayerJump,
            PacketTypes::ClientPlayerRespawn { .. } => PacketKind::ClientPlayerRespawn,
            PacketTypes::ServerPlayerUpdatePos { .. } => PacketKind::ServerPlayerUpdatePos,
            PacketTypes::ServerKick { .. } => PacketKind::ServerKick,
            PacketTypes::ServerHeartbeat { .. } => PacketKind::ServerHeartbeat,
            PacketTypes::ClientHeartbeat { .. } => PacketKind::ClientHeartbeat,
            PacketTypes::ClientSendMessage { .. } => PacketKind::ClientSendMessage,
            PacketTypes::ServerSendMessage { .. } => PacketKind::ServerSendMessage,
            PacketTypes::ClientBreakBlock { .. } => PacketKind::ClientBreakBlock,
            PacketTypes::ClientTryAttack { .. } => PacketKind::ClientTryAttack,
            PacketTypes::ClientChangeSlot { .. } => PacketKind::ClientChangeSlot,
            PacketTypes::ServerUpdateHealth { .. } => PacketKind::ServerUpdateHealth,
            PacketTypes::ServerUpdateInventory { .. } => PacketKind::ServerUpdateInventory,
        }
    }

    /// The stable tag of this message.
    pub fn tag(&self) -> (t: u8)
        ensures
            t == kind_tag(kind_of(*self)),
            1 <= t <= 26,
    {
        self.kind().tag()
    }
}

/// A message in an envelope: the tag of its kind, and its fields as
/// bytes.
#[derive(Clone, Debug)]
pub struct Packet {
    pub t: u8,
    pub data: Vec<u8>,
}

impl Packet {
    /// Puts the bytes of a message of the kind `kind` into an envelope.
    pub fn seal(kind: PacketKind, data: Vec<u8>) -> (p: Packet)
        ensures
            p.t == kind_tag(kind),
            p.data == data,
            kind_of_tag(p.t) == kind,
    {
        Packet { t: kind.tag(), data }
    }

    /// The kind of the message in the envelope; `Invalid` if the tag names
    /// none.
    pub fn kind(&self) -> (k: PacketKind)
        ensures
            k == kind_of_tag(self.t),
    {
        PacketKind::from_tag(self.t)
    }
}

/// What became of a packet that a peer sent.
#[derive(Clone, Copy, Debug, PartialEq, Eq, Structural)]
pub enum PacketOutcome {
    /// The packet was carried out.
    Done,
    /// The packet came from an address that has not joined.
    UnknownPeer,
    /// The world refused: a position outside it, or a chunk requested twice.
    Failed(crate::world::WorldError),
    /// No player id is left for another player.
    ServerFull,
    /// No column of the world is within the spawn range of the spawn point.
    NoSpawnArea,
    /// The player does not hold the chunk of the block it reached for.
    ChunkNotLoaded,
    /// The block or player reached for is too far away.
    OutOfRange,
    /// A block was to be placed where a solid block is.
    Occupied,
    /// A block was to be placed where no solid block touches it.
    Unsupported,
    /// A block was to be placed from a slot that holds no material.
    NothingToPlace,
    /// A block was to be broken where no solid block is.
    NothingToBreak,
    /// A block was to be broken with a tool too weak for it.
    TooHard,
    /// A player was to be hit that is not connected.
    UnknownTarget,
    /// The packet is of a kind that only the server sends.
    NotForServer,
}

/// A message on its way to a peer.
#[derive(Clone, Debug)]
pub struct Outbound {
    pub addr: PeerAddr,
    pub packet: PacketTypes,
}

/// Every message kind survives the trip through its tag, and every tag that
/// names a kind survives the trip through that kind.
pub proof fn lemma_tag_round_trip(kind: PacketKind, tag: u8)
    ensures
        kind_of_tag(kind_tag(kind)) == kind,
        kind_of_tag(tag) != PacketKind::Invalid ==> kind_tag(kind_of_tag(tag)) == tag,
        kind_of_tag(tag) == PacketKind::Invalid <==> (tag == 0 || tag > 26),
{
}

} // verus!
