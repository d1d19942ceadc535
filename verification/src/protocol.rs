//! Messages between the players of a room.
//!
//! Coordinates and angles that a message only carries are kept as the bit patterns of their
//! floating point numbers.
use vstd::prelude::*;
use vstd::string::*;

use crate::block::{BlockID, MaterialCell};
use crate::chunk::{ChunkPos, Position};
use crate::field::ObjectID;
use crate::text::push_decimal;
use crate::text;

verus! {

/// Version of the messages. A host turns away players that speak another one.
pub const PROTOCOL_VERSION: u32 = 10;

/// Largest payload of one piece of a field snapshot, in bytes.
pub const FIELD_SNAPSHOT_PAYLOAD_MAX: usize = 14336;

/// Names a player; zero stands for nobody.
pub type EntityId = u32;

/// Three floating point numbers, by their bit patterns.
#[derive(Copy, Clone, Debug, PartialEq, Eq, Structural)]
pub struct Vec3Bits {
    pub x: u32,
    pub y: u32,
    pub z: u32,
}

/// What a player tells the host.
#[derive(Clone, Debug, PartialEq)]
pub enum ClientMessage {
    /// Asks to join.
    Hello { display_name: String, version: u32 },
    /// Where the player stands and looks.
    PlayerInput { tick: u32, position: Vec3Bits, yaw: u32, pitch: u32 },
    /// Asks for chunks that the player does not have.
    FieldRequest { center: ChunkPos, render_distance: u32, chunks: Vec<ChunkPos> },
    /// Asks to break a block.
    Break { pos: Position, request_id: u32, input_tick: u32, player_position: Vec3Bits },
    /// Asks to place a block.
    Place {
        pos: Position,
        block: BlockID,
        request_id: u32,
        input_tick: u32,
        player_position: Vec3Bits,
    },
    Chat { content: String },
    Ping { client_time_ms: u64 },
}

/// What the host tells a player.
#[allow(inconsistent_fields)]
#[derive(Clone, Debug, PartialEq)]
pub enum ServerMessage {
    /// Answers a hello: who the player is, and who is there already.
    Welcome {
        entity_id: u32,
        server_tick: u32,
        world_seed: u64,
        host_entity_id: u32,
        host_render_distance: u32,
        players: Vec<PlayerEntry>,
    },
    /// One piece of a chunk.
    FieldSnapshot { pos: ChunkPos, frag_index: u16, frag_total: u16, payload: Vec<u8> },
    /// One changed cell.
    FieldDelta { pos: Position, cell: MaterialCell },
    /// Cells have become a free object.
    FreeObjectSpawn { object_id: ObjectID, cells: Vec<(Position, MaterialCell)> },
    /// Where a free object is.
    FreeObjectState { object_id: ObjectID, position: Vec3Bits, velocity: Vec3Bits },
    /// A free object has come to rest and is part of the field again.
    FreeObjectProject { object_id: ObjectID, deltas: Vec<(Position, MaterialCell)> },
    /// Several objects of the kind of `FreeObjectSpawn`.
    FreeObjectSpawnBatch { spawns: Vec<(ObjectID, Vec<(Position, MaterialCell)>)> },
    /// Several states of the kind of `FreeObjectState`.
    FreeObjectStateBatch { states: Vec<(ObjectID, Vec3Bits, Vec3Bits)> },
    /// Several objects of the kind of `FreeObjectProject`.
    FreeObjectProjectBatch { projections: Vec<(ObjectID, Vec<(Position, MaterialCell)>)> },
    /// What became of a request to break or place.
    ActionAck { request_id: u32, accepted: bool, reason: AckReason },
    /// Where the players are.
    PlayerTick { tick: u32, players: Vec<PlayerSnapshot>, server_time_ms: u64 },
    PeerJoined { entity_id: u32, display_name: String },
    PeerLeft { entity_id: u32 },
    Chat { from: u32, content: String },
    Pong { client_time_ms: u64, server_time_ms: u64 },
    /// The host sees further, or less far.
    HostSettings { render_distance: u32 },
}

/// What happens to a room as a whole.
#[derive(Clone, Debug, PartialEq)]
pub enum RoomEvent {
    Connected,
    Disconnected { reason: String },
    PeerCount(u32),
    SignalingError(String),
    /// A player has left the host's room.
    RemoteLeft { peer_id: u32 },
    /// The messages of a player now go through the signaling service.
    PeerRelayed { peer_id: u32 },
}

/// One player in a `PlayerTick`.
#[derive(Copy, Clone, Debug, PartialEq, Eq, Structural)]
pub struct PlayerSnapshot {
    pub entity_id: u32,
    /// The newest input of this player that the host has seen.
    pub last_input_tick: u32,
    pub position: Vec3Bits,
    pub yaw: u32,
    pub pitch: u32,
}

/// One player in a `Welcome`.
#[derive(Clone, Debug, PartialEq)]
pub struct PlayerEntry {
    pub entity_id: EntityId,
    pub display_name: String,
}

/// Why a request was granted or refused.
#[derive(Copy, Clone, Debug, PartialEq, Eq, Structural)]
pub enum AckReason {
    Granted,
    OutOfRange,
    BlockNotEmpty,
    Overlap,
    Cooldown,
}

/// Whom a message is for.
#[derive(Copy, Clone, Debug, PartialEq, Eq, Structural)]
pub enum Recipient {
    All,
    Except(EntityId),
    One(EntityId),
}

/// A message that waits to be sent.
#[derive(Clone, Debug, PartialEq)]
pub struct OutboundMessage {
    pub recipient: Recipient,
    pub message: ServerMessage,
}

/// What is said of bytes that a decoded message leaves over.
pub open spec fn trailing_text(consumed: nat, total: nat) -> Seq<char> {
    "trailing bytes after message: consumed "@ + text::decimal(consumed) + ", total "@ + text::decimal(total)
}

/// A message is the whole of its bytes: decoding that leaves bytes over has failed.
pub fn check_consumed(consumed: usize, total: usize) -> (r: Result<(), String>)
    ensures
        r is Ok <==> consumed == total,
        r matches Err(text) ==> text@ == trailing_text(consumed as nat, total as nat),
{
    if consumed == total {
        return Ok(());
    }
    let mut text = "trailing bytes after message: consumed ".to_owned();
    push_decimal(&mut text, consumed as u64);
    text.append(", total ");
    push_decimal(&mut text, total as u64);
    Err(text)
}

} // verus!
