//! The canonical packets: one tagged sum per direction, wide enough for every
//! supported version. A field that only some versions carry is an `Option`,
//! named after the version that introduced or removed it.

use vstd::prelude::*;
use crate::math::Pos;

verus! {

/// A player's unique id.
#[derive(Clone, Copy, Debug, PartialEq, Eq, Structural, Hash)]
pub struct UUID(pub u128);

impl UUID {
    pub fn from_u128(v: u128) -> (r: UUID)
        ensures
            r == UUID(v),
    {
        UUID(v)
    }

    pub fn as_u128(&self) -> (r: u128)
        ensures
            r == self.0,
    {
        self.0
    }

    /// The id whose four 32-bit words, least significant first, are `words`.
    pub open spec fn spec_from_words(words: [u32; 4]) -> u128 {
        (words[3] as u128) << 96 | (words[2] as u128) << 64 | (words[1] as u128) << 32
            | words[0] as u128
    }

    pub fn from_words(words: [u32; 4]) -> (r: UUID)
        ensures
            r.0 == UUID::spec_from_words(words),
    {
        UUID(
            (words[3] as u128) << 96 | (words[2] as u128) << 64 | (words[1] as u128) << 32
                | words[0] as u128,
        )
    }
}

/// One changed block inside a chunk, as a multi-block change lists it.
#[derive(Clone, Copy, Debug, PartialEq, Eq, Structural, Hash)]
pub struct BlockRecord {
    pub x: u8,
    pub y: u8,
    pub z: u8,
    pub block: i32,
}

/// A packet from the server to a client.
#[allow(inconsistent_fields)]
#[derive(Clone, Debug, PartialEq, Eq)]
pub enum CbPacket {
    Login {
        entity_id: i32,
        game_mode: u8,
        difficulty: u8,
        dimension: i32,
        level_type: String,
        max_players: u8,
        reduced_debug_info: bool,
    },
    MapChunk {
        x: i32,
        z: i32,
        ground_up: bool,
        bit_map_v1_8: Option<u16>,
        bit_map_v1_9: Option<i32>,
        chunk_data: Vec<u8>,
    },
    UnloadChunk { chunk_x_v1_9: Option<i32>, chunk_z_v1_9: Option<i32> },
    /// An absolute teleport of the receiving player. Coordinates and angles
    /// are in fixed point.
    Position { x: i64, y: i64, z: i64, yaw: i64, pitch: i64, flags: u8, teleport_id_v1_9: Option<i32> },
    KeepAlive { keep_alive_id_v1_8: Option<i32>, keep_alive_id_v1_12_2: Option<i64> },
    Chat { message: String, position: u8, sender_v1_16: Option<UUID> },
    KickDisconnect { reason: String },
    PlayerlistHeader { header: String, footer: String },
    EntityHeadRotation { entity_id: i32, head_yaw: i8 },
    EntityLook { entity_id: i32, yaw: i8, pitch: i8, on_ground: bool },
    RelEntityMove {
        entity_id: i32,
        d_x_v1_8: Option<i8>,
        d_x_v1_9: Option<i16>,
        d_y_v1_8: Option<i8>,
        d_y_v1_9: Option<i16>,
        d_z_v1_8: Option<i8>,
        d_z_v1_9: Option<i16>,
        on_ground: bool,
    },
    EntityMoveLook {
        entity_id: i32,
        d_x_v1_8: Option<i8>,
        d_x_v1_9: Option<i16>,
        d_y_v1_8: Option<i8>,
        d_y_v1_9: Option<i16>,
        d_z_v1_8: Option<i8>,
        d_z_v1_9: Option<i16>,
        yaw: i8,
        pitch: i8,
        on_ground: bool,
    },
    /// An absolute move of another entity: in 1/32 of a block for the oldest
    /// version, in fixed point for the others.
    EntityTeleport {
        entity_id: i32,
        x_v1_8: Option<i32>,
        x_v1_9: Option<i64>,
        y_v1_8: Option<i32>,
        y_v1_9: Option<i64>,
        z_v1_8: Option<i32>,
        z_v1_9: Option<i64>,
        yaw: i8,
        pitch: i8,
        on_ground: bool,
    },
    BlockChange { location: Pos, type_: i32 },
    MultiBlockChange {
        chunk_x_removed_v1_16_2: Option<i32>,
        chunk_z_removed_v1_16_2: Option<i32>,
        chunk_coordinates_v1_16_2: Option<i64>,
        not_trust_edges_v1_16_2: Option<bool>,
        records_v1_8: Option<Vec<BlockRecord>>,
        records_v1_16_2: Option<Vec<i64>>,
    },
    SetSlot { window_id: i8, slot: i16, item: i32, amount: u8 },
}

/// A packet from a client to the server.
#[allow(inconsistent_fields)]
#[derive(Clone, Debug, PartialEq, Eq)]
pub enum SbPacket {
    /// The first frame of a connection: who logs in, and with which version.
    Login { username: String, uuid: UUID, protocol_version: i32 },
    KeepAlive { id: i64 },
    /// A new position, in fixed point.
    PlayerPosition { x: i64, y: i64, z: i64, on_ground: bool },
    /// A new look direction, in fixed point degrees.
    PlayerLook { yaw: i64, pitch: i64, on_ground: bool },
    PlayerPositionLook { x: i64, y: i64, z: i64, yaw: i64, pitch: i64, on_ground: bool },
    TeleportConfirm { teleport_id: i32 },
    BlockDig { location: Pos, status: u8, face: u8 },
    HeldItemSlot { slot: i16 },
    Chat { message: String },
}

} // verus!
