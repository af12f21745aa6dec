//! The per-player tick: committing the position that last arrived, encoding
//! the movement for each observer, and working out which chunks enter and
//! leave the player's view.

use vstd::prelude::*;
use vstd::arithmetic::div_mod::lemma_fundamental_div_mod_converse;
use crate::math::{ChunkPos, FPos, FPosError, CHUNK_LIMIT};
use crate::packet::CbPacket;
use crate::version::ProtocolVersion;

verus! {

/// A full turn, in fixed-point degrees.
pub const FULL_TURN: i64 = 1474560;

/// A quarter turn, in fixed-point degrees: the steepest pitch.
pub const QUARTER_TURN: i64 = 368640;

/// Fixed-point degrees per step of a wire angle (1/256 of a turn).
pub const ANGLE_STEP: i64 = 5760;

/// Fixed-point units per step of the oldest version's relative move (1/32
/// of a block).
pub const OLD_MOVE_STEP: i64 = 128;

/// Number of chunks streamed around a player in each direction.
pub const VIEW_DISTANCE: u8 = 10;

/// The nearest integer to `a / d`, halves rounded away from zero.
pub open spec fn round_div(a: int, d: int) -> int
    recommends
        d > 0,
{
    if a >= 0 {
        (2 * a + d) / (2 * d)
    } else {
        -((2 * (-a) + d) / (2 * d))
    }
}

/// The byte that carries an angle: the angle in 1/256 of a turn, rounded to
/// the nearest step and reduced modulo 256, read as a signed byte.
pub open spec fn spec_wire_angle(a: int) -> int {
    let m = round_div(a, ANGLE_STEP as int) % 256;
    if m >= 128 {
        m - 256
    } else {
        m
    }
}

/// The yaw brought into `0 <= yaw < 360` degrees.
pub open spec fn spec_normalize_yaw(yaw: int) -> int {
    yaw % (FULL_TURN as int)
}

/// The pitch held within a quarter turn up or down.
pub open spec fn spec_clamp_pitch(pitch: int) -> int {
    if pitch > QUARTER_TURN {
        QUARTER_TURN as int
    } else if pitch < -QUARTER_TURN {
        -QUARTER_TURN
    } else {
        pitch
    }
}

/// Exec form of [`round_div`] for a positive divisor.
pub fn round_div_exec(a: i64, d: i64) -> (r: i64)
    requires
        0 < d <= 0x1_0000_0000,
    ensures
        r as int == round_div(a as int, d as int),
{
    let wide: i128 = a as i128;
    let dd: i128 = d as i128;
    if a >= 0 {
        let q: i128 = (2 * wide + dd) / (2 * dd);
        assert(q <= 2 * wide + dd) by (nonlinear_arith)
            requires
                q == (2 * wide + dd) / (2 * dd),
                dd > 0,
                2 * wide + dd >= 0,
        ;
        assert(q <= a) by (nonlinear_arith)
            requires
                q == (2 * wide + dd) / (2 * dd),
                dd >= 1,
                wide >= 0,
                wide == a,
        ;
        q as i64
    } else {
        let neg: i128 = -wide;
        let q: i128 = (2 * neg + dd) / (2 * dd);
        assert(0 <= q <= neg) by (nonlinear_arith)
            requires
                q == (2 * neg + dd) / (2 * dd),
                dd >= 1,
                neg >= 0,
        ;
        (-q) as i64
    }
}

/// The signed byte that carries the angle `a` (see [`spec_wire_angle`]).
pub fn wire_angle(a: i64) -> (r: i8)
    ensures
        r as int == spec_wire_angle(a as int),
{
    let steps: i64 = round_div_exec(a, ANGLE_STEP);
    let m: i64 = ((steps % 256) + 256) % 256;
    assert(m as int == (steps as int) % 256) by {
        assert(ANGLE_STEP == 5760);
    }
    if m >= 128 {
        (m - 256) as i8
    } else {
        m as i8
    }
}

/// What a player's position is made of: where it is, where it was a tick
/// ago, and where the last packet said it should go.
#[derive(Clone, Copy, Debug, PartialEq, Eq, Structural)]
pub struct PlayerPosition {
    /// The position this tick.
    pub curr: FPos,
    /// The position on the previous tick.
    pub prev: FPos,
    /// The position that arrived last; the next tick moves the player there.
    pub next: FPos,
    pub yaw: i64,
    pub pitch: i64,
    pub next_yaw: i64,
    pub next_pitch: i64,
}

/// What one tick changed.
#[derive(Clone, Copy, Debug, PartialEq, Eq, Structural)]
pub struct Movement {
    pub pos_changed: bool,
    pub look_changed: bool,
    pub old_chunk: ChunkPos,
    pub new_chunk: ChunkPos,
}

impl PlayerPosition {
    pub open spec fn wf(self) -> bool {
        &&& self.curr.wf()
        &&& self.prev.wf()
        &&& self.next.wf()
        &&& 0 <= self.yaw < FULL_TURN
        &&& -QUARTER_TURN <= self.pitch <= QUARTER_TURN
    }

    /// A player standing still at `pos`, looking along yaw 0.
    pub open spec fn spec_new(pos: FPos) -> PlayerPosition {
        PlayerPosition { curr: pos, prev: pos, next: pos, yaw: 0, pitch: 0, next_yaw: 0, next_pitch: 0 }
    }

    /// A player standing still at `pos`, looking along yaw 0.
    pub fn new(pos: FPos) -> (p: PlayerPosition)
        requires
            pos.wf(),
        ensures
            p.wf(),
            p == PlayerPosition::spec_new(pos),
    {
        PlayerPosition { curr: pos, prev: pos, next: pos, yaw: 0, pitch: 0, next_yaw: 0, next_pitch: 0 }
    }

    /// Records the position of a position packet. A position outside the
    /// world is refused and changes nothing.
    pub fn set_next_pos(&mut self, x: i64, y: i64, z: i64) -> (r: Result<(), FPosError>)
        requires
            old(self).wf(),
        ensures
            final(self).wf(),
            r.is_ok() <==> (FPos { x, y, z }).wf(),
            r.is_ok() ==> *final(self) == (PlayerPosition { next: FPos { x, y, z }, ..*old(self) }),
            r.is_err() ==> *final(self) == *old(self) && r.unwrap_err().pos == (FPos { x, y, z }),
    {
        match FPos::new(x, y, z) {
            Some(p) => {
                self.next = p;
                Ok(())
            },
            None => Err((FPos { x, y, z }).err(String::from_str("outside of the world"))),
        }
    }

    /// Records the direction of a look packet.
    pub fn set_next_look(&mut self, yaw: i64, pitch: i64)
        ensures
            *final(self) == (PlayerPosition { next_yaw: yaw, next_pitch: pitch, ..*old(self) }),
    {
        self.next_yaw = yaw;
        self.next_pitch = pitch;
    }

    /// Commits one tick: the current position becomes the previous one, the
    /// position that arrived last becomes the current one, yaw is brought
    /// into one turn and pitch clamped to a quarter turn. Says what changed
    /// and which chunks the player left and entered. The look has changed
    /// where the yaw or the pitch that is committed differs from the one
    /// that was committed before: a tick without new input changes nothing.
    pub fn tick(&mut self) -> (m: Movement)
        requires
            old(self).wf(),
        ensures
            final(self).wf(),
            final(self).prev == old(self).curr,
            final(self).curr == old(self).next,
            final(self).next == old(self).next,
            final(self).yaw == spec_normalize_yaw(old(self).next_yaw as int),
            final(self).pitch == spec_clamp_pitch(old(self).next_pitch as int),
            final(self).next_yaw == old(self).next_yaw,
            final(self).next_pitch == old(self).next_pitch,
            m.pos_changed == (old(self).curr != old(self).next),
            m.look_changed == (final(self).yaw != old(self).yaw || final(self).pitch != old(self).pitch),
            m.old_chunk == old(self).curr.spec_block().spec_chunk(),
            m.new_chunk == old(self).next.spec_block().spec_chunk(),
            m.old_chunk.in_world(),
            m.new_chunk.in_world(),
    {
        self.prev = self.curr;
        let pos_changed = self.curr.x != self.next.x || self.curr.y != self.next.y || self.curr.z
            != self.next.z;
        self.curr = self.next;
        let mut yaw: i64 = self.next_yaw % FULL_TURN;
        if yaw < 0 {
            yaw = yaw + FULL_TURN;
        }
        let mut pitch: i64 = self.next_pitch;
        if pitch > QUARTER_TURN {
            pitch = QUARTER_TURN;
        } else if pitch < -QUARTER_TURN {
            pitch = -QUARTER_TURN;
        }
        let look_changed = yaw != self.yaw || pitch != self.pitch;
        self.yaw = yaw;
        self.pitch = pitch;
        let old_chunk = self.prev.chunk();
        let new_chunk = self.curr.chunk();
        Movement { pos_changed, look_changed, old_chunk, new_chunk }
    }

    pub fn pos(&self) -> (r: FPos)
        ensures
            r == self.curr,
    {
        self.curr
    }

    /// The position, then pitch and yaw.
    pub fn pos_look(&self) -> (r: (FPos, i64, i64))
        ensures
            r == (self.curr, self.pitch, self.yaw),
    {
        (self.curr, self.pitch, self.yaw)
    }

    /// The current position, then the previous one.
    pub fn pos_with_prev(&self) -> (r: (FPos, FPos))
        ensures
            r == (self.curr, self.prev),
    {
        (self.curr, self.prev)
    }

    /// Pitch, then yaw.
    pub fn look(&self) -> (r: (i64, i64))
        ensures
            r == (self.pitch, self.yaw),
    {
        (self.pitch, self.yaw)
    }

    /// Whether `pos` is within view distance of the player's chunk.
    pub fn in_view(&self, pos: ChunkPos) -> (r: bool)
        requires
            self.curr.wf(),
        ensures
            r == spec_in_view(self.curr.spec_block().spec_chunk(), pos, VIEW_DISTANCE as int),
    {
        in_view(self.curr.chunk(), pos, VIEW_DISTANCE)
    }
}

// ---------------------------------------------------------------------------
// Movement encoding
// ---------------------------------------------------------------------------

/// Whether a move by `d` fixed-point units along one axis fits a relative
/// move of the given version: at most 127 steps of 1/32 for the oldest
/// version, at most 32767 steps of 1/4096 for the others.
pub open spec fn axis_fits(old_version: bool, d: int) -> bool {
    if old_version {
        -127 * OLD_MOVE_STEP <= d <= 127 * OLD_MOVE_STEP
    } else {
        -0x7fff <= d <= 0x7fff
    }
}

/// Whether the move from `prev` to `curr` can be sent as a relative move.
pub open spec fn fits_relative(ver: ProtocolVersion, prev: FPos, curr: FPos) -> bool {
    let old_version = ver == ProtocolVersion::V1_8;
    &&& axis_fits(old_version, curr.x - prev.x)
    &&& axis_fits(old_version, curr.y - prev.y)
    &&& axis_fits(old_version, curr.z - prev.z)
}

/// The delta a relative move carries on the oldest version.
pub open spec fn old_delta(ver: ProtocolVersion, d: int) -> int {
    if ver == ProtocolVersion::V1_8 {
        round_div(d, OLD_MOVE_STEP as int)
    } else {
        0
    }
}

/// The delta a relative move carries on every later version.
pub open spec fn new_delta(ver: ProtocolVersion, d: int) -> int {
    if ver == ProtocolVersion::V1_8 {
        0
    } else {
        d
    }
}

/// The packet that moves entity `eid` for an observer on `ver`, given that
/// its position changed.
pub open spec fn spec_position_packet(
    eid: i32,
    ver: ProtocolVersion,
    pos: PlayerPosition,
    look_changed: bool,
) -> CbPacket {
    let dx = pos.curr.x - pos.prev.x;
    let dy = pos.curr.y - pos.prev.y;
    let dz = pos.curr.z - pos.prev.z;
    if !fits_relative(ver, pos.prev, pos.curr) {
        CbPacket::EntityTeleport {
            entity_id: eid,
            x_v1_8: Some(FPos::spec_fixed32(pos.curr.x) as i32),
            x_v1_9: Some(pos.curr.x),
            y_v1_8: Some(FPos::spec_fixed32(pos.curr.y) as i32),
            y_v1_9: Some(pos.curr.y),
            z_v1_8: Some(FPos::spec_fixed32(pos.curr.z) as i32),
            z_v1_9: Some(pos.curr.z),
            yaw: spec_wire_angle(pos.yaw as int) as i8,
            pitch: spec_wire_angle(pos.pitch as int) as i8,
            on_ground: true,
        }
    } else if look_changed {
        CbPacket::EntityMoveLook {
            entity_id: eid,
            d_x_v1_8: Some(old_delta(ver, dx) as i8),
            d_x_v1_9: Some(new_delta(ver, dx) as i16),
            d_y_v1_8: Some(old_delta(ver, dy) as i8),
            d_y_v1_9: Some(new_delta(ver, dy) as i16),
            d_z_v1_8: Some(old_delta(ver, dz) as i8),
            d_z_v1_9: Some(new_delta(ver, dz) as i16),
            yaw: spec_wire_angle(pos.yaw as int) as i8,
            pitch: spec_wire_angle(pos.pitch as int) as i8,
            on_ground: true,
        }
    } else {
        CbPacket::RelEntityMove {
            entity_id: eid,
            d_x_v1_8: Some(old_delta(ver, dx) as i8),
            d_x_v1_9: Some(new_delta(ver, dx) as i16),
            d_y_v1_8: Some(old_delta(ver, dy) as i8),
            d_y_v1_9: Some(new_delta(ver, dy) as i16),
            d_z_v1_8: Some(old_delta(ver, dz) as i8),
            d_z_v1_9: Some(new_delta(ver, dz) as i16),
            on_ground: true,
        }
    }
}

/// The packets that tell an observer on `ver` what entity `eid` did this
/// tick: a head rotation first where the look changed, then either the
/// packet for the move or, where only the look changed, the look.
pub open spec fn spec_movement_packets(
    eid: i32,
    ver: ProtocolVersion,
    pos: PlayerPosition,
    pos_changed: bool,
    look_changed: bool,
) -> Seq<CbPacket> {
    let head = if look_changed {
        seq![
            CbPacket::EntityHeadRotation {
                entity_id: eid,
                head_yaw: spec_wire_angle(pos.yaw as int) as i8,
            },
        ]
    } else {
        Seq::<CbPacket>::empty()
    };
    if pos_changed {
        head.push(spec_position_packet(eid, ver, pos, look_changed))
    } else if look_changed {
        head.push(
            CbPacket::EntityLook {
                entity_id: eid,
                yaw: spec_wire_angle(pos.yaw as int) as i8,
                pitch: spec_wire_angle(pos.pitch as int) as i8,
                on_ground: true,
            },
        )
    } else {
        head
    }
}

/// The delta of one axis for the oldest version, where it fits.
fn old_axis(d: i64) -> (r: i8)
    requires
        axis_fits(true, d as int),
    ensures
        r as int == round_div(d as int, OLD_MOVE_STEP as int),
{
    let q: i64 = round_div_exec(d, OLD_MOVE_STEP);
    assert(-127 <= q <= 127) by {
        if d >= 0 {
            assert((2 * d + 128) / 256 <= 127);
        } else {
            assert((2 * (-d) + 128) / 256 <= 127);
        }
    }
    q as i8
}

/// Whether the move by `d` along one axis fits a relative move.
fn axis_fits_exec(old_version: bool, d: i64) -> (r: bool)
    ensures
        r == axis_fits(old_version, d as int),
{
    if old_version {
        -127 * OLD_MOVE_STEP <= d && d <= 127 * OLD_MOVE_STEP
    } else {
        -0x7fff <= d && d <= 0x7fff
    }
}

/// The packets that tell an observer on version `ver` what entity `eid` did
/// in the tick that left it at `pos` (see [`spec_movement_packets`]).
pub fn movement_packets(
    eid: i32,
    ver: ProtocolVersion,
    pos: &PlayerPosition,
    pos_changed: bool,
    look_changed: bool,
) -> (out: Vec<CbPacket>)
    requires
        pos.wf(),
    ensures
        out@ == spec_movement_packets(eid, ver, *pos, pos_changed, look_changed),
{
    let mut out: Vec<CbPacket> = Vec::new();
    let yaw = wire_angle(pos.yaw);
    let pitch = wire_angle(pos.pitch);
    if look_changed {
        out.push(CbPacket::EntityHeadRotation { entity_id: eid, head_yaw: yaw });
    }
    if pos_changed {
        let dx: i64 = pos.curr.x - pos.prev.x;
        let dy: i64 = pos.curr.y - pos.prev.y;
        let dz: i64 = pos.curr.z - pos.prev.z;
        let old_version = ver.to_index() == ProtocolVersion::V1_8.to_index();
        proof {
            ProtocolVersion::index_injective();
        }
        let fits = axis_fits_exec(old_version, dx) && axis_fits_exec(old_version, dy)
            && axis_fits_exec(old_version, dz);
        if !fits {
            out.push(
                CbPacket::EntityTeleport {
                    entity_id: eid,
                    x_v1_8: Some(pos.curr.fixed_x()),
                    x_v1_9: Some(pos.curr.x),
                    y_v1_8: Some(pos.curr.fixed_y()),
                    y_v1_9: Some(pos.curr.y),
                    z_v1_8: Some(pos.curr.fixed_z()),
                    z_v1_9: Some(pos.curr.z),
                    yaw,
                    pitch,
                    on_ground: true,
                },
            );
        } else {
            let mut ox: i8 = 0;
            let mut oy: i8 = 0;
            let mut oz: i8 = 0;
            let mut nx: i16 = 0;
            let mut ny: i16 = 0;
            let mut nz: i16 = 0;
            if old_version {
                ox = old_axis(dx);
                oy = old_axis(dy);
                oz = old_axis(dz);
            } else {
                nx = dx as i16;
                ny = dy as i16;
                nz = dz as i16;
            }
            if look_changed {
                out.push(
                    CbPacket::EntityMoveLook {
                        entity_id: eid,
                        d_x_v1_8: Some(ox),
                        d_x_v1_9: Some(nx),
                        d_y_v1_8: Some(oy),
                        d_y_v1_9: Some(ny),
                        d_z_v1_8: Some(oz),
                        d_z_v1_9: Some(nz),
                        yaw,
                        pitch,
                        on_ground: true,
                    },
                );
            } else {
                out.push(
                    CbPacket::RelEntityMove {
                        entity_id: eid,
                        d_x_v1_8: Some(ox),
                        d_x_v1_9: Some(nx),
                        d_y_v1_8: Some(oy),
                        d_y_v1_9: Some(ny),
                        d_z_v1_8: Some(oz),
                        d_z_v1_9: Some(nz),
                        on_ground: true,
                    },
                );
            }
        }
    } else if look_changed {
        out.push(CbPacket::EntityLook { entity_id: eid, yaw, pitch, on_ground: true });
    }
    assert(out@ =~= spec_movement_packets(eid, ver, *pos, pos_changed, look_changed));
    out
}

/// A move is sent as a relative move exactly where it fits the version's
/// signed range on every axis, and as a teleport otherwise: on every version
/// but the oldest a delta of up to 32767/4096 blocks fits, on the oldest one
/// of up to 127/32 blocks.
pub proof fn movement_encoding(eid: i32, ver: ProtocolVersion, pos: PlayerPosition, look: bool)
    requires
        pos.wf(),
    ensures
        fits_relative(ver, pos.prev, pos.curr) <==> !(spec_position_packet(eid, ver, pos, look)
            is EntityTeleport),
        fits_relative(ver, pos.prev, pos.curr) && !look ==> spec_position_packet(
            eid,
            ver,
            pos,
            look,
        ) is RelEntityMove,
        fits_relative(ver, pos.prev, pos.curr) && look ==> spec_position_packet(
            eid,
            ver,
            pos,
            look,
        ) is EntityMoveLook,
        ver != ProtocolVersion::V1_8 && fits_relative(ver, pos.prev, pos.curr) ==> new_delta(
            ver,
            pos.curr.x - pos.prev.x,
        ) == pos.curr.x - pos.prev.x,
{
}

/// The byte of an angle is the same for angles a whole number of turns
/// apart, as long as neither is negative; and it is the angle's number of
/// 1/256 turns where that is whole.
pub proof fn wire_angle_steps(k: int)
    requires
        0 <= k,
    ensures
        spec_wire_angle(k * ANGLE_STEP) == if k % 256 >= 128 {
            k % 256 - 256
        } else {
            k % 256
        },
        -128 <= spec_wire_angle(k * ANGLE_STEP) < 128,
{
    let a = k * ANGLE_STEP;
    assert((2 * a + 5760) / 11520 == k) by {
        lemma_fundamental_div_mod_converse(2 * a + 5760, 11520, k, 5760);
    }
}

// ---------------------------------------------------------------------------
// The view ring
// ---------------------------------------------------------------------------

/// A rectangle of chunks: `min` inclusive, `max` exclusive, on both axes.
#[derive(Clone, Copy, Debug, PartialEq, Eq, Structural)]
pub struct ChunkRect {
    pub min: ChunkPos,
    pub max: ChunkPos,
}

/// The chunks that enter and leave a view, each as two rectangles that do
/// not overlap: the columns on the side that the view moved to (corners
/// included), and the rows above or below within the columns that stay.
#[derive(Clone, Copy, Debug, PartialEq, Eq, Structural)]
pub struct ViewDelta {
    pub load_side: ChunkRect,
    pub load_cap: ChunkRect,
    pub unload_side: ChunkRect,
    pub unload_cap: ChunkRect,
}

/// Whether chunk `p` is within `r` chunks of `center` on both axes.
pub open spec fn spec_in_view(center: ChunkPos, p: ChunkPos, r: int) -> bool {
    &&& center.x - r <= p.x <= center.x + r
    &&& center.z - r <= p.z <= center.z + r
}

/// Exec form of [`spec_in_view`].
pub fn in_view(center: ChunkPos, p: ChunkPos, r: u8) -> (b: bool)
    ensures
        b == spec_in_view(center, p, r as int),
{
    let cx: i64 = center.x as i64;
    let cz: i64 = center.z as i64;
    let px: i64 = p.x as i64;
    let pz: i64 = p.z as i64;
    let rr: i64 = r as i64;
    cx - rr <= px && px <= cx + rr && cz - rr <= pz && pz <= cz + rr
}

impl ChunkRect {
    pub open spec fn contains(self, p: ChunkPos) -> bool {
        &&& self.min.x <= p.x < self.max.x
        &&& self.min.z <= p.z < self.max.z
    }

    pub open spec fn spec_width(self) -> int {
        if self.max.x > self.min.x {
            self.max.x - self.min.x
        } else {
            0
        }
    }

    pub open spec fn spec_height(self) -> int {
        if self.max.z > self.min.z {
            self.max.z - self.min.z
        } else {
            0
        }
    }

    /// How many chunks the rectangle holds.
    pub open spec fn spec_count(self) -> int {
        self.spec_width() * self.spec_height()
    }

    /// The chunks of the rectangle, column by column, each column from its
    /// smallest `z` up.
    pub open spec fn spec_positions(self) -> Seq<ChunkPos> {
        Seq::new(
            self.spec_count() as nat,
            |i: int|
                ChunkPos {
                    x: (self.min.x + i / self.spec_height()) as i32,
                    z: (self.min.z + i % self.spec_height()) as i32,
                },
        )
    }

    pub fn new(min: ChunkPos, max: ChunkPos) -> (r: ChunkRect)
        ensures
            r.min == min,
            r.max == max,
    {
        ChunkRect { min, max }
    }

    /// The rectangle without any chunk: it begins and ends at the origin.
    pub fn empty() -> (r: ChunkRect)
        ensures
            r == (ChunkRect { min: ChunkPos { x: 0, z: 0 }, max: ChunkPos { x: 0, z: 0 } }),
            forall|p: ChunkPos| !r.contains(p),
            r.spec_count() == 0,
            r.spec_positions() == Seq::<ChunkPos>::empty(),
    {
        let r = ChunkRect { min: ChunkPos { x: 0, z: 0 }, max: ChunkPos { x: 0, z: 0 } };
        assert(r.spec_positions() =~= Seq::<ChunkPos>::empty());
        r
    }

    /// The chunks of the rectangle in the order in which they are streamed.
    pub fn positions(&self) -> (out: Vec<ChunkPos>)
        requires
            self.spec_count() <= 0x1000_0000,
        ensures
            out@ == self.spec_positions(),
    {
        let mut out: Vec<ChunkPos> = Vec::new();
        if self.max.x <= self.min.x || self.max.z <= self.min.z {
            assert(self.spec_count() == 0) by (nonlinear_arith)
                requires
                    self.spec_width() == 0 || self.spec_height() == 0,
                    self.spec_count() == self.spec_width() * self.spec_height(),
            ;
            assert(out@ =~= self.spec_positions());
            return out;
        }
        let ghost h = self.spec_height();
        let ghost w = self.spec_width();
        let mut x: i32 = self.min.x;
        while x < self.max.x
            invariant
                self.min.x <= x <= self.max.x,
                self.min.x < self.max.x,
                self.min.z < self.max.z,
                h == self.spec_height(),
                w == self.spec_width(),
                h > 0,
                w * h <= 0x1000_0000,
                out@.len() == (x - self.min.x) * h,
                forall|i: int|
                    0 <= i < out@.len() ==> out@[i] == (ChunkPos {
                        x: (self.min.x + i / h) as i32,
                        z: (self.min.z + i % h) as i32,
                    }),
            decreases self.max.x - x,
        {
            let mut z: i32 = self.min.z;
            while z < self.max.z
                invariant
                    self.min.x <= x < self.max.x,
                    self.min.z <= z <= self.max.z,
                    h == self.spec_height(),
                    w == self.spec_width(),
                    h > 0,
                    w * h <= 0x1000_0000,
                    out@.len() == (x - self.min.x) * h + (z - self.min.z),
                    forall|i: int|
                        0 <= i < out@.len() ==> out@[i] == (ChunkPos {
                            x: (self.min.x + i / h) as i32,
                            z: (self.min.z + i % h) as i32,
                        }),
                decreases self.max.z - z,
            {
                proof {
                    let k = out@.len() as int;
                    lemma_fundamental_div_mod_converse(k, h, x - self.min.x, z - self.min.z);
                }
                out.push(ChunkPos { x, z });
                z += 1;
            }
            assert((x - self.min.x) * h + h == (x + 1 - self.min.x) * h) by (nonlinear_arith);
            x += 1;
        }
        assert(out@.len() == w * h);
        assert(out@ =~= self.spec_positions());
        out
    }

    /// Every chunk of the rectangle is listed, once, and no other.
    pub proof fn positions_cover(self)
        ensures
            forall|i: int|
                0 <= i < self.spec_positions().len() ==> self.contains(
                    #[trigger] self.spec_positions()[i],
                ),
            forall|p: ChunkPos|
                self.contains(p) ==> self.spec_positions()[(p.x - self.min.x) * self.spec_height()
                    + (p.z - self.min.z)] == p && 0 <= (p.x - self.min.x) * self.spec_height() + (
                p.z - self.min.z) < self.spec_count(),
            forall|i: int, j: int|
                0 <= i < j < self.spec_positions().len() ==> self.spec_positions()[i]
                    != self.spec_positions()[j],
    {
        let h = self.spec_height();
        let w = self.spec_width();
        let s = self.spec_positions();
        assert forall|i: int| 0 <= i < s.len() implies self.contains(#[trigger] s[i]) by {
            assert(h > 0 && w > 0) by (nonlinear_arith)
                requires
                    0 <= i < w * h,
                    w >= 0,
                    h >= 0,
            ;
            lemma_div_bounds(i, w, h);
        }
        assert forall|p: ChunkPos| self.contains(p) implies s[(p.x - self.min.x) * h + (p.z
            - self.min.z)] == p && 0 <= (p.x - self.min.x) * h + (p.z - self.min.z)
            < self.spec_count() by {
            let k = (p.x - self.min.x) * h + (p.z - self.min.z);
            lemma_fundamental_div_mod_converse(k, h, p.x - self.min.x, p.z - self.min.z);
            assert(0 <= k < w * h) by (nonlinear_arith)
                requires
                    k == (p.x - self.min.x) * h + (p.z - self.min.z),
                    0 <= p.x - self.min.x < w,
                    0 <= p.z - self.min.z < h,
            ;
        }
        assert forall|i: int, j: int| 0 <= i < j < s.len() implies s[i] != s[j] by {
            assert(h > 0 && w > 0) by (nonlinear_arith)
                requires
                    0 <= i < w * h,
                    w >= 0,
                    h >= 0,
            ;
            lemma_div_bounds(i, w, h);
            lemma_div_bounds(j, w, h);
            if s[i] == s[j] {
                assert(i / h == j / h);
                assert(i % h == j % h);
                vstd::arithmetic::div_mod::lemma_fundamental_div_mod(i, h);
                vstd::arithmetic::div_mod::lemma_fundamental_div_mod(j, h);
            }
        }
    }
}

/// For `0 <= i < w * h`: `0 <= i / h < w` and `0 <= i % h < h`.
pub proof fn lemma_div_bounds(i: int, w: int, h: int)
    requires
        0 <= i < w * h,
        h > 0,
    ensures
        0 <= i / h < w,
        0 <= i % h < h,
{
    vstd::arithmetic::div_mod::lemma_fundamental_div_mod(i, h);
    vstd::arithmetic::div_mod::lemma_mod_bound(i, h);
    assert(0 <= i / h < w) by (nonlinear_arith)
        requires
            0 <= i < w * h,
            h > 0,
            i == h * (i / h) + i % h,
            0 <= i % h < h,
    ;
}

/// The chunks within `r` of `center`, as a rectangle.
pub fn view_rect(center: ChunkPos, r: u8) -> (rect: ChunkRect)
    requires
        center.in_world(),
    ensures
        forall|p: ChunkPos| rect.contains(p) <==> spec_in_view(center, p, r as int),
        rect.spec_width() == 2 * r + 1,
        rect.spec_height() == 2 * r + 1,
{
    ChunkRect {
        min: ChunkPos { x: center.x - r as i32, z: center.z - r as i32 },
        max: ChunkPos { x: center.x + r as i32 + 1, z: center.z + r as i32 + 1 },
    }
}

/// The square of 2r by 2r chunks that is streamed to a player who joins at
/// `center`: from `center - r` up to, and not including, `center + r`.
pub open spec fn spec_join_rect(center: ChunkPos, r: int) -> ChunkRect {
    ChunkRect {
        min: ChunkPos { x: (center.x - r) as i32, z: (center.z - r) as i32 },
        max: ChunkPos { x: (center.x + r) as i32, z: (center.z + r) as i32 },
    }
}

/// Exec form of [`spec_join_rect`].
pub fn join_rect(center: ChunkPos, r: u8) -> (rect: ChunkRect)
    requires
        center.in_world(),
    ensures
        rect == spec_join_rect(center, r as int),
        rect.spec_count() == 4 * r * r,
{
    let rect = ChunkRect {
        min: ChunkPos { x: center.x - r as i32, z: center.z - r as i32 },
        max: ChunkPos { x: center.x + r as i32, z: center.z + r as i32 },
    };
    assert(rect.spec_count() == 4 * r * r) by (nonlinear_arith)
        requires
            rect.spec_count() == rect.spec_width() * rect.spec_height(),
            rect.spec_width() == 2 * r,
            rect.spec_height() == 2 * r,
    ;
    rect
}

fn min_i32(a: i32, b: i32) -> (r: i32)
    ensures
        r <= a,
        r <= b,
        r == a || r == b,
{
    if a < b {
        a
    } else {
        b
    }
}

fn max_i32(a: i32, b: i32) -> (r: i32)
    ensures
        r >= a,
        r >= b,
        r == a || r == b,
{
    if a > b {
        a
    } else {
        b
    }
}

/// The chunks in view of `to` and not of `from`, as two rectangles: the
/// columns that only the new view reaches, over its whole height; and, in
/// the columns that both views reach, the rows that only the new view
/// reaches.
pub fn view_strips(from: ChunkPos, to: ChunkPos, r: u8) -> (out: (ChunkRect, ChunkRect))
    requires
        from.in_world(),
        to.in_world(),
    ensures
        forall|p: ChunkPos|
            (out.0.contains(p) || out.1.contains(p)) <==> (spec_in_view(to, p, r as int)
                && !spec_in_view(from, p, r as int)),
        forall|p: ChunkPos| !(out.0.contains(p) && out.1.contains(p)),
        out.0 == spec_side_strip(from, to, r as int),
        out.1 == spec_cap_strip(from, to, r as int),
{
    let rr: i32 = r as i32;
    let side = if to.x > from.x {
        ChunkRect {
            min: ChunkPos { x: max_i32(from.x + rr + 1, to.x - rr), z: to.z - rr },
            max: ChunkPos { x: to.x + rr + 1, z: to.z + rr + 1 },
        }
    } else if to.x < from.x {
        ChunkRect {
            min: ChunkPos { x: to.x - rr, z: to.z - rr },
            max: ChunkPos { x: min_i32(from.x - rr, to.x + rr + 1), z: to.z + rr + 1 },
        }
    } else {
        ChunkRect { min: ChunkPos { x: 0, z: 0 }, max: ChunkPos { x: 0, z: 0 } }
    };
    let lo_x = max_i32(to.x - rr, from.x - rr);
    let hi_x = min_i32(to.x + rr + 1, from.x + rr + 1);
    let cap = if to.z > from.z {
        ChunkRect {
            min: ChunkPos { x: lo_x, z: max_i32(from.z + rr + 1, to.z - rr) },
            max: ChunkPos { x: hi_x, z: to.z + rr + 1 },
        }
    } else if to.z < from.z {
        ChunkRect {
            min: ChunkPos { x: lo_x, z: to.z - rr },
            max: ChunkPos { x: hi_x, z: min_i32(from.z - rr, to.z + rr + 1) },
        }
    } else {
        ChunkRect { min: ChunkPos { x: 0, z: 0 }, max: ChunkPos { x: 0, z: 0 } }
    };
    (side, cap)
}

pub open spec fn spec_max(a: int, b: int) -> int {
    if a > b {
        a
    } else {
        b
    }
}

pub open spec fn spec_min(a: int, b: int) -> int {
    if a < b {
        a
    } else {
        b
    }
}

/// The columns that the view of `to` reaches and the view of `from` does
/// not, over the whole height of the view of `to`.
pub open spec fn spec_side_strip(from: ChunkPos, to: ChunkPos, r: int) -> ChunkRect {
    if to.x > from.x {
        ChunkRect {
            min: ChunkPos { x: spec_max(from.x + r + 1, to.x - r) as i32, z: (to.z - r) as i32 },
            max: ChunkPos { x: (to.x + r + 1) as i32, z: (to.z + r + 1) as i32 },
        }
    } else if to.x < from.x {
        ChunkRect {
            min: ChunkPos { x: (to.x - r) as i32, z: (to.z - r) as i32 },
            max: ChunkPos { x: spec_min(from.x - r, to.x + r + 1) as i32, z: (to.z + r + 1) as i32 },
        }
    } else {
        ChunkRect { min: ChunkPos { x: 0, z: 0 }, max: ChunkPos { x: 0, z: 0 } }
    }
}

/// Within the columns that both views reach, the rows that the view of `to`
/// reaches and the view of `from` does not.
pub open spec fn spec_cap_strip(from: ChunkPos, to: ChunkPos, r: int) -> ChunkRect {
    let lo_x = spec_max(to.x - r, from.x - r) as i32;
    let hi_x = spec_min(to.x + r + 1, from.x + r + 1) as i32;
    if to.z > from.z {
        ChunkRect {
            min: ChunkPos { x: lo_x, z: spec_max(from.z + r + 1, to.z - r) as i32 },
            max: ChunkPos { x: hi_x, z: (to.z + r + 1) as i32 },
        }
    } else if to.z < from.z {
        ChunkRect {
            min: ChunkPos { x: lo_x, z: (to.z - r) as i32 },
            max: ChunkPos { x: hi_x, z: spec_min(from.z - r, to.z + r + 1) as i32 },
        }
    } else {
        ChunkRect { min: ChunkPos { x: 0, z: 0 }, max: ChunkPos { x: 0, z: 0 } }
    }
}

/// What a move of the view from `old_chunk` to `new_chunk` loads and
/// unloads: exactly the chunks that only the new view holds are loaded, and
/// exactly the chunks that only the old view holds are unloaded, each once.
pub fn view_delta(old_chunk: ChunkPos, new_chunk: ChunkPos, r: u8) -> (d: ViewDelta)
    requires
        old_chunk.in_world(),
        new_chunk.in_world(),
    ensures
        forall|p: ChunkPos|
            (d.load_side.contains(p) || d.load_cap.contains(p)) <==> (spec_in_view(
                new_chunk,
                p,
                r as int,
            ) && !spec_in_view(old_chunk, p, r as int)),
        forall|p: ChunkPos|
            (d.unload_side.contains(p) || d.unload_cap.contains(p)) <==> (spec_in_view(
                old_chunk,
                p,
                r as int,
            ) && !spec_in_view(new_chunk, p, r as int)),
        forall|p: ChunkPos| !(d.load_side.contains(p) && d.load_cap.contains(p)),
        forall|p: ChunkPos| !(d.unload_side.contains(p) && d.unload_cap.contains(p)),
        d.load_side == spec_side_strip(old_chunk, new_chunk, r as int),
        d.load_cap == spec_cap_strip(old_chunk, new_chunk, r as int),
        d.unload_side == spec_side_strip(new_chunk, old_chunk, r as int),
        d.unload_cap == spec_cap_strip(new_chunk, old_chunk, r as int),
{
    let load = view_strips(old_chunk, new_chunk, r);
    let unload = view_strips(new_chunk, old_chunk, r);
    ViewDelta { load_side: load.0, load_cap: load.1, unload_side: unload.0, unload_cap: unload.1 }
}

/// A view of radius `r` that moves by `dx` columns along `x`, with
/// `0 < dx <= 2r + 1`, loads the `dx` columns beyond the old view's far edge
/// over the whole height of the view, unloads the `dx` columns at the old
/// view's near edge, and touches nothing above or below.
pub proof fn view_ring_delta(c: ChunkPos, dx: int, r: int)
    requires
        c.in_world(),
        0 <= r <= 255,
        0 < dx <= 2 * r + 1,
        c.x + dx < CHUNK_LIMIT,
    ensures
        ({
            let to = ChunkPos { x: (c.x + dx) as i32, z: c.z };
            &&& forall|p: ChunkPos|
                spec_side_strip(c, to, r).contains(p) <==> (c.x + r + 1 <= p.x <= c.x + r + dx
                    && c.z - r <= p.z <= c.z + r)
            &&& forall|p: ChunkPos| !spec_cap_strip(c, to, r).contains(p)
            &&& forall|p: ChunkPos|
                spec_side_strip(to, c, r).contains(p) <==> (c.x - r <= p.x <= c.x - r + dx - 1
                    && c.z - r <= p.z <= c.z + r)
            &&& forall|p: ChunkPos| !spec_cap_strip(to, c, r).contains(p)
        }),
{
}

/// Whether `p` tells a client on `ver` to forget the chunk at `pos`: the
/// oldest version has no packet for that and gets a chunk without sections,
/// with a single zero byte as its data; every other version gets the
/// packet that unloads.
pub open spec fn is_unload_packet(p: CbPacket, ver: ProtocolVersion, pos: ChunkPos) -> bool {
    if ver == ProtocolVersion::V1_8 {
        p matches CbPacket::MapChunk { x, z, ground_up, bit_map_v1_8, bit_map_v1_9, chunk_data }
            && x == pos.x && z == pos.z && ground_up && bit_map_v1_8 == Some(0u16) && bit_map_v1_9
            == None::<i32> && chunk_data@ == seq![0u8]
    } else {
        p == (CbPacket::UnloadChunk { chunk_x_v1_9: Some(pos.x), chunk_z_v1_9: Some(pos.z) })
    }
}

/// What tells a client on `ver` to forget the chunk at `pos` (see
/// [`is_unload_packet`]).
pub fn unload_packet(ver: ProtocolVersion, pos: ChunkPos) -> (p: CbPacket)
    ensures
        is_unload_packet(p, ver, pos),
{
    proof {
        ProtocolVersion::index_injective();
    }
    if ver.to_index() == ProtocolVersion::V1_8.to_index() {
        let mut data: Vec<u8> = Vec::new();
        data.push(0u8);
        CbPacket::MapChunk {
            x: pos.x,
            z: pos.z,
            ground_up: true,
            bit_map_v1_8: Some(0),
            bit_map_v1_9: None,
            chunk_data: data,
        }
    } else {
        CbPacket::UnloadChunk { chunk_x_v1_9: Some(pos.x), chunk_z_v1_9: Some(pos.z) }
    }
}

} // verus!
