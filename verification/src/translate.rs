//! Between canonical packets and rows of values. A canonical packet for a
//! client becomes the row of values that the client's version carries for
//! it; a row of values from a client becomes a canonical packet.

use vstd::prelude::*;
use vstd::utf8::{decode_utf8, encode_utf8, valid_utf8};
use crate::fields::{atoms_view, Atom, AtomView, Count, Kind};
use crate::ieee::{from_bits, pow2, spec_from_bits, spec_real_bits, to_bits, Format};
use crate::math::Pos;
use crate::packet::{BlockRecord, CbPacket, SbPacket, UUID};
use crate::protocol::{CountType, IntType, PacketField};
use crate::version::ProtocolVersion;

verus! {

// ---------------------------------------------------------------------------
// Block positions in 64 bits
// ---------------------------------------------------------------------------

/// Whether the position can be written in 64 bits: 26 bits for `x` and
/// for `z`, 12 bits for `y`, each in two's complement.
pub open spec fn packable(p: Pos) -> bool {
    &&& -0x200_0000 <= p.x < 0x200_0000
    &&& -0x800 <= p.y < 0x800
    &&& -0x200_0000 <= p.z < 0x200_0000
}

/// Whether the version writes `y` last: from 1.14 on.
pub open spec fn spec_y_last(ver: ProtocolVersion) -> bool {
    ver.spec_at_least(ProtocolVersion::V1_14)
}

/// The position in 64 bits: `x` in the highest 26 bits; then `y` and `z`,
/// or from 1.14 on `z` and `y`.
pub open spec fn spec_pack_position(p: Pos, ver: ProtocolVersion) -> i64 {
    let x = p.x as int % 0x400_0000;
    let y = p.y as int % 0x1000;
    let z = p.z as int % 0x400_0000;
    let bits = if spec_y_last(ver) {
        x * 0x40_0000_0000 + z * 0x1000 + y
    } else {
        x * 0x40_0000_0000 + y * 0x400_0000 + z
    };
    if bits >= 0x8000_0000_0000_0000 {
        (bits - 0x1_0000_0000_0000_0000) as i64
    } else {
        bits as i64
    }
}

/// The position that 64 bits stand for.
pub open spec fn spec_unpack_position(v: i64, ver: ProtocolVersion) -> Pos {
    let bits = if v < 0 {
        v + 0x1_0000_0000_0000_0000
    } else {
        v as int
    };
    let x = bits / 0x40_0000_0000;
    let low = bits % 0x40_0000_0000;
    let y = if spec_y_last(ver) {
        low % 0x1000
    } else {
        low / 0x400_0000
    };
    let z = if spec_y_last(ver) {
        low / 0x1000
    } else {
        low % 0x400_0000
    };
    Pos {
        x: (if x >= 0x200_0000 {
            x - 0x400_0000
        } else {
            x
        }) as i32,
        y: (if y >= 0x800 {
            y - 0x1000
        } else {
            y
        }) as i32,
        z: (if z >= 0x200_0000 {
            z - 0x400_0000
        } else {
            z
        }) as i32,
    }
}

/// The position in 64 bits (see [`spec_pack_position`]).
pub fn pack_position(p: Pos, ver: ProtocolVersion) -> (v: i64)
    ensures
        v == spec_pack_position(p, ver),
{
    let x: i128 = (p.x as i128 + 0x1_0000_0000i128) % 0x400_0000;
    let y: i128 = (p.y as i128 + 0x1_0000_0000i128) % 0x1000;
    let z: i128 = (p.z as i128 + 0x1_0000_0000i128) % 0x400_0000;
    assert(x == p.x as int % 0x400_0000);
    assert(y == p.y as int % 0x1000);
    assert(z == p.z as int % 0x400_0000);
    let bits: i128 = if ver.at_least(ProtocolVersion::V1_14) {
        x * 0x40_0000_0000 + z * 0x1000 + y
    } else {
        x * 0x40_0000_0000 + y * 0x400_0000 + z
    };
    if bits >= 0x8000_0000_0000_0000 {
        (bits - 0x1_0000_0000_0000_0000) as i64
    } else {
        bits as i64
    }
}

/// The position that 64 bits stand for (see [`spec_unpack_position`]).
pub fn unpack_position(v: i64, ver: ProtocolVersion) -> (p: Pos)
    ensures
        p == spec_unpack_position(v, ver),
        packable(p),
{
    let bits: i128 = if v < 0 {
        v as i128 + 0x1_0000_0000_0000_0000
    } else {
        v as i128
    };
    let x = bits / 0x40_0000_0000;
    let low = bits % 0x40_0000_0000;
    let y_last = ver.at_least(ProtocolVersion::V1_14);
    let y = if y_last {
        low % 0x1000
    } else {
        low / 0x400_0000
    };
    let z = if y_last {
        low / 0x1000
    } else {
        low % 0x400_0000
    };
    Pos {
        x: (if x >= 0x200_0000 {
            x - 0x400_0000
        } else {
            x
        }) as i32,
        y: (if y >= 0x800 {
            y - 0x1000
        } else {
            y
        }) as i32,
        z: (if z >= 0x200_0000 {
            z - 0x400_0000
        } else {
            z
        }) as i32,
    }
}

/// A position that can be written in 64 bits is read back as it was.
pub proof fn position_round_trip(p: Pos, ver: ProtocolVersion)
    requires
        packable(p),
    ensures
        spec_unpack_position(spec_pack_position(p, ver), ver) == p,
{
    let x = p.x as int % 0x400_0000;
    let y = p.y as int % 0x1000;
    let z = p.z as int % 0x400_0000;
    let bits = if spec_y_last(ver) {
        x * 0x40_0000_0000 + z * 0x1000 + y
    } else {
        x * 0x40_0000_0000 + y * 0x400_0000 + z
    };
    let low = if spec_y_last(ver) {
        z * 0x1000 + y
    } else {
        y * 0x400_0000 + z
    };
    vstd::arithmetic::div_mod::lemma_fundamental_div_mod_converse(bits, 0x40_0000_0000, x, low);
    if spec_y_last(ver) {
        vstd::arithmetic::div_mod::lemma_fundamental_div_mod_converse(low, 0x1000, z, y);
    } else {
        vstd::arithmetic::div_mod::lemma_fundamental_div_mod_converse(low, 0x400_0000, y, z);
    }
}

// ---------------------------------------------------------------------------
// From the description of a packet to the kind of its body
// ---------------------------------------------------------------------------

/// The count of the description, where it is written with the elements.
pub open spec fn spec_count(c: CountType) -> Option<Count> {
    match c {
        CountType::Typed(t) => Some(Count::Typed(t)),
        CountType::Fixed(n) => Some(Count::Fixed(n)),
        CountType::Named(_) => None,
    }
}

/// Whether `k` is the kind of what `f` describes: a position is a number of
/// 64 bits; a string is bytes behind their number; the fields of a
/// container follow each other in their order. What is described by the
/// value of another field, by name, or as tags, a slot, metadata or single
/// bits, has no kind.
pub open spec fn describes(k: Kind, f: PacketField) -> bool
    decreases f, 0nat,
{
    match (k, f) {
        (Kind::Bool, PacketField::Bool) => true,
        (Kind::Int(t), PacketField::Int(u)) => t == u,
        (Kind::Int(t), PacketField::Position) => t == IntType::I64,
        (Kind::Float(t), PacketField::Float(u)) => t == u,
        (Kind::UUID, PacketField::UUID) => true,
        (Kind::Str, PacketField::String) => true,
        (Kind::Rest, PacketField::RestBuffer) => true,
        (Kind::Opt(inner), PacketField::Option(g)) => describes(*inner, *g),
        (Kind::Array(c, inner), PacketField::Array { count, value }) => spec_count(count) == Some(c)
            && describes(*inner, *value),
        (Kind::Buffer(c), PacketField::Buffer(count)) => spec_count(count) == Some(c),
        (Kind::Container(ks), PacketField::Container(fs)) => ks@.len() == fs@.len()
            && describes_from(ks@, fs@, 0),
        _ => false,
    }
}

/// [`describes`] for the fields from `from` on.
pub open spec fn describes_from(ks: Seq<Kind>, fs: Seq<(String, PacketField)>, from: int) -> bool
    decreases fs, fs.len() - from,
{
    if from < 0 || from >= fs.len() || from >= ks.len() {
        true
    } else {
        describes(ks[from], fs[from].1) && describes_from(ks, fs, from + 1)
    }
}

/// Whether what `f` describes has a kind.
pub open spec fn supported(f: PacketField) -> bool
    decreases f, 0nat,
{
    match f {
        PacketField::Bool | PacketField::Int(_) | PacketField::Position | PacketField::Float(_)
        | PacketField::UUID | PacketField::String | PacketField::RestBuffer => true,
        PacketField::Option(g) => supported(*g),
        PacketField::Array { count, value } => spec_count(count).is_some() && supported(*value),
        PacketField::Buffer(count) => spec_count(count).is_some(),
        PacketField::Container(fs) => supported_from(fs@, 0),
        _ => false,
    }
}

/// [`supported`] for the fields from `from` on.
pub open spec fn supported_from(fs: Seq<(String, PacketField)>, from: int) -> bool
    decreases fs, fs.len() - from,
{
    if from < 0 || from >= fs.len() {
        true
    } else {
        supported(fs[from].1) && supported_from(fs, from + 1)
    }
}

fn count_of(c: &CountType) -> (r: Option<Count>)
    ensures
        r == spec_count(*c),
{
    match c {
        CountType::Typed(t) => Some(Count::Typed(*t)),
        CountType::Fixed(n) => Some(Count::Fixed(*n)),
        CountType::Named(_) => None,
    }
}

/// The kinds of the fields from `from` on.
fn kinds_from(fs: &Vec<(String, PacketField)>, from: usize, out: &mut Vec<Kind>) -> (ok: bool)
    requires
        from <= fs@.len(),
        old(out)@.len() == from,
        describes_from(old(out)@, fs@, 0),
    ensures
        ok == supported_from(fs@, from as int),
        ok ==> final(out)@.len() == fs@.len() && describes_from(final(out)@, fs@, 0),
    decreases fs@, fs@.len() - from,
{
    if from >= fs.len() {
        return true;
    }
    match kind_of(&fs[from].1) {
        Some(k) => {
            let ghost before = out@;
            out.push(k);
            proof {
                lemma_describes_push(before, k, fs@, 0);
            }
            kinds_from(fs, from + 1, out)
        },
        None => false,
    }
}

/// One more kind that describes its field.
proof fn lemma_describes_push(ks: Seq<Kind>, k: Kind, fs: Seq<(String, PacketField)>, from: int)
    requires
        0 <= from <= ks.len() < fs.len(),
        describes_from(ks, fs, from),
        describes(k, fs[ks.len() as int].1),
    ensures
        describes_from(ks.push(k), fs, from),
    decreases ks.len() - from,
{
    reveal_with_fuel(describes_from, 3);
    if from < ks.len() {
        lemma_describes_push(ks, k, fs, from + 1);
        assert(ks.push(k)[from] == ks[from]);
    } else {
        assert(ks.push(k)[from] == k);
    }
}

/// The kind of what `f` describes, if it has one (see [`describes`]).
pub fn kind_of(f: &PacketField) -> (r: Option<Kind>)
    ensures
        r.is_some() == supported(*f),
        r matches Some(k) ==> describes(k, *f),
    decreases *f, 0nat,
{
    match f {
        PacketField::Bool => Some(Kind::Bool),
        PacketField::Int(t) => Some(Kind::Int(*t)),
        PacketField::Position => Some(Kind::Int(IntType::I64)),
        PacketField::Float(t) => Some(Kind::Float(*t)),
        PacketField::UUID => Some(Kind::UUID),
        PacketField::String => Some(Kind::Str),
        PacketField::RestBuffer => Some(Kind::Rest),
        PacketField::Option(g) => match kind_of(g) {
            Some(k) => Some(Kind::Opt(Box::new(k))),
            None => None,
        },
        PacketField::Array { count, value } => match count_of(count) {
            Some(c) => match kind_of(value) {
                Some(k) => Some(Kind::Array(c, Box::new(k))),
                None => None,
            },
            None => None,
        },
        PacketField::Buffer(count) => match count_of(count) {
            Some(c) => Some(Kind::Buffer(c)),
            None => None,
        },
        PacketField::Container(fs) => {
            let mut ks: Vec<Kind> = Vec::new();
            if kinds_from(fs, 0, &mut ks) {
                Some(Kind::Container(ks))
            } else {
                None
            }
        },
        _ => None,
    }
}

/// The kind of the body of a packet: its fields in their order. `None`
/// where one of them has no kind: then the packet is read and written by
/// hand.
pub fn packet_kind(p: &crate::protocol::Packet) -> (r: Option<Kind>)
    ensures
        r.is_some() == supported_from(p.fields@, 0),
        r matches Some(k) ==> (k matches Kind::Container(ks) && ks@.len() == p.fields@.len()
            && describes_from(ks@, p.fields@, 0)),
{
    let mut ks: Vec<Kind> = Vec::new();
    if kinds_from(&p.fields, 0, &mut ks) {
        Some(Kind::Container(ks))
    } else {
        None
    }
}

// ---------------------------------------------------------------------------
// From a canonical packet to the values of its body
// ---------------------------------------------------------------------------

/// The name by which the packet is known in every version.
pub fn cb_name(p: &CbPacket) -> (name: &'static str)
    ensures
        name@ == spec_cb_name(*p),
{
    match p {
        CbPacket::Login { .. } => "login",
        CbPacket::MapChunk { .. } => "map_chunk",
        CbPacket::UnloadChunk { .. } => "unload_chunk",
        CbPacket::Position { .. } => "position",
        CbPacket::KeepAlive { .. } => "keep_alive",
        CbPacket::Chat { .. } => "chat",
        CbPacket::KickDisconnect { .. } => "kick_disconnect",
        CbPacket::PlayerlistHeader { .. } => "playerlist_header",
        CbPacket::EntityHeadRotation { .. } => "entity_head_rotation",
        CbPacket::EntityLook { .. } => "entity_look",
        CbPacket::RelEntityMove { .. } => "rel_entity_move",
        CbPacket::EntityMoveLook { .. } => "entity_move_look",
        CbPacket::EntityTeleport { .. } => "entity_teleport",
        CbPacket::BlockChange { .. } => "block_change",
        CbPacket::MultiBlockChange { .. } => "multi_block_change",
        CbPacket::SetSlot { .. } => "set_slot",
    }
}

/// The name by which the packet is known in every version.
pub open spec fn spec_cb_name(p: CbPacket) -> Seq<char> {
    match p {
        CbPacket::Login { .. } => "login"@,
        CbPacket::MapChunk { .. } => "map_chunk"@,
        CbPacket::UnloadChunk { .. } => "unload_chunk"@,
        CbPacket::Position { .. } => "position"@,
        CbPacket::KeepAlive { .. } => "keep_alive"@,
        CbPacket::Chat { .. } => "chat"@,
        CbPacket::KickDisconnect { .. } => "kick_disconnect"@,
        CbPacket::PlayerlistHeader { .. } => "playerlist_header"@,
        CbPacket::EntityHeadRotation { .. } => "entity_head_rotation"@,
        CbPacket::EntityLook { .. } => "entity_look"@,
        CbPacket::RelEntityMove { .. } => "rel_entity_move"@,
        CbPacket::EntityMoveLook { .. } => "entity_move_look"@,
        CbPacket::EntityTeleport { .. } => "entity_teleport"@,
        CbPacket::BlockChange { .. } => "block_change"@,
        CbPacket::MultiBlockChange { .. } => "multi_block_change"@,
        CbPacket::SetSlot { .. } => "set_slot"@,
    }
}

/// The fixed-point number `v` as a real number of 64 bits, if those bits
/// stand for it exactly.
pub open spec fn spec_double(v: i64) -> Option<AtomView> {
    if -0x20_0000_0000_0000 < v < 0x20_0000_0000_0000 {
        Some(AtomView::Double(spec_real_bits(Format::spec_double(), v as int) as u64))
    } else {
        None
    }
}

/// The fixed-point number `v` as a real number of 32 bits, if those bits
/// stand for it exactly.
pub open spec fn spec_single(v: i64) -> Option<AtomView> {
    if -0x100_0000 < v < 0x100_0000 {
        Some(AtomView::Float(spec_real_bits(Format::spec_single(), v as int) as u32))
    } else {
        None
    }
}

/// Exec form of [`spec_double`].
pub fn double_atom(v: i64) -> (r: Option<Atom>)
    ensures
        match spec_double(v) {
            Some(a) => r matches Some(x) && x@ == a,
            None => r.is_none(),
        },
{
    proof {
        crate::ieee::lemma_pow2_values();
        crate::ieee::lemma_pow2_add(52, 1);
        crate::ieee::lemma_pow2_add(52, 12);
        assert(pow2(1) == 2) by {
            reveal_with_fuel(pow2, 2);
        }
    }
    if -0x20_0000_0000_0000 < v && v < 0x20_0000_0000_0000 {
        Some(Atom::Double(to_bits(Format::double(), v)))
    } else {
        None
    }
}

/// Exec form of [`spec_single`].
pub fn single_atom(v: i64) -> (r: Option<Atom>)
    ensures
        match spec_single(v) {
            Some(a) => r matches Some(x) && x@ == a,
            None => r.is_none(),
        },
{
    proof {
        crate::ieee::lemma_pow2_values();
        crate::ieee::lemma_pow2_add(23, 1);
        crate::ieee::lemma_pow2_add(23, 9);
        crate::ieee::lemma_pow2_add(31, 1);
        assert(pow2(1) == 2) by {
            reveal_with_fuel(pow2, 2);
        }
    }
    if -0x100_0000 < v && v < 0x100_0000 {
        let bits = to_bits(Format::single(), v);
        Some(Atom::Float(bits as u32))
    } else {
        None
    }
}

/// The text as bytes.
pub fn text_atom(s: &String) -> (a: Atom)
    ensures
        a@ == AtomView::Bytes(encode_utf8(s@)),
{
    Atom::Bytes(s.as_str().as_bytes_vec())
}

/// The values of the records from `from` on, three for each: `x` and `z`
/// in one number, the height, and the block.
pub open spec fn spec_record_atoms(records: Seq<BlockRecord>, from: int) -> Seq<AtomView>
    decreases records.len() - from,
{
    if from < 0 || from >= records.len() {
        Seq::empty()
    } else {
        seq![
            AtomView::Int((records[from].x as int * 16 + records[from].z as int) as i64),
            AtomView::Int(records[from].y as i64),
            AtomView::Int(records[from].block as i64),
        ] + spec_record_atoms(records, from + 1)
    }
}

/// The values of the packed records from `from` on, one for each.
pub open spec fn spec_packed_atoms(records: Seq<i64>, from: int) -> Seq<AtomView>
    decreases records.len() - from,
{
    if from < 0 || from >= records.len() {
        Seq::empty()
    } else {
        seq![AtomView::Int(records[from])] + spec_packed_atoms(records, from + 1)
    }
}

/// The values that a client on `ver` gets for the packet, field by field,
/// or `None` where the version has no such packet or the packet lacks what
/// the version carries: the oldest version has nothing to unload a chunk
/// with; a field that is named after a version is carried from that version
/// on, or up to it where the name says that it was removed; real numbers
/// are written as their bits and have to be exact.
pub open spec fn spec_cb_atoms(p: CbPacket, ver: ProtocolVersion) -> Option<Seq<AtomView>> {
    let old = ver == ProtocolVersion::V1_8;
    match p {
        CbPacket::Login {
            entity_id,
            game_mode,
            difficulty,
            dimension,
            level_type,
            max_players,
            reduced_debug_info,
        } => Some(
            seq![
                AtomView::Int(entity_id as i64),
                AtomView::Int(game_mode as i64),
                AtomView::Int(dimension as i64),
                AtomView::Int(difficulty as i64),
                AtomView::Int(max_players as i64),
                AtomView::Bytes(encode_utf8(level_type@)),
                AtomView::Bool(reduced_debug_info),
            ],
        ),
        CbPacket::MapChunk { x, z, ground_up, bit_map_v1_8, bit_map_v1_9, chunk_data } => {
            let bits = if old {
                match bit_map_v1_8 {
                    Some(b) => Some(b as i64),
                    None => None,
                }
            } else {
                match bit_map_v1_9 {
                    Some(b) => Some(b as i64),
                    None => None,
                }
            };
            match bits {
                Some(b) => Some(
                    seq![
                        AtomView::Int(x as i64),
                        AtomView::Int(z as i64),
                        AtomView::Bool(ground_up),
                        AtomView::Int(b),
                        AtomView::Bytes(chunk_data@),
                    ],
                ),
                None => None,
            }
        },
        CbPacket::UnloadChunk { chunk_x_v1_9, chunk_z_v1_9 } => match (
            old,
            chunk_x_v1_9,
            chunk_z_v1_9,
        ) {
            (false, Some(x), Some(z)) => Some(seq![AtomView::Int(x as i64), AtomView::Int(z as i64)]),
            _ => None,
        },
        CbPacket::Position { x, y, z, yaw, pitch, flags, teleport_id_v1_9 } => match (
            spec_double(x),
            spec_double(y),
            spec_double(z),
            spec_single(yaw),
            spec_single(pitch),
        ) {
            (Some(ax), Some(ay), Some(az), Some(ayaw), Some(apitch)) => {
                let head = seq![ax, ay, az, ayaw, apitch, AtomView::Int(flags as i64)];
                if old {
                    Some(head)
                } else {
                    match teleport_id_v1_9 {
                        Some(id) => Some(head.push(AtomView::Int(id as i64))),
                        None => None,
                    }
                }
            },
            _ => None,
        },
        CbPacket::KeepAlive { keep_alive_id_v1_8, keep_alive_id_v1_12_2 } => if ver.spec_at_least(
            ProtocolVersion::V1_12_2,
        ) {
            match keep_alive_id_v1_12_2 {
                Some(id) => Some(seq![AtomView::Int(id)]),
                None => None,
            }
        } else {
            match keep_alive_id_v1_8 {
                Some(id) => Some(seq![AtomView::Int(id as i64)]),
                None => None,
            }
        },
        CbPacket::Chat { message, position, sender_v1_16 } => {
            let head = seq![AtomView::Bytes(encode_utf8(message@)), AtomView::Int(position as i64)];
            if ver.spec_at_least(ProtocolVersion::V1_16) {
                match sender_v1_16 {
                    Some(u) => Some(head.push(AtomView::UUID(u.0))),
                    None => None,
                }
            } else {
                Some(head)
            }
        },
        CbPacket::KickDisconnect { reason } => Some(seq![AtomView::Bytes(encode_utf8(reason@))]),
        CbPacket::PlayerlistHeader { header, footer } => Some(
            seq![AtomView::Bytes(encode_utf8(header@)), AtomView::Bytes(encode_utf8(footer@))],
        ),
        CbPacket::EntityHeadRotation { entity_id, head_yaw } => Some(
            seq![AtomView::Int(entity_id as i64), AtomView::Int(head_yaw as i64)],
        ),
        CbPacket::EntityLook { entity_id, yaw, pitch, on_ground } => Some(
            seq![
                AtomView::Int(entity_id as i64),
                AtomView::Int(yaw as i64),
                AtomView::Int(pitch as i64),
                AtomView::Bool(on_ground),
            ],
        ),
        CbPacket::RelEntityMove {
            entity_id,
            d_x_v1_8,
            d_x_v1_9,
            d_y_v1_8,
            d_y_v1_9,
            d_z_v1_8,
            d_z_v1_9,
            on_ground,
        } => match spec_deltas(old, d_x_v1_8, d_x_v1_9, d_y_v1_8, d_y_v1_9, d_z_v1_8, d_z_v1_9) {
            Some(d) => Some(
                seq![
                    AtomView::Int(entity_id as i64),
                    AtomView::Int(d.0),
                    AtomView::Int(d.1),
                    AtomView::Int(d.2),
                    AtomView::Bool(on_ground),
                ],
            ),
            None => None,
        },
        CbPacket::EntityMoveLook {
            entity_id,
            d_x_v1_8,
            d_x_v1_9,
            d_y_v1_8,
            d_y_v1_9,
            d_z_v1_8,
            d_z_v1_9,
            yaw,
            pitch,
            on_ground,
        } => match spec_deltas(old, d_x_v1_8, d_x_v1_9, d_y_v1_8, d_y_v1_9, d_z_v1_8, d_z_v1_9) {
            Some(d) => Some(
                seq![
                    AtomView::Int(entity_id as i64),
                    AtomView::Int(d.0),
                    AtomView::Int(d.1),
                    AtomView::Int(d.2),
                    AtomView::Int(yaw as i64),
                    AtomView::Int(pitch as i64),
                    AtomView::Bool(on_ground),
                ],
            ),
            None => None,
        },
        CbPacket::EntityTeleport {
            entity_id,
            x_v1_8,
            x_v1_9,
            y_v1_8,
            y_v1_9,
            z_v1_8,
            z_v1_9,
            yaw,
            pitch,
            on_ground,
        } => {
            let place = if old {
                match (x_v1_8, y_v1_8, z_v1_8) {
                    (Some(x), Some(y), Some(z)) => Some(
                        seq![
                            AtomView::Int(x as i64),
                            AtomView::Int(y as i64),
                            AtomView::Int(z as i64),
                        ],
                    ),
                    _ => None,
                }
            } else {
                match (x_v1_9, y_v1_9, z_v1_9) {
                    (Some(x), Some(y), Some(z)) => match (
                        spec_double(x),
                        spec_double(y),
                        spec_double(z),
                    ) {
                        (Some(ax), Some(ay), Some(az)) => Some(seq![ax, ay, az]),
                        _ => None,
                    },
                    _ => None,
                }
            };
            match place {
                Some(at) => Some(
                    seq![AtomView::Int(entity_id as i64)] + at + seq![
                        AtomView::Int(yaw as i64),
                        AtomView::Int(pitch as i64),
                        AtomView::Bool(on_ground),
                    ],
                ),
                None => None,
            }
        },
        CbPacket::BlockChange { location, type_ } => Some(
            seq![
                AtomView::Int(spec_pack_position(location, ver)),
                AtomView::Int(type_ as i64),
            ],
        ),
        CbPacket::MultiBlockChange {
            chunk_x_removed_v1_16_2,
            chunk_z_removed_v1_16_2,
            chunk_coordinates_v1_16_2,
            not_trust_edges_v1_16_2,
            records_v1_8,
            records_v1_16_2,
        } => if ver.spec_at_least(ProtocolVersion::V1_16_2) {
            match (chunk_coordinates_v1_16_2, not_trust_edges_v1_16_2, records_v1_16_2) {
                (Some(c), Some(t), Some(r)) => if r@.len() <= u32::MAX {
                    Some(
                        seq![
                            AtomView::Int(c),
                            AtomView::Bool(t),
                            AtomView::Count(r@.len() as u32),
                        ] + spec_packed_atoms(r@, 0),
                    )
                } else {
                    None
                },
                _ => None,
            }
        } else {
            match (chunk_x_removed_v1_16_2, chunk_z_removed_v1_16_2, records_v1_8) {
                (Some(x), Some(z), Some(r)) => if r@.len() <= u32::MAX {
                    Some(
                        seq![
                            AtomView::Int(x as i64),
                            AtomView::Int(z as i64),
                            AtomView::Count(r@.len() as u32),
                        ] + spec_record_atoms(r@, 0),
                    )
                } else {
                    None
                },
                _ => None,
            }
        },
        CbPacket::SetSlot { window_id, slot, item, amount } => Some(
            seq![
                AtomView::Int(window_id as i64),
                AtomView::Int(slot as i64),
                AtomView::Int(item as i64),
                AtomView::Int(amount as i64),
            ],
        ),
    }
}

/// The three deltas of a relative move for the version: those in 1/32 of a
/// block for the oldest version, those in 1/4096 for the others.
pub open spec fn spec_deltas(
    old: bool,
    x8: Option<i8>,
    x9: Option<i16>,
    y8: Option<i8>,
    y9: Option<i16>,
    z8: Option<i8>,
    z9: Option<i16>,
) -> Option<(i64, i64, i64)> {
    if old {
        match (x8, y8, z8) {
            (Some(x), Some(y), Some(z)) => Some((x as i64, y as i64, z as i64)),
            _ => None,
        }
    } else {
        match (x9, y9, z9) {
            (Some(x), Some(y), Some(z)) => Some((x as i64, y as i64, z as i64)),
            _ => None,
        }
    }
}

fn deltas(
    old: bool,
    x8: Option<i8>,
    x9: Option<i16>,
    y8: Option<i8>,
    y9: Option<i16>,
    z8: Option<i8>,
    z9: Option<i16>,
) -> (r: Option<(i64, i64, i64)>)
    ensures
        r == spec_deltas(old, x8, x9, y8, y9, z8, z9),
{
    if old {
        match (x8, y8, z8) {
            (Some(x), Some(y), Some(z)) => Some((x as i64, y as i64, z as i64)),
            _ => None,
        }
    } else {
        match (x9, y9, z9) {
            (Some(x), Some(y), Some(z)) => Some((x as i64, y as i64, z as i64)),
            _ => None,
        }
    }
}

fn push(out: &mut Vec<Atom>, a: Atom)
    ensures
        atoms_view(final(out)@) == atoms_view(old(out)@).push(a@),
{
    out.push(a);
    assert(atoms_view(out@) =~= atoms_view(old(out)@).push(a@));
}

/// The values that a client on `ver` gets for the packet (see
/// [`spec_cb_atoms`]).
pub fn cb_atoms(p: &CbPacket, ver: ProtocolVersion) -> (r: Option<Vec<Atom>>)
    ensures
        match spec_cb_atoms(*p, ver) {
            Some(a) => r matches Some(out) && atoms_view(out@) == a,
            None => r.is_none(),
        },
{
    proof {
        ProtocolVersion::index_injective();
    }
    let old = ver.to_index() == ProtocolVersion::V1_8.to_index();
    let mut out: Vec<Atom> = Vec::new();
    assert(atoms_view(out@) =~= Seq::<AtomView>::empty());
    match p {
        CbPacket::Login {
            entity_id,
            game_mode,
            difficulty,
            dimension,
            level_type,
            max_players,
            reduced_debug_info,
        } => {
            push(&mut out, Atom::Int(*entity_id as i64));
            push(&mut out, Atom::Int(*game_mode as i64));
            push(&mut out, Atom::Int(*dimension as i64));
            push(&mut out, Atom::Int(*difficulty as i64));
            push(&mut out, Atom::Int(*max_players as i64));
            push(&mut out, text_atom(level_type));
            push(&mut out, Atom::Bool(*reduced_debug_info));
            assert(atoms_view(out@) =~= spec_cb_atoms(*p, ver).unwrap());
        },
        CbPacket::MapChunk { x, z, ground_up, bit_map_v1_8, bit_map_v1_9, chunk_data } => {
            let bits: i64 = if old {
                match bit_map_v1_8 {
                    Some(b) => *b as i64,
                    None => {
                        return None;
                    },
                }
            } else {
                match bit_map_v1_9 {
                    Some(b) => *b as i64,
                    None => {
                        return None;
                    },
                }
            };
            push(&mut out, Atom::Int(*x as i64));
            push(&mut out, Atom::Int(*z as i64));
            push(&mut out, Atom::Bool(*ground_up));
            push(&mut out, Atom::Int(bits));
            push(&mut out, Atom::Bytes(crate::stream::tail(chunk_data, 0)));
            assert(chunk_data@.subrange(0, chunk_data@.len() as int) =~= chunk_data@);
            assert(atoms_view(out@) =~= spec_cb_atoms(*p, ver).unwrap());
        },
        CbPacket::UnloadChunk { chunk_x_v1_9, chunk_z_v1_9 } => {
            match (old, chunk_x_v1_9, chunk_z_v1_9) {
                (false, Some(x), Some(z)) => {
                    push(&mut out, Atom::Int(*x as i64));
                    push(&mut out, Atom::Int(*z as i64));
                    assert(atoms_view(out@) =~= spec_cb_atoms(*p, ver).unwrap());
                },
                _ => {
                    return None;
                },
            }
        },
        CbPacket::Position { x, y, z, yaw, pitch, flags, teleport_id_v1_9 } => {
            match (double_atom(*x), double_atom(*y), double_atom(*z), single_atom(*yaw), single_atom(*pitch)) {
                (Some(ax), Some(ay), Some(az), Some(ayaw), Some(apitch)) => {
                    push(&mut out, ax);
                    push(&mut out, ay);
                    push(&mut out, az);
                    push(&mut out, ayaw);
                    push(&mut out, apitch);
                    push(&mut out, Atom::Int(*flags as i64));
                    if !old {
                        match teleport_id_v1_9 {
                            Some(id) => {
                                push(&mut out, Atom::Int(*id as i64));
                            },
                            None => {
                                return None;
                            },
                        }
                    }
                    assert(atoms_view(out@) =~= spec_cb_atoms(*p, ver).unwrap());
                },
                _ => {
                    return None;
                },
            }
        },
        CbPacket::KeepAlive { keep_alive_id_v1_8, keep_alive_id_v1_12_2 } => {
            if ver.at_least(ProtocolVersion::V1_12_2) {
                match keep_alive_id_v1_12_2 {
                    Some(id) => {
                        push(&mut out, Atom::Int(*id));
                    },
                    None => {
                        return None;
                    },
                }
            } else {
                match keep_alive_id_v1_8 {
                    Some(id) => {
                        push(&mut out, Atom::Int(*id as i64));
                    },
                    None => {
                        return None;
                    },
                }
            }
            assert(atoms_view(out@) =~= spec_cb_atoms(*p, ver).unwrap());
        },
        CbPacket::Chat { message, position, sender_v1_16 } => {
            push(&mut out, text_atom(message));
            push(&mut out, Atom::Int(*position as i64));
            if ver.at_least(ProtocolVersion::V1_16) {
                match sender_v1_16 {
                    Some(u) => {
                        push(&mut out, Atom::UUID(u.0));
                    },
                    None => {
                        return None;
                    },
                }
            }
            assert(atoms_view(out@) =~= spec_cb_atoms(*p, ver).unwrap());
        },
        CbPacket::KickDisconnect { reason } => {
            push(&mut out, text_atom(reason));
            assert(atoms_view(out@) =~= spec_cb_atoms(*p, ver).unwrap());
        },
        CbPacket::PlayerlistHeader { header, footer } => {
            push(&mut out, text_atom(header));
            push(&mut out, text_atom(footer));
            assert(atoms_view(out@) =~= spec_cb_atoms(*p, ver).unwrap());
        },
        CbPacket::EntityHeadRotation { entity_id, head_yaw } => {
            push(&mut out, Atom::Int(*entity_id as i64));
            push(&mut out, Atom::Int(*head_yaw as i64));
            assert(atoms_view(out@) =~= spec_cb_atoms(*p, ver).unwrap());
        },
        CbPacket::EntityLook { entity_id, yaw, pitch, on_ground } => {
            push(&mut out, Atom::Int(*entity_id as i64));
            push(&mut out, Atom::Int(*yaw as i64));
            push(&mut out, Atom::Int(*pitch as i64));
            push(&mut out, Atom::Bool(*on_ground));
            assert(atoms_view(out@) =~= spec_cb_atoms(*p, ver).unwrap());
        },
        CbPacket::RelEntityMove {
            entity_id,
            d_x_v1_8,
            d_x_v1_9,
            d_y_v1_8,
            d_y_v1_9,
            d_z_v1_8,
            d_z_v1_9,
            on_ground,
        } => {
            match deltas(old, *d_x_v1_8, *d_x_v1_9, *d_y_v1_8, *d_y_v1_9, *d_z_v1_8, *d_z_v1_9) {
                Some(d) => {
                    push(&mut out, Atom::Int(*entity_id as i64));
                    push(&mut out, Atom::Int(d.0));
                    push(&mut out, Atom::Int(d.1));
                    push(&mut out, Atom::Int(d.2));
                    push(&mut out, Atom::Bool(*on_ground));
                    assert(atoms_view(out@) =~= spec_cb_atoms(*p, ver).unwrap());
                },
                None => {
                    return None;
                },
            }
        },
        CbPacket::EntityMoveLook {
            entity_id,
            d_x_v1_8,
            d_x_v1_9,
            d_y_v1_8,
            d_y_v1_9,
            d_z_v1_8,
            d_z_v1_9,
            yaw,
            pitch,
            on_ground,
        } => {
            match deltas(old, *d_x_v1_8, *d_x_v1_9, *d_y_v1_8, *d_y_v1_9, *d_z_v1_8, *d_z_v1_9) {
                Some(d) => {
                    push(&mut out, Atom::Int(*entity_id as i64));
                    push(&mut out, Atom::Int(d.0));
                    push(&mut out, Atom::Int(d.1));
                    push(&mut out, Atom::Int(d.2));
                    push(&mut out, Atom::Int(*yaw as i64));
                    push(&mut out, Atom::Int(*pitch as i64));
                    push(&mut out, Atom::Bool(*on_ground));
                    assert(atoms_view(out@) =~= spec_cb_atoms(*p, ver).unwrap());
                },
                None => {
                    return None;
                },
            }
        },
        CbPacket::EntityTeleport {
            entity_id,
            x_v1_8,
            x_v1_9,
            y_v1_8,
            y_v1_9,
            z_v1_8,
            z_v1_9,
            yaw,
            pitch,
            on_ground,
        } => {
            push(&mut out, Atom::Int(*entity_id as i64));
            if old {
                match (x_v1_8, y_v1_8, z_v1_8) {
                    (Some(x), Some(y), Some(z)) => {
                        push(&mut out, Atom::Int(*x as i64));
                        push(&mut out, Atom::Int(*y as i64));
                        push(&mut out, Atom::Int(*z as i64));
                    },
                    _ => {
                        return None;
                    },
                }
            } else {
                match (x_v1_9, y_v1_9, z_v1_9) {
                    (Some(x), Some(y), Some(z)) => {
                        match (double_atom(*x), double_atom(*y), double_atom(*z)) {
                            (Some(ax), Some(ay), Some(az)) => {
                                push(&mut out, ax);
                                push(&mut out, ay);
                                push(&mut out, az);
                            },
                            _ => {
                                return None;
                            },
                        }
                    },
                    _ => {
                        return None;
                    },
                }
            }
            push(&mut out, Atom::Int(*yaw as i64));
            push(&mut out, Atom::Int(*pitch as i64));
            push(&mut out, Atom::Bool(*on_ground));
            assert(atoms_view(out@) =~= spec_cb_atoms(*p, ver).unwrap());
        },
        CbPacket::BlockChange { location, type_ } => {
            push(&mut out, Atom::Int(pack_position(*location, ver)));
            push(&mut out, Atom::Int(*type_ as i64));
            assert(atoms_view(out@) =~= spec_cb_atoms(*p, ver).unwrap());
        },
        CbPacket::MultiBlockChange {
            chunk_x_removed_v1_16_2,
            chunk_z_removed_v1_16_2,
            chunk_coordinates_v1_16_2,
            not_trust_edges_v1_16_2,
            records_v1_8,
            records_v1_16_2,
        } => {
            if ver.at_least(ProtocolVersion::V1_16_2) {
                match (chunk_coordinates_v1_16_2, not_trust_edges_v1_16_2, records_v1_16_2) {
                    (Some(c), Some(t), Some(r)) => {
                        if r.len() as u64 > u32::MAX as u64 {
                            return None;
                        }
                        push(&mut out, Atom::Int(*c));
                        push(&mut out, Atom::Bool(*t));
                        push(&mut out, Atom::Count(r.len() as u32));
                        let ghost head = atoms_view(out@);
                        let mut i: usize = 0;
                        while i < r.len()
                            invariant
                                i <= r@.len(),
                                atoms_view(out@) + spec_packed_atoms(r@, i as int) == head
                                    + spec_packed_atoms(r@, 0),
                            decreases r@.len() - i,
                        {
                            let ghost before = atoms_view(out@);
                            push(&mut out, Atom::Int(r[i]));
                            assert(before + spec_packed_atoms(r@, i as int) =~= atoms_view(out@)
                                + spec_packed_atoms(r@, i + 1));
                            i += 1;
                        }
                        assert(atoms_view(out@) + Seq::<AtomView>::empty() =~= atoms_view(out@));
                        assert(atoms_view(out@) =~= spec_cb_atoms(*p, ver).unwrap());
                    },
                    _ => {
                        return None;
                    },
                }
            } else {
                match (chunk_x_removed_v1_16_2, chunk_z_removed_v1_16_2, records_v1_8) {
                    (Some(x), Some(z), Some(r)) => {
                        if r.len() as u64 > u32::MAX as u64 {
                            return None;
                        }
                        push(&mut out, Atom::Int(*x as i64));
                        push(&mut out, Atom::Int(*z as i64));
                        push(&mut out, Atom::Count(r.len() as u32));
                        let ghost head = atoms_view(out@);
                        let mut i: usize = 0;
                        while i < r.len()
                            invariant
                                i <= r@.len(),
                                atoms_view(out@) + spec_record_atoms(r@, i as int) == head
                                    + spec_record_atoms(r@, 0),
                            decreases r@.len() - i,
                        {
                            let ghost before = atoms_view(out@);
                            let rec = r[i];
                            push(&mut out, Atom::Int(rec.x as i64 * 16 + rec.z as i64));
                            push(&mut out, Atom::Int(rec.y as i64));
                            push(&mut out, Atom::Int(rec.block as i64));
                            assert(before + spec_record_atoms(r@, i as int) =~= atoms_view(out@)
                                + spec_record_atoms(r@, i + 1));
                            i += 1;
                        }
                        assert(atoms_view(out@) + Seq::<AtomView>::empty() =~= atoms_view(out@));
                        assert(atoms_view(out@) =~= spec_cb_atoms(*p, ver).unwrap());
                    },
                    _ => {
                        return None;
                    },
                }
            }
        },
        CbPacket::SetSlot { window_id, slot, item, amount } => {
            push(&mut out, Atom::Int(*window_id as i64));
            push(&mut out, Atom::Int(*slot as i64));
            push(&mut out, Atom::Int(*item as i64));
            push(&mut out, Atom::Int(*amount as i64));
            assert(atoms_view(out@) =~= spec_cb_atoms(*p, ver).unwrap());
        },
    }
    Some(out)
}

// ---------------------------------------------------------------------------
// From the values of a body to a canonical packet
// ---------------------------------------------------------------------------

/// Calls `String::from_utf8`: the text that the bytes encode, or `None`
/// where they are not UTF-8. The contract says what the documentation of
/// the function says: the text is there exactly where the bytes are valid,
/// and its bytes are the bytes given.
#[verifier::external_body]
pub(crate) fn utf8_text(bytes: Vec<u8>) -> (r: Option<String>)
    ensures
        r.is_some() == valid_utf8(bytes@),
        r matches Some(s) ==> encode_utf8(s@) == bytes@,
{
    String::from_utf8(bytes).ok()
}

/// A packet from a client as contracts see it.
pub enum SbView {
    Login { username: Seq<char>, uuid: UUID, protocol_version: i32 },
    KeepAlive { id: i64 },
    PlayerPosition { x: i64, y: i64, z: i64, on_ground: bool },
    PlayerLook { yaw: i64, pitch: i64, on_ground: bool },
    PlayerPositionLook { x: i64, y: i64, z: i64, yaw: i64, pitch: i64, on_ground: bool },
    TeleportConfirm { teleport_id: i32 },
    BlockDig { location: Pos, status: u8, face: u8 },
    HeldItemSlot { slot: i16 },
    Chat { message: Seq<char> },
}

/// The packet as contracts see it.
pub open spec fn sb_view(p: SbPacket) -> SbView {
    match p {
        SbPacket::Login { username, uuid, protocol_version } => SbView::Login {
            username: username@,
            uuid,
            protocol_version,
        },
        SbPacket::KeepAlive { id } => SbView::KeepAlive { id },
        SbPacket::PlayerPosition { x, y, z, on_ground } => SbView::PlayerPosition {
            x,
            y,
            z,
            on_ground,
        },
        SbPacket::PlayerLook { yaw, pitch, on_ground } => SbView::PlayerLook { yaw, pitch, on_ground },
        SbPacket::PlayerPositionLook { x, y, z, yaw, pitch, on_ground } => SbView::PlayerPositionLook {
            x,
            y,
            z,
            yaw,
            pitch,
            on_ground,
        },
        SbPacket::TeleportConfirm { teleport_id } => SbView::TeleportConfirm { teleport_id },
        SbPacket::BlockDig { location, status, face } => SbView::BlockDig { location, status, face },
        SbPacket::HeldItemSlot { slot } => SbView::HeldItemSlot { slot },
        SbPacket::Chat { message } => SbView::Chat { message: message@ },
    }
}

/// The fixed-point number that the value stands for, if the value is a
/// real number of 64 bits that has one.
pub open spec fn spec_fixed_double(a: AtomView) -> Option<i64> {
    match a {
        AtomView::Double(bits) => match spec_from_bits(Format::spec_double(), bits as int) {
            Some(v) => Some(v as i64),
            None => None,
        },
        _ => None,
    }
}

/// The fixed-point number that the value stands for, if the value is a
/// real number of 32 bits that has one.
pub open spec fn spec_fixed_single(a: AtomView) -> Option<i64> {
    match a {
        AtomView::Float(bits) => match spec_from_bits(Format::spec_single(), bits as int) {
            Some(v) => Some(v as i64),
            None => None,
        },
        _ => None,
    }
}

/// The whole number of the value, if it is one and lies from `lo` to `hi`.
pub open spec fn spec_int_in(a: AtomView, lo: int, hi: int) -> Option<i64> {
    match a {
        AtomView::Int(v) => if lo <= v <= hi {
            Some(v)
        } else {
            None
        },
        _ => None,
    }
}

/// The truth value of the value, if it is one.
pub open spec fn spec_bool(a: AtomView) -> Option<bool> {
    match a {
        AtomView::Bool(b) => Some(b),
        _ => None,
    }
}

/// The text of the value, if it is bytes that are UTF-8.
pub open spec fn spec_text(a: AtomView) -> Option<Seq<char>> {
    match a {
        AtomView::Bytes(b) => if valid_utf8(b) {
            Some(decode_utf8(b))
        } else {
            None
        },
        _ => None,
    }
}

fn fixed_double(a: &Atom) -> (r: Option<i64>)
    ensures
        r == spec_fixed_double(a@),
{
    match a {
        Atom::Double(bits) => {
            proof {
                crate::ieee::lemma_pow2_values();
                crate::ieee::lemma_pow2_add(63, 1);
                assert(pow2(1) == 2) by {
                    reveal_with_fuel(pow2, 2);
                }
            }
            from_bits(Format::double(), *bits)
        },
        _ => None,
    }
}

fn fixed_single(a: &Atom) -> (r: Option<i64>)
    ensures
        r == spec_fixed_single(a@),
{
    match a {
        Atom::Float(bits) => {
            proof {
                crate::ieee::lemma_pow2_values();
                crate::ieee::lemma_pow2_add(31, 1);
                assert(pow2(1) == 2) by {
                    reveal_with_fuel(pow2, 2);
                }
            }
            from_bits(Format::single(), *bits as u64)
        },
        _ => None,
    }
}

fn int_in(a: &Atom, lo: i64, hi: i64) -> (r: Option<i64>)
    ensures
        r == spec_int_in(a@, lo as int, hi as int),
{
    match a {
        Atom::Int(v) => if lo <= *v && *v <= hi {
            Some(*v)
        } else {
            None
        },
        _ => None,
    }
}

fn bool_of(a: &Atom) -> (r: Option<bool>)
    ensures
        r == spec_bool(a@),
{
    match a {
        Atom::Bool(b) => Some(*b),
        _ => None,
    }
}

fn text_of(a: &Atom) -> (r: Option<String>)
    ensures
        r.is_some() == spec_text(a@).is_some(),
        r matches Some(s) ==> s@ == spec_text(a@).unwrap(),
{
    match a {
        Atom::Bytes(b) => {
            let copy = crate::stream::tail(b, 0);
            assert(copy@ =~= b@);
            let r = utf8_text(copy);
            proof {
                if r.is_some() {
                    vstd::utf8::encode_utf8_decode_utf8(r.unwrap()@);
                }
            }
            r
        },
        _ => None,
    }
}

/// The packet that the values `atoms` are, under the name `name`, from a
/// client on `ver`: the values have to be as many as the packet has fields
/// and of their kinds, whole numbers have to fit their fields, real numbers
/// have to be numbers and within the world, and text has to be UTF-8.
pub open spec fn spec_sb_packet(name: Seq<char>, atoms: Seq<AtomView>, ver: ProtocolVersion) -> Option<
    SbView,
> {
    if name == "login"@ && atoms.len() == 3 {
        match (
            spec_text(atoms[0]),
            atoms[1],
            spec_int_in(atoms[2], i32::MIN as int, i32::MAX as int),
        ) {
            (Some(username), AtomView::UUID(u), Some(v)) => Some(
                SbView::Login { username, uuid: UUID(u), protocol_version: v as i32 },
            ),
            _ => None,
        }
    } else if name == "keep_alive"@ && atoms.len() == 1 {
        match atoms[0] {
            AtomView::Int(id) => Some(SbView::KeepAlive { id }),
            _ => None,
        }
    } else if name == "position"@ && atoms.len() == 4 {
        match (
            spec_fixed_double(atoms[0]),
            spec_fixed_double(atoms[1]),
            spec_fixed_double(atoms[2]),
            spec_bool(atoms[3]),
        ) {
            (Some(x), Some(y), Some(z), Some(on_ground)) => Some(
                SbView::PlayerPosition { x, y, z, on_ground },
            ),
            _ => None,
        }
    } else if name == "look"@ && atoms.len() == 3 {
        match (spec_fixed_single(atoms[0]), spec_fixed_single(atoms[1]), spec_bool(atoms[2])) {
            (Some(yaw), Some(pitch), Some(on_ground)) => Some(
                SbView::PlayerLook { yaw, pitch, on_ground },
            ),
            _ => None,
        }
    } else if name == "position_look"@ && atoms.len() == 6 {
        match (
            spec_fixed_double(atoms[0]),
            spec_fixed_double(atoms[1]),
            spec_fixed_double(atoms[2]),
            spec_fixed_single(atoms[3]),
            spec_fixed_single(atoms[4]),
            spec_bool(atoms[5]),
        ) {
            (Some(x), Some(y), Some(z), Some(yaw), Some(pitch), Some(on_ground)) => Some(
                SbView::PlayerPositionLook { x, y, z, yaw, pitch, on_ground },
            ),
            _ => None,
        }
    } else if name == "teleport_confirm"@ && atoms.len() == 1 {
        match spec_int_in(atoms[0], i32::MIN as int, i32::MAX as int) {
            Some(id) => Some(SbView::TeleportConfirm { teleport_id: id as i32 }),
            None => None,
        }
    } else if name == "block_dig"@ && atoms.len() == 3 {
        match (spec_int_in(atoms[0], 0, 255), atoms[1], spec_int_in(atoms[2], 0, 255)) {
            (Some(status), AtomView::Int(at), Some(face)) => Some(
                SbView::BlockDig {
                    location: spec_unpack_position(at, ver),
                    status: status as u8,
                    face: face as u8,
                },
            ),
            _ => None,
        }
    } else if name == "held_item_slot"@ && atoms.len() == 1 {
        match spec_int_in(atoms[0], i16::MIN as int, i16::MAX as int) {
            Some(slot) => Some(SbView::HeldItemSlot { slot: slot as i16 }),
            None => None,
        }
    } else if name == "chat"@ && atoms.len() == 1 {
        match spec_text(atoms[0]) {
            Some(message) => Some(SbView::Chat { message }),
            None => None,
        }
    } else {
        None
    }
}

fn same_text(a: &str, b: &str) -> (r: bool)
    ensures
        r == (a@ == b@),
{
    String::from_str(a) == String::from_str(b)
}

/// The packet that the values `atoms` are, under the name `name`, from a
/// client on `ver` (see [`spec_sb_packet`]).
pub fn sb_packet(name: &str, atoms: &Vec<Atom>, ver: ProtocolVersion) -> (r: Option<SbPacket>)
    ensures
        match spec_sb_packet(name@, atoms_view(atoms@), ver) {
            Some(v) => r matches Some(p) && sb_view(p) == v,
            None => r.is_none(),
        },
{
    let n = atoms.len();
    let ghost av = atoms_view(atoms@);
    assert(forall|i: int| 0 <= i < n ==> av[i] == atoms@[i]@);
    if same_text(name, "login") && n == 3 {
        match (text_of(&atoms[0]), &atoms[1], int_in(&atoms[2], i32::MIN as i64, i32::MAX as i64)) {
            (Some(username), Atom::UUID(u), Some(v)) => Some(
                SbPacket::Login { username, uuid: UUID(*u), protocol_version: v as i32 },
            ),
            _ => None,
        }
    } else if same_text(name, "keep_alive") && n == 1 {
        match &atoms[0] {
            Atom::Int(id) => Some(SbPacket::KeepAlive { id: *id }),
            _ => None,
        }
    } else if same_text(name, "position") && n == 4 {
        match (
            fixed_double(&atoms[0]),
            fixed_double(&atoms[1]),
            fixed_double(&atoms[2]),
            bool_of(&atoms[3]),
        ) {
            (Some(x), Some(y), Some(z), Some(on_ground)) => Some(
                SbPacket::PlayerPosition { x, y, z, on_ground },
            ),
            _ => None,
        }
    } else if same_text(name, "look") && n == 3 {
        match (fixed_single(&atoms[0]), fixed_single(&atoms[1]), bool_of(&atoms[2])) {
            (Some(yaw), Some(pitch), Some(on_ground)) => Some(
                SbPacket::PlayerLook { yaw, pitch, on_ground },
            ),
            _ => None,
        }
    } else if same_text(name, "position_look") && n == 6 {
        match (
            fixed_double(&atoms[0]),
            fixed_double(&atoms[1]),
            fixed_double(&atoms[2]),
            fixed_single(&atoms[3]),
            fixed_single(&atoms[4]),
            bool_of(&atoms[5]),
        ) {
            (Some(x), Some(y), Some(z), Some(yaw), Some(pitch), Some(on_ground)) => Some(
                SbPacket::PlayerPositionLook { x, y, z, yaw, pitch, on_ground },
            ),
            _ => None,
        }
    } else if same_text(name, "teleport_confirm") && n == 1 {
        match int_in(&atoms[0], i32::MIN as i64, i32::MAX as i64) {
            Some(id) => Some(SbPacket::TeleportConfirm { teleport_id: id as i32 }),
            None => None,
        }
    } else if same_text(name, "block_dig") && n == 3 {
        match (int_in(&atoms[0], 0, 255), &atoms[1], int_in(&atoms[2], 0, 255)) {
            (Some(status), Atom::Int(at), Some(face)) => Some(
                SbPacket::BlockDig {
                    location: unpack_position(*at, ver),
                    status: status as u8,
                    face: face as u8,
                },
            ),
            _ => None,
        }
    } else if same_text(name, "held_item_slot") && n == 1 {
        match int_in(&atoms[0], i16::MIN as i64, i16::MAX as i64) {
            Some(slot) => Some(SbPacket::HeldItemSlot { slot: slot as i16 }),
            None => None,
        }
    } else if same_text(name, "chat") && n == 1 {
        match text_of(&atoms[0]) {
            Some(message) => Some(SbPacket::Chat { message }),
            None => None,
        }
    } else {
        None
    }
}

/// The packet that a client on `ver` sent as the packet `p`, which is known
/// as `name` and of kind `kind`: what its values are (see
/// [`spec_sb_packet`]), where its body is one row of values of that kind.
pub open spec fn spec_read_sb(name: Seq<char>, kind: Kind, body: Seq<u8>, ver: ProtocolVersion) -> Option<
    SbView,
> {
    match crate::fields::spec_body_values(kind, body) {
        Some(a) => spec_sb_packet(name, a, ver),
        None => None,
    }
}

/// Reads the packet `p` that a client on `ver` sent. A body that does not
/// parse as the kind of the packet, or whose values are not those of the
/// packet, is invalid data.
pub fn read_sb(name: &str, kind: &Kind, p: &crate::stream::Packet, ver: ProtocolVersion) -> (r: Result<
    SbPacket,
    crate::stream::StreamError,
>)
    ensures
        match spec_read_sb(name@, *kind, p.data@, ver) {
            Some(v) => r matches Ok(packet) && sb_view(packet) == v,
            None => r matches Err(e) && e == crate::stream::StreamError::InvalidData,
        },
{
    let atoms = match crate::fields::read_body(kind, p) {
        Ok(atoms) => atoms,
        Err(e) => {
            return Err(e);
        },
    };
    match sb_packet(name, &atoms, ver) {
        Some(packet) => Ok(packet),
        None => Err(crate::stream::StreamError::InvalidData),
    }
}

} // verus!
