//! The packets that tell a client which blocks of a chunk have changed at
//! once.

use vstd::prelude::*;
use crate::conv::TypeConverter;
use crate::math::{ChunkPos, RelPos};
use crate::packet::{BlockRecord, CbPacket};
use crate::player::Player;
use crate::version::ProtocolVersion;
use crate::world::{ChunkChange, World};

verus! {

/// The cells of one column from height `y0` up, `n` of them, each with the
/// block `block`.
pub open spec fn spec_column(x: u8, z: u8, y0: int, n: nat, block: i32) -> Seq<BlockRecord> {
    Seq::new(n, |k: int| BlockRecord { x, y: (y0 + k) as u8, z, block })
}

/// The cells of `nz` columns with the same `x`, column after column.
pub open spec fn spec_slab(x: u8, z0: int, nz: nat, y0: int, ny: nat, block: i32) -> Seq<BlockRecord>
    decreases nz,
{
    if nz == 0 {
        Seq::empty()
    } else {
        spec_slab(x, z0, (nz - 1) as nat, y0, ny, block) + spec_column(
            x,
            (z0 + nz - 1) as u8,
            y0,
            ny,
            block,
        )
    }
}

/// The cells of `nx` slabs, slab after slab: the order in which a fill
/// writes them.
pub open spec fn spec_slabs(x0: int, nx: nat, z0: int, nz: nat, y0: int, ny: nat, block: i32) -> Seq<
    BlockRecord,
>
    decreases nx,
{
    if nx == 0 {
        Seq::empty()
    } else {
        spec_slabs(x0, (nx - 1) as nat, z0, nz, y0, ny, block) + spec_slab(
            (x0 + nx - 1) as u8,
            z0,
            nz,
            y0,
            ny,
            block,
        )
    }
}

/// How many steps lie from `lo` to `hi`, both inclusive; none where `lo`
/// exceeds `hi`.
pub open spec fn span(lo: int, hi: int) -> nat {
    if hi >= lo {
        (hi - lo + 1) as nat
    } else {
        0
    }
}

/// The cells of the box from `min` to `max` between the heights `y_lo` and
/// `y_hi`, all inclusive, each with the block `block`.
pub open spec fn spec_records(min: RelPos, max: RelPos, y_lo: int, y_hi: int, block: i32) -> Seq<
    BlockRecord,
> {
    spec_slabs(
        min.x as int,
        span(min.x as int, max.x as int),
        min.z as int,
        span(min.z as int, max.z as int),
        y_lo,
        span(y_lo, y_hi),
        block,
    )
}

/// The cells of a box between two heights (see [`spec_records`]).
pub fn records(min: RelPos, max: RelPos, y_lo: u8, y_hi: u8, block: i32) -> (out: Vec<BlockRecord>)
    requires
        min.wf(),
        max.wf(),
    ensures
        out@ == spec_records(min, max, y_lo as int, y_hi as int, block),
{
    let mut out: Vec<BlockRecord> = Vec::new();
    let ghost nz = span(min.z as int, max.z as int);
    let ghost ny = span(y_lo as int, y_hi as int);
    let mut x: usize = min.x as usize;
    while x <= max.x as usize
        invariant
            min.x <= x <= 16,
            x <= max.x + 1 || x == min.x,
            max.wf(),
            min.wf(),
            nz == span(min.z as int, max.z as int),
            ny == span(y_lo as int, y_hi as int),
            out@ == spec_slabs(
                min.x as int,
                (x - min.x) as nat,
                min.z as int,
                nz,
                y_lo as int,
                ny,
                block,
            ),
        decreases 16 - x,
    {
        let ghost done = out@;
        let mut z: usize = min.z as usize;
        assert(done + Seq::<BlockRecord>::empty() =~= done);
        while z <= max.z as usize
            invariant
                min.x <= x <= max.x,
                min.z <= z <= 16,
                z <= max.z + 1 || z == min.z,
                max.wf(),
                min.wf(),
                nz == span(min.z as int, max.z as int),
                ny == span(y_lo as int, y_hi as int),
                out@ == done + spec_slab(
                    x as u8,
                    min.z as int,
                    (z - min.z) as nat,
                    y_lo as int,
                    ny,
                    block,
                ),
            decreases 16 - z,
        {
            let ghost slab = out@;
            let mut y: usize = y_lo as usize;
            assert(slab + Seq::<BlockRecord>::empty() =~= slab);
            while y <= y_hi as usize
                invariant
                    y_lo <= y <= 256,
                    y <= y_hi + 1 || y == y_lo,
                    x <= 15,
                    z <= 15,
                    out@ == slab + spec_column(x as u8, z as u8, y_lo as int, (y - y_lo) as nat, block),
                decreases 256 - y,
            {
                out.push(BlockRecord { x: x as u8, y: y as u8, z: z as u8, block });
                assert(out@ =~= slab + spec_column(
                    x as u8,
                    z as u8,
                    y_lo as int,
                    (y + 1 - y_lo) as nat,
                    block,
                ));
                y += 1;
            }
            proof {
                assert(spec_column(x as u8, z as u8, y_lo as int, (y - y_lo) as nat, block)
                    =~= spec_column(x as u8, z as u8, y_lo as int, ny, block)) by {
                    if y_hi < y_lo {
                        assert(y == y_lo);
                    }
                }
                assert(out@ =~= done + spec_slab(
                    x as u8,
                    min.z as int,
                    (z + 1 - min.z) as nat,
                    y_lo as int,
                    ny,
                    block,
                ));
            }
            z += 1;
        }
        proof {
            assert((z - min.z) as nat == nz || (max.z < min.z && z == min.z));
            assert(out@ =~= spec_slabs(
                min.x as int,
                (x + 1 - min.x) as nat,
                min.z as int,
                nz,
                y_lo as int,
                ny,
                block,
            ));
        }
        x += 1;
    }
    proof {
        assert((x - min.x) as nat == span(min.x as int, max.x as int) || (max.x < min.x && x
            == min.x));
    }
    out
}

/// A changed cell as the versions from 1.16.2 on get it: the block in the
/// high bits, then `x`, `z` and the height within the section, four bits
/// each.
pub open spec fn spec_pack_record(r: BlockRecord) -> i64 {
    (r.block as int * 4096 + r.x as int * 256 + r.z as int * 16 + r.y as int % 16) as i64
}

/// The section at height `sy` of the chunk at `c` as the versions from
/// 1.16.2 on name it: the low 22 bits of `x`, the low 22 bits of `z` and
/// the height, in that order from the highest bits down, as a signed
/// number.
pub open spec fn spec_section_coord(c: ChunkPos, sy: int) -> i64 {
    let bits = (c.x as int % 0x40_0000) * 0x400_0000_0000 + (c.z as int % 0x40_0000) * 0x10_0000
        + sy;
    if bits >= 0x8000_0000_0000_0000 {
        (bits - 0x1_0000_0000_0000_0000) as i64
    } else {
        bits as i64
    }
}

/// Exec form of [`spec_section_coord`].
pub fn section_coord(c: ChunkPos, sy: u8) -> (r: i64)
    requires
        sy < 16,
    ensures
        r == spec_section_coord(c, sy as int),
{
    let x: i128 = (c.x as i128 + 0x1_0000_0000i128) % 0x40_0000;
    let z: i128 = (c.z as i128 + 0x1_0000_0000i128) % 0x40_0000;
    assert(x == c.x as int % 0x40_0000);
    assert(z == c.z as int % 0x40_0000);
    let bits: i128 = x * 0x400_0000_0000 + z * 0x10_0000 + sy as i128;
    if bits >= 0x8000_0000_0000_0000 {
        (bits - 0x1_0000_0000_0000_0000) as i64
    } else {
        bits as i64
    }
}

/// The records packed for the versions from 1.16.2 on.
pub open spec fn spec_packed(records: Seq<BlockRecord>) -> Seq<i64> {
    Seq::new(records.len(), |i: int| spec_pack_record(records[i]))
}

/// Packs the records of one section.
pub fn pack_records(records: &Vec<BlockRecord>) -> (out: Vec<i64>)
    requires
        forall|i: int|
            0 <= i < records@.len() ==> (#[trigger] records@[i]).x < 16 && records@[i].z < 16,
    ensures
        out@ == spec_packed(records@),
{
    let mut out: Vec<i64> = Vec::new();
    let mut i: usize = 0;
    while i < records.len()
        invariant
            i <= records@.len(),
            forall|j: int|
                0 <= j < records@.len() ==> (#[trigger] records@[j]).x < 16 && records@[j].z < 16,
            out@.len() == i,
            forall|j: int| 0 <= j < i ==> out@[j] == spec_pack_record(records@[j]),
        decreases records@.len() - i,
    {
        let r = records[i];
        assert(records@[i as int].x < 16);
        out.push(r.block as i64 * 4096 + r.x as i64 * 256 + r.z as i64 * 16 + (r.y % 16) as i64);
        i += 1;
    }
    assert(out@ =~= spec_packed(records@));
    out
}

/// Whether `p` tells a client before 1.16.2 that the cells `records` of
/// the chunk at `c` have changed.
pub open spec fn is_chunk_change(p: CbPacket, c: ChunkPos, records: Seq<BlockRecord>) -> bool {
    p matches CbPacket::MultiBlockChange {
        chunk_x_removed_v1_16_2,
        chunk_z_removed_v1_16_2,
        chunk_coordinates_v1_16_2,
        not_trust_edges_v1_16_2,
        records_v1_8,
        records_v1_16_2,
    } && chunk_x_removed_v1_16_2 == Some(c.x) && chunk_z_removed_v1_16_2 == Some(c.z)
        && chunk_coordinates_v1_16_2.is_none() && not_trust_edges_v1_16_2.is_none()
        && records_v1_16_2.is_none() && (records_v1_8 matches Some(r) && r@ == records)
}

/// Whether `p` tells a client from 1.16.2 on that the cells `records` of
/// the section at height `sy` of the chunk at `c` have changed.
pub open spec fn is_section_change(p: CbPacket, c: ChunkPos, sy: int, records: Seq<BlockRecord>) -> bool {
    p matches CbPacket::MultiBlockChange {
        chunk_x_removed_v1_16_2,
        chunk_z_removed_v1_16_2,
        chunk_coordinates_v1_16_2,
        not_trust_edges_v1_16_2,
        records_v1_8,
        records_v1_16_2,
    } && chunk_x_removed_v1_16_2.is_none() && chunk_z_removed_v1_16_2.is_none()
        && chunk_coordinates_v1_16_2 == Some(spec_section_coord(c, sy)) && not_trust_edges_v1_16_2
        == Some(false) && records_v1_8.is_none() && (records_v1_16_2 matches Some(r) && r@
        == spec_packed(records))
}

/// The greater of the two.
pub open spec fn spec_max_int(a: int, b: int) -> int {
    if a > b {
        a
    } else {
        b
    }
}

/// The lesser of the two.
pub open spec fn spec_min_int(a: int, b: int) -> int {
    if a < b {
        a
    } else {
        b
    }
}

/// Whether packet `k` is the change of the section `k` sections above the
/// lowest one that the box reaches.
pub open spec fn section_change_at(
    packets: Seq<CbPacket>,
    change: ChunkChange,
    block: i32,
    k: int,
) -> bool {
    let sy = change.min.y as int / 16 + k;
    is_section_change(
        packets[k],
        change.chunk,
        sy,
        spec_records(
            change.min,
            change.max,
            spec_max_int(change.min.y as int, sy * 16),
            spec_min_int(change.max.y as int, sy * 16 + 15),
            block,
        ),
    )
}

/// What a client on `ver` is told when the cells of `change` have become
/// the block `ty`. Before 1.16.2 that is one packet for the chunk, with
/// every cell of the box in the order in which it was written. From 1.16.2
/// on it is one packet for each section that the box reaches, from the
/// lowest up, each with the cells of the box in that section. The block is
/// named as the client's version numbers it. An empty box sends nothing.
pub fn serialize_multi_block_change(change: &ChunkChange, ty: u32, ver: ProtocolVersion, conv: &TypeConverter) -> (out:
    Vec<CbPacket>)
    requires
        conv.wf(),
        change.min.wf(),
        change.max.wf(),
    ensures
        ({
            let block = conv.spec_block_to_old(ty, ver.spec_block()) as i32;
            let empty = change.min.x > change.max.x || change.min.y > change.max.y || change.min.z
                > change.max.z;
            if empty {
                out@.len() == 0
            } else if !ver.spec_at_least(ProtocolVersion::V1_16_2) {
                out@.len() == 1 && is_chunk_change(
                    out@[0],
                    change.chunk,
                    spec_records(
                        change.min,
                        change.max,
                        change.min.y as int,
                        change.max.y as int,
                        block,
                    ),
                )
            } else {
                &&& out@.len() == change.max.y as int / 16 - change.min.y as int / 16 + 1
                &&& forall|k: int|
                    0 <= k < out@.len() ==> #[trigger] section_change_at(out@, *change, block, k)
            }
        }),
{
    let mut out: Vec<CbPacket> = Vec::new();
    if change.min.x > change.max.x || change.min.y > change.max.y || change.min.z > change.max.z {
        return out;
    }
    let block: i32 = #[verifier::truncate]
    (conv.block_to_old(ty, ver.block()) as i32);
    if !ver.at_least(ProtocolVersion::V1_16_2) {
        let cells = records(change.min, change.max, change.min.y, change.max.y, block);
        out.push(
            CbPacket::MultiBlockChange {
                chunk_x_removed_v1_16_2: Some(change.chunk.x),
                chunk_z_removed_v1_16_2: Some(change.chunk.z),
                chunk_coordinates_v1_16_2: None,
                not_trust_edges_v1_16_2: None,
                records_v1_8: Some(cells),
                records_v1_16_2: None,
            },
        );
        return out;
    }
    let first: u8 = change.min.y / 16;
    let last: u8 = change.max.y / 16;
    let mut sy: u8 = first;
    while sy <= last
        invariant
            first <= sy <= last + 1,
            last < 16,
            first == change.min.y / 16,
            last == change.max.y / 16,
            change.min.wf(),
            change.max.wf(),
            out@.len() == sy - first,
            forall|k: int| 0 <= k < out@.len() ==> #[trigger] section_change_at(out@, *change, block, k),
        decreases last + 1 - sy,
    {
        let lo: u8 = if change.min.y > sy * 16 {
            change.min.y
        } else {
            sy * 16
        };
        let hi: u8 = if change.max.y < sy * 16 + 15 {
            change.max.y
        } else {
            sy * 16 + 15
        };
        let cells = records(change.min, change.max, lo, hi, block);
        proof {
            assert forall|i: int| 0 <= i < cells@.len() implies (#[trigger] cells@[i]).x < 16
                && cells@[i].z < 16 by {
                lemma_records_in_chunk(change.min, change.max, lo as int, hi as int, block, i);
            }
        }
        let packed = pack_records(&cells);
        let ghost before = out@;
        out.push(
            CbPacket::MultiBlockChange {
                chunk_x_removed_v1_16_2: None,
                chunk_z_removed_v1_16_2: None,
                chunk_coordinates_v1_16_2: Some(section_coord(change.chunk, sy)),
                not_trust_edges_v1_16_2: Some(false),
                records_v1_8: None,
                records_v1_16_2: Some(packed),
            },
        );
        proof {
            assert forall|k: int| 0 <= k < out@.len() implies #[trigger] section_change_at(
                out@,
                *change,
                block,
                k,
            ) by {
                if k < before.len() {
                    assert(section_change_at(before, *change, block, k));
                }
            }
        }
        sy += 1;
    }
    out
}

/// Every record of a box lies in the chunk.
pub proof fn lemma_records_in_chunk(
    min: RelPos,
    max: RelPos,
    y_lo: int,
    y_hi: int,
    block: i32,
    i: int,
)
    requires
        min.wf(),
        max.wf(),
        0 <= i < spec_records(min, max, y_lo, y_hi, block).len(),
    ensures
        spec_records(min, max, y_lo, y_hi, block)[i].x < 16,
        spec_records(min, max, y_lo, y_hi, block)[i].z < 16,
{
    lemma_slabs_in_chunk(
        min.x as int,
        span(min.x as int, max.x as int),
        min.z as int,
        span(min.z as int, max.z as int),
        y_lo,
        span(y_lo, y_hi),
        block,
        i,
    );
}

/// Every record of slabs that lie in the chunk lies in the chunk.
pub proof fn lemma_slabs_in_chunk(
    x0: int,
    nx: nat,
    z0: int,
    nz: nat,
    y0: int,
    ny: nat,
    block: i32,
    i: int,
)
    requires
        0 <= x0,
        x0 + nx <= 16,
        0 <= z0,
        z0 + nz <= 16,
        0 <= i < spec_slabs(x0, nx, z0, nz, y0, ny, block).len(),
    ensures
        spec_slabs(x0, nx, z0, nz, y0, ny, block)[i].x < 16,
        spec_slabs(x0, nx, z0, nz, y0, ny, block)[i].z < 16,
    decreases nx,
{
    if nx > 0 {
        let head = spec_slabs(x0, (nx - 1) as nat, z0, nz, y0, ny, block);
        if i < head.len() {
            lemma_slabs_in_chunk(x0, (nx - 1) as nat, z0, nz, y0, ny, block, i);
        } else {
            lemma_slab_in_chunk((x0 + nx - 1) as u8, z0, nz, y0, ny, block, i - head.len());
        }
    }
}

/// Every record of a slab that lies in the chunk lies in the chunk.
pub proof fn lemma_slab_in_chunk(x: u8, z0: int, nz: nat, y0: int, ny: nat, block: i32, i: int)
    requires
        x < 16,
        0 <= z0,
        z0 + nz <= 16,
        0 <= i < spec_slab(x, z0, nz, y0, ny, block).len(),
    ensures
        spec_slab(x, z0, nz, y0, ny, block)[i].x < 16,
        spec_slab(x, z0, nz, y0, ny, block)[i].z < 16,
    decreases nz,
{
    if nz > 0 {
        let head = spec_slab(x, z0, (nz - 1) as nat, y0, ny, block);
        if i < head.len() {
            lemma_slab_in_chunk(x, z0, (nz - 1) as nat, y0, ny, block, i);
        }
    }
}

/// The positions of the players that have the chunk at `c` in view, among
/// the first `n` players, in order.
pub open spec fn spec_viewers(players: Seq<Player>, c: ChunkPos, n: int) -> Seq<usize>
    decreases n,
{
    if n <= 0 {
        Seq::empty()
    } else if players[n - 1].sees(c) {
        spec_viewers(players, c, n - 1).push((n - 1) as usize)
    } else {
        spec_viewers(players, c, n - 1)
    }
}

impl World {
    /// The positions of the players that have the chunk at `c` in view, in
    /// order.
    pub fn viewers(&self, c: ChunkPos) -> (out: Vec<usize>)
        requires
            self.wf(),
        ensures
            out@ == spec_viewers(self.spec_players(), c, self.spec_players().len() as int),
    {
        let mut out: Vec<usize> = Vec::new();
        let mut i: usize = 0;
        while i < self.players.len()
            invariant
                i <= self.players@.len(),
                self.wf(),
                out@ == spec_viewers(self.players@, c, i as int),
            decreases self.players@.len() - i,
        {
            if self.players[i].in_view(c) {
                out.push(i);
            }
            i += 1;
        }
        out
    }
}

} // verus!
