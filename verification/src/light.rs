//! Light: a grid of 4-bit levels per chunk, and the breadth-first flood that
//! spreads a level from a cell into the transparent cells around it.

use vstd::prelude::*;
use crate::chunk::{lemma_index_injective, lemma_split, Chunk, CHUNK_CELLS};
use crate::math::{Face, RelPos};
use crate::packed::{lemma_mask_values, PackedArray};
use crate::section::AIR;

verus! {

/// The brightest level.
pub const MAX_LIGHT: u8 = 15;

/// What the light engine needs to know of a kind of block.
#[derive(Clone, Copy, Debug, PartialEq, Eq, Structural)]
pub struct BlockInfo {
    /// The level the block emits, 0 to 15.
    pub emit_light: u8,
    /// Whether light passes through the block.
    pub transparent: bool,
}

/// The properties of every block, by block id.
#[derive(Debug)]
pub struct BlockTable {
    pub blocks: Vec<BlockInfo>,
}

impl BlockTable {
    /// The level that block `id` emits: what the table says, at most 15, and
    /// 0 for a block that the table does not know.
    pub open spec fn spec_emission(self, id: u32) -> int {
        if id < self.blocks@.len() {
            if self.blocks@[id as int].emit_light > MAX_LIGHT {
                MAX_LIGHT as int
            } else {
                self.blocks@[id as int].emit_light as int
            }
        } else {
            0
        }
    }

    /// Whether light passes through block `id`: through air, and through
    /// what the table marks transparent.
    pub open spec fn spec_passes(self, id: u32) -> bool {
        id == AIR || (id < self.blocks@.len() && self.blocks@[id as int].transparent)
    }

    pub fn new(blocks: Vec<BlockInfo>) -> (t: BlockTable)
        ensures
            t.blocks == blocks,
    {
        BlockTable { blocks }
    }

    pub fn emission(&self, id: u32) -> (e: u8)
        ensures
            e == self.spec_emission(id),
            e <= MAX_LIGHT,
    {
        if (id as usize) < self.blocks.len() {
            let e = self.blocks[id as usize].emit_light;
            if e > MAX_LIGHT {
                MAX_LIGHT
            } else {
                e
            }
        } else {
            0
        }
    }

    pub fn passes(&self, id: u32) -> (r: bool)
        ensures
            r == self.spec_passes(id),
    {
        id == AIR || ((id as usize) < self.blocks.len() && self.blocks[id as usize].transparent)
    }
}

/// One light level per cell of a chunk.
#[derive(Debug)]
pub struct LightChunk {
    cells: PackedArray,
}

impl LightChunk {
    pub closed spec fn wf(self) -> bool {
        &&& self.cells.wf()
        &&& self.cells.spec_bits() == 4
        &&& self.cells.spec_len() == CHUNK_CELLS
    }

    /// The level of each cell, indexed by [`RelPos::spec_index`].
    pub closed spec fn view(self) -> Seq<u8> {
        Seq::new(CHUNK_CELLS as nat, |i: int| self.cells@[i] as u8)
    }

    /// The level at `p`.
    pub open spec fn light_at(self, p: RelPos) -> int {
        self@[p.spec_index()] as int
    }

    /// Every level is at most 15.
    pub proof fn lemma_levels(self)
        requires
            self.wf(),
        ensures
            self@.len() == CHUNK_CELLS,
            forall|i: int| 0 <= i < CHUNK_CELLS ==> #[trigger] self@[i] <= MAX_LIGHT,
    {
        self.cells.lemma_entries_fit();
        lemma_mask_values();
    }

    /// A grid without light.
    pub fn new() -> (l: LightChunk)
        ensures
            l.wf(),
            l@ == spec_dark(),
    {
        let l = LightChunk { cells: PackedArray::new(4, CHUNK_CELLS) };
        assert(l@ =~= Seq::new(CHUNK_CELLS as nat, |i: int| 0u8));
        l
    }

    pub fn get_light(&self, p: RelPos) -> (level: u8)
        requires
            self.wf(),
            p.wf(),
        ensures
            level == self.light_at(p),
            level <= MAX_LIGHT,
    {
        proof {
            lemma_split(p);
            lemma_mask_values();
        }
        self.cells.get(p.index()) as u8
    }

    pub fn set_light(&mut self, p: RelPos, level: u8)
        requires
            old(self).wf(),
            p.wf(),
            level <= MAX_LIGHT,
        ensures
            final(self).wf(),
            final(self)@ == old(self)@.update(p.spec_index(), level),
    {
        proof {
            lemma_split(p);
            lemma_mask_values();
        }
        let ghost before = *self;
        self.cells.set(p.index(), level as u64);
        assert(self@ =~= before@.update(p.spec_index(), level));
    }
}

// ---------------------------------------------------------------------------
// The flood
// ---------------------------------------------------------------------------

/// The position of a face in visiting order.
pub open spec fn face_ord(f: Face) -> int {
    match f {
        Face::Top => 0,
        Face::Bottom => 1,
        Face::North => 2,
        Face::South => 3,
        Face::East => 4,
        Face::West => 5,
    }
}

/// How much a level drops when it crosses `f`: sky light that goes straight
/// down keeps its level, everything else loses one.
pub open spec fn drop_of(sky: bool, f: Face) -> int {
    if sky && f == Face::Bottom {
        0
    } else {
        1
    }
}

/// Whether light flows from `a` across `f` into `b`: they are neighbours and
/// the block at `b` lets light pass.
pub open spec fn flows(chunk: Chunk, table: BlockTable, a: RelPos, f: Face, b: RelPos) -> bool {
    &&& a.wf()
    &&& b.wf()
    &&& a.is_neighbor(f, b)
    &&& table.spec_passes(chunk.block_at(b))
}

/// Whether `b` is at least as bright as what flows into it from `a`.
pub open spec fn pair_ok(l: Seq<u8>, sky: bool, a: RelPos, f: Face, b: RelPos) -> bool {
    l[b.spec_index()] >= l[a.spec_index()] - drop_of(sky, f)
}

/// The grid is at rest: no cell could brighten a neighbour.
pub open spec fn smooth(l: Seq<u8>, chunk: Chunk, table: BlockTable, sky: bool) -> bool {
    forall|a: RelPos, f: Face, b: RelPos| #[trigger]
        flows(chunk, table, a, f, b) ==> pair_ok(l, sky, a, f, b)
}

/// The grid is at rest but for what flows out of `pos`, which stands at
/// `level`.
pub open spec fn smooth_but(
    l: Seq<u8>,
    chunk: Chunk,
    table: BlockTable,
    sky: bool,
    pos: RelPos,
    level: int,
) -> bool {
    forall|a: RelPos, f: Face, b: RelPos| #[trigger]
        flows(chunk, table, a, f, b) ==> pair_ok(l, sky, a, f, b) || (a == pos && l[pos.spec_index()]
            == level)
}

/// Whether `a`, at its present level, waits in `queue` at `from` or later.
pub open spec fn excused(l: Seq<u8>, queue: Seq<(RelPos, u8)>, from: int, a: RelPos) -> bool {
    exists|i: int| from <= i < queue.len() && #[trigger] queue[i] == (a, l[a.spec_index()])
}

/// Whether the pair is at rest, or its source still waits to be spread.
pub open spec fn settled(
    l: Seq<u8>,
    sky: bool,
    queue: Seq<(RelPos, u8)>,
    from: int,
    next: Seq<(RelPos, u8)>,
    src: RelPos,
    lv: int,
    k: int,
    a: RelPos,
    f: Face,
    b: RelPos,
) -> bool {
    ||| pair_ok(l, sky, a, f, b)
    ||| excused(l, queue, from, a)
    ||| excused(l, next, 0, a)
    ||| (a == src && l[a.spec_index()] == lv && face_ord(f) >= k)
}

/// What holds while the flood runs: every pair is settled.
pub open spec fn flood_inv(
    l: Seq<u8>,
    chunk: Chunk,
    table: BlockTable,
    sky: bool,
    queue: Seq<(RelPos, u8)>,
    from: int,
    next: Seq<(RelPos, u8)>,
    src: RelPos,
    lv: int,
    k: int,
) -> bool {
    forall|a: RelPos, f: Face, b: RelPos| #[trigger]
        flows(chunk, table, a, f, b) ==> settled(l, sky, queue, from, next, src, lv, k, a, f, b)
}

/// How far an entry is from the end of the flood: levels count most, then
/// height, because only a step straight down can keep the level.
pub open spec fn rank(e: (RelPos, u8)) -> int {
    e.1 as int * 256 + e.0.y as int
}

/// Every entry is a cell of the chunk, at most at `level` and at most at
/// rank `bound`.
pub open spec fn entries_ok(q: Seq<(RelPos, u8)>, level: int, bound: int) -> bool {
    forall|i: int|
        0 <= i < q.len() ==> (#[trigger] q[i]).0.wf() && q[i].1 <= level && rank(q[i]) <= bound
}

/// The grid `l` came from `l0` by raising cells that let light pass, none
/// above `level`.
pub open spec fn raised_from(
    l: Seq<u8>,
    l0: Seq<u8>,
    chunk: Chunk,
    table: BlockTable,
    level: int,
) -> bool {
    &&& l.len() == CHUNK_CELLS
    &&& l0.len() == CHUNK_CELLS
    &&& forall|i: int|
        0 <= i < CHUNK_CELLS ==> l0[i] <= #[trigger] l[i] && (l[i] == l0[i] || l[i] <= level)
    &&& forall|a: RelPos|
        a.wf() && !table.spec_passes(chunk.block_at(a)) ==> #[trigger] l[a.spec_index()]
            == l0[a.spec_index()]
}

/// Whether a neighbour lights `b`: light flows into `b` from a cell that is
/// bright enough to bring `b` to the level it has.
pub open spec fn backed(l: Seq<u8>, chunk: Chunk, table: BlockTable, sky: bool, b: RelPos) -> bool {
    exists|a: RelPos, f: Face| #[trigger]
        flows(chunk, table, a, f, b) && l[a.spec_index()] - drop_of(sky, f) >= l[b.spec_index()]
}

/// No cell is brighter than it has a reason to be: each is at most as
/// bright as `seed` has it, or a neighbour lights it.
pub open spec fn grounded(
    l: Seq<u8>,
    seed: Seq<u8>,
    chunk: Chunk,
    table: BlockTable,
    sky: bool,
) -> bool {
    forall|b: RelPos|
        b.wf() && l[b.spec_index()] > seed[b.spec_index()] ==> #[trigger] backed(
            l,
            chunk,
            table,
            sky,
            b,
        )
}

/// Every cell that waits in `q` stands at the level it waits with, or
/// above.
pub open spec fn entries_lit(l: Seq<u8>, q: Seq<(RelPos, u8)>) -> bool {
    forall|i: int| 0 <= i < q.len() ==> l[(#[trigger] q[i]).0.spec_index()] >= q[i].1
}

/// A cell that a neighbour lights stays lit by it while it keeps its level
/// and no cell gets darker.
pub proof fn lemma_backed_kept(
    l: Seq<u8>,
    l2: Seq<u8>,
    chunk: Chunk,
    table: BlockTable,
    sky: bool,
    b: RelPos,
)
    requires
        l.len() == CHUNK_CELLS,
        l2.len() == CHUNK_CELLS,
        forall|i: int| 0 <= i < CHUNK_CELLS ==> l[i] <= #[trigger] l2[i],
        l2[b.spec_index()] == l[b.spec_index()],
        backed(l, chunk, table, sky, b),
    ensures
        backed(l2, chunk, table, sky, b),
{
    let (a, f) = choose|a: RelPos, f: Face| #[trigger]
        flows(chunk, table, a, f, b) && l[a.spec_index()] - drop_of(sky, f) >= l[b.spec_index()];
    lemma_split(a);
    assert(l[a.spec_index()] <= l2[a.spec_index()]);
    assert(flows(chunk, table, a, f, b) && l2[a.spec_index()] - drop_of(sky, f)
        >= l2[b.spec_index()]);
}

/// Raising the neighbour `np` of `src` to what flows into it from `src`
/// leaves every cell with a reason for its level.
proof fn lemma_raise_grounded(
    l: Seq<u8>,
    seed: Seq<u8>,
    chunk: Chunk,
    table: BlockTable,
    sky: bool,
    src: RelPos,
    lv: int,
    face: Face,
    np: RelPos,
    nl: u8,
)
    requires
        l.len() == CHUNK_CELLS,
        grounded(l, seed, chunk, table, sky),
        flows(chunk, table, src, face, np),
        l[src.spec_index()] >= lv,
        nl == lv - drop_of(sky, face),
        l[np.spec_index()] < nl,
    ensures
        grounded(l.update(np.spec_index(), nl), seed, chunk, table, sky),
{
    let l2 = l.update(np.spec_index(), nl);
    lemma_split(np);
    lemma_split(src);
    lemma_index_injective(src, np);
    assert forall|b: RelPos| b.wf() && l2[b.spec_index()] > seed[b.spec_index()] implies #[trigger]
        backed(l2, chunk, table, sky, b) by {
        lemma_split(b);
        lemma_index_injective(b, np);
        if b == np {
            assert(flows(chunk, table, src, face, np) && l2[src.spec_index()] - drop_of(sky, face)
                >= l2[np.spec_index()]);
        } else {
            assert(backed(l, chunk, table, sky, b));
            lemma_backed_kept(l, l2, chunk, table, sky, b);
        }
    }
}

/// Taking up the entry at `i`: its pairs are now those of the source.
proof fn lemma_begin(
    l: Seq<u8>,
    chunk: Chunk,
    table: BlockTable,
    sky: bool,
    queue: Seq<(RelPos, u8)>,
    i: int,
    next: Seq<(RelPos, u8)>,
    any: RelPos,
    any_lv: int,
)
    requires
        0 <= i < queue.len(),
        flood_inv(l, chunk, table, sky, queue, i, next, any, any_lv, 6),
    ensures
        flood_inv(l, chunk, table, sky, queue, i + 1, next, queue[i].0, queue[i].1 as int, 0),
{
    let src = queue[i].0;
    let lv = queue[i].1 as int;
    assert forall|a: RelPos, f: Face, b: RelPos| #[trigger]
        flows(chunk, table, a, f, b) implies settled(
        l,
        sky,
        queue,
        i + 1,
        next,
        src,
        lv,
        0,
        a,
        f,
        b,
    ) by {
        assert(settled(l, sky, queue, i, next, any, any_lv, 6, a, f, b));
        if excused(l, queue, i, a) {
            let j = choose|j: int| i <= j < queue.len() && #[trigger] queue[j] == (
                a,
                l[a.spec_index()],
            );
            if j > i {
                assert(excused(l, queue, i + 1, a));
            }
        }
    }
}

/// An entry at level 0 spreads nothing.
proof fn lemma_dark(
    l: Seq<u8>,
    chunk: Chunk,
    table: BlockTable,
    sky: bool,
    queue: Seq<(RelPos, u8)>,
    from: int,
    next: Seq<(RelPos, u8)>,
    src: RelPos,
)
    requires
        flood_inv(l, chunk, table, sky, queue, from, next, src, 0, 0),
    ensures
        flood_inv(l, chunk, table, sky, queue, from, next, src, 0, 6),
{
    assert forall|a: RelPos, f: Face, b: RelPos| #[trigger]
        flows(chunk, table, a, f, b) implies settled(
        l,
        sky,
        queue,
        from,
        next,
        src,
        0,
        6,
        a,
        f,
        b,
    ) by {
        assert(settled(l, sky, queue, from, next, src, 0, 0, a, f, b));
    }
}

/// A face across which nothing has to change is done.
proof fn lemma_skip(
    l: Seq<u8>,
    chunk: Chunk,
    table: BlockTable,
    sky: bool,
    queue: Seq<(RelPos, u8)>,
    from: int,
    next: Seq<(RelPos, u8)>,
    src: RelPos,
    lv: int,
    k: int,
)
    requires
        flood_inv(l, chunk, table, sky, queue, from, next, src, lv, k),
        forall|f: Face, b: RelPos|
            face_ord(f) == k && #[trigger] flows(chunk, table, src, f, b) ==> l[b.spec_index()]
                >= lv - drop_of(sky, f),
    ensures
        flood_inv(l, chunk, table, sky, queue, from, next, src, lv, k + 1),
{
    assert forall|a: RelPos, f: Face, b: RelPos| #[trigger]
        flows(chunk, table, a, f, b) implies settled(
        l,
        sky,
        queue,
        from,
        next,
        src,
        lv,
        k + 1,
        a,
        f,
        b,
    ) by {
        assert(settled(l, sky, queue, from, next, src, lv, k, a, f, b));
    }
}

/// Raising the neighbour across face `k` and queueing it keeps every pair
/// settled.
proof fn lemma_raise(
    l: Seq<u8>,
    chunk: Chunk,
    table: BlockTable,
    sky: bool,
    queue: Seq<(RelPos, u8)>,
    from: int,
    next: Seq<(RelPos, u8)>,
    src: RelPos,
    lv: int,
    k: int,
    face: Face,
    np: RelPos,
    nl: u8,
)
    requires
        l.len() == CHUNK_CELLS,
        flood_inv(l, chunk, table, sky, queue, from, next, src, lv, k),
        src.wf(),
        np.wf(),
        face_ord(face) == k,
        src.is_neighbor(face, np),
        nl == lv - drop_of(sky, face),
        l[np.spec_index()] < nl,
    ensures
        flood_inv(
            l.update(np.spec_index(), nl),
            chunk,
            table,
            sky,
            queue,
            from,
            next.push((np, nl)),
            src,
            lv,
            k + 1,
        ),
{
    let l2 = l.update(np.spec_index(), nl);
    let next2 = next.push((np, nl));
    lemma_split(np);
    assert forall|a: RelPos, f: Face, b: RelPos| #[trigger]
        flows(chunk, table, a, f, b) implies settled(
        l2,
        sky,
        queue,
        from,
        next2,
        src,
        lv,
        k + 1,
        a,
        f,
        b,
    ) by {
        assert(settled(l, sky, queue, from, next, src, lv, k, a, f, b));
        lemma_index_injective(a, np);
        lemma_index_injective(b, np);
        lemma_split(a);
        lemma_split(b);
        if a == np {
            assert(next2[next.len() as int] == (np, nl));
            assert(excused(l2, next2, 0, a));
        } else {
            assert(l2[a.spec_index()] == l[a.spec_index()]);
            assert(l2[b.spec_index()] >= l[b.spec_index()]);
            if pair_ok(l, sky, a, f, b) {
            } else if excused(l, queue, from, a) {
                let j = choose|j: int| from <= j < queue.len() && #[trigger] queue[j] == (
                    a,
                    l[a.spec_index()],
                );
                assert(queue[j] == (a, l2[a.spec_index()]));
            } else if excused(l, next, 0, a) {
                let j = choose|j: int| 0 <= j < next.len() && #[trigger] next[j] == (
                    a,
                    l[a.spec_index()],
                );
                assert(next2[j] == (a, l2[a.spec_index()]));
            } else {
                if face_ord(f) == k {
                    assert(f == face);
                    assert(b == np);
                }
            }
        }
    }
}

/// At the end of a wave the cells that were raised are the next wave.
proof fn lemma_wave(
    l: Seq<u8>,
    chunk: Chunk,
    table: BlockTable,
    sky: bool,
    queue: Seq<(RelPos, u8)>,
    next: Seq<(RelPos, u8)>,
    src: RelPos,
    lv: int,
)
    requires
        flood_inv(l, chunk, table, sky, queue, queue.len() as int, next, src, lv, 6),
    ensures
        flood_inv(l, chunk, table, sky, next, 0, Seq::<(RelPos, u8)>::empty(), src, lv, 6),
{
    assert forall|a: RelPos, f: Face, b: RelPos| #[trigger]
        flows(chunk, table, a, f, b) implies settled(
        l,
        sky,
        next,
        0,
        Seq::<(RelPos, u8)>::empty(),
        src,
        lv,
        6,
        a,
        f,
        b,
    ) by {
        assert(settled(l, sky, queue, queue.len() as int, next, src, lv, 6, a, f, b));
    }
}

/// Spreads light from `pos`, which stands at `level` or above, until no cell
/// can brighten a neighbour: wave by wave, each cell of a wave visiting its
/// six neighbours in order, raising and queueing a neighbour only where the
/// level that reaches it exceeds the one it has.
fn flood(
    light: &mut LightChunk,
    chunk: &Chunk,
    table: &BlockTable,
    pos: RelPos,
    level: u8,
    sky: bool,
)
    requires
        old(light).wf(),
        chunk.wf(),
        pos.wf(),
        level <= MAX_LIGHT,
        level <= old(light).light_at(pos),
    ensures
        final(light).wf(),
        smooth_but(old(light)@, *chunk, *table, sky, pos, level as int) ==> smooth(
            final(light)@,
            *chunk,
            *table,
            sky,
        ),
        raised_from(final(light)@, old(light)@, *chunk, *table, level as int),
        grounded(final(light)@, old(light)@, *chunk, *table, sky),
{
    let ghost l0 = light@;
    let ghost rest = smooth_but(l0, *chunk, *table, sky, pos, level as int);
    let mut queue: Vec<(RelPos, u8)> = Vec::new();
    queue.push((pos, level));
    let ghost mut bound: int = level as int * 256 + pos.y as int;
    proof {
        light.lemma_levels();
        lemma_split(pos);
        if rest {
            assert forall|a: RelPos, f: Face, b: RelPos| #[trigger]
                flows(*chunk, *table, a, f, b) implies settled(
                light@,
                sky,
                queue@,
                0,
                Seq::<(RelPos, u8)>::empty(),
                pos,
                0,
                6,
                a,
                f,
                b,
            ) by {
                if !pair_ok(light@, sky, a, f, b) {
                    assert(queue@[0] == (a, light@[a.spec_index()]));
                }
            }
        }
    }
    while queue.len() > 0
        invariant
            light.wf(),
            chunk.wf(),
            level <= MAX_LIGHT,
            entries_ok(queue@, level as int, bound),
            entries_lit(light@, queue@),
            rest ==> flood_inv(
                light@,
                *chunk,
                *table,
                sky,
                queue@,
                0,
                Seq::<(RelPos, u8)>::empty(),
                pos,
                0,
                6,
            ),
            raised_from(light@, l0, *chunk, *table, level as int),
            grounded(light@, l0, *chunk, *table, sky),
        decreases bound + 1,
    {
        let mut next: Vec<(RelPos, u8)> = Vec::new();
        let mut i: usize = 0;
        let ghost mut last_src = pos;
        let ghost mut last_lv = 0int;
        assert(rank(queue@[0]) >= 0);
        while i < queue.len()
            invariant
                i <= queue@.len(),
                light.wf(),
                chunk.wf(),
                level <= MAX_LIGHT,
                bound >= 0,
                entries_ok(queue@, level as int, bound),
                entries_ok(next@, level as int, bound - 1),
                entries_lit(light@, queue@),
                entries_lit(light@, next@),
                rest ==> flood_inv(
                    light@,
                    *chunk,
                    *table,
                    sky,
                    queue@,
                    i as int,
                    next@,
                    last_src,
                    last_lv,
                    6,
                ),
                raised_from(light@, l0, *chunk, *table, level as int),
                grounded(light@, l0, *chunk, *table, sky),
            decreases queue@.len() - i,
        {
            let src = queue[i].0;
            let lv = queue[i].1;
            proof {
                if rest {
                    lemma_begin(
                        light@,
                        *chunk,
                        *table,
                        sky,
                        queue@,
                        i as int,
                        next@,
                        last_src,
                        last_lv,
                    );
                }
            }
            if lv > 0 {
                let mut k: usize = 0;
                while k < 6
                    invariant
                        k <= 6,
                        i < queue@.len(),
                        src == queue@[i as int].0,
                        lv == queue@[i as int].1,
                        lv > 0,
                        light.wf(),
                        chunk.wf(),
                        level <= MAX_LIGHT,
                        entries_ok(queue@, level as int, bound),
                        entries_ok(next@, level as int, bound - 1),
                        entries_lit(light@, queue@),
                        entries_lit(light@, next@),
                        rest ==> flood_inv(
                            light@,
                            *chunk,
                            *table,
                            sky,
                            queue@,
                            i + 1,
                            next@,
                            src,
                            lv as int,
                            k as int,
                        ),
                        raised_from(light@, l0, *chunk, *table, level as int),
                        grounded(light@, l0, *chunk, *table, sky),
                    decreases 6 - k,
                {
                    let face = Face::nth(k);
                    let ghost l1 = light@;
                    let ghost next1 = next@;
                    let mut raised = false;
                    let cand = src.checked_add(face);
                    match cand {
                        Some(np) => {
                            let id = chunk.get_block(np);
                            if table.passes(id) {
                                let nl: u8 = if sky && k == 1 {
                                    lv
                                } else {
                                    lv - 1
                                };
                                if light.get_light(np) < nl {
                                    light.set_light(np, nl);
                                    next.push((np, nl));
                                    raised = true;
                                    proof {
                                        light.lemma_levels();
                                        lemma_split(np);
                                        if rest {
                                        lemma_raise(
                                            l1,
                                            *chunk,
                                            *table,
                                            sky,
                                            queue@,
                                            i + 1,
                                            next1,
                                            src,
                                            lv as int,
                                            k as int,
                                            face,
                                            np,
                                            nl,
                                        );
                                        }
                                        assert forall|a: RelPos|
                                            a.wf() && !table.spec_passes(
                                                chunk.block_at(a),
                                            ) implies #[trigger] light@[a.spec_index()]
                                            == l0[a.spec_index()] by {
                                            lemma_index_injective(a, np);
                                        }
                                        assert(rank((np, nl)) <= bound - 1);
                                        assert(queue@[i as int] == (src, lv));
                                        lemma_raise_grounded(
                                            l1,
                                            l0,
                                            *chunk,
                                            *table,
                                            sky,
                                            src,
                                            lv as int,
                                            face,
                                            np,
                                            nl,
                                        );
                                        assert forall|j: int| 0 <= j < queue@.len() implies light@[(
                                        #[trigger] queue@[j]).0.spec_index()] >= queue@[j].1 by {
                                            lemma_split(queue@[j].0);
                                        }
                                        assert forall|j: int| 0 <= j < next@.len() implies light@[(
                                        #[trigger] next@[j]).0.spec_index()] >= next@[j].1 by {
                                            if j < next1.len() {
                                                assert(next@[j] == next1[j]);
                                                lemma_split(next1[j].0);
                                            }
                                        }
                                    }
                                }
                            }
                        },
                        None => {},
                    }
                    proof {
                        if !raised && rest {
                            assert forall|f: Face, b: RelPos|
                                face_ord(f) == k && #[trigger] flows(
                                    *chunk,
                                    *table,
                                    src,
                                    f,
                                    b,
                                ) implies light@[b.spec_index()] >= lv - drop_of(sky, f) by {
                                assert(f == face);
                                assert(src.has_neighbor(face));
                                assert(b == cand.unwrap());
                            }
                            lemma_skip(
                                light@,
                                *chunk,
                                *table,
                                sky,
                                queue@,
                                i + 1,
                                next@,
                                src,
                                lv as int,
                                k as int,
                            );
                        }
                    }
                    k += 1;
                }
            } else {
                proof {
                    if rest {
                        lemma_dark(light@, *chunk, *table, sky, queue@, i + 1, next@, src);
                    }
                }
            }
            proof {
                last_src = src;
                last_lv = lv as int;
            }
            i += 1;
        }
        proof {
            if rest {
            lemma_wave(light@, *chunk, *table, sky, queue@, next@, last_src, last_lv);
            assert forall|a: RelPos, f: Face, b: RelPos| #[trigger]
                flows(*chunk, *table, a, f, b) implies settled(
                light@,
                sky,
                next@,
                0,
                Seq::<(RelPos, u8)>::empty(),
                pos,
                0,
                6,
                a,
                f,
                b,
            ) by {
                assert(settled(
                    light@,
                    sky,
                    next@,
                    0,
                    Seq::<(RelPos, u8)>::empty(),
                    last_src,
                    last_lv,
                    6,
                    a,
                    f,
                    b,
                ));
            }
            }
            bound = bound - 1;
        }
        queue = next;
    }
    proof {
        if rest {
        assert forall|a: RelPos, f: Face, b: RelPos| #[trigger]
            flows(*chunk, *table, a, f, b) implies pair_ok(light@, sky, a, f, b) by {
            assert(settled(
                light@,
                sky,
                queue@,
                0,
                Seq::<(RelPos, u8)>::empty(),
                pos,
                0,
                6,
                a,
                f,
                b,
            ));
        }
        }
    }
}

/// The grid without light.
pub open spec fn spec_dark() -> Seq<u8> {
    Seq::new(CHUNK_CELLS as nat, |i: int| 0u8)
}

/// The grid with `pos` raised to `level`, where it was darker.
pub open spec fn spec_lit(l: Seq<u8>, pos: RelPos, level: int) -> Seq<u8> {
    if l[pos.spec_index()] < level {
        l.update(pos.spec_index(), level as u8)
    } else {
        l
    }
}

/// The grid with every cell raised to what its block emits, where it was
/// darker.
pub open spec fn block_seed(l: Seq<u8>, chunk: Chunk, table: BlockTable) -> Seq<u8> {
    Seq::new(
        CHUNK_CELLS as nat,
        |i: int|
            if l[i] < table.spec_emission(chunk@[i]) {
                table.spec_emission(chunk@[i]) as u8
            } else {
                l[i]
            },
    )
}

/// The grid with full light in the top cell of every column whose top cell
/// lets light pass.
pub open spec fn sky_seed(l: Seq<u8>, chunk: Chunk, table: BlockTable) -> Seq<u8> {
    Seq::new(
        CHUNK_CELLS as nat,
        |i: int|
            if i / 256 == 255 && table.spec_passes(chunk@[i]) {
                MAX_LIGHT
            } else {
                l[i]
            },
    )
}

/// While every cell is lit in turn: a cell that is brighter than at the
/// start has a neighbour that lights it, unless its turn has come and it
/// is no brighter than what it emits.
pub open spec fn block_turns(
    l: Seq<u8>,
    l0: Seq<u8>,
    chunk: Chunk,
    table: BlockTable,
    i: int,
    b: RelPos,
) -> bool {
    b.wf() && l[b.spec_index()] > l0[b.spec_index()] && (b.spec_index() >= i || l[b.spec_index()]
        > table.spec_emission(chunk.block_at(b))) ==> backed(l, chunk, table, false, b)
}

/// While every column is lit in turn: a cell that is brighter than at the
/// start has a neighbour that lights it, unless it is the top cell of a
/// column whose turn has come and lets light pass.
pub open spec fn sky_turns(
    l: Seq<u8>,
    l0: Seq<u8>,
    chunk: Chunk,
    table: BlockTable,
    i: int,
    b: RelPos,
) -> bool {
    b.wf() && l[b.spec_index()] > l0[b.spec_index()] && !(b.y == 255 && b.z * 16 + b.x < i
        && table.spec_passes(chunk.block_at(b))) ==> backed(l, chunk, table, true, b)
}

/// The light that blocks emit.
#[derive(Debug)]
pub struct BlockLightChunk {
    pub data: LightChunk,
}

/// The light that falls from the sky.
#[derive(Debug)]
pub struct SkyLightChunk {
    pub data: LightChunk,
}

impl BlockLightChunk {
    /// A grid without light.
    pub fn new() -> (l: BlockLightChunk)
        ensures
            l.data.wf(),
            l.data@ == spec_dark(),
            forall|chunk: Chunk, table: BlockTable| smooth(l.data@, chunk, table, false),
    {
        BlockLightChunk { data: LightChunk::new() }
    }

    /// Lights `pos` with what its block emits, unless it is brighter
    /// already, and spreads that light, one level less per step, through
    /// the cells that let light pass, as far as it brightens them. A grid
    /// that was at rest is at rest again; no cell gets darker, none is
    /// raised above the emitted level, and a cell that blocks light keeps
    /// its level unless it is `pos`. Every other cell that is brighter than
    /// before is lit by a neighbour, so the grid is the darkest grid at rest
    /// that is as bright as the one before with `pos` lit (see
    /// [`light_is_least`]).
    pub fn update(&mut self, chunk: &Chunk, table: &BlockTable, pos: RelPos)
        requires
            old(self).data.wf(),
            chunk.wf(),
            pos.wf(),
        ensures
            final(self).data.wf(),
            smooth(old(self).data@, *chunk, *table, false) ==> smooth(
                final(self).data@,
                *chunk,
                *table,
                false,
            ),
            final(self).data.light_at(pos) == if table.spec_emission(chunk.block_at(pos)) > old(self).data.light_at(pos) {
                table.spec_emission(chunk.block_at(pos))
            } else {
                old(self).data.light_at(pos)
            },
            forall|i: int|
                0 <= i < CHUNK_CELLS ==> old(self).data@[i] <= #[trigger] final(self).data@[i] && (
                final(self).data@[i] == old(self).data@[i] || final(self).data@[i]
                    <= table.spec_emission(chunk.block_at(pos))),
            forall|a: RelPos|
                a.wf() && a != pos && !table.spec_passes(chunk.block_at(a)) ==> #[trigger] final(self).data.light_at(a) == old(self).data.light_at(a),
            grounded(
                final(self).data@,
                spec_lit(old(self).data@, pos, table.spec_emission(chunk.block_at(pos))),
                *chunk,
                *table,
                false,
            ),
    {
        let emitted = table.emission(chunk.get_block(pos));
        let ghost l0 = self.data@;
        proof {
            self.data.lemma_levels();
            lemma_split(pos);
        }
        if emitted > self.data.get_light(pos) {
            self.data.set_light(pos, emitted);
        }
        let ghost l1 = self.data@;
        proof {
            if smooth(l0, *chunk, *table, false) {
                assert forall|a: RelPos, f: Face, b: RelPos| #[trigger]
                    flows(*chunk, *table, a, f, b) implies pair_ok(l1, false, a, f, b) || (a == pos
                    && l1[pos.spec_index()] == emitted) by {
                    assert(pair_ok(l0, false, a, f, b));
                    lemma_index_injective(a, pos);
                    lemma_index_injective(b, pos);
                    lemma_split(a);
                    lemma_split(b);
                }
            }
        }
        flood(&mut self.data, chunk, table, pos, emitted, false);
        proof {
            assert forall|a: RelPos|
                a.wf() && a != pos && !table.spec_passes(chunk.block_at(a)) implies #[trigger]
                self.data.light_at(a) == l0[a.spec_index()] as int by {
                lemma_index_injective(a, pos);
                assert(self.data@[a.spec_index()] == l1[a.spec_index()]);
            }
        }
    }

    /// Lights every cell with what its block emits and spreads it: the same
    /// as [`BlockLightChunk::update`] at each cell in turn.
    pub fn update_all(&mut self, chunk: &Chunk, table: &BlockTable)
        requires
            old(self).data.wf(),
            chunk.wf(),
        ensures
            final(self).data.wf(),
            smooth(old(self).data@, *chunk, *table, false) ==> smooth(
                final(self).data@,
                *chunk,
                *table,
                false,
            ),
            forall|a: RelPos|
                a.wf() ==> #[trigger] final(self).data.light_at(a) >= table.spec_emission(
                    chunk.block_at(a),
                ) && final(self).data.light_at(a) >= old(self).data.light_at(a),
            grounded(
                final(self).data@,
                block_seed(old(self).data@, *chunk, *table),
                *chunk,
                *table,
                false,
            ),
    {
        let ghost l0 = self.data@;
        let mut i: usize = 0;
        proof {
            self.data.lemma_levels();
        }
        while i < CHUNK_CELLS
            invariant
                i <= CHUNK_CELLS,
                self.data.wf(),
                chunk.wf(),
                l0.len() == CHUNK_CELLS,
                smooth(l0, *chunk, *table, false) ==> smooth(self.data@, *chunk, *table, false),
                forall|j: int| 0 <= j < CHUNK_CELLS ==> l0[j] <= #[trigger] self.data@[j],
                forall|b: RelPos| #[trigger] block_turns(self.data@, l0, *chunk, *table, i as int, b),
                forall|a: RelPos|
                    a.wf() && a.spec_index() < i ==> #[trigger] self.data.light_at(a)
                        >= table.spec_emission(chunk.block_at(a)),
            decreases CHUNK_CELLS - i,
        {
            let pos = RelPos { x: (i % 16) as u8, y: (i / 256) as u8, z: ((i / 16) % 16) as u8 };
            proof {
                crate::chunk::lemma_rel_of(i as int);
            }
            let ghost before = self.data;
            self.update(chunk, table, pos);
            proof {
                self.data.lemma_levels();
                before.lemma_levels();
                assert(pos == crate::chunk::spec_rel_of(i as int));
                let e = table.spec_emission(chunk.block_at(pos));
                let lit = spec_lit(before@, pos, e);
                assert forall|b: RelPos| #[trigger]
                    block_turns(self.data@, l0, *chunk, *table, i + 1, b) by {
                    if b.wf() && self.data@[b.spec_index()] > l0[b.spec_index()] && (b.spec_index()
                        >= i + 1 || self.data@[b.spec_index()] > table.spec_emission(
                        chunk.block_at(b),
                    )) {
                        lemma_split(b);
                        lemma_index_injective(b, pos);
                        if self.data@[b.spec_index()] > lit[b.spec_index()] {
                            assert(backed(self.data@, *chunk, *table, false, b));
                        } else {
                            assert(before@[b.spec_index()] <= self.data@[b.spec_index()]);
                            assert(self.data@[b.spec_index()] == before@[b.spec_index()]);
                            assert(block_turns(before@, l0, *chunk, *table, i as int, b));
                            lemma_backed_kept(before@, self.data@, *chunk, *table, false, b);
                        }
                    }
                }
                assert forall|a: RelPos| a.wf() && a.spec_index() < i + 1 implies #[trigger]
                    self.data.light_at(a) >= table.spec_emission(chunk.block_at(a)) by {
                    lemma_split(a);
                    lemma_index_injective(a, pos);
                    if a != pos {
                        assert(before.light_at(a) >= table.spec_emission(chunk.block_at(a)));
                        assert(before@[a.spec_index()] <= self.data@[a.spec_index()]);
                    }
                }
            }
            i += 1;
        }
        proof {
            assert forall|a: RelPos| a.wf() implies #[trigger] self.data.light_at(a)
                >= table.spec_emission(chunk.block_at(a)) && self.data.light_at(a)
                >= l0[a.spec_index()] by {
                lemma_split(a);
            }
            let seed = block_seed(l0, *chunk, *table);
            assert forall|b: RelPos|
                b.wf() && self.data@[b.spec_index()] > seed[b.spec_index()] implies #[trigger] backed(
                self.data@,
                *chunk,
                *table,
                false,
                b,
            ) by {
                lemma_split(b);
                assert(block_turns(self.data@, l0, *chunk, *table, CHUNK_CELLS as int, b));
            }
        }
    }
}

impl SkyLightChunk {
    /// A grid without light.
    pub fn new() -> (l: SkyLightChunk)
        ensures
            l.data.wf(),
            l.data@ == spec_dark(),
            forall|chunk: Chunk, table: BlockTable| smooth(l.data@, chunk, table, true),
    {
        SkyLightChunk { data: LightChunk::new() }
    }

    /// Spreads the level that `pos` stands at through the cells that let
    /// light pass: unchanged straight down, one level less per step in every
    /// other direction, as far as it brightens them. A grid that was at rest
    /// but for what flows out of `pos` is at rest afterwards; no cell gets
    /// darker, none is raised above the level of `pos`, and a cell that
    /// blocks light keeps its level. Every cell that is brighter than before
    /// is lit by a neighbour, so the grid is the darkest grid at rest that is
    /// as bright as the one before (see [`light_is_least`]).
    pub fn update(&mut self, chunk: &Chunk, table: &BlockTable, pos: RelPos)
        requires
            old(self).data.wf(),
            chunk.wf(),
            pos.wf(),
        ensures
            final(self).data.wf(),
            smooth_but(old(self).data@, *chunk, *table, true, pos, old(self).data.light_at(pos))
                ==> smooth(final(self).data@, *chunk, *table, true),
            raised_from(
                final(self).data@,
                old(self).data@,
                *chunk,
                *table,
                old(self).data.light_at(pos),
            ),
            final(self).data.light_at(pos) == old(self).data.light_at(pos),
            grounded(final(self).data@, old(self).data@, *chunk, *table, true),
    {
        let level = self.data.get_light(pos);
        proof {
            lemma_split(pos);
        }
        flood(&mut self.data, chunk, table, pos, level, true);
    }

    /// Lets full light into the top of every column whose top cell lets
    /// light pass, and spreads it: the same as raising each such cell to 15
    /// and calling [`SkyLightChunk::update`] there.
    pub fn update_all(&mut self, chunk: &Chunk, table: &BlockTable)
        requires
            old(self).data.wf(),
            chunk.wf(),
        ensures
            final(self).data.wf(),
            smooth(old(self).data@, *chunk, *table, true) ==> smooth(
                final(self).data@,
                *chunk,
                *table,
                true,
            ),
            forall|a: RelPos|
                a.wf() ==> #[trigger] final(self).data.light_at(a) >= old(self).data.light_at(a),
            forall|a: RelPos|
                a.wf() && a.y == 255 && table.spec_passes(chunk.block_at(a)) ==> #[trigger] final(self).data.light_at(a) == MAX_LIGHT,
            grounded(
                final(self).data@,
                sky_seed(old(self).data@, *chunk, *table),
                *chunk,
                *table,
                true,
            ),
    {
        let ghost l0 = self.data@;
        let mut i: usize = 0;
        proof {
            self.data.lemma_levels();
        }
        while i < 256
            invariant
                i <= 256,
                self.data.wf(),
                chunk.wf(),
                l0.len() == CHUNK_CELLS,
                smooth(l0, *chunk, *table, true) ==> smooth(self.data@, *chunk, *table, true),
                forall|j: int| 0 <= j < CHUNK_CELLS ==> l0[j] <= #[trigger] self.data@[j],
                forall|a: RelPos|
                    a.wf() && a.y == 255 && a.z * 16 + a.x < i && table.spec_passes(
                        chunk.block_at(a),
                    ) ==> #[trigger] self.data.light_at(a) == MAX_LIGHT,
                forall|b: RelPos| #[trigger] sky_turns(self.data@, l0, *chunk, *table, i as int, b),
            decreases 256 - i,
        {
            let pos = RelPos { x: (i % 16) as u8, y: 255, z: (i / 16) as u8 };
            let ghost before_data = self.data;
            let ghost before = self.data@;
            proof {
                lemma_split(pos);
                self.data.lemma_levels();
            }
            if table.passes(chunk.get_block(pos)) {
                self.data.set_light(pos, MAX_LIGHT);
                let ghost lit = self.data@;
                proof {
                    if smooth(before, *chunk, *table, true) {
                        assert forall|a: RelPos, f: Face, b: RelPos| #[trigger]
                            flows(*chunk, *table, a, f, b) implies pair_ok(lit, true, a, f, b) || (a
                            == pos && lit[pos.spec_index()] == MAX_LIGHT) by {
                            assert(pair_ok(before, true, a, f, b));
                            lemma_index_injective(a, pos);
                            lemma_index_injective(b, pos);
                            lemma_split(a);
                            lemma_split(b);
                        }
                    }
                }
                self.update(chunk, table, pos);
                proof {
                    assert forall|j: int| 0 <= j < CHUNK_CELLS implies before[j]
                        <= #[trigger] self.data@[j] by {
                        assert(lit[j] <= self.data@[j]);
                    }
                    assert forall|b: RelPos| #[trigger]
                        sky_turns(self.data@, l0, *chunk, *table, i + 1, b) by {
                        if b.wf() && self.data@[b.spec_index()] > l0[b.spec_index()] && !(b.y == 255
                            && b.z * 16 + b.x < i + 1 && table.spec_passes(chunk.block_at(b))) {
                            lemma_split(b);
                            lemma_index_injective(b, pos);
                            if self.data@[b.spec_index()] > lit[b.spec_index()] {
                                assert(backed(self.data@, *chunk, *table, true, b));
                            } else {
                                assert(lit[b.spec_index()] <= self.data@[b.spec_index()]);
                                assert(self.data@[b.spec_index()] == before[b.spec_index()]);
                                assert(sky_turns(before, l0, *chunk, *table, i as int, b));
                                lemma_backed_kept(before, self.data@, *chunk, *table, true, b);
                            }
                        }
                    }
                }
            } else {
                proof {
                    assert forall|b: RelPos| #[trigger]
                        sky_turns(self.data@, l0, *chunk, *table, i + 1, b) by {
                        assert(sky_turns(before, l0, *chunk, *table, i as int, b));
                    }
                }
            }
            proof {
                self.data.lemma_levels();
                assert forall|j: int| 0 <= j < CHUNK_CELLS implies l0[j] <= #[trigger] self.data@[j] by {
                    assert(l0[j] <= before[j]);
                    assert(before[j] <= self.data@[j]);
                }
                assert forall|a: RelPos|
                    a.wf() && a.y == 255 && a.z * 16 + a.x < i + 1 && table.spec_passes(
                        chunk.block_at(a),
                    ) implies #[trigger] self.data.light_at(a) == MAX_LIGHT by {
                    lemma_split(a);
                    lemma_index_injective(a, pos);
                    if a != pos {
                        assert(a.z * 16 + a.x != i);
                        assert(before_data.light_at(a) == MAX_LIGHT);
                        assert(before[a.spec_index()] <= self.data@[a.spec_index()]);
                    }
                }
            }
            i += 1;
        }
        proof {
            assert forall|a: RelPos| a.wf() implies #[trigger] self.data.light_at(a)
                >= l0[a.spec_index()] by {
                lemma_split(a);
            }
            let seed = sky_seed(l0, *chunk, *table);
            self.data.lemma_levels();
            assert forall|b: RelPos|
                b.wf() && self.data@[b.spec_index()] > seed[b.spec_index()] implies #[trigger] backed(
                self.data@,
                *chunk,
                *table,
                true,
                b,
            ) by {
                lemma_split(b);
                vstd::arithmetic::div_mod::lemma_fundamental_div_mod_converse(
                    b.spec_index(),
                    256,
                    b.y as int,
                    b.z * 16 + b.x,
                );
                assert(sky_turns(self.data@, l0, *chunk, *table, 256, b));
            }
        }
    }
}

// ---------------------------------------------------------------------------
// What a grid at rest looks like
// ---------------------------------------------------------------------------

/// The face opposite to `f`.
pub open spec fn opposite(f: Face) -> Face {
    match f {
        Face::Top => Face::Bottom,
        Face::Bottom => Face::Top,
        Face::North => Face::South,
        Face::South => Face::North,
        Face::East => Face::West,
        Face::West => Face::East,
    }
}

/// In a grid at rest, two neighbours that both let light pass differ by at
/// most one level.
pub proof fn light_bfs_property(
    l: Seq<u8>,
    chunk: Chunk,
    table: BlockTable,
    sky: bool,
    a: RelPos,
    f: Face,
    b: RelPos,
)
    requires
        smooth(l, chunk, table, sky),
        a.wf(),
        b.wf(),
        a.is_neighbor(f, b),
        table.spec_passes(chunk.block_at(a)),
        table.spec_passes(chunk.block_at(b)),
    ensures
        -1 <= l[a.spec_index()] - l[b.spec_index()] <= 1,
{
    assert(flows(chunk, table, a, f, b));
    assert(b.is_neighbor(opposite(f), a));
    assert(flows(chunk, table, b, opposite(f), a));
}

/// Whether light flows from the cell before `path[i]` into `path[i]`.
pub open spec fn is_step(chunk: Chunk, table: BlockTable, path: Seq<RelPos>, i: int) -> bool {
    exists|f: Face| #[trigger] flows(chunk, table, path[i - 1], f, path[i])
}

/// Whether `path` leads from its first cell to its last, each step to a
/// neighbour that lets light pass.
pub open spec fn is_path(chunk: Chunk, table: BlockTable, path: Seq<RelPos>) -> bool {
    &&& path.len() >= 1
    &&& path[0].wf()
    &&& forall|i: int| 1 <= i < path.len() ==> #[trigger] is_step(chunk, table, path, i)
}

/// In a grid at rest, light loses at most one level per step along a path:
/// a cell `d` steps from a source is at most `d` levels darker than it.
pub proof fn light_reaches(l: Seq<u8>, chunk: Chunk, table: BlockTable, sky: bool, path: Seq<RelPos>)
    requires
        smooth(l, chunk, table, sky),
        is_path(chunk, table, path),
    ensures
        l[path.last().spec_index()] >= l[path[0].spec_index()] - (path.len() - 1),
    decreases path.len(),
{
    if path.len() > 1 {
        let shorter = path.drop_last();
        assert(is_path(chunk, table, shorter)) by {
            assert forall|i: int| 1 <= i < shorter.len() implies #[trigger] is_step(
                chunk,
                table,
                shorter,
                i,
            ) by {
                assert(is_step(chunk, table, path, i));
                let f = choose|f: Face| #[trigger] flows(chunk, table, path[i - 1], f, path[i]);
                assert(flows(chunk, table, shorter[i - 1], f, shorter[i]));
            }
        }
        light_reaches(l, chunk, table, sky, shorter);
        let n = path.len() as int;
        assert(is_step(chunk, table, path, n - 1));
        let f = choose|f: Face| #[trigger] flows(chunk, table, path[n - 2], f, path[n - 1]);
        assert(pair_ok(l, sky, path[n - 2], f, path[n - 1]));
        assert(shorter.last() == path[n - 2]);
    }
}

/// A grid in which every cell is at its seed level at most, or lit by a
/// neighbour, is as dark as a grid at rest can be: every grid at rest that
/// is as bright as the seed is as bright as this grid, in every cell.
pub proof fn light_is_least(
    l: Seq<u8>,
    seed: Seq<u8>,
    m: Seq<u8>,
    chunk: Chunk,
    table: BlockTable,
    sky: bool,
    b: RelPos,
)
    requires
        l.len() == CHUNK_CELLS,
        seed.len() == CHUNK_CELLS,
        m.len() == CHUNK_CELLS,
        forall|i: int| 0 <= i < CHUNK_CELLS ==> #[trigger] l[i] <= MAX_LIGHT,
        grounded(l, seed, chunk, table, sky),
        smooth(m, chunk, table, sky),
        forall|i: int| 0 <= i < CHUNK_CELLS ==> seed[i] <= #[trigger] m[i],
        b.wf(),
    ensures
        l[b.spec_index()] <= m[b.spec_index()],
    decreases (MAX_LIGHT - l[b.spec_index()]) * 256 + (255 - b.y),
{
    lemma_split(b);
    if l[b.spec_index()] > seed[b.spec_index()] {
        assert(backed(l, chunk, table, sky, b));
        let (a, f) = choose|a: RelPos, f: Face| #[trigger]
            flows(chunk, table, a, f, b) && l[a.spec_index()] - drop_of(sky, f) >= l[b.spec_index()];
        lemma_split(a);
        light_is_least(l, seed, m, chunk, table, sky, a);
        assert(pair_ok(m, sky, a, f, b));
    }
}

/// What the light engine computes is determined by the seed: two grids at
/// rest that are both as bright as the seed, and in which every cell above
/// its seed level is lit by a neighbour, are the same grid.
pub proof fn light_is_exact(
    l: Seq<u8>,
    g: Seq<u8>,
    seed: Seq<u8>,
    chunk: Chunk,
    table: BlockTable,
    sky: bool,
)
    requires
        l.len() == CHUNK_CELLS,
        g.len() == CHUNK_CELLS,
        seed.len() == CHUNK_CELLS,
        forall|i: int| 0 <= i < CHUNK_CELLS ==> #[trigger] l[i] <= MAX_LIGHT && seed[i] <= l[i],
        forall|i: int| 0 <= i < CHUNK_CELLS ==> #[trigger] g[i] <= MAX_LIGHT && seed[i] <= g[i],
        smooth(l, chunk, table, sky),
        smooth(g, chunk, table, sky),
        grounded(l, seed, chunk, table, sky),
        grounded(g, seed, chunk, table, sky),
    ensures
        l == g,
{
    assert forall|i: int| 0 <= i < CHUNK_CELLS implies l[i] == g[i] by {
        let b = crate::chunk::spec_rel_of(i);
        crate::chunk::lemma_rel_of(i);
        light_is_least(l, seed, g, chunk, table, sky, b);
        light_is_least(g, seed, l, chunk, table, sky, b);
    }
    assert(l =~= g);
}

/// Where no cell of a grid is brighter than the level `e` that the block at
/// `pos` emits, the grid after [`BlockLightChunk::update`] at `pos` has no
/// cell brighter than `e` either, and `pos` stands at exactly `e`: the
/// brightest block of a region keeps the level it emits.
pub proof fn brightest_keeps_emission(before: Seq<u8>, after: Seq<u8>, pos: RelPos, e: int)
    requires
        pos.wf(),
        before.len() == CHUNK_CELLS,
        after.len() == CHUNK_CELLS,
        forall|i: int| 0 <= i < CHUNK_CELLS ==> before[i] <= e,
        after[pos.spec_index()] == if e > before[pos.spec_index()] {
            e
        } else {
            before[pos.spec_index()] as int
        },
        forall|i: int|
            0 <= i < CHUNK_CELLS ==> before[i] <= #[trigger] after[i] && (after[i] == before[i]
                || after[i] <= e),
    ensures
        after[pos.spec_index()] == e,
        forall|i: int| 0 <= i < CHUNK_CELLS ==> #[trigger] after[i] <= e,
{
    lemma_split(pos);
    assert forall|i: int| 0 <= i < CHUNK_CELLS implies #[trigger] after[i] <= e by {
        assert(before[i] <= e);
    }
}

} // verus!
