//! A chunk column: sixteen sections stacked on the vertical axis. A section
//! that holds nothing but air is not stored.

use vstd::prelude::*;
use crate::math::RelPos;
use crate::section::{lemma_count_zero, Section, AIR, SECTION_CELLS};

verus! {

/// Sections in a chunk.
pub const CHUNK_SECTIONS: usize = 16;

/// Cells in a chunk.
pub const CHUNK_CELLS: usize = 65536;

/// Whether `p` lies in the box from `min` to `max`, both inclusive.
pub open spec fn in_box(min: RelPos, max: RelPos, p: RelPos) -> bool {
    &&& min.x <= p.x <= max.x
    &&& min.y <= p.y <= max.y
    &&& min.z <= p.z <= max.z
}

/// Whether `p` comes before the cell `(x, z, y)` where cells are visited
/// column by column: `x` outermost, then `z`, then `y`.
pub open spec fn visited_before(p: RelPos, x: int, z: int, y: int) -> bool {
    p.x < x || (p.x == x && (p.z < z || (p.z == z && p.y < y)))
}

/// A column of 16 x 256 x 16 blocks.
#[derive(Debug)]
pub struct Chunk {
    sections: Vec<Option<Section>>,
}

impl Chunk {
    /// The section at height `s`, if it is stored.
    pub closed spec fn spec_section(self, s: int) -> Option<Section> {
        self.sections@[s]
    }

    /// Whether the section at height `s` is stored.
    pub open spec fn present(self, s: int) -> bool {
        self.spec_section(s).is_some()
    }

    /// The block at each cell, indexed by [`RelPos::spec_index`].
    pub open spec fn view(self) -> Seq<u32> {
        Seq::new(
            CHUNK_CELLS as nat,
            |i: int|
                match self.spec_section(i / 4096) {
                    Some(sec) => sec@[i % 4096],
                    None => AIR,
                },
        )
    }

    /// The block at `p`.
    pub open spec fn block_at(self, p: RelPos) -> u32 {
        self@[p.spec_index()]
    }

    pub closed spec fn wf(self) -> bool {
        &&& self.sections@.len() == CHUNK_SECTIONS
        &&& forall|s: int|
            0 <= s < CHUNK_SECTIONS ==> match #[trigger] self.sections@[s] {
                Some(sec) => sec.wf() && sec.spec_non_air() > 0,
                None => true,
            }
    }

    /// A section is stored exactly where one of its cells is not air.
    pub proof fn lemma_present(self, s: int)
        requires
            self.wf(),
            0 <= s < CHUNK_SECTIONS,
        ensures
            self.present(s) <==> exists|c: int|
                0 <= c < SECTION_CELLS && #[trigger] self@[s * 4096 + c] != AIR,
            self.present(s) ==> self.spec_section(s).unwrap().wf(),
    {
        match self.sections@[s] {
            Some(sec) => {
                sec.lemma_wf();
                lemma_count_zero(sec@);
                let c = choose|c: int| 0 <= c < sec@.len() && sec@[c] != 0;
                lemma_cell_index(s, c);
                assert(self@[s * 4096 + c] != AIR);
            },
            None => {
                if exists|c: int| 0 <= c < SECTION_CELLS && #[trigger] self@[s * 4096 + c] != AIR {
                    let c = choose|c: int|
                        0 <= c < SECTION_CELLS && #[trigger] self@[s * 4096 + c] != AIR;
                    lemma_cell_index(s, c);
                }
            },
        }
    }

    /// A chunk of air.
    pub fn new() -> (c: Chunk)
        ensures
            c.wf(),
            c@ == Seq::new(CHUNK_CELLS as nat, |i: int| AIR),
            forall|s: int| 0 <= s < CHUNK_SECTIONS ==> !c.present(s),
    {
        let mut sections: Vec<Option<Section>> = Vec::new();
        let mut s: usize = 0;
        while s < CHUNK_SECTIONS
            invariant
                s <= CHUNK_SECTIONS,
                sections@.len() == s,
                forall|k: int| 0 <= k < s ==> sections@[k].is_none(),
            decreases CHUNK_SECTIONS - s,
        {
            sections.push(None);
            s += 1;
        }
        let c = Chunk { sections };
        proof {
            assert forall|i: int| 0 <= i < CHUNK_CELLS implies c@[i] == AIR by {
                assert(0 <= i / 4096 < 16);
            }
            assert(c@ =~= Seq::new(CHUNK_CELLS as nat, |i: int| AIR));
        }
        c
    }

    /// Whether the section at height `s` is stored.
    pub fn has_section(&self, s: usize) -> (r: bool)
        requires
            self.wf(),
            s < CHUNK_SECTIONS,
        ensures
            r == self.present(s as int),
    {
        self.sections[s].is_some()
    }

    /// The section at height `s`, if it is stored.
    pub fn section(&self, s: usize) -> (r: Option<&Section>)
        requires
            self.wf(),
            s < CHUNK_SECTIONS,
        ensures
            r.is_some() == self.present(s as int),
            r.is_some() ==> *r.unwrap() == self.spec_section(s as int).unwrap() && r.unwrap().wf(),
    {
        self.sections[s].as_ref()
    }

    /// The block at `p`.
    pub fn get_block(&self, p: RelPos) -> (id: u32)
        requires
            self.wf(),
            p.wf(),
        ensures
            id == self.block_at(p),
    {
        let s: usize = (p.y / 16) as usize;
        let cell: usize = (p.y % 16) as usize * 256 + p.z as usize * 16 + p.x as usize;
        proof {
            lemma_split(p);
        }
        match &self.sections[s] {
            Some(sec) => sec.get_block(cell),
            None => AIR,
        }
    }

    /// Sets the block at `p` to `id` and returns the block that was there.
    /// No other cell changes. A section left without any block but air is
    /// dropped.
    pub fn set_block(&mut self, p: RelPos, id: u32) -> (prev: u32)
        requires
            old(self).wf(),
            p.wf(),
        ensures
            final(self).wf(),
            prev == old(self).block_at(p),
            final(self)@ == old(self)@.update(p.spec_index(), id),
            written(*old(self), Write::Cell(p, id), *final(self)),
    {
        let s: usize = (p.y / 16) as usize;
        let cell: usize = (p.y % 16) as usize * 256 + p.z as usize * 16 + p.x as usize;
        proof {
            lemma_split(p);
        }
        let ghost before = *self;
        let ghost old_view: Seq<u32> = match before.sections@[s as int] {
            Some(sec) => sec@,
            None => Seq::new(SECTION_CELLS as nat, |i: int| AIR),
        };
        let ghost new_view: Seq<u32> = old_view.update(cell as int, id);
        let entry = self.sections.remove(s);
        let mut prev: u32 = AIR;
        let mut next: Option<Section> = None;
        match entry {
            Some(sec) => {
                let mut sec = sec;
                prev = sec.set_block(cell, id);
                proof {
                    lemma_count_zero(sec@);
                    sec.lemma_wf();
                }
                if sec.non_air() != 0 {
                    next = Some(sec);
                }
            },
            None => {
                if id != AIR {
                    let mut sec = Section::new();
                    let _ = sec.set_block(cell, id);
                    proof {
                        lemma_count_zero(sec@);
                        sec.lemma_wf();
                        assert(sec@[cell as int] != 0);
                    }
                    next = Some(sec);
                } else {
                    assert(new_view =~= old_view);
                }
            },
        }
        assert(match next {
            Some(n) => n.wf() && n.spec_non_air() > 0 && n@ == new_view,
            None => forall|c: int| 0 <= c < SECTION_CELLS ==> new_view[c] == AIR,
        });
        self.sections.insert(s, next);
        proof {
            assert(self.sections@ =~= before.sections@.update(s as int, next));
            assert forall|i: int| 0 <= i < CHUNK_CELLS implies self@[i] == before@.update(
                p.spec_index(),
                id,
            )[i] by {
                assert(0 <= i / 4096 < 16);
                vstd::arithmetic::div_mod::lemma_fundamental_div_mod(i, 4096);
                vstd::arithmetic::div_mod::lemma_fundamental_div_mod(p.spec_index(), 4096);
                if i / 4096 == s {
                    assert(0 <= i % 4096 < 4096);
                    assert(before@[i] == old_view[i % 4096]);
                    assert(self@[i] == new_view[i % 4096]);
                    assert(i == p.spec_index() <==> i % 4096 == cell);
                } else {
                    assert(self.sections@[i / 4096] == before.sections@[i / 4096]);
                    assert(i != p.spec_index());
                }
            }
            assert(self@ =~= before@.update(p.spec_index(), id));
            assert forall|q: RelPos| q.wf() implies #[trigger] self.block_at(q) == if q == p {
                id
            } else {
                before.block_at(q)
            } by {
                lemma_index_injective(q, p);
                lemma_split(q);
            }
        }
        prev
    }

    /// Sets every cell of the box from `min` to `max`, both inclusive, to
    /// `id`, and leaves every other cell as it was. The box is empty where
    /// `min` exceeds `max` on an axis.
    pub fn fill(&mut self, min: RelPos, max: RelPos, id: u32)
        requires
            old(self).wf(),
            min.wf(),
            max.wf(),
        ensures
            final(self).wf(),
            forall|p: RelPos|
                p.wf() ==> #[trigger] final(self).block_at(p) == if in_box(min, max, p) {
                    id
                } else {
                    old(self).block_at(p)
                },
            written(*old(self), Write::Fill(min, max, id), *final(self)),
    {
        let ghost before = *self;
        let mut x: usize = min.x as usize;
        while x <= max.x as usize
            invariant
                min.x <= x <= 16,
                max.wf(),
                min.wf(),
                self.wf(),
                forall|p: RelPos|
                    p.wf() ==> #[trigger] self.block_at(p) == if in_box(min, max, p) && p.x < x {
                        id
                    } else {
                        before.block_at(p)
                    },
            decreases 16 - x,
        {
            let mut z: usize = min.z as usize;
            while z <= max.z as usize
                invariant
                    min.x <= x <= max.x,
                    min.z <= z <= 16,
                    max.wf(),
                    min.wf(),
                    self.wf(),
                    forall|p: RelPos|
                        p.wf() ==> #[trigger] self.block_at(p) == if in_box(min, max, p) && (p.x < x
                            || (p.x == x && p.z < z)) {
                            id
                        } else {
                            before.block_at(p)
                        },
                decreases 16 - z,
            {
                let mut y: usize = min.y as usize;
                while y <= max.y as usize
                    invariant
                        min.x <= x <= max.x,
                        min.z <= z <= max.z,
                        min.y <= y <= 256,
                        max.wf(),
                        min.wf(),
                        self.wf(),
                        forall|p: RelPos|
                            p.wf() ==> #[trigger] self.block_at(p) == if in_box(min, max, p)
                                && visited_before(p, x as int, z as int, y as int) {
                                id
                            } else {
                                before.block_at(p)
                            },
                    decreases 256 - y,
                {
                    let at = RelPos { x: x as u8, y: y as u8, z: z as u8 };
                    let ghost mid = *self;
                    let _ = self.set_block(at, id);
                    proof {
                        assert forall|p: RelPos| p.wf() implies #[trigger] self.block_at(p)
                            == if in_box(min, max, p) && visited_before(
                            p,
                            x as int,
                            z as int,
                            y + 1,
                        ) {
                            id
                        } else {
                            before.block_at(p)
                        } by {
                            lemma_index_injective(p, at);
                            assert(mid.block_at(p) == if in_box(min, max, p) && visited_before(
                                p,
                                x as int,
                                z as int,
                                y as int,
                            ) {
                                id
                            } else {
                                before.block_at(p)
                            });
                        }
                    }
                    y += 1;
                }
                z += 1;
            }
            x += 1;
        }
    }

    /// The presence bitmap: bit `s` is set exactly where the section at
    /// height `s` is stored.
    pub fn bit_map(&self) -> (m: u16)
        requires
            self.wf(),
        ensures
            forall|s: int| 0 <= s < CHUNK_SECTIONS ==> (spec_bit(m, s) <==> self.present(s)),
    {
        let mut m: u16 = 0;
        let mut s: usize = 0;
        proof {
            assert forall|k: int| 0 <= k < 16 implies !spec_bit(0u16, k) by {
                let kk = k as u16;
                assert((0u16 >> kk) & 1 == 0) by (bit_vector);
            }
        }
        while s < CHUNK_SECTIONS
            invariant
                s <= CHUNK_SECTIONS,
                self.wf(),
                forall|k: int| 0 <= k < s ==> (spec_bit(m, k) <==> self.present(k)),
                forall|k: int| s <= k < CHUNK_SECTIONS ==> !spec_bit(m, k),
            decreases CHUNK_SECTIONS - s,
        {
            if self.sections[s].is_some() {
                let ghost prev = m;
                let sh: u16 = s as u16;
                m = m | (1u16 << sh);
                proof {
                    assert forall|k: int| 0 <= k < 16 implies (spec_bit(m, k) <==> (k == s
                        || spec_bit(prev, k))) by {
                        let kk = k as u16;
                        assert(sh < 16 && kk < 16 ==> ((((prev | (1u16 << sh)) >> kk) & 1 == 1)
                            <==> (kk == sh || (prev >> kk) & 1 == 1))) by (bit_vector);
                    }
                }
            }
            s += 1;
        }
        m
    }
}

/// The section and the cell of the index `s * 4096 + c`.
pub proof fn lemma_cell_index(s: int, c: int)
    requires
        0 <= s < CHUNK_SECTIONS,
        0 <= c < SECTION_CELLS,
    ensures
        (s * 4096 + c) / 4096 == s,
        (s * 4096 + c) % 4096 == c,
        0 <= s * 4096 + c < CHUNK_CELLS,
{
    vstd::arithmetic::div_mod::lemma_fundamental_div_mod_converse(s * 4096 + c, 4096, s, c);
}

/// Whether bit `s` of `m` is set.
pub open spec fn spec_bit(m: u16, s: int) -> bool {
    (m >> (s as u16)) & 1 == 1
}

/// The section and the cell of a position.
pub proof fn lemma_split(p: RelPos)
    requires
        p.wf(),
    ensures
        0 <= p.spec_index() < CHUNK_CELLS,
        p.spec_index() / 4096 == p.y as int / 16,
        p.spec_index() % 4096 == (p.y as int % 16) * 256 + p.z * 16 + p.x,
        0 <= p.y as int / 16 < 16,
        0 <= (p.y as int % 16) * 256 + p.z * 16 + p.x < 4096,
{
    let y = p.y as int;
    let cell = (y % 16) * 256 + p.z * 16 + p.x;
    assert(p.spec_index() == 4096 * (y / 16) + cell);
    vstd::arithmetic::div_mod::lemma_fundamental_div_mod_converse(
        p.spec_index(),
        4096,
        y / 16,
        cell,
    );
}

/// Different cells have different indices.
pub proof fn lemma_index_injective(p: RelPos, q: RelPos)
    requires
        p.wf(),
        q.wf(),
    ensures
        p.spec_index() == q.spec_index() <==> p == q,
{
}

/// The position with a given index.
pub open spec fn spec_rel_of(i: int) -> RelPos {
    RelPos { x: (i % 16) as u8, y: (i / 256) as u8, z: ((i / 16) % 16) as u8 }
}

/// Every index below 65536 is that of one cell.
pub proof fn lemma_rel_of(i: int)
    requires
        0 <= i < CHUNK_CELLS,
    ensures
        spec_rel_of(i).wf(),
        spec_rel_of(i).spec_index() == i,
{
}

// ---------------------------------------------------------------------------
// Sequences of writes
// ---------------------------------------------------------------------------

/// A write to a chunk.
pub enum Write {
    /// One cell is set to a block.
    Cell(RelPos, u32),
    /// Every cell of a box, both corners inclusive, is set to a block.
    Fill(RelPos, RelPos, u32),
}

impl Write {
    /// Whether the write names cells of the chunk.
    pub open spec fn wf(self) -> bool {
        match self {
            Write::Cell(p, _) => p.wf(),
            Write::Fill(min, max, _) => min.wf() && max.wf(),
        }
    }

    /// Whether the write sets the cell `p`.
    pub open spec fn touches(self, p: RelPos) -> bool {
        match self {
            Write::Cell(q, _) => q == p,
            Write::Fill(min, max, _) => in_box(min, max, p),
        }
    }

    /// The block that the write sets cells to.
    pub open spec fn block(self) -> u32 {
        match self {
            Write::Cell(_, id) => id,
            Write::Fill(_, _, id) => id,
        }
    }
}

/// Whether `after` is what `before` becomes by the write: the cells that the
/// write sets hold its block, all others what they held. This is what
/// [`Chunk::set_block`] and [`Chunk::fill`] ensure.
pub open spec fn written(before: Chunk, w: Write, after: Chunk) -> bool {
    forall|p: RelPos|
        p.wf() ==> #[trigger] after.block_at(p) == if w.touches(p) {
            w.block()
        } else {
            before.block_at(p)
        }
}

/// Whether the chunks `states` are what the first of them becomes by the
/// writes, one after the other.
pub open spec fn written_all(states: Seq<Chunk>, writes: Seq<Write>) -> bool {
    &&& states.len() == writes.len() + 1
    &&& forall|i: int| 0 <= i < writes.len() ==> #[trigger] written_at(states, writes, i)
}

/// Whether write `i` leads from state `i` to the next.
pub open spec fn written_at(states: Seq<Chunk>, writes: Seq<Write>, i: int) -> bool {
    written(states[i], writes[i], states[i + 1])
}

/// The last of the first `n` writes that sets the cell `p`, or -1.
pub open spec fn last_write(writes: Seq<Write>, p: RelPos, n: int) -> int
    decreases n,
{
    if n <= 0 {
        -1
    } else if writes[n - 1].touches(p) {
        n - 1
    } else {
        last_write(writes, p, n - 1)
    }
}

/// After any sequence of writes every cell holds the block of the last write
/// that set it, and a cell that no write set holds what it held before.
pub proof fn reads_last_written(states: Seq<Chunk>, writes: Seq<Write>, p: RelPos, n: int)
    requires
        written_all(states, writes),
        0 <= n <= writes.len(),
        p.wf(),
    ensures
        -1 <= last_write(writes, p, n) < n,
        states[n].block_at(p) == if last_write(writes, p, n) >= 0 {
            writes[last_write(writes, p, n)].block()
        } else {
            states[0].block_at(p)
        },
    decreases n,
{
    if n > 0 {
        reads_last_written(states, writes, p, n - 1);
        assert(written_at(states, writes, n - 1));
    }
}

/// A section of a chunk is stored exactly where it is not all air (see
/// [`Chunk::lemma_present`]), so a section that is not stored reads as air.
pub proof fn absent_is_air(c: Chunk, p: RelPos)
    requires
        c.wf(),
        p.wf(),
        !c.present(p.y as int / 16),
    ensures
        c.block_at(p) == AIR,
{
    lemma_split(p);
}

} // verus!
