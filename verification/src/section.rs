//! One 16 x 16 x 16 cube of blocks, stored as indices into a palette.

use vstd::prelude::*;
use crate::packed::{lemma_mask_values, spec_mask, PackedArray};

verus! {

/// Cells in a section.
pub const SECTION_CELLS: usize = 4096;

/// The narrowest width of a palette index.
pub const MIN_BITS: u8 = 4;

/// The widest width of a palette index; a section that needs more stores
/// block ids directly.
pub const MAX_PALETTE_BITS: u8 = 8;

/// The width of a cell that stores a block id directly.
pub const DIRECT_BITS: u8 = 32;

/// The id of air.
pub const AIR: u32 = 0;

/// How many entries of `s` are not air.
pub open spec fn count_non_air(s: Seq<u32>) -> nat
    decreases s.len(),
{
    if s.len() == 0 {
        0
    } else {
        count_non_air(s.drop_last()) + if s.last() != 0 {
            1nat
        } else {
            0nat
        }
    }
}

/// The count is at most the length, and it is zero exactly where every entry
/// is air.
pub proof fn lemma_count_zero(s: Seq<u32>)
    ensures
        count_non_air(s) <= s.len(),
        count_non_air(s) == 0 <==> (forall|i: int| 0 <= i < s.len() ==> s[i] == 0),
    decreases s.len(),
{
    if s.len() > 0 {
        lemma_count_zero(s.drop_last());
        let t = s.drop_last();
        if count_non_air(s) == 0 {
            assert forall|i: int| 0 <= i < s.len() implies s[i] == 0 by {
                if i < s.len() - 1 {
                    assert(t[i] == s[i]);
                }
            }
        } else {
            if forall|i: int| 0 <= i < s.len() ==> s[i] == 0 {
                assert forall|i: int| 0 <= i < t.len() implies t[i] == 0 by {
                    assert(t[i] == s[i]);
                }
                assert(s.last() == s[s.len() - 1]);
            }
        }
    }
}

/// What writing one entry does to the count.
pub proof fn lemma_count_update(s: Seq<u32>, i: int, v: u32)
    requires
        0 <= i < s.len(),
    ensures
        count_non_air(s.update(i, v)) + (if s[i] != 0 {
            1nat
        } else {
            0nat
        }) == count_non_air(s) + (if v != 0 {
            1nat
        } else {
            0nat
        }),
    decreases s.len(),
{
    let u = s.update(i, v);
    if i == s.len() - 1 {
        assert(u.drop_last() =~= s.drop_last());
    } else {
        lemma_count_update(s.drop_last(), i, v);
        assert(u.drop_last() =~= s.drop_last().update(i, v));
    }
}

/// The width of a palette index for a palette of `n` entries: the smallest
/// of 4 to 8 bits that numbers them all, or the direct width above 256.
pub open spec fn spec_bits_for(n: int) -> int {
    if n <= 16 {
        4
    } else if n <= 32 {
        5
    } else if n <= 64 {
        6
    } else if n <= 128 {
        7
    } else if n <= 256 {
        8
    } else {
        DIRECT_BITS as int
    }
}

/// Exec form of [`spec_bits_for`].
pub fn bits_for(n: usize) -> (b: u8)
    ensures
        b == spec_bits_for(n as int),
        MIN_BITS <= b <= DIRECT_BITS,
        b <= MAX_PALETTE_BITS ==> n <= spec_mask(b as int) + 1,
{
    proof {
        lemma_mask_values();
    }
    if n <= 16 {
        4
    } else if n <= 32 {
        5
    } else if n <= 64 {
        6
    } else if n <= 128 {
        7
    } else if n <= 256 {
        8
    } else {
        DIRECT_BITS
    }
}

/// The palette `p` after the block `id` has been written. A section that
/// stores block ids directly has no palette and gets none. Otherwise a
/// block that the palette holds leaves it as it is, a new block is added
/// at its end, and with 256 entries the palette is full: it is given up,
/// and the section stores block ids directly from then on.
pub open spec fn spec_palette_with(p: Seq<u32>, id: u32) -> Seq<u32> {
    if p.len() == 0 || p.contains(id) {
        p
    } else if p.len() >= 256 {
        Seq::empty()
    } else {
        p.push(id)
    }
}

/// Whether one of the first `j` cells holds `m`.
pub open spec fn seen(cells: Seq<u64>, j: int, m: int) -> bool {
    exists|c: int| 0 <= c < j && #[trigger] cells[c] == m
}

/// What stays of the first `k` entries of the palette `p` when it is
/// compacted: air, and every entry that one of the cells refers to, in the
/// order in which they stood.
pub open spec fn spec_kept(p: Seq<u32>, cells: Seq<u64>, k: int) -> Seq<u32>
    decreases k,
{
    if k <= 0 {
        Seq::empty()
    } else {
        spec_kept(p, cells, k - 1) + if k == 1 || seen(cells, SECTION_CELLS as int, k - 1) {
            seq![p[k - 1]]
        } else {
            Seq::empty()
        }
    }
}

/// Whether one of the first `k` palette entries is in use and goes to `t`.
pub open spec fn hit(remap: Seq<u64>, used: Seq<bool>, k: int, t: int) -> bool {
    exists|m: int| 0 <= m < k && used[m] && #[trigger] remap[m] == t
}

/// A cube of 4096 blocks.
#[derive(Debug)]
pub struct Section {
    /// The block ids in use, air first. Empty where cells hold ids directly.
    palette: Vec<u32>,
    /// One palette index per cell, or one block id per cell.
    cells: PackedArray,
    /// How many cells are not air.
    non_air: u16,
}

impl Section {
    /// The palette, in order. Empty for a section that stores ids directly.
    pub closed spec fn spec_palette(self) -> Seq<u32> {
        self.palette@
    }

    /// What each cell stores: a palette index or, in a direct section, a
    /// block id.
    pub closed spec fn spec_cells(self) -> Seq<u64> {
        self.cells@
    }

    /// Bits per cell.
    pub closed spec fn spec_bits(self) -> int {
        self.cells.spec_bits()
    }

    /// The words that hold the cells.
    pub closed spec fn spec_words(self) -> Seq<u64> {
        self.cells.spec_words()
    }

    /// Whether cells hold block ids directly, without a palette.
    pub open spec fn is_direct(self) -> bool {
        self.spec_bits() == DIRECT_BITS
    }

    pub closed spec fn spec_non_air(self) -> int {
        self.non_air as int
    }

    /// The block id of each cell: what the palette says of the cell's
    /// index, or the cell itself in a direct section.
    pub open spec fn view(self) -> Seq<u32> {
        Seq::new(
            SECTION_CELLS as nat,
            |i: int|
                if self.is_direct() {
                    self.spec_cells()[i] as u32
                } else {
                    self.spec_palette()[self.spec_cells()[i] as int]
                },
        )
    }

    pub closed spec fn wf(self) -> bool {
        &&& self.cells.wf()
        &&& self.cells.spec_len() == SECTION_CELLS
        &&& self.non_air == count_non_air(self@)
        &&& if self.is_direct() {
            self.palette@.len() == 0
        } else {
            &&& 1 <= self.palette@.len() <= 256
            &&& self.palette@[0] == AIR
            &&& self.spec_bits() == spec_bits_for(self.palette@.len() as int)
            &&& forall|i: int|
                0 <= i < SECTION_CELLS ==> (#[trigger] self.cells@[i]) < self.palette@.len()
        }
    }

    /// What well-formedness says in terms of the public model.
    pub proof fn lemma_wf(self)
        requires
            self.wf(),
        ensures
            self@.len() == SECTION_CELLS,
            self.spec_cells().len() == SECTION_CELLS,
            self.spec_non_air() == count_non_air(self@),
            0 <= self.spec_non_air() <= SECTION_CELLS,
            !self.is_direct() ==> {
                &&& 1 <= self.spec_palette().len() <= 256
                &&& self.spec_palette()[0] == AIR
                &&& self.spec_bits() == spec_bits_for(self.spec_palette().len() as int)
                &&& forall|i: int|
                    0 <= i < SECTION_CELLS ==> (#[trigger] self.spec_cells()[i])
                        < self.spec_palette().len()
            },
            self.is_direct() ==> self.spec_palette().len() == 0,
    {
        lemma_count_zero(self@);
        self.cells.lemma_entries_fit();
    }

    /// Whether some cell holds the palette index `m`.
    pub open spec fn referenced(self, m: int) -> bool {
        exists|j: int| 0 <= j < SECTION_CELLS && #[trigger] self.spec_cells()[j] == m
    }

    /// Every palette entry but air is the block of some cell.
    pub open spec fn palette_referenced(self) -> bool {
        forall|m: int| 1 <= m < self.spec_palette().len() ==> #[trigger] self.referenced(m)
    }

    /// A section of air.
    pub fn new() -> (s: Section)
        ensures
            s.wf(),
            s@ == Seq::new(SECTION_CELLS as nat, |i: int| AIR),
            s.spec_palette() == seq![AIR],
            s.spec_bits() == MIN_BITS,
            s.spec_non_air() == 0,
    {
        let mut palette: Vec<u32> = Vec::new();
        palette.push(AIR);
        let cells = PackedArray::new(MIN_BITS, SECTION_CELLS);
        let s = Section { palette, cells, non_air: 0 };
        proof {
            assert(s@ =~= Seq::new(SECTION_CELLS as nat, |i: int| AIR));
            lemma_count_zero(s@);
            assert(s.palette@ =~= seq![AIR]);
        }
        s
    }

    /// How many cells are not air.
    pub fn non_air(&self) -> (n: u16)
        requires
            self.wf(),
        ensures
            n == count_non_air(self@),
            n == self.spec_non_air(),
    {
        self.non_air
    }

    /// Bits per cell.
    pub fn bits(&self) -> (b: u8)
        ensures
            b == self.spec_bits(),
    {
        self.cells.bits()
    }

    /// The words that hold the cells, `64 / bits` cells to a word, the
    /// first cell of a word in its lowest bits.
    pub fn words(&self) -> (w: &Vec<u64>)
        ensures
            w@ == self.spec_words(),
    {
        self.cells.words()
    }

    /// The palette.
    pub fn palette(&self) -> (p: &Vec<u32>)
        ensures
            p@ == self.spec_palette(),
    {
        &self.palette
    }

    /// What cell `i` stores: its palette index, or its block id in a direct
    /// section.
    pub fn cell(&self, i: usize) -> (v: u64)
        requires
            self.wf(),
            i < SECTION_CELLS,
        ensures
            v == self.spec_cells()[i as int],
    {
        self.cells.get(i)
    }

    /// The block of cell `i`.
    pub fn get_block(&self, i: usize) -> (id: u32)
        requires
            self.wf(),
            i < SECTION_CELLS,
        ensures
            id == self@[i as int],
    {
        let v = self.cells.get(i);
        if self.cells.bits() == DIRECT_BITS {
            proof {
                lemma_mask_values();
            }
            v as u32
        } else {
            self.palette[v as usize]
        }
    }

    /// The index of `id` in the palette, if it is there.
    fn find(&self, id: u32) -> (r: Option<usize>)
        ensures
            r.is_some() ==> r.unwrap() < self.palette@.len() && self.palette@[r.unwrap() as int]
                == id,
            r.is_none() ==> forall|k: int| 0 <= k < self.palette@.len() ==> self.palette@[k] != id,
    {
        let mut k: usize = 0;
        while k < self.palette.len()
            invariant
                k <= self.palette@.len(),
                forall|j: int| 0 <= j < k ==> self.palette@[j] != id,
            decreases self.palette@.len() - k,
        {
            if self.palette[k] == id {
                return Some(k);
            }
            k += 1;
        }
        None
    }

    /// Turns the section into one that stores block ids directly.
    fn make_direct(&mut self)
        requires
            old(self).wf(),
            !old(self).is_direct(),
        ensures
            final(self).wf(),
            final(self).is_direct(),
            final(self)@ == old(self)@,
    {
        let mut direct = PackedArray::new(DIRECT_BITS, SECTION_CELLS);
        let mut j: usize = 0;
        proof {
            lemma_mask_values();
        }
        while j < SECTION_CELLS
            invariant
                j <= SECTION_CELLS,
                self.wf(),
                !self.is_direct(),
                direct.wf(),
                direct.spec_bits() == DIRECT_BITS,
                direct.spec_len() == SECTION_CELLS,
                spec_mask(32) == 0xffff_ffff,
                forall|k: int| 0 <= k < j ==> direct@[k] == self@[k] as u64,
            decreases SECTION_CELLS - j,
        {
            let id = self.get_block(j);
            direct.set(j, id as u64);
            j += 1;
        }
        let ghost before = *self;
        self.cells = direct;
        self.palette = Vec::new();
        proof {
            assert(self@ =~= before@);
        }
    }

    /// Sets cell `i` to the block `id` and returns the block it held. No
    /// other cell changes its block. A block that the palette does not hold
    /// yet is added at its end; when the palette is full, the section turns
    /// to storing block ids directly (see [`spec_palette_with`]).
    pub fn set_block(&mut self, i: usize, id: u32) -> (prev: u32)
        requires
            old(self).wf(),
            i < SECTION_CELLS,
        ensures
            final(self).wf(),
            prev == old(self)@[i as int],
            final(self)@ == old(self)@.update(i as int, id),
            final(self).spec_palette() == spec_palette_with(old(self).spec_palette(), id),
    {
        let prev = self.get_block(i);
        let ghost before = *self;
        proof {
            lemma_mask_values();
            lemma_count_update(before@, i as int, id);
            lemma_count_zero(before@);
            lemma_count_zero(before@.update(i as int, id));
        }
        if self.cells.bits() != DIRECT_BITS {
            match self.find(id) {
                Some(k) => {
                    assert(self.palette@[k as int] == id);
                    self.cells.set(i, k as u64);
                },
                None => {
                    if self.palette.len() >= 256 {
                        self.make_direct();
                        self.cells.set(i, id as u64);
                    } else {
                        let k = self.palette.len();
                        self.palette.push(id);
                        let bits = bits_for(self.palette.len());
                        if bits != self.cells.bits() {
                            self.cells = self.cells.widened(bits);
                        }
                        self.cells.set(i, k as u64);
                    }
                },
            }
        } else {
            self.cells.set(i, id as u64);
        }
        if prev != AIR {
            self.non_air = self.non_air - 1;
        }
        if id != AIR {
            self.non_air = self.non_air + 1;
        }
        proof {
            assert(self@ =~= before@.update(i as int, id));
        }
        prev
    }

    /// Drops the palette entries that no cell refers to, and narrows the
    /// cells to the width that the shorter palette needs. No cell changes
    /// its block, and the entries that stay keep their order (see
    /// [`spec_kept`]).
    pub fn compact(&mut self)
        requires
            old(self).wf(),
        ensures
            final(self).wf(),
            final(self)@ == old(self)@,
            final(self).palette_referenced(),
            final(self).is_direct() == old(self).is_direct(),
            final(self).spec_palette().len() <= old(self).spec_palette().len(),
            final(self).spec_palette() == spec_kept(
                old(self).spec_palette(),
                old(self).spec_cells(),
                old(self).spec_palette().len() as int,
            ),
    {
        if self.cells.bits() == DIRECT_BITS {
            assert(self.palette@.len() == 0);
            return ;
        }
        let n = self.palette.len();
        let ghost before = *self;
        // Which entries are in use.
        let mut used: Vec<bool> = Vec::new();
        let mut k: usize = 0;
        while k < n
            invariant
                k <= n,
                used@.len() == k,
                forall|j: int| 0 <= j < k ==> used@[j] == (j == 0),
            decreases n - k,
        {
            used.push(k == 0);
            k += 1;
        }
        let mut j: usize = 0;
        while j < SECTION_CELLS
            invariant
                j <= SECTION_CELLS,
                self.wf(),
                !self.is_direct(),
                *self == before,
                n == self.palette@.len(),
                used@.len() == n,
                used@[0],
                forall|c: int| 0 <= c < j ==> used@[#[trigger] self.cells@[c] as int],
                forall|m: int| 1 <= m < n && #[trigger] used@[m] ==> seen(self.cells@, j as int, m),
            decreases SECTION_CELLS - j,
        {
            let v = self.cells.get(j);
            let ghost prev_used = used@;
            used.set(v as usize, true);
            proof {
                assert forall|m: int| 1 <= m < n && #[trigger] used@[m] implies seen(
                    self.cells@,
                    j + 1,
                    m,
                ) by {
                    if m == v {
                        assert(self.cells@[j as int] == m);
                    } else {
                        assert(prev_used[m]);
                        assert(seen(self.cells@, j as int, m));
                        let c = choose|c: int| 0 <= c < j && #[trigger] self.cells@[c] == m;
                        assert(0 <= c < j + 1 && self.cells@[c] == m);
                    }
                }
            }
            j += 1;
        }
        proof {
            assert forall|m: int| 1 <= m < n implies #[trigger] used@[m] == seen(
                self.cells@,
                SECTION_CELLS as int,
                m,
            ) by {
                if seen(self.cells@, SECTION_CELLS as int, m) {
                    let c = choose|c: int| 0 <= c < SECTION_CELLS && #[trigger] self.cells@[c] == m;
                    assert(used@[self.cells@[c] as int]);
                }
            }
        }
        // The shorter palette, and where each old index goes.
        let mut palette: Vec<u32> = Vec::new();
        let mut remap: Vec<u64> = Vec::new();
        let mut k: usize = 0;
        while k < n
            invariant
                k <= n,
                n == self.palette@.len(),
                n <= 256,
                used@.len() == n,
                used@[0],
                forall|m: int| 1 <= m < n ==> #[trigger] used@[m] == seen(
                    self.cells@,
                    SECTION_CELLS as int,
                    m,
                ),
                palette@ == spec_kept(self.palette@, self.cells@, k as int),
                remap@.len() == k,
                palette@.len() <= k,
                k > 0 ==> palette@.len() >= 1 && remap@[0] == 0,
                forall|m: int|
                    0 <= m < k && used@[m] ==> (#[trigger] remap@[m]) < palette@.len()
                        && palette@[remap@[m] as int] == self.palette@[m],
                forall|t: int|
                    0 <= t < palette@.len() ==> #[trigger] hit(remap@, used@, k as int, t),
            decreases n - k,
        {
            let ghost old_palette = palette@;
            let ghost old_remap = remap@;
            if used[k] {
                remap.push(palette.len() as u64);
                palette.push(self.palette[k]);
                proof {
                    assert(palette@ =~= old_palette + seq![self.palette@[k as int]]);
                    assert forall|t: int| 0 <= t < palette@.len() implies #[trigger] hit(
                        remap@,
                        used@,
                        k + 1,
                        t,
                    ) by {
                        if t < old_palette.len() {
                            assert(hit(old_remap, used@, k as int, t));
                            let m = choose|m: int|
                                0 <= m < k && used@[m] && #[trigger] old_remap[m] == t;
                            assert(remap@[m] == t);
                        } else {
                            assert(remap@[k as int] == t);
                        }
                    }
                }
            } else {
                remap.push(0u64);
                proof {
                    assert(palette@ =~= old_palette + Seq::<u32>::empty());
                    assert forall|t: int| 0 <= t < palette@.len() implies #[trigger] hit(
                        remap@,
                        used@,
                        k + 1,
                        t,
                    ) by {
                        assert(hit(old_remap, used@, k as int, t));
                        let m = choose|m: int|
                            0 <= m < k && used@[m] && #[trigger] old_remap[m] == t;
                        assert(remap@[m] == t);
                    }
                }
            }
            k += 1;
        }
        let bits = bits_for(palette.len());
        let mut cells = PackedArray::new(bits, SECTION_CELLS);
        let mut j: usize = 0;
        while j < SECTION_CELLS
            invariant
                j <= SECTION_CELLS,
                self.wf(),
                !self.is_direct(),
                *self == before,
                n == self.palette@.len(),
                used@.len() == n,
                remap@.len() == n,
                1 <= palette@.len() <= n,
                bits == spec_bits_for(palette@.len() as int),
                bits <= MAX_PALETTE_BITS,
                palette@.len() <= spec_mask(bits as int) + 1,
                cells.wf(),
                cells.spec_bits() == bits,
                cells.spec_len() == SECTION_CELLS,
                forall|c: int| 0 <= c < SECTION_CELLS ==> used@[#[trigger] self.cells@[c] as int],
                forall|m: int|
                    0 <= m < n && used@[m] ==> (#[trigger] remap@[m]) < palette@.len()
                        && palette@[remap@[m] as int] == self.palette@[m],
                forall|m: int| 1 <= m < n && #[trigger] used@[m] ==> seen(
                    self.cells@,
                    SECTION_CELLS as int,
                    m,
                ),
                forall|t: int|
                    0 <= t < palette@.len() ==> #[trigger] hit(remap@, used@, n as int, t),
                remap@[0] == 0,
                palette@ == spec_kept(self.palette@, self.cells@, n as int),
                forall|c: int| 0 <= c < j ==> cells@[c] == remap@[self.cells@[c] as int],
            decreases SECTION_CELLS - j,
        {
            let v = self.cells.get(j);
            let to = remap[v as usize];
            assert(used@[self.cells@[j as int] as int]);
            cells.set(j, to);
            j += 1;
        }
        self.palette = palette;
        self.cells = cells;
        proof {
            assert forall|c: int| 0 <= c < SECTION_CELLS implies self@[c] == before@[c] by {
                assert(used@[before.cells@[c] as int]);
            }
            assert(self@ =~= before@);
            assert forall|c: int| 0 <= c < SECTION_CELLS implies (#[trigger] self.cells@[c])
                < self.palette@.len() by {
                assert(used@[before.cells@[c] as int]);
            }
            assert(self.palette@[0] == AIR) by {
                assert(used@[0]);
                assert(remap@[0] == 0);
            }
            assert forall|t: int| 1 <= t < self.spec_palette().len() implies #[trigger]
                self.referenced(t) by {
                assert(hit(remap@, used@, n as int, t));
                let m = choose|m: int| 0 <= m < n && used@[m] && #[trigger] remap@[m] == t;
                assert(m != 0);
                assert(seen(before.cells@, SECTION_CELLS as int, m));
                let c = choose|c: int| 0 <= c < SECTION_CELLS && #[trigger] before.cells@[c] == m;
                assert(self.cells@[c] == t);
            }
        }
    }
}

} // verus!
