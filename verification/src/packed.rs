//! A fixed-length array of small unsigned integers packed into 64-bit words.
//! Every entry takes the same number of bits and no entry straddles a word.

use vstd::prelude::*;
use vstd::arithmetic::div_mod::{lemma_fundamental_div_mod, lemma_mod_bound};

verus! {

/// The largest value of `bits` bits.
pub open spec fn spec_mask(bits: int) -> u64
    recommends
        1 <= bits <= 32,
{
    ((1u64 << (bits as u64)) - 1) as u64
}

/// The entry of `bits` bits that starts at bit `shift` of `word`.
pub open spec fn spec_slot(word: u64, shift: int, bits: int) -> u64 {
    (word >> (shift as u64)) & spec_mask(bits)
}

/// Writing a slot of a word changes that slot to the value written.
proof fn lemma_write_same(word: u64, shift: u64, bits: u64, v: u64)
    requires
        1 <= bits <= 32,
        shift + bits <= 64,
        v <= ((1u64 << bits) - 1) as u64,
    ensures
        ({
            let mask = ((1u64 << bits) - 1) as u64;
            (((word & !(mask << shift)) | (v << shift)) >> shift) & mask == v
        }),
{
    assert(1 <= bits <= 32 && shift + bits <= 64 && v <= ((1u64 << bits) - 1) as u64 ==> ((((word
        & !((((1u64 << bits) - 1) as u64) << shift)) | (v << shift)) >> shift) & (((1u64 << bits)
        - 1) as u64)) == v) by (bit_vector);
}

/// Writing a slot of a word leaves every slot that does not overlap it as
/// it was.
proof fn lemma_write_other(word: u64, shift: u64, other: u64, bits: u64, v: u64)
    requires
        1 <= bits <= 32,
        shift + bits <= 64,
        other + bits <= 64,
        shift + bits <= other || other + bits <= shift,
        v <= ((1u64 << bits) - 1) as u64,
    ensures
        ({
            let mask = ((1u64 << bits) - 1) as u64;
            (((word & !(mask << shift)) | (v << shift)) >> other) & mask == (word >> other) & mask
        }),
{
    assert(1 <= bits <= 32 && shift + bits <= 64 && other + bits <= 64 && (shift + bits <= other
        || other + bits <= shift) && v <= ((1u64 << bits) - 1) as u64 ==> ((((word & !((((1u64
        << bits) - 1) as u64) << shift)) | (v << shift)) >> other) & (((1u64 << bits) - 1) as u64))
        == ((word >> other) & (((1u64 << bits) - 1) as u64))) by (bit_vector);
}

/// A slot is at most the mask, and a slot of the zero word is zero.
proof fn lemma_slot_bound(word: u64, shift: u64, bits: u64)
    requires
        1 <= bits <= 32,
        shift + bits <= 64,
    ensures
        (word >> shift) & (((1u64 << bits) - 1) as u64) <= ((1u64 << bits) - 1) as u64,
        (0u64 >> shift) & (((1u64 << bits) - 1) as u64) == 0,
        ((1u64 << bits) - 1) as u64 <= 0xffff_ffff,
        ((1u64 << bits) - 1) as u64 >= 1,
{
    assert(1 <= bits <= 32 ==> (word >> shift) & (((1u64 << bits) - 1) as u64) <= ((1u64 << bits)
        - 1) as u64) by (bit_vector);
    assert((0u64 >> shift) & (((1u64 << bits) - 1) as u64) == 0) by (bit_vector);
    assert(1 <= bits <= 32 ==> ((1u64 << bits) - 1) as u64 <= 0xffff_ffff && ((1u64 << bits)
        - 1) as u64 >= 1) by (bit_vector);
}

/// The largest value of `bits` bits.
fn mask_of(bits: u8) -> (m: u64)
    requires
        1 <= bits <= 32,
    ensures
        m == spec_mask(bits as int),
        1 <= m <= 0xffff_ffff,
{
    let b: u64 = bits as u64;
    assert((1u64 << b) >= 1 && ((1u64 << b) - 1) as u64 >= 1 && ((1u64 << b) - 1) as u64
        <= 0xffff_ffff) by (bit_vector)
        requires
            1 <= b <= 32,
    ;
    (1u64 << b) - 1
}

/// `len` entries of `bits` bits each.
#[derive(Debug)]
pub struct PackedArray {
    bits: u8,
    len: usize,
    data: Vec<u64>,
}

impl PackedArray {
    /// Entries per word.
    pub closed spec fn per_word(self) -> int {
        64int / (self.bits as int)
    }

    pub closed spec fn wf(self) -> bool {
        &&& 1 <= self.bits <= 32
        &&& self.len <= 0x10_0000
        &&& self.data@.len() * self.per_word() >= self.len
        &&& self.data@.len() == (self.len + self.per_word() - 1) / self.per_word()
    }

    pub closed spec fn spec_bits(self) -> int {
        self.bits as int
    }

    /// The words that hold the entries.
    pub closed spec fn spec_words(self) -> Seq<u64> {
        self.data@
    }

    pub closed spec fn spec_len(self) -> int {
        self.len as int
    }

    /// The entry at `i`.
    pub closed spec fn spec_get(self, i: int) -> u64 {
        spec_slot(
            self.data@[i / self.per_word()],
            (i % self.per_word()) * (self.bits as int),
            self.bits as int,
        )
    }

    /// The entries, in order.
    pub open spec fn view(self) -> Seq<u64> {
        Seq::new(self.spec_len() as nat, |i: int| self.spec_get(i))
    }

    /// Where entry `i` lies: its word and the bit at which it starts.
    proof fn lemma_place(self, i: int)
        requires
            self.wf(),
            0 <= i < self.len,
        ensures
            0 <= i / self.per_word() < self.data@.len(),
            0 <= i % self.per_word() < self.per_word(),
            0 <= (i % self.per_word()) * self.bits,
            (i % self.per_word()) * self.bits + self.bits <= 64,
            1 <= self.per_word() <= 64,
    {
        let p = self.per_word();
        let b = self.bits as int;
        assert(1 <= p <= 64 && p * b <= 64) by {
            lemma_fundamental_div_mod(64, b);
            lemma_mod_bound(64, b);
            assert(b * (64int / b) <= 64);
            assert(64int / b >= 1) by (nonlinear_arith)
                requires
                    1 <= b <= 32,
            ;
            assert(64int / b <= 64) by (nonlinear_arith)
                requires
                    1 <= b <= 32,
            ;
            assert(p * b == b * (64int / b)) by (nonlinear_arith)
                requires
                    p == 64int / b,
            ;
        }
        lemma_fundamental_div_mod(i, p);
        lemma_mod_bound(i, p);
        let q = i / p;
        let r = i % p;
        assert(0 <= q < self.data@.len()) by (nonlinear_arith)
            requires
                i == p * q + r,
                0 <= r < p,
                0 <= i < self.len,
                self.data@.len() * p >= self.len,
                p >= 1,
        ;
        assert(0 <= r * b && r * b + b <= 64) by (nonlinear_arith)
            requires
                0 <= r < p,
                p * b <= 64,
                b >= 1,
        ;
    }

    /// `len` entries of `bits` bits, all zero.
    pub fn new(bits: u8, len: usize) -> (a: PackedArray)
        requires
            1 <= bits <= 32,
            len <= 0x10_0000,
        ensures
            a.wf(),
            a.spec_bits() == bits,
            a.spec_len() == len,
            a@ == Seq::new(len as nat, |i: int| 0u64),
    {
        let per: usize = 64 / (bits as usize);
        assert(1 <= per <= 64) by (nonlinear_arith)
            requires
                per == 64int / (bits as int),
                1 <= bits <= 32,
        ;
        let words: usize = (len + per - 1) / per;
        let mut data: Vec<u64> = Vec::new();
        let mut k: usize = 0;
        while k < words
            invariant
                k <= words,
                data@.len() == k,
                forall|j: int| 0 <= j < k ==> data@[j] == 0u64,
            decreases words - k,
        {
            data.push(0u64);
            k += 1;
        }
        let a = PackedArray { bits, len, data };
        proof {
            lemma_fundamental_div_mod((len + per - 1) as int, per as int);
            lemma_mod_bound((len + per - 1) as int, per as int);
            assert(a.data@.len() * a.per_word() >= a.len) by (nonlinear_arith)
                requires
                    a.data@.len() == words,
                    a.per_word() == per,
                    a.len == len,
                    (len + per - 1) == per * words + ((len + per - 1) as int % per as int),
                    0 <= ((len + per - 1) as int % per as int) < per,
            ;
            assert(a.wf());
            assert forall|i: int| 0 <= i < len implies a.spec_get(i) == 0u64 by {
                a.lemma_place(i);
                lemma_slot_bound(
                    0u64,
                    ((i % a.per_word()) * (bits as int)) as u64,
                    bits as u64,
                );
            }
            assert(a@ =~= Seq::new(len as nat, |i: int| 0u64));
        }
        a
    }

    pub fn bits(&self) -> (b: u8)
        ensures
            b == self.spec_bits(),
    {
        self.bits
    }

    pub fn len(&self) -> (n: usize)
        ensures
            n == self.spec_len(),
    {
        self.len
    }

    /// The words that hold the entries: entry `i` lies in word
    /// `i / (64 / bits)`, from bit `(i % (64 / bits)) * bits` up.
    pub fn words(&self) -> (w: &Vec<u64>)
        ensures
            w@ == self.spec_words(),
    {
        &self.data
    }

    /// The largest value an entry can hold.
    pub fn max_value(&self) -> (m: u64)
        requires
            self.wf(),
        ensures
            m == spec_mask(self.spec_bits()),
            1 <= m <= 0xffff_ffff,
    {
        mask_of(self.bits)
    }

    /// Every entry fits the width.
    pub proof fn lemma_entries_fit(self)
        requires
            self.wf(),
        ensures
            self@.len() == self.spec_len(),
            forall|i: int| 0 <= i < self.spec_len() ==> #[trigger] self@[i] <= spec_mask(
                self.spec_bits(),
            ),
            1 <= spec_mask(self.spec_bits()) <= 0xffff_ffff,
            1 <= self.spec_bits() <= 32,
    {
        lemma_slot_bound(0u64, 0u64, self.bits as u64);
        assert forall|i: int| 0 <= i < self.spec_len() implies #[trigger] self@[i] <= spec_mask(
            self.spec_bits(),
        ) by {
            self.lemma_place(i);
            lemma_slot_bound(
                self.data@[i / self.per_word()],
                ((i % self.per_word()) * (self.bits as int)) as u64,
                self.bits as u64,
            );
        }
    }

    /// The entry at `i`.
    pub fn get(&self, i: usize) -> (v: u64)
        requires
            self.wf(),
            i < self.spec_len(),
        ensures
            v == self@[i as int],
            v <= spec_mask(self.spec_bits()),
    {
        let per: usize = 64 / (self.bits as usize);
        proof {
            self.lemma_place(i as int);
            self.lemma_entries_fit();
        }
        let word: u64 = self.data[i / per];
        let shift: u64 = ((i % per) * (self.bits as usize)) as u64;
        let mask: u64 = mask_of(self.bits);
        (word >> shift) & mask
    }

    /// Sets the entry at `i` to `v` and leaves every other entry as it was.
    pub fn set(&mut self, i: usize, v: u64)
        requires
            old(self).wf(),
            i < old(self).spec_len(),
            v <= spec_mask(old(self).spec_bits()),
        ensures
            final(self).wf(),
            final(self).spec_bits() == old(self).spec_bits(),
            final(self).spec_len() == old(self).spec_len(),
            final(self)@ == old(self)@.update(i as int, v),
    {
        let per: usize = 64 / (self.bits as usize);
        proof {
            self.lemma_place(i as int);
        }
        let w: usize = i / per;
        let shift: u64 = ((i % per) * (self.bits as usize)) as u64;
        let mask: u64 = mask_of(self.bits);
        let word: u64 = self.data[w];
        let changed: u64 = (word & !(mask << shift)) | (v << shift);
        let ghost before = *self;
        self.data.set(w, changed);
        proof {
            assert(self.wf());
            assert forall|j: int| 0 <= j < self.len implies self.spec_get(j) == before@.update(
                i as int,
                v,
            )[j] by {
                before.lemma_place(j);
                let p = before.per_word();
                let b = before.bits as int;
                if j == i {
                    lemma_write_same(word, shift, self.bits as u64, v);
                } else if j / p == w {
                    let other = ((j % p) * b) as u64;
                    lemma_fundamental_div_mod(j, p);
                    lemma_fundamental_div_mod(i as int, p);
                    assert(j % p != (i as int) % p);
                    assert(shift + b <= other || other + b <= shift) by (nonlinear_arith)
                        requires
                            shift == ((i as int) % p) * b,
                            other == (j % p) * b,
                            j % p != (i as int) % p,
                            b >= 1,
                    ;
                    lemma_write_other(word, shift, other, self.bits as u64, v);
                } else {
                }
            }
            assert(self@ =~= before@.update(i as int, v));
        }
    }

    /// The same entries in a wider array.
    pub fn widened(&self, bits: u8) -> (a: PackedArray)
        requires
            self.wf(),
            self.spec_bits() <= bits <= 32,
        ensures
            a.wf(),
            a.spec_bits() == bits,
            a.spec_len() == self.spec_len(),
            a@ == self@,
    {
        let mut a = PackedArray::new(bits, self.len);
        let mut i: usize = 0;
        proof {
            self.lemma_entries_fit();
            lemma_mask_monotone(self.bits as u64, bits as u64);
        }
        while i < self.len
            invariant
                i <= self.len,
                self.wf(),
                a.wf(),
                a.spec_bits() == bits,
                a.spec_len() == self.spec_len(),
                self.spec_len() == self.len,
                spec_mask(self.spec_bits()) <= spec_mask(bits as int),
                forall|j: int| 0 <= j < i ==> a@[j] == self@[j],
            decreases self.len - i,
        {
            let v = self.get(i);
            a.set(i, v);
            i += 1;
        }
        assert(a@ =~= self@);
        a
    }
}

/// The masks of the widths that sections use.
pub proof fn lemma_mask_values()
    ensures
        spec_mask(4) == 15,
        spec_mask(5) == 31,
        spec_mask(6) == 63,
        spec_mask(7) == 127,
        spec_mask(8) == 255,
        spec_mask(32) == 0xffff_ffff,
{
    assert(((1u64 << 4u64) - 1) as u64 == 15) by (bit_vector);
    assert(((1u64 << 5u64) - 1) as u64 == 31) by (bit_vector);
    assert(((1u64 << 6u64) - 1) as u64 == 63) by (bit_vector);
    assert(((1u64 << 7u64) - 1) as u64 == 127) by (bit_vector);
    assert(((1u64 << 8u64) - 1) as u64 == 255) by (bit_vector);
    assert(((1u64 << 32u64) - 1) as u64 == 0xffff_ffff) by (bit_vector);
}

/// A wider entry holds every value of a narrower one.
proof fn lemma_mask_monotone(a: u64, b: u64)
    requires
        1 <= a <= b <= 32,
    ensures
        ((1u64 << a) - 1) as u64 <= ((1u64 << b) - 1) as u64,
{
    assert(1 <= a <= b <= 32 ==> ((1u64 << a) - 1) as u64 <= ((1u64 << b) - 1) as u64)
        by (bit_vector);
}

} // verus!
