//! Variable-length integers: groups of seven bits, least significant group
//! first, the high bit of a byte saying that another byte follows. A 32-bit
//! value takes one to five bytes.

use vstd::prelude::*;

verus! {

/// The most bytes a 32-bit value takes.
pub const MAX_VARINT_LEN: usize = 5;

/// What `consumed` is for a varint that runs past five bytes.
pub const VARINT_TOO_LONG: isize = -1;

/// 2^32.
pub const TWO_32: u64 = 0x1_0000_0000;

/// The bit pattern of `v` as an unsigned number.
pub open spec fn to_unsigned(v: i32) -> nat {
    if v < 0 {
        (v + TWO_32) as nat
    } else {
        v as nat
    }
}

/// The 32-bit value with the low 32 bits of `u` as its bit pattern.
pub open spec fn to_signed(u: int) -> i32 {
    let m = u % (TWO_32 as int);
    if m >= 0x8000_0000 {
        (m - TWO_32) as i32
    } else {
        m as i32
    }
}

/// The bytes of the unsigned number `u`.
pub open spec fn varint_bytes(u: nat) -> Seq<u8>
    decreases u,
{
    if u < 128 {
        seq![u as u8]
    } else {
        seq![(u % 128 + 128) as u8] + varint_bytes(u / 128)
    }
}

/// The bytes of the 32-bit value `v`.
pub open spec fn spec_write_varint(v: i32) -> Seq<u8> {
    varint_bytes(to_unsigned(v))
}

/// 128^i for the five positions of a varint.
pub open spec fn pow128(i: int) -> int {
    if i <= 0 {
        1
    } else if i == 1 {
        128
    } else if i == 2 {
        16384
    } else if i == 3 {
        2097152
    } else {
        268435456
    }
}

/// Reads on from byte `i` with `acc` collected so far: the number read and
/// how many bytes it took; 0 bytes where the input ends first, -1 where a
/// fifth byte says that a sixth follows.
pub open spec fn spec_decode(bytes: Seq<u8>, i: int, acc: int) -> (int, int)
    decreases 5 - i,
{
    if i >= 5 {
        (0, -1)
    } else if i < 0 || i >= bytes.len() {
        (0, 0)
    } else if bytes[i] < 128 {
        (acc + bytes[i] * pow128(i), i + 1)
    } else {
        spec_decode(bytes, i + 1, acc + (bytes[i] - 128) * pow128(i))
    }
}

/// What reading a varint at the head of `bytes` gives: the value and the
/// number of bytes read; `(0, 0)` where the input ends before the varint
/// does, `(0, -1)` where the varint is longer than five bytes.
pub open spec fn spec_read_varint(bytes: Seq<u8>) -> (i32, int) {
    let r = spec_decode(bytes, 0, 0);
    if r.1 <= 0 {
        (0i32, r.1)
    } else {
        (to_signed(r.0), r.1)
    }
}

/// How many bytes the unsigned number `u` takes.
pub open spec fn varint_len(u: nat) -> int {
    varint_bytes(u).len() as int
}

/// The largest number that fits from position `i` on.
pub open spec fn room(i: int) -> int {
    if i <= 0 {
        0x1_0000_0000
    } else if i == 1 {
        0x200_0000
    } else if i == 2 {
        0x4_0000
    } else if i == 3 {
        0x800
    } else {
        0x10
    }
}

/// A number below 2^32 takes one to five bytes.
pub proof fn lemma_varint_len(u: nat, i: int)
    requires
        0 <= i < 5,
        u < room(i),
    ensures
        1 <= varint_len(u) <= 5 - i,
    decreases u,
{
    if u >= 128 {
        lemma_varint_len(u / 128, i + 1);
    }
}

/// Reading what was written, whatever follows it, gives the number back.
pub proof fn lemma_decode_encode(u: nat, i: int, acc: int, before: Seq<u8>, after: Seq<u8>)
    requires
        0 <= i < 5,
        before.len() == i,
        u < room(i),
    ensures
        spec_decode(before + varint_bytes(u) + after, i, acc) == (
            acc + u * pow128(i),
            i + varint_len(u),
        ),
    decreases u,
{
    let bytes = before + varint_bytes(u) + after;
    assert(bytes[i] == varint_bytes(u)[0]);
    if u < 128 {
    } else {
        let first = seq![(u % 128 + 128) as u8];
        let before2 = before + first;
        assert(bytes =~= before2 + varint_bytes(u / 128) + after);
        lemma_decode_encode(u / 128, i + 1, acc + (u % 128) * pow128(i), before2, after);
        assert((u % 128) * pow128(i) + (u / 128) * pow128(i + 1) == u * pow128(i)) by {
            assert(pow128(i + 1) == 128 * pow128(i));
            assert(u == 128 * (u / 128) + u % 128);
            assert((u / 128) * (128 * pow128(i)) == (128 * (u / 128)) * pow128(i))
                by (nonlinear_arith);
            assert((u % 128) * pow128(i) + (128 * (u / 128)) * pow128(i) == (128 * (u / 128) + u
                % 128) * pow128(i)) by (nonlinear_arith);
        }
    }
}

/// Every 32-bit value is read back as it was written, from one to five
/// bytes, whatever follows them.
pub proof fn varint_round_trip(v: i32, after: Seq<u8>)
    ensures
        spec_read_varint(spec_write_varint(v) + after) == (v, spec_write_varint(v).len() as int),
        1 <= spec_write_varint(v).len() <= 5,
{
    let u = to_unsigned(v);
    lemma_varint_len(u, 0);
    lemma_decode_encode(u, 0, 0, Seq::<u8>::empty(), after);
    assert(Seq::<u8>::empty() + varint_bytes(u) + after =~= varint_bytes(u) + after);
}

/// Reads the varint at the head of `bytes`: the value and how many bytes it
/// took. `(0, 0)` says that the input ends before the varint does;
/// `(0, -1)` that the varint runs past five bytes.
pub fn read_varint(bytes: &[u8]) -> (r: (i32, isize))
    ensures
        r.0 == spec_read_varint(bytes@).0,
        r.1 == spec_read_varint(bytes@).1,
        -1 <= r.1 <= 5,
        r.1 <= bytes@.len(),
{
    let mut acc: u64 = 0;
    let mut i: usize = 0;
    let mut scale: u64 = 1;
    while i < 5
        invariant
            i <= 5,
            scale == pow128(i as int),
            i < 5 ==> acc < scale,
            acc < 0x8_0000_0000,
            i <= bytes@.len(),
            spec_decode(bytes@, 0, 0) == spec_decode(bytes@, i as int, acc as int),
        decreases 5 - i,
    {
        if i >= bytes.len() {
            return (0, 0);
        }
        let b = bytes[i];
        if b < 128 {
            let total: u64 = acc + (b as u64) * scale;
            let low: u64 = total % TWO_32;
            let value: i32 = if low >= 0x8000_0000 {
                (low as i64 - 0x1_0000_0000i64) as i32
            } else {
                low as i32
            };
            return (value, (i + 1) as isize);
        }
        acc = acc + ((b - 128) as u64) * scale;
        if i < 4 {
            scale = scale * 128;
        }
        i += 1;
    }
    (0, VARINT_TOO_LONG)
}

/// Appends the bytes of `v` to `buf`.
pub fn write_varint(buf: &mut Vec<u8>, v: i32)
    ensures
        final(buf)@ == old(buf)@ + spec_write_varint(v),
{
    let mut u: u64 = if v < 0 {
        (v as i64 + 0x1_0000_0000i64) as u64
    } else {
        v as u64
    };
    let ghost start = buf@;
    let ghost whole = to_unsigned(v);
    while u >= 128
        invariant
            start + varint_bytes(whole) == buf@ + varint_bytes(u as nat),
        decreases u,
    {
        let ghost before = buf@;
        buf.push((u % 128 + 128) as u8);
        proof {
            assert(before + varint_bytes(u as nat) =~= buf@ + varint_bytes((u / 128) as nat));
        }
        u = u / 128;
    }
    let ghost before = buf@;
    buf.push(u as u8);
    proof {
        assert(before + varint_bytes(u as nat) =~= buf@);
    }
}

/// The bytes of `v` on their own.
pub fn varint_vec(v: i32) -> (out: Vec<u8>)
    ensures
        out@ == spec_write_varint(v),
{
    let mut out: Vec<u8> = Vec::new();
    write_varint(&mut out, v);
    assert(Seq::<u8>::empty() + spec_write_varint(v) =~= spec_write_varint(v));
    out
}

} // verus!
