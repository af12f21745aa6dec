//! The bodies of packets. A body is a row of values, one after the other,
//! and the kind of a packet says how each is written: that is all a reader
//! and a writer for a packet of any version need.

use vstd::prelude::*;
use crate::protocol::{FloatType, IntType};
use crate::stream::{Packet, StreamError};
use crate::varint::{read_varint, spec_read_varint, spec_write_varint, write_varint};
use crate::wire::{
    be_bytes,
    be_value,
    from_pattern,
    lemma_pow256,
    pow256,
    read_be,
    to_pattern,
    write_be,
};

verus! {

/// Where the length of an array or buffer comes from.
#[derive(Clone, Copy, Debug, PartialEq, Eq, Structural)]
pub enum Count {
    /// An integer written before the elements.
    Typed(IntType),
    /// Always the same.
    Fixed(u32),
}

/// How a value, or a group of values, is written.
#[derive(Debug, PartialEq, Eq)]
pub enum Kind {
    Bool,
    Int(IntType),
    Float(FloatType),
    UUID,
    /// Bytes behind their number as a varint.
    Str,
    /// Every byte up to the end of the body.
    Rest,
    /// A byte that says whether the value follows, and the value.
    Opt(Box<Kind>),
    /// Values of one kind.
    Array(Count, Box<Kind>),
    /// Bytes.
    Buffer(Count),
    /// Values of several kinds, one after the other.
    Container(Vec<Kind>),
}

/// One value of a body.
#[derive(Clone, Debug, PartialEq, Eq)]
pub enum Atom {
    Bool(bool),
    Int(i64),
    /// A 32-bit real number, as its bits.
    Float(u32),
    /// A 64-bit real number, as its bits.
    Double(u64),
    UUID(u128),
    Bytes(Vec<u8>),
    /// An optional value that is not there.
    Absent,
    /// An optional value that is there, and follows.
    Present,
    /// The number of elements that follow.
    Count(u32),
}

/// A value as contracts see it.
pub enum AtomView {
    Bool(bool),
    Int(i64),
    Float(u32),
    Double(u64),
    UUID(u128),
    Bytes(Seq<u8>),
    Absent,
    Present,
    Count(u32),
}

impl Atom {
    pub open spec fn view(self) -> AtomView {
        match self {
            Atom::Bool(b) => AtomView::Bool(b),
            Atom::Int(v) => AtomView::Int(v),
            Atom::Float(v) => AtomView::Float(v),
            Atom::Double(v) => AtomView::Double(v),
            Atom::UUID(v) => AtomView::UUID(v),
            Atom::Bytes(b) => AtomView::Bytes(b@),
            Atom::Absent => AtomView::Absent,
            Atom::Present => AtomView::Present,
            Atom::Count(n) => AtomView::Count(n),
        }
    }
}

/// The values as contracts see them.
pub open spec fn atoms_view(atoms: Seq<Atom>) -> Seq<AtomView> {
    Seq::new(atoms.len(), |i: int| atoms[i]@)
}

/// How many bytes an integer of fixed width takes; 0 for a varint.
pub open spec fn spec_width(t: IntType) -> nat {
    match t {
        IntType::I8 | IntType::U8 => 1,
        IntType::U16 | IntType::I16 => 2,
        IntType::I32 => 4,
        IntType::I64 => 8,
        IntType::VarInt | IntType::OptVarInt => 0,
    }
}

/// Whether the integer type holds negative numbers.
pub open spec fn spec_signed(t: IntType) -> bool {
    match t {
        IntType::U8 | IntType::U16 => false,
        _ => true,
    }
}

/// Whether `v` fits the integer type.
pub open spec fn spec_fits(t: IntType, v: int) -> bool {
    match t {
        IntType::I8 => -0x80 <= v < 0x80,
        IntType::U8 => 0 <= v < 0x100,
        IntType::U16 => 0 <= v < 0x1_0000,
        IntType::I16 => -0x8000 <= v < 0x8000,
        IntType::I32 | IntType::VarInt => -0x8000_0000 <= v < 0x8000_0000,
        IntType::I64 => -0x8000_0000_0000_0000 <= v < 0x8000_0000_0000_0000,
        IntType::OptVarInt => false,
    }
}

/// The bytes of the integer `v`, if it fits the type.
pub open spec fn spec_int_bytes(t: IntType, v: int) -> Option<Seq<u8>> {
    if !spec_fits(t, v) {
        None
    } else if t == IntType::VarInt {
        Some(spec_write_varint(v as i32))
    } else {
        Some(be_bytes(to_pattern(v, spec_width(t)), spec_width(t)))
    }
}

/// The integer at `at`, and where the bytes behind it start.
pub open spec fn spec_int_read(t: IntType, bytes: Seq<u8>, at: int) -> Option<(int, int)> {
    if t == IntType::OptVarInt || at < 0 || at > bytes.len() {
        None
    } else if t == IntType::VarInt {
        let r = spec_read_varint(bytes.skip(at));
        if r.1 <= 0 {
            None
        } else {
            Some((r.0 as int, at + r.1))
        }
    } else if at + spec_width(t) > bytes.len() {
        None
    } else {
        let u = be_value(bytes.subrange(at, at + spec_width(t)));
        Some(
            (
                if spec_signed(t) {
                    from_pattern(u, spec_width(t))
                } else {
                    u
                },
                at + spec_width(t),
            ),
        )
    }
}

fn width(t: IntType) -> (n: usize)
    ensures
        n == spec_width(t),
{
    match t {
        IntType::I8 | IntType::U8 => 1,
        IntType::U16 | IntType::I16 => 2,
        IntType::I32 => 4,
        IntType::I64 => 8,
        IntType::VarInt | IntType::OptVarInt => 0,
    }
}

fn fits(t: IntType, v: i64) -> (r: bool)
    ensures
        r == spec_fits(t, v as int),
{
    match t {
        IntType::I8 => -0x80 <= v && v < 0x80,
        IntType::U8 => 0 <= v && v < 0x100,
        IntType::U16 => 0 <= v && v < 0x1_0000,
        IntType::I16 => -0x8000 <= v && v < 0x8000,
        IntType::I32 | IntType::VarInt => -0x8000_0000 <= v && v < 0x8000_0000,
        IntType::I64 => true,
        IntType::OptVarInt => false,
    }
}

/// Appends the integer `v`, if it fits the type.
pub fn write_int(out: &mut Vec<u8>, t: IntType, v: i64) -> (ok: bool)
    ensures
        ok == spec_int_bytes(t, v as int).is_some(),
        ok ==> final(out)@ == old(out)@ + spec_int_bytes(t, v as int).unwrap(),
        !ok ==> final(out)@ == old(out)@,
{
    if !fits(t, v) {
        return false;
    }
    match t {
        IntType::VarInt => {
            write_varint(out, v as i32);
        },
        _ => {
            let n = width(t);
            proof {
                lemma_pow256();
            }
            let pattern: u128 = if v < 0 {
                match t {
                    IntType::I8 => (v + 0x100) as u128,
                    IntType::I16 => (v + 0x1_0000) as u128,
                    IntType::I32 => (v + 0x1_0000_0000) as u128,
                    _ => (v as i128 + 0x1_0000_0000_0000_0000i128) as u128,
                }
            } else {
                v as u128
            };
            assert(pattern == to_pattern(v as int, n as nat));
            assert(pattern as int % pow256(n as nat) == pattern);
            write_be(out, pattern, n);
        },
    }
    true
}

/// The integer at `at`, and where the bytes behind it start.
pub fn read_int(bytes: &Vec<u8>, at: usize, t: IntType) -> (r: Option<(i64, usize)>)
    ensures
        match spec_int_read(t, bytes@, at as int) {
            Some((v, next)) => r == Some((v as i64, next as usize)) && spec_fits(t, v) && at < next
                <= bytes@.len(),
            None => r.is_none(),
        },
{
    if at > bytes.len() {
        return None;
    }
    match t {
        IntType::OptVarInt => None,
        IntType::VarInt => {
            let rest = crate::stream::tail(bytes, at);
            assert(rest@ =~= bytes@.skip(at as int));
            let r = read_varint(rest.as_slice());
            if r.1 <= 0 {
                None
            } else {
                Some((r.0 as i64, at + r.1 as usize))
            }
        },
        _ => {
            let n = width(t);
            match read_be(bytes, at, n) {
                None => None,
                Some(u) => {
                    proof {
                        lemma_pow256();
                        crate::wire::lemma_be_value_bound(bytes@.subrange(at as int, at + n));
                    }
                    let v: i64 = match t {
                        IntType::I8 => if u >= 0x80 {
                            (u as i64) - 0x100
                        } else {
                            u as i64
                        },
                        IntType::I16 => if u >= 0x8000 {
                            (u as i64) - 0x1_0000
                        } else {
                            u as i64
                        },
                        IntType::I32 => if u >= 0x8000_0000 {
                            (u as i64) - 0x1_0000_0000
                        } else {
                            u as i64
                        },
                        IntType::I64 => if u >= 0x8000_0000_0000_0000 {
                            (u as i128 - 0x1_0000_0000_0000_0000i128) as i64
                        } else {
                            u as i64
                        },
                        _ => u as i64,
                    };
                    Some((v, at + n))
                },
            }
        },
    }
}

/// An integer that fits its type is read back as it was written, whatever
/// stands before and behind it.
pub proof fn int_round_trip(t: IntType, v: int, before: Seq<u8>, after: Seq<u8>)
    requires
        spec_fits(t, v),
    ensures
        spec_int_read(t, before + spec_int_bytes(t, v).unwrap() + after, before.len() as int)
            == Some((v, (before.len() + spec_int_bytes(t, v).unwrap().len()) as int)),
        spec_int_bytes(t, v).unwrap().len() >= 1,
{
    let b = spec_int_bytes(t, v).unwrap();
    let all = before + b + after;
    if t == IntType::VarInt {
        crate::varint::varint_round_trip(v as i32, after);
        assert(all.skip(before.len() as int) =~= b + after);
    } else {
        let n = spec_width(t);
        lemma_pow256();
        if spec_signed(t) {
            crate::wire::lemma_pattern_round_trip(v, n);
        } else {
            assert(to_pattern(v, n) == v);
        }
        crate::wire::lemma_be_round_trip(to_pattern(v, n), n);
        assert(all.subrange(before.len() as int, (before.len() + n) as int) =~= b);
    }
}

// ---------------------------------------------------------------------------
// What is written for a row of values
// ---------------------------------------------------------------------------

/// The bytes of the elements: `n` times the bytes of a value of kind `k`,
/// and where the values behind them start.
pub open spec fn spec_encode_n(k: Kind, atoms: Seq<AtomView>, i: int, n: nat) -> Option<
    (Seq<u8>, int),
>
    decreases k, n,
{
    if n == 0 {
        Some((Seq::<u8>::empty(), i))
    } else {
        match spec_encode(k, atoms, i) {
            Some((b, j)) => match spec_encode_n(k, atoms, j, (n - 1) as nat) {
                Some((more, last)) => Some((b + more, last)),
                None => None,
            },
            None => None,
        }
    }
}

/// The bytes of the values of the kinds from `from` on, one after the
/// other, and where the values behind them start.
pub open spec fn spec_encode_seq(ks: Seq<Kind>, atoms: Seq<AtomView>, i: int, from: int) -> Option<
    (Seq<u8>, int),
>
    decreases ks, ks.len() - from,
{
    if from < 0 || from >= ks.len() {
        Some((Seq::<u8>::empty(), i))
    } else {
        match spec_encode(ks[from], atoms, i) {
            Some((b, j)) => match spec_encode_seq(ks, atoms, j, from + 1) {
                Some((more, last)) => Some((b + more, last)),
                None => None,
            },
            None => None,
        }
    }
}

/// The bytes of the bytes `b` behind their count.
pub open spec fn spec_counted(c: Count, b: Seq<u8>) -> Option<Seq<u8>> {
    match c {
        Count::Typed(t) => match spec_int_bytes(t, b.len() as int) {
            Some(prefix) => if b.len() <= u32::MAX {
                Some(prefix + b)
            } else {
                None
            },
            None => None,
        },
        Count::Fixed(n) => if b.len() == n {
            Some(b)
        } else {
            None
        },
    }
}

/// The bytes of what kind `kind` reads from the values at `i`, and where
/// the values behind it start; `None` where the values are not what the
/// kind asks for.
pub open spec fn spec_encode(kind: Kind, atoms: Seq<AtomView>, i: int) -> Option<(Seq<u8>, int)>
    decreases kind, 0nat,
{
    if i < 0 || i > atoms.len() {
        None
    } else {
        match kind {
            Kind::Container(ks) => spec_encode_seq(ks@, atoms, i, 0),
            Kind::Array(Count::Fixed(n), k) => spec_encode_n(*k, atoms, i, n as nat),
            _ => if i >= atoms.len() {
                None
            } else {
                match (kind, atoms[i]) {
                    (Kind::Bool, AtomView::Bool(b)) => Some(
                        (
                            seq![
                                if b {
                                    1u8
                                } else {
                                    0u8
                                },
                            ],
                            i + 1,
                        ),
                    ),
                    (Kind::Int(t), AtomView::Int(v)) => match spec_int_bytes(t, v as int) {
                        Some(b) => Some((b, i + 1)),
                        None => None,
                    },
                    (Kind::Float(FloatType::F32), AtomView::Float(v)) => Some(
                        (be_bytes(v as int, 4), i + 1),
                    ),
                    (Kind::Float(FloatType::F64), AtomView::Double(v)) => Some(
                        (be_bytes(v as int, 8), i + 1),
                    ),
                    (Kind::UUID, AtomView::UUID(v)) => Some((be_bytes(v as int, 16), i + 1)),
                    (Kind::Str, AtomView::Bytes(b)) => if b.len() <= i32::MAX {
                        Some((spec_write_varint(b.len() as i32) + b, i + 1))
                    } else {
                        None
                    },
                    (Kind::Rest, AtomView::Bytes(b)) => Some((b, i + 1)),
                    (Kind::Opt(k), AtomView::Absent) => Some((seq![0u8], i + 1)),
                    (Kind::Opt(k), AtomView::Present) => match spec_encode(*k, atoms, i + 1) {
                        Some((b, j)) => Some((seq![1u8] + b, j)),
                        None => None,
                    },
                    (Kind::Array(Count::Typed(t), k), AtomView::Count(n)) => match (
                        spec_int_bytes(t, n as int),
                        spec_encode_n(*k, atoms, i + 1, n as nat),
                    ) {
                        (Some(prefix), Some((b, j))) => Some((prefix + b, j)),
                        _ => None,
                    },
                    (Kind::Buffer(c), AtomView::Bytes(b)) => match spec_counted(c, b) {
                        Some(out) => Some((out, i + 1)),
                        None => None,
                    },
                    _ => None,
                }
            },
        }
    }
}

// ---------------------------------------------------------------------------
// What is read from bytes
// ---------------------------------------------------------------------------

/// `n` values of kind `k` from `at` on, and where the bytes behind them
/// start.
pub open spec fn spec_decode_n(k: Kind, bytes: Seq<u8>, at: int, n: nat) -> Option<
    (Seq<AtomView>, int),
>
    decreases k, n,
{
    if n == 0 {
        if 0 <= at <= bytes.len() {
            Some((Seq::<AtomView>::empty(), at))
        } else {
            None
        }
    } else {
        match spec_decode(k, bytes, at) {
            Some((a, next)) => match spec_decode_n(k, bytes, next, (n - 1) as nat) {
                Some((more, last)) => Some((a + more, last)),
                None => None,
            },
            None => None,
        }
    }
}

/// The values of the kinds from `from` on, from `at` on, and where the
/// bytes behind them start.
pub open spec fn spec_decode_seq(ks: Seq<Kind>, bytes: Seq<u8>, at: int, from: int) -> Option<
    (Seq<AtomView>, int),
>
    decreases ks, ks.len() - from,
{
    if from < 0 || from >= ks.len() {
        if 0 <= at <= bytes.len() {
            Some((Seq::<AtomView>::empty(), at))
        } else {
            None
        }
    } else {
        match spec_decode(ks[from], bytes, at) {
            Some((a, next)) => match spec_decode_seq(ks, bytes, next, from + 1) {
                Some((more, last)) => Some((a + more, last)),
                None => None,
            },
            None => None,
        }
    }
}

/// The number of bytes or elements that follows, and where they start.
pub open spec fn spec_count_read(c: Count, bytes: Seq<u8>, at: int) -> Option<(int, int)> {
    match c {
        Count::Typed(t) => match spec_int_read(t, bytes, at) {
            Some((n, next)) => if 0 <= n <= u32::MAX {
                Some((n, next))
            } else {
                None
            },
            None => None,
        },
        Count::Fixed(n) => Some((n as int, at)),
    }
}

/// The values that kind `kind` reads from `at` on, and where the bytes
/// behind them start; `None` where the bytes end too early or are not what
/// the kind asks for.
pub open spec fn spec_decode(kind: Kind, bytes: Seq<u8>, at: int) -> Option<(Seq<AtomView>, int)>
    decreases kind, 0nat,
{
    if at < 0 || at > bytes.len() {
        None
    } else {
        match kind {
            Kind::Bool => if at < bytes.len() {
                Some((seq![AtomView::Bool(bytes[at] != 0)], at + 1))
            } else {
                None
            },
            Kind::Int(t) => match spec_int_read(t, bytes, at) {
                Some((v, next)) => Some((seq![AtomView::Int(v as i64)], next)),
                None => None,
            },
            Kind::Float(FloatType::F32) => if at + 4 <= bytes.len() {
                Some((seq![AtomView::Float(be_value(bytes.subrange(at, at + 4)) as u32)], at + 4))
            } else {
                None
            },
            Kind::Float(FloatType::F64) => if at + 8 <= bytes.len() {
                Some((seq![AtomView::Double(be_value(bytes.subrange(at, at + 8)) as u64)], at + 8))
            } else {
                None
            },
            Kind::UUID => if at + 16 <= bytes.len() {
                Some((seq![AtomView::UUID(be_value(bytes.subrange(at, at + 16)) as u128)], at + 16))
            } else {
                None
            },
            Kind::Str => {
                let r = spec_read_varint(bytes.skip(at));
                if r.1 > 0 && r.0 >= 0 && at + r.1 + r.0 <= bytes.len() {
                    Some(
                        (
                            seq![AtomView::Bytes(bytes.subrange(at + r.1, at + r.1 + r.0))],
                            at + r.1 + r.0,
                        ),
                    )
                } else {
                    None
                }
            },
            Kind::Rest => Some((seq![AtomView::Bytes(bytes.skip(at))], bytes.len() as int)),
            Kind::Opt(k) => if at >= bytes.len() {
                None
            } else if bytes[at] == 0 {
                Some((seq![AtomView::Absent], at + 1))
            } else {
                match spec_decode(*k, bytes, at + 1) {
                    Some((a, next)) => Some((seq![AtomView::Present] + a, next)),
                    None => None,
                }
            },
            Kind::Array(c, k) => match spec_count_read(c, bytes, at) {
                Some((n, next)) => match spec_decode_n(*k, bytes, next, n as nat) {
                    Some((a, last)) => Some(
                        (
                            if c is Typed {
                                seq![AtomView::Count(n as u32)] + a
                            } else {
                                a
                            },
                            last,
                        ),
                    ),
                    None => None,
                },
                None => None,
            },
            Kind::Buffer(c) => match spec_count_read(c, bytes, at) {
                Some((n, next)) => if next + n <= bytes.len() {
                    Some((seq![AtomView::Bytes(bytes.subrange(next, next + n))], next + n))
                } else {
                    None
                },
                None => None,
            },
            Kind::Container(ks) => spec_decode_seq(ks@, bytes, at, 0),
        }
    }
}

// ---------------------------------------------------------------------------
// Writing and reading
// ---------------------------------------------------------------------------

/// The bytes of `bytes` from `from` to `to`.
pub fn slice(bytes: &Vec<u8>, from: usize, to: usize) -> (out: Vec<u8>)
    requires
        from <= to <= bytes@.len(),
    ensures
        out@ == bytes@.subrange(from as int, to as int),
{
    let mut out: Vec<u8> = Vec::new();
    let mut i: usize = from;
    while i < to
        invariant
            from <= i <= to <= bytes@.len(),
            out@ == bytes@.subrange(from as int, i as int),
        decreases to - i,
    {
        out.push(bytes[i]);
        assert(out@ =~= bytes@.subrange(from as int, i + 1));
        i += 1;
    }
    out
}

/// Appends the bytes `b` behind their count.
fn write_counted(out: &mut Vec<u8>, c: Count, b: &Vec<u8>) -> (ok: bool)
    ensures
        ok == spec_counted(c, b@).is_some(),
        ok ==> final(out)@ == old(out)@ + spec_counted(c, b@).unwrap(),
{
    match c {
        Count::Typed(t) => {
            if b.len() as u64 > u32::MAX as u64 {
                return false;
            }
            if !write_int(out, t, b.len() as i64) {
                return false;
            }
            crate::stream::append(out, b);
            assert(out@ =~= old(out)@ + spec_counted(c, b@).unwrap());
            true
        },
        Count::Fixed(n) => {
            if b.len() != n as usize {
                return false;
            }
            crate::stream::append(out, b);
            true
        },
    }
}

/// Writes `n` values of kind `k` from the values at `i` on (see
/// [`spec_encode_n`]).
fn encode_n(k: &Kind, atoms: &Vec<Atom>, i: usize, n: u32, out: &mut Vec<u8>) -> (r: Option<usize>)
    requires
        i <= atoms@.len(),
    ensures
        match spec_encode_n(*k, atoms_view(atoms@), i as int, n as nat) {
            Some((b, j)) => r == Some(j as usize) && final(out)@ == old(out)@ + b && i <= j
                <= atoms@.len(),
            None => r.is_none(),
        },
    decreases *k, n,
{
    proof {
        reveal_with_fuel(spec_encode_n, 2);
    }
    let total = atoms.len();
    if n == 0 {
        assert(out@ + Seq::<u8>::empty() =~= out@);
        return Some(i);
    }
    let j = match encode(k, atoms, i, out) {
        Some(j) => j,
        None => {
            return None;
        },
    };
    let ghost start = old(out)@;
    let ghost mid = out@;
    let r = encode_n(k, atoms, j, n - 1, out);
    proof {
        let av = atoms_view(atoms@);
        let first = spec_encode(*k, av, i as int);
        assert(first.is_some());
        let b = first.unwrap().0;
        assert(first.unwrap().1 == j);
        assert(mid == start + b);
        let second = spec_encode_n(*k, av, j as int, (n - 1) as nat);
        match second {
            Some((more, last)) => {
                assert(out@ == mid + more);
                assert(spec_encode_n(*k, av, i as int, n as nat) == Some((b + more, last)));
                assert(start + b + more =~= start + (b + more));
            },
            None => {
                assert(spec_encode_n(*k, av, i as int, n as nat).is_none());
            },
        }
    }
    r
}

/// Writes the values of the kinds from `from` on (see
/// [`spec_encode_seq`]).
fn encode_seq(ks: &Vec<Kind>, atoms: &Vec<Atom>, i: usize, from: usize, out: &mut Vec<u8>) -> (r:
    Option<usize>)
    requires
        i <= atoms@.len(),
        from <= ks@.len(),
    ensures
        match spec_encode_seq(ks@, atoms_view(atoms@), i as int, from as int) {
            Some((b, j)) => r == Some(j as usize) && final(out)@ == old(out)@ + b && i <= j
                <= atoms@.len(),
            None => r.is_none(),
        },
    decreases ks@, ks@.len() - from,
{
    proof {
        reveal_with_fuel(spec_encode_seq, 2);
    }
    let total = atoms.len();
    if from >= ks.len() {
        assert(out@ + Seq::<u8>::empty() =~= out@);
        return Some(i);
    }
    let j = match encode(&ks[from], atoms, i, out) {
        Some(j) => j,
        None => {
            return None;
        },
    };
    let r = encode_seq(ks, atoms, j, from + 1, out);
    proof {
        let av = atoms_view(atoms@);
        match (
            spec_encode(ks@[from as int], av, i as int),
            spec_encode_seq(ks@, av, j as int, from + 1),
        ) {
            (Some((b, _)), Some((more, _))) => {
                assert(old(out)@ + b + more =~= old(out)@ + (b + more));
            },
            _ => {},
        }
    }
    r
}

/// Writes what kind `kind` reads from the values at `i` on, and says where
/// the values behind it start; `None` where the values are not what the
/// kind asks for (see [`spec_encode`]). What was appended to `out` before
/// the mismatch was found stays there.
pub fn encode(kind: &Kind, atoms: &Vec<Atom>, i: usize, out: &mut Vec<u8>) -> (r: Option<usize>)
    ensures
        match spec_encode(*kind, atoms_view(atoms@), i as int) {
            Some((b, j)) => r == Some(j as usize) && final(out)@ == old(out)@ + b && i <= j
                <= atoms@.len(),
            None => r.is_none(),
        },
    decreases *kind, 0nat,
{
    if i > atoms.len() {
        return None;
    }
    let ghost av = atoms_view(atoms@);
    match kind {
        Kind::Container(ks) => {
            return encode_seq(ks, atoms, i, 0, out);
        },
        Kind::Array(Count::Fixed(n), k) => {
            return encode_n(k, atoms, i, *n, out);
        },
        _ => {},
    }
    if i >= atoms.len() {
        return None;
    }
    assert(av[i as int] == atoms@[i as int]@);
    match (kind, &atoms[i]) {
        (Kind::Bool, Atom::Bool(b)) => {
            out.push(
                if *b {
                    1u8
                } else {
                    0u8
                },
            );
            assert(out@ =~= old(out)@ + seq![
                if *b {
                    1u8
                } else {
                    0u8
                },
            ]);
            Some(i + 1)
        },
        (Kind::Int(t), Atom::Int(v)) => {
            if write_int(out, *t, *v) {
                Some(i + 1)
            } else {
                None
            }
        },
        (Kind::Float(FloatType::F32), Atom::Float(v)) => {
            proof {
                lemma_pow256();
            }
            write_be(out, *v as u128, 4);
            Some(i + 1)
        },
        (Kind::Float(FloatType::F64), Atom::Double(v)) => {
            proof {
                lemma_pow256();
            }
            write_be(out, *v as u128, 8);
            Some(i + 1)
        },
        (Kind::UUID, Atom::UUID(v)) => {
            proof {
                lemma_pow256();
            }
            write_be(out, *v, 16);
            Some(i + 1)
        },
        (Kind::Str, Atom::Bytes(b)) => {
            if b.len() > i32::MAX as usize {
                return None;
            }
            write_varint(out, b.len() as i32);
            crate::stream::append(out, b);
            assert(out@ =~= old(out)@ + (spec_write_varint(b@.len() as i32) + b@));
            Some(i + 1)
        },
        (Kind::Rest, Atom::Bytes(b)) => {
            crate::stream::append(out, b);
            Some(i + 1)
        },
        (Kind::Opt(_), Atom::Absent) => {
            out.push(0u8);
            assert(out@ =~= old(out)@ + seq![0u8]);
            Some(i + 1)
        },
        (Kind::Opt(k), Atom::Present) => {
            out.push(1u8);
            let ghost mid = out@;
            let r = encode(k, atoms, i + 1, out);
            proof {
                match spec_encode(**k, av, i + 1) {
                    Some((b, _)) => {
                        assert(old(out)@ + seq![1u8] + b =~= old(out)@ + (seq![1u8] + b));
                        assert(mid =~= old(out)@ + seq![1u8]);
                    },
                    None => {},
                }
            }
            r
        },
        (Kind::Array(Count::Typed(t), k), Atom::Count(n)) => {
            if !write_int(out, *t, *n as i64) {
                return None;
            }
            let r = encode_n(k, atoms, i + 1, *n, out);
            proof {
                match (spec_int_bytes(*t, *n as int), spec_encode_n(**k, av, i + 1, *n as nat)) {
                    (Some(prefix), Some((b, _))) => {
                        assert(old(out)@ + prefix + b =~= old(out)@ + (prefix + b));
                    },
                    _ => {},
                }
            }
            r
        },
        (Kind::Buffer(c), Atom::Bytes(b)) => {
            if write_counted(out, *c, b) {
                Some(i + 1)
            } else {
                None
            }
        },
        _ => None,
    }
}

/// The body of a packet of kind `kind` with the values `atoms`: every value
/// has to be written.
pub fn encode_body(kind: &Kind, atoms: &Vec<Atom>) -> (r: Option<Vec<u8>>)
    ensures
        match spec_encode(*kind, atoms_view(atoms@), 0) {
            Some((b, j)) => if j == atoms@.len() {
                r matches Some(out) && out@ == b
            } else {
                r.is_none()
            },
            None => r.is_none(),
        },
{
    let mut out: Vec<u8> = Vec::new();
    match encode(kind, atoms, 0, &mut out) {
        Some(j) => {
            if j == atoms.len() {
                proof {
                    let b = spec_encode(*kind, atoms_view(atoms@), 0).unwrap().0;
                    assert(Seq::<u8>::empty() + b =~= b);
                }
                Some(out)
            } else {
                None
            }
        },
        None => None,
    }
}

/// The number of bytes or elements that follows, and where they start.
fn read_count(bytes: &Vec<u8>, at: usize, c: Count) -> (r: Option<(u32, usize)>)
    requires
        at <= bytes@.len(),
    ensures
        match spec_count_read(c, bytes@, at as int) {
            Some((n, next)) => r == Some((n as u32, next as usize)) && at <= next <= bytes@.len(),
            None => r.is_none(),
        },
{
    match c {
        Count::Typed(t) => match read_int(bytes, at, t) {
            Some((n, next)) => {
                if 0 <= n && n <= u32::MAX as i64 {
                    Some((n as u32, next))
                } else {
                    None
                }
            },
            None => None,
        },
        Count::Fixed(n) => Some((n, at)),
    }
}

/// Reads `n` values of kind `k` (see [`spec_decode_n`]).
fn decode_n(k: &Kind, bytes: &Vec<u8>, at: usize, n: u32, out: &mut Vec<Atom>) -> (r: Option<usize>)
    ensures
        match spec_decode_n(*k, bytes@, at as int, n as nat) {
            Some((a, next)) => r == Some(next as usize) && atoms_view(final(out)@) == atoms_view(
                old(out)@,
            ) + a && at <= next <= bytes@.len(),
            None => r.is_none(),
        },
    decreases *k, n,
{
    proof {
        reveal_with_fuel(spec_decode_n, 2);
    }
    let total = bytes.len();
    if n == 0 {
        if at <= bytes.len() {
            assert(atoms_view(out@) + Seq::<AtomView>::empty() =~= atoms_view(out@));
            return Some(at);
        } else {
            return None;
        }
    }
    let next = match decode(k, bytes, at, out) {
        Some(next) => next,
        None => {
            return None;
        },
    };
    let r = decode_n(k, bytes, next, n - 1, out);
    proof {
        match (spec_decode(*k, bytes@, at as int), spec_decode_n(*k, bytes@, next as int, (n - 1) as nat)) {
            (Some((a, _)), Some((more, _))) => {
                assert(atoms_view(old(out)@) + a + more =~= atoms_view(old(out)@) + (a + more));
            },
            _ => {},
        }
    }
    r
}

/// Reads the values of the kinds from `from` on (see [`spec_decode_seq`]).
fn decode_seq(ks: &Vec<Kind>, bytes: &Vec<u8>, at: usize, from: usize, out: &mut Vec<Atom>) -> (r:
    Option<usize>)
    requires
        from <= ks@.len(),
    ensures
        match spec_decode_seq(ks@, bytes@, at as int, from as int) {
            Some((a, next)) => r == Some(next as usize) && atoms_view(final(out)@) == atoms_view(
                old(out)@,
            ) + a && at <= next <= bytes@.len(),
            None => r.is_none(),
        },
    decreases ks@, ks@.len() - from,
{
    proof {
        reveal_with_fuel(spec_decode_seq, 2);
    }
    let total = bytes.len();
    if from >= ks.len() {
        if at <= bytes.len() {
            assert(atoms_view(out@) + Seq::<AtomView>::empty() =~= atoms_view(out@));
            return Some(at);
        } else {
            return None;
        }
    }
    let next = match decode(&ks[from], bytes, at, out) {
        Some(next) => next,
        None => {
            return None;
        },
    };
    let r = decode_seq(ks, bytes, next, from + 1, out);
    proof {
        match (
            spec_decode(ks@[from as int], bytes@, at as int),
            spec_decode_seq(ks@, bytes@, next as int, from + 1),
        ) {
            (Some((a, _)), Some((more, _))) => {
                assert(atoms_view(old(out)@) + a + more =~= atoms_view(old(out)@) + (a + more));
            },
            _ => {},
        }
    }
    r
}

/// Appends one value.
fn push_atom(out: &mut Vec<Atom>, a: Atom)
    ensures
        atoms_view(final(out)@) == atoms_view(old(out)@) + seq![a@],
        final(out)@ == old(out)@.push(a),
{
    out.push(a);
    assert(atoms_view(out@) =~= atoms_view(old(out)@) + seq![a@]);
}

/// Reads the values of kind `kind` from `at` on, appends them to `out`, and
/// says where the bytes behind them start; `None` where the bytes end too
/// early or are not what the kind asks for (see [`spec_decode`]). What was
/// appended to `out` before that was found stays there.
pub fn decode(kind: &Kind, bytes: &Vec<u8>, at: usize, out: &mut Vec<Atom>) -> (r: Option<usize>)
    ensures
        match spec_decode(*kind, bytes@, at as int) {
            Some((a, next)) => r == Some(next as usize) && atoms_view(final(out)@) == atoms_view(
                old(out)@,
            ) + a && at <= next <= bytes@.len(),
            None => r.is_none(),
        },
    decreases *kind, 0nat,
{
    if at > bytes.len() {
        return None;
    }
    let len = bytes.len();
    match kind {
        Kind::Bool => {
            if at < len {
                push_atom(out, Atom::Bool(bytes[at] != 0));
                Some(at + 1)
            } else {
                None
            }
        },
        Kind::Int(t) => match read_int(bytes, at, *t) {
            Some((v, next)) => {
                push_atom(out, Atom::Int(v));
                Some(next)
            },
            None => None,
        },
        Kind::Float(FloatType::F32) => match read_be(bytes, at, 4) {
            Some(v) => {
                proof {
                    lemma_pow256();
                    crate::wire::lemma_be_value_bound(bytes@.subrange(at as int, at + 4));
                }
                push_atom(out, Atom::Float(v as u32));
                Some(at + 4)
            },
            None => None,
        },
        Kind::Float(FloatType::F64) => match read_be(bytes, at, 8) {
            Some(v) => {
                proof {
                    lemma_pow256();
                    crate::wire::lemma_be_value_bound(bytes@.subrange(at as int, at + 8));
                }
                push_atom(out, Atom::Double(v as u64));
                Some(at + 8)
            },
            None => None,
        },
        Kind::UUID => match read_be(bytes, at, 16) {
            Some(v) => {
                push_atom(out, Atom::UUID(v));
                Some(at + 16)
            },
            None => None,
        },
        Kind::Str => {
            let rest = crate::stream::tail(bytes, at);
            assert(rest@ =~= bytes@.skip(at as int));
            let r = read_varint(rest.as_slice());
            if r.1 > 0 && r.0 >= 0 && r.0 as usize <= len - at - r.1 as usize {
                let from = at + r.1 as usize;
                let to = from + r.0 as usize;
                push_atom(out, Atom::Bytes(slice(bytes, from, to)));
                Some(to)
            } else {
                None
            }
        },
        Kind::Rest => {
            let rest = crate::stream::tail(bytes, at);
            assert(rest@ =~= bytes@.skip(at as int));
            push_atom(out, Atom::Bytes(rest));
            Some(len)
        },
        Kind::Opt(k) => {
            if at >= len {
                None
            } else if bytes[at] == 0 {
                push_atom(out, Atom::Absent);
                Some(at + 1)
            } else {
                push_atom(out, Atom::Present);
                let r = decode(k, bytes, at + 1, out);
                proof {
                    match spec_decode(**k, bytes@, at + 1) {
                        Some((a, _)) => {
                            assert(atoms_view(old(out)@) + seq![AtomView::Present] + a
                                =~= atoms_view(old(out)@) + (seq![AtomView::Present] + a));
                        },
                        None => {},
                    }
                }
                r
            }
        },
        Kind::Array(c, k) => match read_count(bytes, at, *c) {
            Some((n, next)) => {
                match c {
                    Count::Typed(_) => {
                        push_atom(out, Atom::Count(n));
                    },
                    Count::Fixed(_) => {
                        assert(atoms_view(out@) + Seq::<AtomView>::empty() =~= atoms_view(out@));
                    },
                }
                let r = decode_n(k, bytes, next, n, out);
                proof {
                    match spec_decode_n(**k, bytes@, next as int, n as nat) {
                        Some((a, _)) => {
                            assert(atoms_view(old(out)@) + seq![AtomView::Count(n)] + a
                                =~= atoms_view(old(out)@) + (seq![AtomView::Count(n)] + a));
                        },
                        None => {},
                    }
                }
                r
            },
            None => None,
        },
        Kind::Buffer(c) => match read_count(bytes, at, *c) {
            Some((n, next)) => {
                if n as usize <= len - next {
                    push_atom(out, Atom::Bytes(slice(bytes, next, next + n as usize)));
                    Some(next + n as usize)
                } else {
                    None
                }
            },
            None => None,
        },
        Kind::Container(ks) => decode_seq(ks, bytes, at, 0, out),
    }
}

/// The values of a packet of kind `kind` with the body `bytes`: the whole
/// body has to be read.
pub fn decode_body(kind: &Kind, bytes: &Vec<u8>) -> (r: Option<Vec<Atom>>)
    ensures
        match spec_decode(*kind, bytes@, 0) {
            Some((a, next)) => if next == bytes@.len() {
                r matches Some(out) && atoms_view(out@) == a
            } else {
                r.is_none()
            },
            None => r.is_none(),
        },
{
    let mut out: Vec<Atom> = Vec::new();
    match decode(kind, bytes, 0, &mut out) {
        Some(next) => {
            if next == bytes.len() {
                proof {
                    let a = spec_decode(*kind, bytes@, 0).unwrap().0;
                    assert(atoms_view(Seq::<Atom>::empty()) + a =~= a);
                }
                Some(out)
            } else {
                None
            }
        },
        None => None,
    }
}

/// The values that a body of kind `kind` holds, if the whole of `bytes` is
/// one row of such values.
pub open spec fn spec_body_values(kind: Kind, bytes: Seq<u8>) -> Option<Seq<AtomView>> {
    match spec_decode(kind, bytes, 0) {
        Some((a, next)) => if next == bytes.len() {
            Some(a)
        } else {
            None
        },
        None => None,
    }
}

/// The values of the packet `p`, which is of kind `kind`. A body that ends
/// too early, holds what the kind does not ask for, or goes on behind the
/// last value is invalid data.
pub fn read_body(kind: &Kind, p: &Packet) -> (r: Result<Vec<Atom>, StreamError>)
    ensures
        match spec_body_values(*kind, p.data@) {
            Some(a) => r matches Ok(out) && atoms_view(out@) == a,
            None => r matches Err(e) && e == StreamError::InvalidData,
        },
{
    match decode_body(kind, &p.data) {
        Some(out) => Ok(out),
        None => Err(StreamError::InvalidData),
    }
}

// ---------------------------------------------------------------------------
// Reading gives back what was written
// ---------------------------------------------------------------------------

/// Whether no part of the kind takes every byte up to the end of the body.
pub open spec fn no_rest(kind: Kind) -> bool
    decreases kind, 0nat,
{
    match kind {
        Kind::Rest => false,
        Kind::Opt(k) => no_rest(*k),
        Kind::Array(_, k) => no_rest(*k),
        Kind::Container(ks) => no_rest_seq(ks@, 0),
        _ => true,
    }
}

/// Whether no part of the kinds from `from` on takes every byte up to the
/// end of the body.
pub open spec fn no_rest_seq(ks: Seq<Kind>, from: int) -> bool
    decreases ks, ks.len() - from,
{
    if from < 0 || from >= ks.len() {
        true
    } else {
        no_rest(ks[from]) && no_rest_seq(ks, from + 1)
    }
}

/// Whether the only part of the kind that takes every byte up to the end of
/// the body, if there is one, is its last part.
pub open spec fn tail_ok(kind: Kind) -> bool
    decreases kind, 0nat,
{
    match kind {
        Kind::Opt(k) => tail_ok(*k),
        Kind::Array(_, k) => no_rest(*k),
        Kind::Container(ks) => tail_ok_seq(ks@, 0),
        _ => true,
    }
}

/// [`tail_ok`] for the kinds from `from` on.
pub open spec fn tail_ok_seq(ks: Seq<Kind>, from: int) -> bool
    decreases ks, ks.len() - from,
{
    if from < 0 || from >= ks.len() {
        true
    } else if from == ks.len() - 1 {
        tail_ok(ks[from])
    } else {
        no_rest(ks[from]) && tail_ok_seq(ks, from + 1)
    }
}

/// A kind without such a part has it at the end at most.
pub proof fn lemma_no_rest_tail_ok(kind: Kind)
    requires
        no_rest(kind),
    ensures
        tail_ok(kind),
    decreases kind, 0nat,
{
    match kind {
        Kind::Opt(k) => {
            lemma_no_rest_tail_ok(*k);
        },
        Kind::Container(ks) => {
            lemma_no_rest_tail_ok_seq(ks@, 0);
        },
        _ => {},
    }
}

/// [`lemma_no_rest_tail_ok`] for the kinds from `from` on.
pub proof fn lemma_no_rest_tail_ok_seq(ks: Seq<Kind>, from: int)
    requires
        no_rest_seq(ks, from),
    ensures
        tail_ok_seq(ks, from),
    decreases ks, ks.len() - from,
{
    if 0 <= from < ks.len() {
        if from == ks.len() - 1 {
            lemma_no_rest_tail_ok(ks[from]);
        } else {
            lemma_no_rest_tail_ok_seq(ks, from + 1);
        }
    }
}

/// Whether reading `kind` at the end of `before` from `before`, `b` and
/// `after` gives the values `i` to `j`, and ends behind `b`.
pub open spec fn reads_back(
    kind: Kind,
    atoms: Seq<AtomView>,
    i: int,
    j: int,
    before: Seq<u8>,
    b: Seq<u8>,
    after: Seq<u8>,
) -> bool {
    &&& 0 <= i <= j <= atoms.len()
    &&& spec_decode(kind, before + b + after, before.len() as int) == Some(
        (atoms.subrange(i, j), (before.len() + b.len()) as int),
    )
}

/// What was written for `n` values of one kind is read back as it was.
pub proof fn round_trip_n(
    k: Kind,
    atoms: Seq<AtomView>,
    i: int,
    n: nat,
    before: Seq<u8>,
    after: Seq<u8>,
)
    requires
        0 <= i <= atoms.len(),
        spec_encode_n(k, atoms, i, n).is_some(),
        no_rest(k),
    ensures
        ({
            let b = spec_encode_n(k, atoms, i, n).unwrap().0;
            let j = spec_encode_n(k, atoms, i, n).unwrap().1;
            &&& i <= j <= atoms.len()
            &&& spec_decode_n(k, before + b + after, before.len() as int, n) == Some(
                (atoms.subrange(i, j), (before.len() + b.len()) as int),
            )
        }),
    decreases k, n,
{
    reveal_with_fuel(spec_encode_n, 2);
    reveal_with_fuel(spec_decode_n, 2);
    let b = spec_encode_n(k, atoms, i, n).unwrap().0;
    let j = spec_encode_n(k, atoms, i, n).unwrap().1;
    if n == 0 {
        assert(atoms.subrange(i, i) =~= Seq::<AtomView>::empty());
        assert(before + b + after =~= before + after);
    } else {
        let first = spec_encode(k, atoms, i).unwrap();
        let rest = spec_encode_n(k, atoms, first.1, (n - 1) as nat).unwrap();
        round_trip(k, atoms, i, before, rest.0 + after);
        round_trip_n(k, atoms, first.1, (n - 1) as nat, before + first.0, after);
        assert(before + first.0 + (rest.0 + after) =~= before + b + after);
        assert(before + first.0 + rest.0 + after =~= before + b + after);
        assert(atoms.subrange(i, first.1) + atoms.subrange(first.1, j) =~= atoms.subrange(i, j));
    }
}

/// What was written for values of several kinds is read back as it was.
pub proof fn round_trip_seq(
    ks: Seq<Kind>,
    atoms: Seq<AtomView>,
    i: int,
    from: int,
    before: Seq<u8>,
    after: Seq<u8>,
)
    requires
        0 <= i <= atoms.len(),
        0 <= from <= ks.len(),
        spec_encode_seq(ks, atoms, i, from).is_some(),
        no_rest_seq(ks, from) || (tail_ok_seq(ks, from) && after.len() == 0),
    ensures
        ({
            let b = spec_encode_seq(ks, atoms, i, from).unwrap().0;
            let j = spec_encode_seq(ks, atoms, i, from).unwrap().1;
            &&& i <= j <= atoms.len()
            &&& spec_decode_seq(ks, before + b + after, before.len() as int, from) == Some(
                (atoms.subrange(i, j), (before.len() + b.len()) as int),
            )
        }),
    decreases ks, ks.len() - from,
{
    reveal_with_fuel(spec_encode_seq, 2);
    reveal_with_fuel(spec_decode_seq, 2);
    reveal_with_fuel(no_rest_seq, 2);
    reveal_with_fuel(tail_ok_seq, 2);
    let b = spec_encode_seq(ks, atoms, i, from).unwrap().0;
    let j = spec_encode_seq(ks, atoms, i, from).unwrap().1;
    if from >= ks.len() {
        assert(atoms.subrange(i, i) =~= Seq::<AtomView>::empty());
        assert(before + b + after =~= before + after);
    } else {
        let first = spec_encode(ks[from], atoms, i).unwrap();
        let rest = spec_encode_seq(ks, atoms, first.1, from + 1).unwrap();
        if no_rest_seq(ks, from) {
            lemma_no_rest_tail_ok_seq(ks, from);
        }
        if from == ks.len() - 1 {
            assert(rest.0 =~= Seq::<u8>::empty());
            assert(rest.0 + after =~= after);
            if no_rest(ks[from]) {
                lemma_no_rest_tail_ok(ks[from]);
            }
        }
        round_trip(ks[from], atoms, i, before, rest.0 + after);
        round_trip_seq(ks, atoms, first.1, from + 1, before + first.0, after);
        assert(before + first.0 + (rest.0 + after) =~= before + b + after);
        assert(before + first.0 + rest.0 + after =~= before + b + after);
        assert(atoms.subrange(i, first.1) + atoms.subrange(first.1, j) =~= atoms.subrange(i, j));
    }
}

/// [`round_trip`] for a truth value.
proof fn round_trip_bool(atoms: Seq<AtomView>, i: int, before: Seq<u8>, after: Seq<u8>)
    requires
        spec_encode(Kind::Bool, atoms, i).is_some(),
    ensures
        reads_back(
            Kind::Bool,
            atoms,
            i,
            spec_encode(Kind::Bool, atoms, i).unwrap().1,
            before,
            spec_encode(Kind::Bool, atoms, i).unwrap().0,
            after,
        ),
{
    let b = spec_encode(Kind::Bool, atoms, i).unwrap().0;
    let all = before + b + after;
    assert(all[before.len() as int] == b[0]);
    assert(atoms.subrange(i, i + 1) =~= seq![atoms[i]]);
}

/// [`round_trip`] for an integer.
proof fn round_trip_int(t: IntType, atoms: Seq<AtomView>, i: int, before: Seq<u8>, after: Seq<u8>)
    requires
        spec_encode(Kind::Int(t), atoms, i).is_some(),
    ensures
        reads_back(
            Kind::Int(t),
            atoms,
            i,
            spec_encode(Kind::Int(t), atoms, i).unwrap().1,
            before,
            spec_encode(Kind::Int(t), atoms, i).unwrap().0,
            after,
        ),
{
    let v = atoms[i]->Int_0;
    int_round_trip(t, v as int, before, after);
    assert(atoms.subrange(i, i + 1) =~= seq![atoms[i]]);
}

/// [`round_trip`] for a number of `n` bytes that is written as its bits.
proof fn round_trip_bits(
    kind: Kind,
    n: nat,
    v: int,
    atoms: Seq<AtomView>,
    i: int,
    before: Seq<u8>,
    after: Seq<u8>,
)
    requires
        0 <= i < atoms.len(),
        0 <= v < pow256(n),
        (kind == Kind::Float(FloatType::F32) && n == 4 && atoms[i] == AtomView::Float(v as u32)) || (
        kind == Kind::Float(FloatType::F64) && n == 8 && atoms[i] == AtomView::Double(v as u64)) || (
        kind == Kind::UUID && n == 16 && atoms[i] == AtomView::UUID(v as u128)),
    ensures
        spec_encode(kind, atoms, i) == Some((be_bytes(v, n), i + 1)),
        reads_back(kind, atoms, i, i + 1, before, be_bytes(v, n), after),
{
    lemma_pow256();
    let b = be_bytes(v, n);
    let all = before + b + after;
    let at = before.len() as int;
    crate::wire::lemma_be_round_trip(v, n);
    assert(all.subrange(at, at + n) =~= b);
    assert(atoms.subrange(i, i + 1) =~= seq![atoms[i]]);
}

/// [`round_trip`] for bytes behind their number as a varint.
proof fn round_trip_str(atoms: Seq<AtomView>, i: int, before: Seq<u8>, after: Seq<u8>)
    requires
        spec_encode(Kind::Str, atoms, i).is_some(),
    ensures
        reads_back(
            Kind::Str,
            atoms,
            i,
            spec_encode(Kind::Str, atoms, i).unwrap().1,
            before,
            spec_encode(Kind::Str, atoms, i).unwrap().0,
            after,
        ),
{
    let b = spec_encode(Kind::Str, atoms, i).unwrap().0;
    let all = before + b + after;
    let at = before.len() as int;
    let bytes = atoms[i]->Bytes_0;
    let n = bytes.len() as i32;
    crate::varint::varint_round_trip(n, bytes + after);
    let used = spec_write_varint(n).len() as int;
    assert(all.skip(at) =~= spec_write_varint(n) + (bytes + after));
    assert(all.subrange(at + used, at + used + n) =~= bytes);
    assert(atoms.subrange(i, i + 1) =~= seq![atoms[i]]);
}

/// [`round_trip`] for the bytes up to the end.
proof fn round_trip_rest(atoms: Seq<AtomView>, i: int, before: Seq<u8>)
    requires
        spec_encode(Kind::Rest, atoms, i).is_some(),
    ensures
        reads_back(
            Kind::Rest,
            atoms,
            i,
            spec_encode(Kind::Rest, atoms, i).unwrap().1,
            before,
            spec_encode(Kind::Rest, atoms, i).unwrap().0,
            Seq::<u8>::empty(),
        ),
{
    let b = spec_encode(Kind::Rest, atoms, i).unwrap().0;
    let all = before + b + Seq::<u8>::empty();
    assert(all.skip(before.len() as int) =~= b);
    assert(atoms.subrange(i, i + 1) =~= seq![atoms[i]]);
}

/// [`round_trip`] for bytes behind their count.
proof fn round_trip_buffer(c: Count, atoms: Seq<AtomView>, i: int, before: Seq<u8>, after: Seq<u8>)
    requires
        spec_encode(Kind::Buffer(c), atoms, i).is_some(),
    ensures
        reads_back(
            Kind::Buffer(c),
            atoms,
            i,
            spec_encode(Kind::Buffer(c), atoms, i).unwrap().1,
            before,
            spec_encode(Kind::Buffer(c), atoms, i).unwrap().0,
            after,
        ),
{
    let b = spec_encode(Kind::Buffer(c), atoms, i).unwrap().0;
    let all = before + b + after;
    let at = before.len() as int;
    let bytes = atoms[i]->Bytes_0;
    match c {
        Count::Typed(t) => {
            let prefix = spec_int_bytes(t, bytes.len() as int).unwrap();
            int_round_trip(t, bytes.len() as int, before, bytes + after);
            assert(before + prefix + (bytes + after) =~= all);
            let next = at + prefix.len();
            assert(all.subrange(next, next + bytes.len()) =~= bytes);
        },
        Count::Fixed(n) => {
            assert(all.subrange(at, at + n) =~= bytes);
        },
    }
    assert(atoms.subrange(i, i + 1) =~= seq![atoms[i]]);
}

/// [`round_trip`] for an array behind its count.
proof fn round_trip_counted(
    t: IntType,
    k: Kind,
    atoms: Seq<AtomView>,
    i: int,
    before: Seq<u8>,
    after: Seq<u8>,
)
    requires
        0 <= i < atoms.len(),
        atoms[i] is Count,
        spec_int_bytes(t, atoms[i]->Count_0 as int).is_some(),
        spec_encode_n(k, atoms, i + 1, atoms[i]->Count_0 as nat).is_some(),
        ({
            let n = atoms[i]->Count_0;
            let prefix = spec_int_bytes(t, n as int).unwrap();
            let inner = spec_encode_n(k, atoms, i + 1, n as nat).unwrap();
            &&& i + 1 <= inner.1 <= atoms.len()
            &&& spec_decode_n(
                k,
                before + prefix + inner.0 + after,
                (before.len() + prefix.len()) as int,
                n as nat,
            ) == Some(
                (
                    atoms.subrange(i + 1, inner.1),
                    (before.len() + prefix.len() + inner.0.len()) as int,
                ),
            )
        }),
    ensures
        ({
            let n = atoms[i]->Count_0;
            let prefix = spec_int_bytes(t, n as int).unwrap();
            let inner = spec_encode_n(k, atoms, i + 1, n as nat).unwrap();
            &&& spec_count_read(
                Count::Typed(t),
                before + (prefix + inner.0) + after,
                before.len() as int,
            ) == Some((n as int, (before.len() + prefix.len()) as int))
            &&& before + (prefix + inner.0) + after == before + prefix + inner.0 + after
            &&& seq![AtomView::Count(n)] + atoms.subrange(i + 1, inner.1) == atoms.subrange(
                i,
                inner.1,
            )
        }),
{
    let n = atoms[i]->Count_0;
    let prefix = spec_int_bytes(t, n as int).unwrap();
    let inner = spec_encode_n(k, atoms, i + 1, n as nat).unwrap();
    let all = before + (prefix + inner.0) + after;
    int_round_trip(t, n as int, before, inner.0 + after);
    assert(before + prefix + (inner.0 + after) =~= all);
    assert(before + prefix + inner.0 + after =~= all);
    assert(seq![atoms[i]] + atoms.subrange(i + 1, inner.1) =~= atoms.subrange(i, inner.1));
}

/// What was written for the values of a kind is read back as it was,
/// whatever stands before it, and whatever stands behind it unless a part
/// of the kind takes every byte up to the end: then that part has to be the
/// last, and nothing may stand behind it.
pub proof fn round_trip(kind: Kind, atoms: Seq<AtomView>, i: int, before: Seq<u8>, after: Seq<u8>)
    requires
        spec_encode(kind, atoms, i).is_some(),
        no_rest(kind) || (tail_ok(kind) && after.len() == 0),
    ensures
        reads_back(
            kind,
            atoms,
            i,
            spec_encode(kind, atoms, i).unwrap().1,
            before,
            spec_encode(kind, atoms, i).unwrap().0,
            after,
        ),
    decreases kind, 0nat,
{
    match kind {
        Kind::Container(ks) => {
            round_trip_seq(ks@, atoms, i, 0, before, after);
        },
        Kind::Array(Count::Fixed(n), k) => {
            round_trip_n(*k, atoms, i, n as nat, before, after);
        },
        Kind::Bool => {
            round_trip_bool(atoms, i, before, after);
        },
        Kind::Int(t) => {
            round_trip_int(t, atoms, i, before, after);
        },
        Kind::Float(FloatType::F32) => {
            lemma_pow256();
            round_trip_bits(kind, 4, atoms[i]->Float_0 as int, atoms, i, before, after);
        },
        Kind::Float(FloatType::F64) => {
            lemma_pow256();
            round_trip_bits(kind, 8, atoms[i]->Double_0 as int, atoms, i, before, after);
        },
        Kind::UUID => {
            lemma_pow256();
            round_trip_bits(kind, 16, atoms[i]->UUID_0 as int, atoms, i, before, after);
        },
        Kind::Str => {
            round_trip_str(atoms, i, before, after);
        },
        Kind::Rest => {
            assert(after =~= Seq::<u8>::empty());
            round_trip_rest(atoms, i, before);
        },
        Kind::Opt(k) => {
            let b = spec_encode(kind, atoms, i).unwrap().0;
            let j = spec_encode(kind, atoms, i).unwrap().1;
            let all = before + b + after;
            assert(all[before.len() as int] == b[0]);
            if atoms[i] is Absent {
                assert(atoms.subrange(i, i + 1) =~= seq![atoms[i]]);
            } else {
                let inner = spec_encode(*k, atoms, i + 1).unwrap();
                round_trip(*k, atoms, i + 1, before + seq![1u8], after);
                assert(before + seq![1u8] + inner.0 + after =~= all);
                assert(seq![atoms[i]] + atoms.subrange(i + 1, j) =~= atoms.subrange(i, j));
            }
        },
        Kind::Array(Count::Typed(t), k) => {
            let n = atoms[i]->Count_0;
            let prefix = spec_int_bytes(t, n as int).unwrap();
            round_trip_n(*k, atoms, i + 1, n as nat, before + prefix, after);
            round_trip_counted(t, *k, atoms, i, before, after);
        },
        Kind::Buffer(c) => {
            round_trip_buffer(c, atoms, i, before, after);
        },
    }
}

/// The body of a packet is read back as what was written: for every kind
/// of packet in which only the last part, if any, takes every byte up to the
/// end, and for every row of values that fits the kind, reading the bytes
/// that were written gives the values, and takes every byte.
pub proof fn body_round_trip(kind: Kind, atoms: Seq<AtomView>)
    requires
        tail_ok(kind),
        spec_encode(kind, atoms, 0) matches Some((b, j)) && j == atoms.len(),
    ensures
        spec_decode(kind, spec_encode(kind, atoms, 0).unwrap().0, 0) == Some(
            (atoms, spec_encode(kind, atoms, 0).unwrap().0.len() as int),
        ),
{
    let b = spec_encode(kind, atoms, 0).unwrap().0;
    round_trip(kind, atoms, 0, Seq::<u8>::empty(), Seq::<u8>::empty());
    assert(Seq::<u8>::empty() + b + Seq::<u8>::empty() =~= b);
    assert(atoms.subrange(0, atoms.len() as int) =~= atoms);
}

} // verus!
