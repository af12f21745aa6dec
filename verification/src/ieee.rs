//! Real numbers on the wire. The protocol sends them in the binary formats
//! of IEEE 754; the server keeps them in fixed point, as whole numbers of
//! 1/4096. This module turns one into the other in integer arithmetic.

use vstd::prelude::*;

verus! {

/// Bits of the fraction of a fixed-point number.
pub const FRACTION_BITS: u32 = 12;

/// 2^n.
pub open spec fn pow2(n: nat) -> int
    decreases n,
{
    if n == 0 {
        1
    } else {
        2 * pow2((n - 1) as nat)
    }
}

/// A binary format: the width of its mantissa and of its exponent.
#[derive(Clone, Copy, Debug, PartialEq, Eq, Structural)]
pub struct Format {
    pub mantissa_bits: u32,
    pub exponent_bits: u32,
}

impl Format {
    /// The format of 32 bits.
    pub open spec fn spec_single() -> Format {
        Format { mantissa_bits: 23, exponent_bits: 8 }
    }

    /// The format of 64 bits.
    pub open spec fn spec_double() -> Format {
        Format { mantissa_bits: 52, exponent_bits: 11 }
    }

    #[verifier::when_used_as_spec(spec_single)]
    pub fn single() -> (f: Format)
        ensures
            f == Format::spec_single(),
    {
        Format { mantissa_bits: 23, exponent_bits: 8 }
    }

    #[verifier::when_used_as_spec(spec_double)]
    pub fn double() -> (f: Format)
        ensures
            f == Format::spec_double(),
    {
        Format { mantissa_bits: 52, exponent_bits: 11 }
    }

    /// Whether the format is one of the two.
    pub open spec fn wf(self) -> bool {
        self == Format::spec_single() || self == Format::spec_double()
    }

    /// What is added to an exponent before it is written.
    pub open spec fn spec_bias(self) -> int {
        pow2((self.exponent_bits - 1) as nat) - 1
    }
}

/// The position of the highest bit of `a` that is set.
pub open spec fn is_top_bit(a: int, p: nat) -> bool {
    pow2(p) <= a < pow2(p + 1)
}

/// The bits of the number `v / 4096` in the format, given the position `p`
/// of the highest bit of the magnitude of `v`: the sign, the exponent
/// `p - 12` with the bias added, and the magnitude moved up to the width of
/// the mantissa, without its highest bit. No bits are set for 0.
pub open spec fn spec_to_bits(f: Format, v: int, p: nat) -> int {
    if v == 0 {
        0
    } else {
        let a = if v < 0 {
            -v
        } else {
            v
        };
        (if v < 0 {
            pow2((f.mantissa_bits + f.exponent_bits) as nat)
        } else {
            0
        }) + (p - FRACTION_BITS + f.spec_bias()) * pow2(f.mantissa_bits as nat) + (a * pow2(
            (f.mantissa_bits - p) as nat,
        ) - pow2(f.mantissa_bits as nat))
    }
}

/// The nearest whole number to `m / 2^r`, halves rounded up.
pub open spec fn round_shift(m: int, r: nat) -> int {
    if r == 0 {
        m
    } else {
        (m + pow2((r - 1) as nat)) / pow2(r)
    }
}

/// The fixed-point number nearest to the number that the bits stand for,
/// halves rounded away from zero; `None` for an infinity, for what is not a
/// number, and for a number whose magnitude is 2^50 or more.
pub open spec fn spec_from_bits(f: Format, bits: int) -> Option<int> {
    let m_unit = pow2(f.mantissa_bits as nat);
    let e_unit = pow2(f.exponent_bits as nat);
    let negative = bits / (m_unit * e_unit) % 2 == 1;
    let e = bits / m_unit % e_unit;
    let m = bits % m_unit;
    let shift = e - f.spec_bias() - f.mantissa_bits + FRACTION_BITS;
    if e == e_unit - 1 {
        None
    } else if e == 0 {
        Some(0int)
    } else if shift >= 62 - f.mantissa_bits {
        None
    } else {
        let magnitude = if shift >= 0 {
            (m_unit + m) * pow2(shift as nat)
        } else if -shift > f.mantissa_bits + 2 {
            0
        } else {
            round_shift(m_unit + m, (-shift) as nat)
        };
        Some(
            if negative {
                -magnitude
            } else {
                magnitude
            },
        )
    }
}

/// Small powers of two.
pub proof fn lemma_pow2_values()
    ensures
        pow2(0) == 1,
        pow2(7) == 0x80,
        pow2(8) == 0x100,
        pow2(10) == 0x400,
        pow2(11) == 0x800,
        pow2(12) == 0x1000,
        pow2(23) == 0x80_0000,
        pow2(31) == 0x8000_0000,
        pow2(52) == 0x10_0000_0000_0000,
        pow2(63) == 0x8000_0000_0000_0000,
{
    reveal_with_fuel(pow2, 64);
}

/// Powers of two multiply.
pub proof fn lemma_pow2_add(a: nat, b: nat)
    ensures
        pow2(a + b) == pow2(a) * pow2(b),
        pow2(a) >= 1,
    decreases a,
{
    if a == 0 {
        assert(pow2(b) == 1 * pow2(b));
    } else {
        lemma_pow2_add((a - 1) as nat, b);
        assert(pow2(a + b) == 2 * pow2((a - 1 + b) as nat));
        assert(2 * (pow2((a - 1) as nat) * pow2(b)) == (2 * pow2((a - 1) as nat)) * pow2(b))
            by (nonlinear_arith);
    }
}

/// Powers of two grow.
pub proof fn lemma_pow2_le(a: nat, b: nat)
    requires
        a <= b,
    ensures
        1 <= pow2(a) <= pow2(b),
    decreases b - a,
{
    lemma_pow2_add(a, 0);
    if a < b {
        lemma_pow2_le(a + 1, b);
    }
}

/// 2^n for `n` up to 126.
pub fn pow2_exec(n: u32) -> (p: u128)
    requires
        n <= 126,
    ensures
        p == pow2(n as nat),
        p >= 1,
{
    let mut p: u128 = 1;
    let mut i: u32 = 0;
    while i < n
        invariant
            i <= n <= 126,
            p == pow2(i as nat),
            p >= 1,
        decreases n - i,
    {
        proof {
            lemma_pow2_le((i + 1) as nat, 126);
            lemma_pow2_126();
        }
        p = p * 2;
        i += 1;
    }
    p
}

/// 2^126.
pub proof fn lemma_pow2_126()
    ensures
        pow2(126) == 0x4000_0000_0000_0000_0000_0000_0000_0000,
{
    lemma_pow2_values();
    lemma_pow2_add(63, 63);
    assert(0x8000_0000_0000_0000int * 0x8000_0000_0000_0000int
        == 0x4000_0000_0000_0000_0000_0000_0000_0000int) by (nonlinear_arith);
}

/// The position of the highest bit of `a` that is set.
pub fn top_bit(a: u64) -> (p: u32)
    requires
        a >= 1,
    ensures
        is_top_bit(a as int, p as nat),
        p <= 63,
{
    let mut p: u32 = 0;
    let mut t: u128 = 1;
    proof {
        lemma_pow2_values();
    }
    while t * 2 <= a as u128
        invariant
            t == pow2(p as nat),
            t <= a,
            p <= 63,
        decreases a as u128 - t,
    {
        proof {
            lemma_pow2_values();
            if p == 63 {
                assert(t * 2 == 0x1_0000_0000_0000_0000);
            }
            assert(p < 63);
            lemma_pow2_le((p + 1) as nat, 63);
        }
        t = t * 2;
        p += 1;
    }
    p
}

/// The position of the highest bit of `a` that is set.
pub open spec fn spec_top_bit(a: int) -> nat {
    choose|p: nat| is_top_bit(a, p)
}

/// A number has one highest bit.
pub proof fn lemma_top_bit_unique(a: int, p: nat, q: nat)
    requires
        is_top_bit(a, p),
        is_top_bit(a, q),
    ensures
        p == q,
{
    if p < q {
        lemma_pow2_le(p + 1, q);
    }
    if q < p {
        lemma_pow2_le(q + 1, p);
    }
}

/// The magnitude of `v`.
pub open spec fn spec_abs(v: int) -> int {
    if v < 0 {
        -v
    } else {
        v
    }
}

/// The bits of the number `v / 4096` in the format `f`.
pub open spec fn spec_real_bits(f: Format, v: int) -> int {
    spec_to_bits(f, v, spec_top_bit(spec_abs(v)))
}

/// The bits of the number `v / 4096` in the format `f` (see
/// [`spec_to_bits`]). The magnitude of `v` has to fit the mantissa with its
/// highest bit: then the bits stand for the number exactly.
pub fn to_bits(f: Format, v: i64) -> (bits: u64)
    requires
        f.wf(),
        -pow2((f.mantissa_bits + 1) as nat) < v < pow2((f.mantissa_bits + 1) as nat),
    ensures
        bits == spec_real_bits(f, v as int),
        v != 0 ==> is_top_bit(spec_abs(v as int), spec_top_bit(spec_abs(v as int)))
            && spec_top_bit(spec_abs(v as int)) <= f.mantissa_bits,
        bits < pow2((f.mantissa_bits + f.exponent_bits + 1) as nat),
        spec_from_bits(f, bits as int) == Some(v as int),
{
    if v == 0 {
        assert(0 == spec_to_bits(f, 0, 0));
        proof {
            lemma_pow2_values();
            lemma_pow2_add((f.mantissa_bits + f.exponent_bits + 1) as nat, 0);
            lemma_pow2_add(52, 11);
            lemma_pow2_add(23, 8);
            let m_unit = pow2(f.mantissa_bits as nat);
            let e_unit = pow2(f.exponent_bits as nat);
            assert(m_unit == 0x80_0000 || m_unit == 0x10_0000_0000_0000);
            assert(e_unit == 0x100 || e_unit == 0x800);
            assert(0int / m_unit % e_unit == 0);
        }
        return 0;
    }
    proof {
        lemma_pow2_values();
        lemma_pow2_add(52, 1);
        lemma_pow2_add(23, 1);
    }
    let a: u64 = if v < 0 {
        (-(v as i128)) as u64
    } else {
        v as u64
    };
    let p = top_bit(a);
    proof {
        if p > f.mantissa_bits {
            lemma_pow2_le((f.mantissa_bits + 1) as nat, p as nat);
        }
    }
    let m_unit = pow2_exec(f.mantissa_bits);
    let up = pow2_exec(f.mantissa_bits - p);
    let sign_unit = pow2_exec(f.mantissa_bits + f.exponent_bits);
    let bias: u128 = pow2_exec(f.exponent_bits - 1) - 1;
    proof {
        lemma_pow2_add(p as nat, (f.mantissa_bits - p) as nat);
        lemma_pow2_add((p + 1) as nat, (f.mantissa_bits - p) as nat);
        assert(m_unit <= a * up < 2 * m_unit) by (nonlinear_arith)
            requires
                pow2(p as nat) <= a < pow2((p + 1) as nat),
                pow2((p + 1) as nat) == 2 * pow2(p as nat),
                pow2(p as nat) * up == m_unit,
                up >= 1,
        ;
        lemma_pow2_add(f.mantissa_bits as nat, f.exponent_bits as nat);
        lemma_pow2_add(52, 11);
        lemma_pow2_add(23, 8);
        if f.mantissa_bits == 52 {
            assert((p + 1011) * 0x10_0000_0000_0000 <= 1063 * 0x10_0000_0000_0000)
                by (nonlinear_arith)
                requires
                    p <= 52,
            ;
        } else {
            assert((p + 115) * 0x80_0000 <= 138 * 0x80_0000) by (nonlinear_arith)
                requires
                    p <= 23,
            ;
        }
    }
    let exponent: u128 = p as u128 + bias - FRACTION_BITS as u128;
    let magnitude: u128 = exponent * m_unit + (a as u128 * up - m_unit);
    let bits: u128 = if v < 0 {
        sign_unit + magnitude
    } else {
        magnitude
    };
    assert(bits == spec_to_bits(f, v as int, p as nat));
    proof {
        lemma_top_bit_unique(spec_abs(v as int), p as nat, spec_top_bit(spec_abs(v as int)));
        real_round_trip(f, v as int, p as nat);
    }
    bits as u64
}

/// The fixed-point number nearest to the number that the bits stand for
/// (see [`spec_from_bits`]).
pub fn from_bits(f: Format, bits: u64) -> (r: Option<i64>)
    requires
        f.wf(),
        bits < pow2((f.mantissa_bits + f.exponent_bits + 1) as nat),
    ensures
        r.is_some() == spec_from_bits(f, bits as int).is_some(),
        r matches Some(v) ==> v == spec_from_bits(f, bits as int).unwrap(),
{
    proof {
        lemma_pow2_values();
        lemma_pow2_add(52, 11);
        lemma_pow2_add(23, 8);
        lemma_pow2_add(52, 12);
        lemma_pow2_add(23, 9);
    }
    let m_unit = pow2_exec(f.mantissa_bits);
    let e_unit = pow2_exec(f.exponent_bits);
    let bias: i64 = (pow2_exec(f.exponent_bits - 1) - 1) as i64;
    let wide = bits as u128;
    let negative = wide / (m_unit * e_unit) % 2 == 1;
    let e = wide / m_unit % e_unit;
    let m = wide % m_unit;
    if e == e_unit - 1 {
        return None;
    }
    if e == 0 {
        return Some(0);
    }
    let shift: i64 = e as i64 - bias - f.mantissa_bits as i64 + FRACTION_BITS as i64;
    if shift >= 62 - f.mantissa_bits as i64 {
        return None;
    }
    let whole = m_unit + m;
    let magnitude: u128 = if shift >= 0 {
        let up = pow2_exec(shift as u32);
        proof {
            lemma_pow2_add((f.mantissa_bits + 1) as nat, shift as nat);
            lemma_pow2_le((f.mantissa_bits + 1 + shift) as nat, 62);
            lemma_pow2_le(62, 63);
            assert(whole * up < pow2((f.mantissa_bits + 1) as nat) * up) by (nonlinear_arith)
                requires
                    whole < pow2((f.mantissa_bits + 1) as nat),
                    up >= 1,
            ;
        }
        whole * up
    } else if -shift > f.mantissa_bits as i64 + 2 {
        0
    } else {
        let r = (-shift) as u32;
        let half = pow2_exec(r - 1);
        let unit = pow2_exec(r);
        proof {
            lemma_pow2_le((r - 1) as nat, 54);
            lemma_pow2_le(54, 63);
            lemma_pow2_le((f.mantissa_bits + 1) as nat, 53);
            lemma_pow2_le(53, 63);
        }
        (whole + half) / unit
    };
    proof {
        lemma_pow2_le((f.mantissa_bits + 1) as nat, 53);
        lemma_pow2_le(53, 63);
        if shift < 0 && -shift <= f.mantissa_bits + 2 {
            let r = (-shift) as nat;
            lemma_pow2_le((r - 1) as nat, r);
            assert(magnitude <= whole + pow2((r - 1) as nat)) by (nonlinear_arith)
                requires
                    magnitude == (whole + pow2((r - 1) as nat)) / pow2(r),
                    pow2(r) >= 1,
                    whole + pow2((r - 1) as nat) >= 0,
            ;
            lemma_pow2_le((r - 1) as nat, 54);
            lemma_pow2_le(54, 62);
            lemma_pow2_le(62, 63);
            assert(pow2(54) + pow2(53) < pow2(63)) by {
                reveal_with_fuel(pow2, 64);
            }
        }
    }
    Some(
        if negative {
            -(magnitude as i64)
        } else {
            magnitude as i64
        },
    )
}

/// A fixed-point number that was written exactly is read back as it was.
pub proof fn real_round_trip(f: Format, v: int, p: nat)
    requires
        f.wf(),
        v != 0,
        p <= f.mantissa_bits,
        is_top_bit(
            if v < 0 {
                -v
            } else {
                v
            },
            p,
        ),
    ensures
        spec_from_bits(f, spec_to_bits(f, v, p)) == Some(v),
        0 <= spec_to_bits(f, v, p) < pow2((f.mantissa_bits + f.exponent_bits + 1) as nat),
{
    lemma_pow2_values();
    let a = if v < 0 {
        -v
    } else {
        v
    };
    let mb = f.mantissa_bits as nat;
    let m_unit = pow2(mb);
    let e_unit = pow2(f.exponent_bits as nat);
    let up = pow2((mb - p) as nat);
    let e = p - FRACTION_BITS + f.spec_bias();
    let m = a * up - m_unit;
    lemma_pow2_add(p, (mb - p) as nat);
    lemma_pow2_add(p + 1, (mb - p) as nat);
    lemma_pow2_add((mb - p) as nat, 0);
    assert(m_unit <= a * up < 2 * m_unit) by (nonlinear_arith)
        requires
            pow2(p) <= a < pow2(p + 1),
            pow2(p + 1) == 2 * pow2(p),
            pow2(p) * up == m_unit,
            up >= 1,
    ;
    lemma_pow2_add(52, 11);
    lemma_pow2_add(23, 8);
    lemma_pow2_add(52, 12);
    lemma_pow2_add(23, 9);
    let bits = spec_to_bits(f, v, p);
    let body = e * m_unit + m;
    assert(1 <= e < e_unit - 1);
    // the three parts of the bits
    vstd::arithmetic::div_mod::lemma_fundamental_div_mod_converse(body, m_unit, e, m);
    let sign = if v < 0 {
        1int
    } else {
        0int
    };
    assert(body < m_unit * e_unit) by (nonlinear_arith)
        requires
            body == e * m_unit + m,
            0 <= m < m_unit,
            0 <= e < e_unit - 1,
    ;
    assert(bits == sign * (m_unit * e_unit) + body);
    vstd::arithmetic::div_mod::lemma_fundamental_div_mod_converse(
        bits,
        m_unit * e_unit,
        sign,
        body,
    );
    assert(bits % m_unit == m && bits / m_unit % e_unit == e) by {
        // bits = (sign * e_unit + e) * m_unit + m
        assert(bits == (sign * e_unit + e) * m_unit + m) by (nonlinear_arith)
            requires
                bits == sign * (m_unit * e_unit) + e * m_unit + m,
        ;
        vstd::arithmetic::div_mod::lemma_fundamental_div_mod_converse(
            bits,
            m_unit,
            sign * e_unit + e,
            m,
        );
        vstd::arithmetic::div_mod::lemma_fundamental_div_mod_converse(
            sign * e_unit + e,
            e_unit,
            sign,
            e,
        );
    }
    // reading moves the magnitude back down
    let shift = e - f.spec_bias() - f.mantissa_bits + FRACTION_BITS;
    assert(shift == p - mb);
    let r = (mb - p) as nat;
    if r > 0 {
        lemma_pow2_le((r - 1) as nat, r);
        assert(pow2(r) == 2 * pow2((r - 1) as nat));
        vstd::arithmetic::div_mod::lemma_fundamental_div_mod_converse(
            a * up + pow2((r - 1) as nat),
            up,
            a,
            pow2((r - 1) as nat),
        );
    } else {
        assert(a * 1 == a);
    }
    assert(bits < pow2((f.mantissa_bits + f.exponent_bits + 1) as nat)) by {
        lemma_pow2_add((f.mantissa_bits + f.exponent_bits) as nat, 1);
        lemma_pow2_add(f.mantissa_bits as nat, f.exponent_bits as nat);
        assert(pow2(1) == 2) by {
            reveal_with_fuel(pow2, 2);
        }
    }
}

} // verus!
