//! Numbers of fixed width on the wire: the most significant byte first,
//! negative numbers in two's complement.

use vstd::prelude::*;

verus! {

/// 256^n for the widths that occur.
pub open spec fn pow256(n: nat) -> int
    decreases n,
{
    if n == 0 {
        1
    } else {
        256 * pow256((n - 1) as nat)
    }
}

/// The `n` bytes of the unsigned number `u`, the most significant first.
pub open spec fn be_bytes(u: int, n: nat) -> Seq<u8>
    decreases n,
{
    if n == 0 {
        Seq::empty()
    } else {
        be_bytes(u / 256, (n - 1) as nat).push((u % 256) as u8)
    }
}

/// The unsigned number that the bytes stand for.
pub open spec fn be_value(s: Seq<u8>) -> int
    decreases s.len(),
{
    if s.len() == 0 {
        0
    } else {
        be_value(s.drop_last()) * 256 + s.last()
    }
}

/// The bit pattern of `v` in `n` bytes, as an unsigned number.
pub open spec fn to_pattern(v: int, n: nat) -> int {
    if v < 0 {
        v + pow256(n)
    } else {
        v
    }
}

/// The number that the bit pattern `u` of `n` bytes stands for in two's
/// complement.
pub open spec fn from_pattern(u: int, n: nat) -> int {
    if 2 * u >= pow256(n) {
        u - pow256(n)
    } else {
        u
    }
}

/// The powers of 256 that occur.
pub proof fn lemma_pow256()
    ensures
        pow256(0) == 1,
        pow256(1) == 0x100,
        pow256(2) == 0x1_0000,
        pow256(4) == 0x1_0000_0000,
        pow256(8) == 0x1_0000_0000_0000_0000,
        pow256(16) == 0x1_0000_0000_0000_0000_0000_0000_0000_0000,
{
    reveal_with_fuel(pow256, 17);
}

/// `n` bytes are written, and reading them gives the number back.
pub proof fn lemma_be_round_trip(u: int, n: nat)
    requires
        0 <= u < pow256(n),
    ensures
        be_bytes(u, n).len() == n,
        be_value(be_bytes(u, n)) == u,
    decreases n,
{
    if n > 0 {
        assert(0 <= u / 256 < pow256((n - 1) as nat)) by (nonlinear_arith)
            requires
                0 <= u < 256 * pow256((n - 1) as nat),
        ;
        lemma_be_round_trip(u / 256, (n - 1) as nat);
        assert(be_bytes(u, n).drop_last() =~= be_bytes(u / 256, (n - 1) as nat));
    }
}

/// What is read from `n` bytes is below 256^n.
pub proof fn lemma_be_value_bound(s: Seq<u8>)
    ensures
        0 <= be_value(s) < pow256(s.len()),
    decreases s.len(),
{
    if s.len() > 0 {
        lemma_be_value_bound(s.drop_last());
        assert(be_value(s.drop_last()) * 256 + s.last() < 256 * pow256((s.len() - 1) as nat))
            by (nonlinear_arith)
            requires
                0 <= be_value(s.drop_last()) < pow256((s.len() - 1) as nat),
                0 <= s.last() < 256,
        ;
    }
}

/// A number in two's complement is read back as it was written.
pub proof fn lemma_pattern_round_trip(v: int, n: nat)
    requires
        n >= 1,
        -pow256(n) <= 2 * v < pow256(n),
    ensures
        0 <= to_pattern(v, n) < pow256(n),
        from_pattern(to_pattern(v, n), n) == v,
{
}

/// Appends the `n` low bytes of `u`, the most significant first.
pub fn write_be(out: &mut Vec<u8>, u: u128, n: usize)
    requires
        n <= 16,
    ensures
        final(out)@ == old(out)@ + be_bytes(u as int % pow256(n as nat), n as nat),
{
    let mut bytes: Vec<u8> = Vec::new();
    let mut rest: u128 = u;
    let mut i: usize = 0;
    // The bytes from the last to the first.
    while i < n
        invariant
            i <= n <= 16,
            bytes@.len() == i,
            rest == u as int / pow256(i as nat),
            forall|j: int| 0 <= j < i ==> bytes@[j] == ((u as int / pow256(j as nat)) % 256) as u8,
        decreases n - i,
    {
        bytes.push((rest % 256) as u8);
        proof {
            lemma_div_pow(u as int, i as nat);
        }
        rest = rest / 256;
        i += 1;
    }
    let ghost start = out@;
    let mut k: usize = n;
    proof {
        assert(pow256(0) == 1);
        assert(start + Seq::<u8>::empty() =~= start);
    }
    while k > 0
        invariant
            k <= n <= 16,
            bytes@.len() == n,
            forall|j: int| 0 <= j < n ==> bytes@[j] == ((u as int / pow256(j as nat)) % 256) as u8,
            out@ == start + be_bytes(u as int / pow256(k as nat) % pow256((n - k) as nat), (n - k) as nat),
        decreases k,
    {
        k -= 1;
        let ghost before = out@;
        out.push(bytes[k]);
        proof {
            lemma_be_step(u as int, n as nat, k as nat);
            assert(out@ =~= start + be_bytes(
                u as int / pow256(k as nat) % pow256((n - k) as nat),
                (n - k) as nat,
            ));
        }
    }
    proof {
        assert(pow256(0) == 1);
    }
}

/// Dividing by 256^i and then by 256 divides by 256^(i+1).
pub proof fn lemma_div_pow(u: int, i: nat)
    requires
        0 <= u,
    ensures
        (u / pow256(i)) / 256 == u / pow256(i + 1),
        pow256(i) >= 1,
    decreases i,
{
    lemma_pow256_positive(i);
    vstd::arithmetic::div_mod::lemma_div_denominator(u, pow256(i), 256);
    assert(pow256(i) * 256 == pow256(i + 1));
}

/// A power of 256 is positive.
pub proof fn lemma_pow256_positive(i: nat)
    ensures
        pow256(i) >= 1,
    decreases i,
{
    if i > 0 {
        lemma_pow256_positive((i - 1) as nat);
    }
}

/// One more byte in front: the bytes of the `n - k` digits from digit `k`
/// on are digit `n - 1` down to digit `k`.
pub proof fn lemma_be_step(u: int, n: nat, k: nat)
    requires
        0 <= u,
        k < n,
    ensures
        be_bytes(u / pow256(k) % pow256((n - k) as nat), (n - k) as nat) == be_bytes(
            u / pow256(k + 1) % pow256((n - k - 1) as nat),
            (n - k - 1) as nat,
        ).push(((u / pow256(k)) % 256) as u8),
{
    let m = (n - k) as nat;
    let a = u / pow256(k);
    lemma_div_pow(u, k);
    lemma_pow256_positive((m - 1) as nat);
    let p = pow256((m - 1) as nat);
    assert(pow256(m) == 256 * p);
    // (a mod 256p) / 256 == (a / 256) mod p, and (a mod 256p) mod 256 == a mod 256
    vstd::arithmetic::div_mod::lemma_mod_breakdown(a, 256, p);
    vstd::arithmetic::div_mod::lemma_fundamental_div_mod(a % (256 * p), 256);
    vstd::arithmetic::div_mod::lemma_mod_bound(a, 256);
    vstd::arithmetic::div_mod::lemma_mod_bound(a / 256, p);
    let low = a % 256;
    let high = (a / 256) % p;
    assert(a % (256 * p) == 256 * high + low);
    vstd::arithmetic::div_mod::lemma_fundamental_div_mod_converse(a % (256 * p), 256, high, low);
}

/// The unsigned number of the `n` bytes from `at` on, if there are that
/// many.
pub fn read_be(bytes: &Vec<u8>, at: usize, n: usize) -> (r: Option<u128>)
    requires
        n <= 16,
    ensures
        r.is_some() == (at + n <= bytes@.len()),
        r matches Some(v) ==> v == be_value(bytes@.subrange(at as int, at + n)),
{
    if at > bytes.len() || n > bytes.len() - at {
        return None;
    }
    let mut v: u128 = 0;
    let mut i: usize = 0;
    let len = bytes.len();
    assert(bytes@.subrange(at as int, at as int) =~= Seq::<u8>::empty());
    while i < n
        invariant
            i <= n <= 16,
            len == bytes@.len(),
            at + n <= len,
            v == be_value(bytes@.subrange(at as int, at + i)),
        decreases n - i,
    {
        proof {
            let upto = bytes@.subrange(at as int, at + i + 1);
            assert(upto.drop_last() =~= bytes@.subrange(at as int, at + i));
            assert(upto.last() == bytes@[at + i]);
            lemma_be_value_bound(bytes@.subrange(at as int, at + i));
            lemma_pow256_le(i as nat, 15);
            lemma_pow256_15();
        }
        v = v * 256 + bytes[at + i] as u128;
        i += 1;
    }
    Some(v)
}

/// Powers of 256 grow.
pub proof fn lemma_pow256_le(a: nat, b: nat)
    requires
        a <= b,
    ensures
        pow256(a) <= pow256(b),
    decreases b - a,
{
    lemma_pow256_positive(a);
    if a < b {
        lemma_pow256_le(a + 1, b);
    }
}

/// 256^15.
pub proof fn lemma_pow256_15()
    ensures
        pow256(15) == 0x1_0000_0000_0000_0000_0000_0000_0000_00,
{
    reveal_with_fuel(pow256, 16);
}

} // verus!
