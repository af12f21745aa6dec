//! The arguments of commands: each kind of argument reads itself from the
//! start of a text and says how much of the text it took. Lengths count
//! characters.

use vstd::prelude::*;
use crate::math::Pos;

verus! {

/// How much of a text a string argument takes.
#[derive(Clone, Copy, Debug, PartialEq, Eq, Structural)]
pub enum StringType {
    /// Up to the first space.
    SingleWord,
    /// Up to the first space, or a phrase in quotes.
    QuotablePhrase,
    /// Everything.
    GreedyPhrase,
}

/// A decimal number: `mantissa / 10^scale`.
#[derive(Clone, Copy, Debug, PartialEq, Eq, Structural)]
pub struct Decimal {
    pub mantissa: i64,
    pub scale: u8,
}

/// The most digits a decimal number is read with.
pub const MAX_DIGITS: usize = 18;

/// 10^18.
pub const TEN_18: i64 = 1_000_000_000_000_000_000;

/// A kind of argument.
#[derive(Clone, Copy, Debug, PartialEq, Eq, Structural)]
pub enum Parser {
    Bool,
    Double { min: Option<Decimal>, max: Option<Decimal> },
    Float { min: Option<Decimal>, max: Option<Decimal> },
    Int { min: Option<i32>, max: Option<i32> },
    String(StringType),
    Entity { single: bool, players: bool },
    ScoreHolder { multiple: bool },
    GameProfile,
    BlockPos,
    ColumnPos,
    Vec3,
    Vec2,
    BlockState,
    BlockPredicate,
    ItemStack,
    ItemPredicate,
    Color,
    Component,
    Message,
    Nbt,
    NbtPath,
    Objective,
    ObjectiveCriteria,
    Operation,
    Particle,
    Rotation,
    Angle,
    ScoreboardSlot,
    Swizzle,
    Team,
    ItemSlot,
    ResourceLocation,
    MobEffect,
    Function,
    EntityAnchor,
    Range { decimals: bool },
    IntRange,
    FloatRange,
    ItemEnchantment,
    EntitySummon,
    Dimension,
    Uuid,
    NbtTag,
    NbtCompoundTag,
    Time,
    Modid,
    Enum,
}

/// An argument that was read.
#[derive(Clone, Debug, PartialEq, Eq)]
pub enum Arg {
    Bool(bool),
    Double(Decimal),
    Float(Decimal),
    Int(i32),
    String(String),
    BlockPos(Pos),
}

/// Why an argument could not be read.
#[derive(Debug, PartialEq, Eq)]
pub enum ParseError {
    /// A literal did not match.
    InvalidLiteral(String),
    /// No child of a node matched.
    NoChildren(Vec<ParseError>),
    /// There is text behind the command.
    Trailing(String),
    /// The text ended early.
    EOF(Parser),
    /// The text is not what was expected: the text, and what was expected.
    InvalidText(String, String),
    /// A number is out of range: the number, the least and the most.
    Range(Decimal, Option<Decimal>, Option<Decimal>),
}

/// An argument as contracts see it.
pub enum ArgView {
    Bool(bool),
    Double(Decimal),
    Float(Decimal),
    Int(i32),
    String(Seq<char>),
    BlockPos(Pos),
}

/// An error as contracts see it.
pub enum ErrView {
    InvalidLiteral(Seq<char>),
    NoChildren,
    Trailing(Seq<char>),
    EOF(Parser),
    InvalidText(Seq<char>, Seq<char>),
    Range(Decimal, Option<Decimal>, Option<Decimal>),
}

impl Arg {
    pub open spec fn view(self) -> ArgView {
        match self {
            Arg::Bool(b) => ArgView::Bool(b),
            Arg::Double(d) => ArgView::Double(d),
            Arg::Float(d) => ArgView::Float(d),
            Arg::Int(i) => ArgView::Int(i),
            Arg::String(s) => ArgView::String(s@),
            Arg::BlockPos(p) => ArgView::BlockPos(p),
        }
    }
}

impl ParseError {
    pub open spec fn view(self) -> ErrView {
        match self {
            ParseError::InvalidLiteral(s) => ErrView::InvalidLiteral(s@),
            ParseError::NoChildren(_) => ErrView::NoChildren,
            ParseError::Trailing(s) => ErrView::Trailing(s@),
            ParseError::EOF(p) => ErrView::EOF(p),
            ParseError::InvalidText(t, e) => ErrView::InvalidText(t@, e@),
            ParseError::Range(v, min, max) => ErrView::Range(v, min, max),
        }
    }
}

/// What reading gives, as contracts see it.
pub open spec fn result_view(r: Result<(Arg, usize), ParseError>) -> Result<(ArgView, int), ErrView> {
    match r {
        Ok((a, n)) => Ok((a@, n as int)),
        Err(e) => Err(e@),
    }
}

// ---------------------------------------------------------------------------
// Words and numbers
// ---------------------------------------------------------------------------

/// The position of the first `c` at `from` or later, or the length of the
/// text.
pub open spec fn find_char(text: Seq<char>, c: char, from: int) -> int
    decreases text.len() - from,
{
    if from < 0 || from >= text.len() {
        text.len() as int
    } else if text[from] == c {
        from
    } else {
        find_char(text, c, from + 1)
    }
}

/// The position of the first space at `from` or later, or the length of
/// the text.
pub open spec fn word_end(text: Seq<char>, from: int) -> int {
    find_char(text, ' ', from)
}

/// What is found lies at or behind `from`, within the text or at its end,
/// and nothing before it is `c`.
pub proof fn lemma_find_char(text: Seq<char>, c: char, from: int)
    requires
        0 <= from <= text.len(),
    ensures
        from <= find_char(text, c, from) <= text.len(),
        find_char(text, c, from) < text.len() ==> text[find_char(text, c, from)] == c,
        forall|j: int| from <= j < find_char(text, c, from) ==> text[j] != c,
    decreases text.len() - from,
{
    if from < text.len() && text[from] != c {
        lemma_find_char(text, c, from + 1);
    }
}

/// What is found in a part of a text is what is found in the text, as long
/// as it lies in the part.
pub proof fn lemma_find_in_part(text: Seq<char>, c: char, from: int, to: int, at: int)
    requires
        0 <= from <= at <= to <= text.len(),
        forall|j: int| from <= j < at ==> text[j] != c,
        at < to ==> text[at] == c,
        at == to || at < to,
    ensures
        at < to ==> find_char(text.subrange(from, to), c, 0) == at - from,
        at == to ==> find_char(text.subrange(from, to), c, 0) == to - from,
{
    let part = text.subrange(from, to);
    lemma_find_char(part, c, 0);
    let k = find_char(part, c, 0);
    if k < part.len() {
        assert(part[k] == text[from + k]);
    }
    if at < to {
        assert(part[at - from] == text[at]);
    }
}

/// The number that a digit stands for, or -1 for any other character.
pub open spec fn digit_of(c: char) -> int {
    if c == '0' {
        0
    } else if c == '1' {
        1
    } else if c == '2' {
        2
    } else if c == '3' {
        3
    } else if c == '4' {
        4
    } else if c == '5' {
        5
    } else if c == '6' {
        6
    } else if c == '7' {
        7
    } else if c == '8' {
        8
    } else if c == '9' {
        9
    } else {
        -1
    }
}

fn digit(c: char) -> (d: i64)
    ensures
        d == digit_of(c),
        -1 <= d <= 9,
{
    if c == '0' {
        0
    } else if c == '1' {
        1
    } else if c == '2' {
        2
    } else if c == '3' {
        3
    } else if c == '4' {
        4
    } else if c == '5' {
        5
    } else if c == '6' {
        6
    } else if c == '7' {
        7
    } else if c == '8' {
        8
    } else if c == '9' {
        9
    } else {
        -1
    }
}

/// Whether every character is a digit.
pub open spec fn all_digits(s: Seq<char>) -> bool {
    forall|i: int| 0 <= i < s.len() ==> digit_of(#[trigger] s[i]) >= 0
}

/// The number that the digits stand for.
pub open spec fn digits_value(s: Seq<char>) -> int
    decreases s.len(),
{
    if s.len() == 0 {
        0
    } else {
        digits_value(s.drop_last()) * 10 + digit_of(s.last())
    }
}

/// Where the digits of a number start: behind its sign, if it has one.
pub open spec fn sign_len(s: Seq<char>) -> int {
    if s.len() > 0 && (s[0] == '-' || s[0] == '+') {
        1
    } else {
        0
    }
}

/// Whether the number is negative.
pub open spec fn is_negative(s: Seq<char>) -> bool {
    s.len() > 0 && s[0] == '-'
}

/// The whole number that `s` stands for: an optional sign and one digit or
/// more, if the number fits 32 bits.
pub open spec fn spec_parse_int(s: Seq<char>) -> Option<i32> {
    let body = s.skip(sign_len(s));
    if body.len() == 0 || !all_digits(body) {
        None
    } else {
        let v = if is_negative(s) {
            -digits_value(body)
        } else {
            digits_value(body)
        };
        if i32::MIN <= v <= i32::MAX {
            Some(v as i32)
        } else {
            None
        }
    }
}

/// The decimal number that `s` stands for: an optional sign, digits, and
/// optionally a point and more digits; one digit at least, eighteen at most.
pub open spec fn spec_parse_decimal(s: Seq<char>) -> Option<Decimal> {
    let body = s.skip(sign_len(s));
    let point = find_char(body, '.', 0);
    let whole = body.take(point);
    let frac = if point < body.len() {
        body.skip(point + 1)
    } else {
        Seq::<char>::empty()
    };
    if whole.len() + frac.len() == 0 || whole.len() + frac.len() > MAX_DIGITS || !all_digits(whole)
        || !all_digits(frac) {
        None
    } else {
        let magnitude = digits_value(whole) * pow10(frac.len()) + digits_value(frac);
        Some(
            Decimal {
                mantissa: (if is_negative(s) {
                    -magnitude
                } else {
                    magnitude
                }) as i64,
                scale: frac.len() as u8,
            },
        )
    }
}

/// 10^n.
pub open spec fn pow10(n: nat) -> int
    decreases n,
{
    if n == 0 {
        1
    } else {
        10 * pow10((n - 1) as nat)
    }
}

impl Decimal {
    pub fn new(mantissa: i64, scale: u8) -> (d: Decimal)
        ensures
            d == (Decimal { mantissa, scale }),
    {
        Decimal { mantissa, scale }
    }

    /// The whole number `v`.
    pub fn from_int(v: i32) -> (d: Decimal)
        ensures
            d == (Decimal { mantissa: v as i64, scale: 0 }),
    {
        Decimal { mantissa: v as i64, scale: 0 }
    }

    /// Whether `self` is less than `other`, as numbers.
    pub open spec fn spec_lt(self, other: Decimal) -> bool {
        self.mantissa * pow10(other.scale as nat) < other.mantissa * pow10(self.scale as nat)
    }

    /// Whether `self` is less than `other`, as numbers. Both must have
    /// been read from text, or have eighteen digits at most.
    pub fn lt(&self, other: &Decimal) -> (r: bool)
        requires
            self.scale <= MAX_DIGITS,
            other.scale <= MAX_DIGITS,
            -TEN_18 < self.mantissa < TEN_18,
            -TEN_18 < other.mantissa < TEN_18,
        ensures
            r == self.spec_lt(*other),
    {
        let a = power_of_ten(other.scale);
        let b = power_of_ten(self.scale);
        assert(-TEN_18 * TEN_18 <= self.mantissa * a <= TEN_18 * TEN_18) by (nonlinear_arith)
            requires
                -TEN_18 < self.mantissa < TEN_18,
                1 <= a <= TEN_18,
        ;
        assert(-TEN_18 * TEN_18 <= other.mantissa * b <= TEN_18 * TEN_18) by (nonlinear_arith)
            requires
                -TEN_18 < other.mantissa < TEN_18,
                1 <= b <= TEN_18,
        ;
        (self.mantissa as i128) * a < (other.mantissa as i128) * b
    }

    /// Whether the number has eighteen digits at most.
    pub open spec fn wf(self) -> bool {
        self.scale <= MAX_DIGITS && -TEN_18 < self.mantissa < TEN_18
    }
}

/// 10^n for `n` up to 18.
fn power_of_ten(n: u8) -> (p: i128)
    requires
        n <= MAX_DIGITS,
    ensures
        p == pow10(n as nat),
        1 <= p <= TEN_18,
{
    let mut p: i128 = 1;
    let mut i: u8 = 0;
    proof {
        lemma_pow10_18();
    }
    while i < n
        invariant
            i <= n <= MAX_DIGITS,
            p == pow10(i as nat),
            1 <= p,
            p * pow10((18 - i) as nat) == TEN_18,
        decreases n - i,
    {
        proof {
            lemma_pow10_bounds((18 - i) as nat);
            assert(pow10((18 - i) as nat) == 10 * pow10((18 - i - 1) as nat));
            assert(p * (10 * pow10((18 - i - 1) as nat)) == (p * 10) * pow10((18 - i - 1) as nat))
                by (nonlinear_arith);
            assert(p * 10 <= TEN_18) by (nonlinear_arith)
                requires
                    (p * 10) * pow10((18 - i - 1) as nat) == TEN_18,
                    pow10((18 - i - 1) as nat) >= 1,
                    p >= 1,
            ;
        }
        p = p * 10;
        i += 1;
    }
    proof {
        lemma_pow10_bounds((18 - n) as nat);
        assert(p <= TEN_18) by (nonlinear_arith)
            requires
                p * pow10((18 - n) as nat) == TEN_18,
                pow10((18 - n) as nat) >= 1,
                p >= 1,
        ;
    }
    p
}

/// A power of ten is at least 1.
pub proof fn lemma_pow10_bounds(n: nat)
    ensures
        pow10(n) >= 1,
    decreases n,
{
    if n > 0 {
        lemma_pow10_bounds((n - 1) as nat);
    }
}

/// The number that eighteen digits at most stand for is below 10^18.
pub proof fn lemma_digits_bound(s: Seq<char>)
    requires
        all_digits(s),
    ensures
        0 <= digits_value(s) < pow10(s.len()),
    decreases s.len(),
{
    if s.len() > 0 {
        let t = s.drop_last();
        assert forall|i: int| 0 <= i < t.len() implies digit_of(#[trigger] t[i]) >= 0 by {
            assert(t[i] == s[i]);
        }
        lemma_digits_bound(t);
        assert(digit_of(s.last()) >= 0) by {
            assert(s.last() == s[s.len() - 1]);
        }
    }
}

/// How the digits of `text` from `from` to `to` are read.
pub struct Digits {
    /// Whether all of them are digits, and there is one at least.
    pub ok: bool,
    /// The number they stand for, or a number above `limit` where that
    /// number is above `limit`.
    pub value: i64,
}

/// Reads the digits of `text` from `from` to `to`. A number above `limit`
/// is reported as some number above `limit`.
fn read_digits(text: &str, from: usize, to: usize, limit: i64) -> (r: Digits)
    requires
        from <= to <= text@.len(),
        0 <= limit <= TEN_18,
    ensures
        r.ok == (from < to && all_digits(text@.subrange(from as int, to as int))),
        r.ok ==> (if digits_value(text@.subrange(from as int, to as int)) > limit {
            r.value > limit
        } else {
            r.value == digits_value(text@.subrange(from as int, to as int))
        }),
        r.value >= 0,
{
    let mut value: i64 = 0;
    let mut i: usize = from;
    let mut over = false;
    assert(text@.subrange(from as int, from as int) =~= Seq::<char>::empty());
    while i < to
        invariant
            from <= i <= to <= text@.len(),
            0 <= limit <= TEN_18,
            all_digits(text@.subrange(from as int, i as int)),
            0 <= value <= limit,
            over ==> digits_value(text@.subrange(from as int, i as int)) > limit,
            !over ==> value == digits_value(text@.subrange(from as int, i as int)),
        decreases to - i,
    {
        let d = digit(text.get_char(i));
        let ghost before = text@.subrange(from as int, i as int);
        let ghost next = text@.subrange(from as int, i + 1);
        proof {
            assert(next.drop_last() =~= before);
            assert(next.last() == text@[i as int]);
        }
        if d < 0 {
            proof {
                assert(digit_of(text@.subrange(from as int, to as int)[i - from]) < 0);
            }
            return Digits { ok: false, value: 0 };
        }
        proof {
            assert forall|j: int| 0 <= j < next.len() implies digit_of(#[trigger] next[j]) >= 0 by {
                if j < before.len() {
                    assert(next[j] == before[j]);
                }
            }
            lemma_digits_bound(before);
        }
        if !over {
            let next: i128 = value as i128 * 10 + d as i128;
            if next > limit as i128 {
                over = true;
                value = 0;
            } else {
                value = next as i64;
            }
        }
        i += 1;
    }
    assert(text@.subrange(from as int, to as int) =~= text@.subrange(from as int, i as int));
    if from >= to {
        return Digits { ok: false, value: 0 };
    }
    if over {
        Digits { ok: true, value: limit + 1 }
    } else {
        Digits { ok: true, value }
    }
}

/// Reads a whole number from the characters `from` to `to` of `text`.
fn parse_int(text: &str, from: usize, to: usize) -> (r: Option<i32>)
    requires
        from <= to <= text@.len(),
    ensures
        r == spec_parse_int(text@.subrange(from as int, to as int)),
{
    let ghost s = text@.subrange(from as int, to as int);
    if from == to {
        assert(s.skip(sign_len(s)) =~= s);
        return None;
    }
    let first = text.get_char(from);
    assert(s[0] == first);
    let negative = first == '-';
    let start = if first == '-' || first == '+' {
        from + 1
    } else {
        from
    };
    assert(s.skip(sign_len(s)) =~= text@.subrange(start as int, to as int));
    let digits = read_digits(text, start, to, 0x8000_0000);
    if !digits.ok {
        return None;
    }
    if negative {
        if digits.value > 0x8000_0000 {
            None
        } else {
            Some((-digits.value) as i32)
        }
    } else {
        if digits.value > 0x7fff_ffff {
            None
        } else {
            Some(digits.value as i32)
        }
    }
}

/// The position of the first `.` from `from` to `to`, or `to`.
fn find_point(text: &str, from: usize, to: usize) -> (r: usize)
    requires
        from <= to <= text@.len(),
    ensures
        from <= r <= to,
        r - from == find_char(text@.subrange(from as int, to as int), '.', 0),
{
    let mut i: usize = from;
    while i < to
        invariant
            from <= i <= to <= text@.len(),
            forall|j: int| from <= j < i ==> text@[j] != '.',
        decreases to - i,
    {
        if text.get_char(i) == '.' {
            proof {
                lemma_find_in_part(text@, '.', from as int, to as int, i as int);
            }
            return i;
        }
        i += 1;
    }
    proof {
        lemma_find_in_part(text@, '.', from as int, to as int, to as int);
    }
    to
}

/// A number of `a` digits before a number of `b` digits is below 10^(a+b).
pub proof fn lemma_magnitude(whole: int, frac: int, a: nat, b: nat)
    requires
        0 <= whole < pow10(a),
        0 <= frac < pow10(b),
        a + b <= 18,
    ensures
        0 <= whole * pow10(b) + frac < TEN_18,
{
    lemma_pow10_add(a, b);
    lemma_pow10_le(a + b, 18);
    lemma_pow10_18();
    lemma_pow10_bounds(b);
    assert(whole * pow10(b) + frac < pow10(a) * pow10(b)) by (nonlinear_arith)
        requires
            0 <= whole < pow10(a),
            0 <= frac < pow10(b),
            pow10(b) >= 1,
    ;
    assert(0 <= whole * pow10(b)) by (nonlinear_arith)
        requires
            0 <= whole,
            pow10(b) >= 1,
    ;
}

/// 10^(a+b) is 10^a times 10^b.
pub proof fn lemma_pow10_add(a: nat, b: nat)
    ensures
        pow10(a + b) == pow10(a) * pow10(b),
    decreases b,
{
    if b == 0 {
        assert(pow10(a) * 1 == pow10(a));
    } else {
        lemma_pow10_add(a, (b - 1) as nat);
        assert(pow10(a + b) == 10 * pow10((a + b - 1) as nat));
        assert(pow10(a) * (10 * pow10((b - 1) as nat)) == 10 * (pow10(a) * pow10((b - 1) as nat)))
            by (nonlinear_arith);
    }
}

/// Reads a decimal number from the characters `from` to `to` of `text`.
fn parse_decimal(text: &str, from: usize, to: usize) -> (r: Option<Decimal>)
    requires
        from <= to <= text@.len(),
    ensures
        r == spec_parse_decimal(text@.subrange(from as int, to as int)),
        r matches Some(d) ==> d.wf(),
{
    let ghost s = text@.subrange(from as int, to as int);
    let mut negative = false;
    let mut start = from;
    if from < to {
        let first = text.get_char(from);
        assert(s[0] == first);
        negative = first == '-';
        if first == '-' || first == '+' {
            start = from + 1;
        }
    }
    let ghost body = s.skip(sign_len(s));
    assert(body =~= text@.subrange(start as int, to as int));
    let point = find_point(text, start, to);
    let whole_len = point - start;
    let frac_len = if point < to {
        to - point - 1
    } else {
        0
    };
    let ghost whole_part = body.take(point - start);
    let ghost frac_part = if point - start < body.len() {
        body.skip(point - start + 1)
    } else {
        Seq::<char>::empty()
    };
    proof {
        assert(whole_part =~= text@.subrange(start as int, point as int));
        if point < to {
            assert(frac_part =~= text@.subrange(point + 1, to as int));
        }
    }
    if whole_len + frac_len == 0 || whole_len + frac_len > MAX_DIGITS {
        return None;
    }
    let whole = if whole_len > 0 {
        read_digits(text, start, point, TEN_18)
    } else {
        Digits { ok: true, value: 0 }
    };
    if !whole.ok {
        return None;
    }
    let frac = if frac_len > 0 {
        read_digits(text, point + 1, to, TEN_18)
    } else {
        Digits { ok: true, value: 0 }
    };
    if !frac.ok {
        return None;
    }
    proof {
        lemma_digits_bound(whole_part);
        lemma_digits_bound(frac_part);
        lemma_pow10_le(whole_part.len(), 18);
        lemma_pow10_le(frac_part.len(), 18);
        lemma_pow10_18();
        lemma_magnitude(
            digits_value(whole_part),
            digits_value(frac_part),
            whole_part.len(),
            frac_part.len(),
        );
    }
    let scale_factor = power_of_ten(frac_len as u8);
    let mantissa: i128 = (whole.value as i128) * scale_factor + frac.value as i128;
    let signed: i64 = if negative {
        (-mantissa) as i64
    } else {
        mantissa as i64
    };
    Some(Decimal { mantissa: signed, scale: frac_len as u8 })
}

/// Powers of ten grow.
pub proof fn lemma_pow10_le(a: nat, b: nat)
    requires
        a <= b,
    ensures
        pow10(a) <= pow10(b),
    decreases b - a,
{
    lemma_pow10_bounds(a);
    if a < b {
        lemma_pow10_le(a + 1, b);
    }
}

/// 10^18.
pub proof fn lemma_pow10_18()
    ensures
        pow10(18) == TEN_18,
{
    reveal_with_fuel(pow10, 19);
}

// ---------------------------------------------------------------------------
// Reading arguments
// ---------------------------------------------------------------------------

/// Whether the text starts with `lit`.
pub open spec fn starts_with(text: Seq<char>, lit: Seq<char>) -> bool {
    text.len() >= lit.len() && text.take(lit.len() as int) == lit
}

/// Exec form of [`starts_with`].
fn starts_with_exec(text: &str, lit: &str) -> (r: bool)
    ensures
        r == starts_with(text@, lit@),
{
    let n = lit.unicode_len();
    if text.unicode_len() < n {
        return false;
    }
    let mut i: usize = 0;
    while i < n
        invariant
            i <= n,
            n == lit@.len(),
            n <= text@.len(),
            forall|j: int| 0 <= j < i ==> text@[j] == lit@[j],
        decreases n - i,
    {
        if text.get_char(i) != lit.get_char(i) {
            assert(text@.take(n as int)[i as int] != lit@[i as int]);
            return false;
        }
        i += 1;
    }
    assert(text@.take(n as int) =~= lit@);
    true
}

/// Exec form of [`find_char`] for a space.
fn find_space(text: &str, from: usize) -> (r: usize)
    requires
        from <= text@.len(),
    ensures
        r == word_end(text@, from as int),
        from <= r <= text@.len(),
{
    let n = text.unicode_len();
    let mut i: usize = from;
    proof {
        lemma_find_char(text@, ' ', from as int);
    }
    while i < n
        invariant
            from <= i <= n,
            n == text@.len(),
            find_char(text@, ' ', from as int) == find_char(text@, ' ', i as int),
        decreases n - i,
    {
        if text.get_char(i) == ' ' {
            return i;
        }
        i += 1;
    }
    n
}

/// What scanning a phrase in quotes gives.
pub enum Scan {
    /// The phrase, and the position of the quote that ends it, or the
    /// length of the text where no quote ends it.
    Done(Seq<char>, int),
    /// A backslash before a character other than a quote or a backslash.
    BadEscape,
}

/// Scans a phrase in quotes from position `i` on: a quote ends it; a
/// backslash makes the quote or backslash behind it part of the phrase.
pub open spec fn scan_quoted(text: Seq<char>, i: int, escaping: bool, out: Seq<char>) -> Scan
    decreases text.len() - i,
{
    if i < 0 || i >= text.len() {
        Scan::Done(out, text.len() as int)
    } else if escaping {
        if text[i] == '"' || text[i] == '\\' {
            scan_quoted(text, i + 1, false, out.push(text[i]))
        } else {
            Scan::BadEscape
        }
    } else if text[i] == '"' {
        Scan::Done(out, i)
    } else if text[i] == '\\' {
        scan_quoted(text, i + 1, true, out)
    } else {
        scan_quoted(text, i + 1, false, out.push(text[i]))
    }
}

/// Whether `v` lies below `min` or above `max`.
pub open spec fn int_out_of_range(v: i32, min: Option<i32>, max: Option<i32>) -> bool {
    (min matches Some(m) && v < m) || (max matches Some(m) && v > m)
}

/// Whether `v` lies below `min` or above `max`.
pub open spec fn decimal_out_of_range(v: Decimal, min: Option<Decimal>, max: Option<Decimal>) -> bool {
    (min matches Some(m) && v.spec_lt(m)) || (max matches Some(m) && m.spec_lt(v))
}

/// The bound as a decimal number.
pub open spec fn spec_bound(b: Option<i32>) -> Option<Decimal> {
    match b {
        Some(v) => Some(Decimal { mantissa: v as i64, scale: 0 }),
        None => None,
    }
}

/// What a whole number reads from `text`: the word at the start of the
/// text has to be a whole number within the bounds.
pub open spec fn spec_read_int(text: Seq<char>, min: Option<i32>, max: Option<i32>) -> Result<
    (ArgView, int),
    ErrView,
> {
    let end = word_end(text, 0);
    match spec_parse_int(text.take(end)) {
        None => Err(ErrView::InvalidText(text, "an int"@)),
        Some(v) => if int_out_of_range(v, min, max) {
            Err(
                ErrView::Range(
                    Decimal { mantissa: v as i64, scale: 0 },
                    spec_bound(min),
                    spec_bound(max),
                ),
            )
        } else {
            Ok((ArgView::Int(v), end))
        },
    }
}

/// What a decimal number reads from `text`: the word at the start of the
/// text has to be a decimal number within the bounds.
pub open spec fn spec_read_decimal(
    text: Seq<char>,
    min: Option<Decimal>,
    max: Option<Decimal>,
    double: bool,
) -> Result<(ArgView, int), ErrView> {
    let end = word_end(text, 0);
    match spec_parse_decimal(text.take(end)) {
        None => Err(
            ErrView::InvalidText(
                text,
                if double {
                    "a double"@
                } else {
                    "a float"@
                },
            ),
        ),
        Some(v) => if decimal_out_of_range(v, min, max) {
            Err(ErrView::Range(v, min, max))
        } else if double {
            Ok((ArgView::Double(v), end))
        } else {
            Ok((ArgView::Float(v), end))
        },
    }
}

/// What a block position reads from `text`: three whole numbers with one
/// space between two of them.
pub open spec fn spec_read_block_pos(text: Seq<char>) -> Result<(ArgView, int), ErrView> {
    let e0 = word_end(text, 0);
    let e1 = word_end(text, e0 + 1);
    let e2 = word_end(text, e1 + 1);
    if e0 >= text.len() || e1 >= text.len() {
        Err(ErrView::InvalidText(text, "a block position"@))
    } else {
        match (
            spec_parse_int(text.subrange(0, e0)),
            spec_parse_int(text.subrange(e0 + 1, e1)),
            spec_parse_int(text.subrange(e1 + 1, e2)),
        ) {
            (Some(x), Some(y), Some(z)) => Ok((ArgView::BlockPos(Pos { x, y, z }), e2)),
            _ => Err(ErrView::InvalidText(text, "a valid block position coordinate"@)),
        }
    }
}

/// How many bytes the text takes as UTF-8.
pub open spec fn spec_byte_len(text: Seq<char>) -> int {
    vstd::utf8::encode_utf8(text).len() as int
}

/// What a string reads from `text`. A single word and a greedy phrase say
/// how many bytes they took; a quotable phrase counts characters.
pub open spec fn spec_read_string(p: Parser, ty: StringType, text: Seq<char>) -> Result<
    (ArgView, int),
    ErrView,
> {
    match ty {
        StringType::SingleWord => if text.len() == 0 {
            Err(ErrView::EOF(p))
        } else {
            Ok(
                (
                    ArgView::String(text.take(word_end(text, 0))),
                    spec_byte_len(text.take(word_end(text, 0))),
                ),
            )
        },
        StringType::QuotablePhrase => if text.len() == 0 {
            Err(ErrView::EOF(p))
        } else if text[0] == '"' {
            match scan_quoted(text, 1, false, Seq::<char>::empty()) {
                Scan::Done(out, at) => Ok((ArgView::String(out), at + 1)),
                Scan::BadEscape => Err(ErrView::InvalidText(text, "a valid escape character"@)),
            }
        } else {
            Ok((ArgView::String(text.take(word_end(text, 1))), word_end(text, 1)))
        },
        StringType::GreedyPhrase => Ok((ArgView::String(text), spec_byte_len(text))),
    }
}

/// What an argument of kind `p` reads from the start of `text`: the
/// argument and how much of the text it took, or why it could not be read.
/// A single word and a greedy phrase are measured in bytes, a quotable
/// phrase in characters; for the other kinds the two are the same number.
/// The kinds that are not read yet take one character and give the number
/// 5.
pub open spec fn spec_parse(p: Parser, text: Seq<char>) -> Result<(ArgView, int), ErrView> {
    match p {
        Parser::Bool => if starts_with(text, "true"@) {
            Ok((ArgView::Bool(true), 4))
        } else if starts_with(text, "false"@) {
            Ok((ArgView::Bool(false), 5))
        } else {
            Err(ErrView::InvalidText(text, "true or false"@))
        },
        Parser::Double { min, max } => spec_read_decimal(text, min, max, true),
        Parser::Float { min, max } => spec_read_decimal(text, min, max, false),
        Parser::Int { min, max } => spec_read_int(text, min, max),
        Parser::String(ty) => spec_read_string(p, ty, text),
        Parser::BlockPos => spec_read_block_pos(text),
        _ => Ok((ArgView::Int(5), 1)),
    }
}

fn bound(b: Option<i32>) -> (r: Option<Decimal>)
    ensures
        r == spec_bound(b),
{
    match b {
        Some(v) => Some(Decimal::from_int(v)),
        None => None,
    }
}

/// The characters `from` to `to` of `text`, as a string.
fn part(text: &str, from: usize, to: usize) -> (s: String)
    requires
        from <= to <= text@.len(),
    ensures
        s@ == text@.subrange(from as int, to as int),
{
    String::from_str(text.substring_char(from, to))
}

fn whole(text: &str) -> (s: String)
    ensures
        s@ == text@,
{
    String::from_str(text)
}

impl Parser {
    /// Whether the bounds of a decimal kind have eighteen digits at most.
    pub open spec fn wf(self) -> bool {
        match self {
            Parser::Double { min, max } | Parser::Float { min, max } => (min matches Some(m)
                ==> m.wf()) && (max matches Some(m) ==> m.wf()),
            _ => true,
        }
    }

    fn read_int(text: &str, min: Option<i32>, max: Option<i32>) -> (r: Result<
        (Arg, usize),
        ParseError,
    >)
        ensures
            result_view(r) == spec_read_int(text@, min, max),
    {
        let end = find_space(text, 0);
        assert(text@.take(end as int) =~= text@.subrange(0, end as int));
        match parse_int(text, 0, end) {
            None => Err(ParseError::InvalidText(whole(text), String::from_str("an int"))),
            Some(v) => {
                let mut invalid = false;
                match min {
                    Some(m) => {
                        if v < m {
                            invalid = true;
                        }
                    },
                    None => {},
                }
                match max {
                    Some(m) => {
                        if v > m {
                            invalid = true;
                        }
                    },
                    None => {},
                }
                if invalid {
                    Err(ParseError::Range(Decimal::from_int(v), bound(min), bound(max)))
                } else {
                    Ok((Arg::Int(v), end))
                }
            },
        }
    }

    fn read_decimal(text: &str, min: Option<Decimal>, max: Option<Decimal>, double: bool) -> (r:
        Result<(Arg, usize), ParseError>)
        requires
            min matches Some(m) ==> m.wf(),
            max matches Some(m) ==> m.wf(),
        ensures
            result_view(r) == spec_read_decimal(text@, min, max, double),
    {
        let end = find_space(text, 0);
        assert(text@.take(end as int) =~= text@.subrange(0, end as int));
        match parse_decimal(text, 0, end) {
            None => Err(
                ParseError::InvalidText(
                    whole(text),
                    if double {
                        String::from_str("a double")
                    } else {
                        String::from_str("a float")
                    },
                ),
            ),
            Some(v) => {
                let mut invalid = false;
                match min {
                    Some(m) => {
                        if v.lt(&m) {
                            invalid = true;
                        }
                    },
                    None => {},
                }
                match max {
                    Some(m) => {
                        if m.lt(&v) {
                            invalid = true;
                        }
                    },
                    None => {},
                }
                if invalid {
                    Err(ParseError::Range(v, min, max))
                } else if double {
                    Ok((Arg::Double(v), end))
                } else {
                    Ok((Arg::Float(v), end))
                }
            },
        }
    }

    fn read_block_pos(text: &str) -> (r: Result<(Arg, usize), ParseError>)
        ensures
            result_view(r) == spec_read_block_pos(text@),
    {
        let n = text.unicode_len();
        let e0 = find_space(text, 0);
        if e0 >= n {
            return Err(ParseError::InvalidText(whole(text), String::from_str("a block position")));
        }
        let e1 = find_space(text, e0 + 1);
        if e1 >= n {
            return Err(ParseError::InvalidText(whole(text), String::from_str("a block position")));
        }
        let e2 = find_space(text, e1 + 1);
        let x = parse_int(text, 0, e0);
        let y = parse_int(text, e0 + 1, e1);
        let z = parse_int(text, e1 + 1, e2);
        match (x, y, z) {
            (Some(x), Some(y), Some(z)) => Ok((Arg::BlockPos(Pos { x, y, z }), e2)),
            _ => Err(
                ParseError::InvalidText(
                    whole(text),
                    String::from_str("a valid block position coordinate"),
                ),
            ),
        }
    }

    fn read_quoted(text: &str) -> (r: Result<(Arg, usize), ParseError>)
        requires
            text@.len() > 0,
            text@.len() < usize::MAX,
            text@[0] == '"',
        ensures
            result_view(r) == match scan_quoted(text@, 1, false, Seq::<char>::empty()) {
                Scan::Done(out, at) => Ok::<(ArgView, int), ErrView>((ArgView::String(out), at + 1)),
                Scan::BadEscape => Err::<(ArgView, int), ErrView>(
                    ErrView::InvalidText(text@, "a valid escape character"@),
                ),
            },
    {
        let n = text.unicode_len();
        let mut out = String::new();
        let mut escaping = false;
        let mut i: usize = 1;
        while i < n
            invariant
                1 <= i <= n,
                n == text@.len(),
                scan_quoted(text@, 1, false, Seq::<char>::empty()) == scan_quoted(
                    text@,
                    i as int,
                    escaping,
                    out@,
                ),
            decreases n - i,
        {
            let c = text.get_char(i);
            let ghost before = out@;
            if escaping {
                if c == '"' || c == '\\' {
                    out.append(text.substring_char(i, i + 1));
                    assert(out@ =~= before.push(c));
                } else {
                    return Err(
                        ParseError::InvalidText(
                            whole(text),
                            String::from_str("a valid escape character"),
                        ),
                    );
                }
                escaping = false;
            } else {
                if c == '"' {
                    return Ok((Arg::String(out), i + 1));
                } else if c == '\\' {
                    escaping = true;
                } else {
                    out.append(text.substring_char(i, i + 1));
                    assert(out@ =~= before.push(c));
                }
            }
            i += 1;
        }
        Ok((Arg::String(out), n + 1))
    }

    /// Reads an argument of this kind from the start of `text` (see
    /// [`spec_parse`]).
    pub fn parse(&self, text: &str) -> (r: Result<(Arg, usize), ParseError>)
        requires
            self.wf(),
            text@.len() < usize::MAX,
        ensures
            result_view(r) == spec_parse(*self, text@),
    {
        match self {
            Parser::Bool => {
                if starts_with_exec(text, "true") {
                    Ok((Arg::Bool(true), 4))
                } else if starts_with_exec(text, "false") {
                    Ok((Arg::Bool(false), 5))
                } else {
                    Err(ParseError::InvalidText(whole(text), String::from_str("true or false")))
                }
            },
            Parser::Double { min, max } => Parser::read_decimal(text, *min, *max, true),
            Parser::Float { min, max } => Parser::read_decimal(text, *min, *max, false),
            Parser::Int { min, max } => Parser::read_int(text, *min, *max),
            Parser::String(ty) => match ty {
                StringType::SingleWord => {
                    if text.unicode_len() == 0 {
                        return Err(ParseError::EOF(*self));
                    }
                    let end = find_space(text, 0);
                    assert(text@.take(end as int) =~= text@.subrange(0, end as int));
                    let word = part(text, 0, end);
                    let taken = word.as_str().as_bytes().len();
                    assert(taken == spec_byte_len(text@.take(end as int)));
                    Ok((Arg::String(word), taken))
                },
                StringType::QuotablePhrase => {
                    if text.unicode_len() == 0 {
                        return Err(ParseError::EOF(*self));
                    }
                    if text.get_char(0) == '"' {
                        Parser::read_quoted(text)
                    } else {
                        let end = find_space(text, 1);
                        assert(text@.take(end as int) =~= text@.subrange(0, end as int));
                        Ok((Arg::String(part(text, 0, end)), end))
                    }
                },
                StringType::GreedyPhrase => {
                    let taken = text.as_bytes().len();
                    assert(taken == spec_byte_len(text@));
                    Ok((Arg::String(whole(text)), taken))
                },
            },
            Parser::BlockPos => Parser::read_block_pos(text),
            _ => Ok((Arg::Int(5), 1)),
        }
    }
}

} // verus!
