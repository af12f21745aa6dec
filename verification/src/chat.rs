//! Chat messages: pieces of text, each with an optional colour, and their
//! JSON form.

use vstd::prelude::*;

verus! {

/// The colours of chat text.
#[derive(Clone, Copy, Debug, PartialEq, Eq, Structural)]
pub enum Color {
    Black,
    DarkBlue,
    DarkGreen,
    DarkAqua,
    DarkRed,
    Purple,
    Gold,
    Gray,
    DarkGray,
    Blue,
    BrightGreen,
    Cyan,
    Red,
    Pink,
    Yellow,
    White,
}

impl Color {
    /// The name of the colour in JSON.
    pub fn name(self) -> (s: &'static str)
        ensures
            s@ == self.spec_name(),
    {
        match self {
            Color::Black => "black",
            Color::DarkBlue => "dark_blue",
            Color::DarkGreen => "dark_green",
            Color::DarkAqua => "dark_aqua",
            Color::DarkRed => "dark_red",
            Color::Purple => "dark_purple",
            Color::Gold => "gold",
            Color::Gray => "gray",
            Color::DarkGray => "dark_gray",
            Color::Blue => "blue",
            Color::BrightGreen => "green",
            Color::Cyan => "aqua",
            Color::Red => "red",
            Color::Pink => "light_purple",
            Color::Yellow => "yellow",
            Color::White => "white",
        }
    }

    pub open spec fn spec_name(self) -> Seq<char> {
        match self {
            Color::Black => "black"@,
            Color::DarkBlue => "dark_blue"@,
            Color::DarkGreen => "dark_green"@,
            Color::DarkAqua => "dark_aqua"@,
            Color::DarkRed => "dark_red"@,
            Color::Purple => "dark_purple"@,
            Color::Gold => "gold"@,
            Color::Gray => "gray"@,
            Color::DarkGray => "dark_gray"@,
            Color::Blue => "blue"@,
            Color::BrightGreen => "green"@,
            Color::Cyan => "aqua"@,
            Color::Red => "red"@,
            Color::Pink => "light_purple"@,
            Color::Yellow => "yellow"@,
            Color::White => "white"@,
        }
    }
}

/// One piece of a message.
#[derive(Clone, Debug, PartialEq, Eq)]
pub struct Section {
    pub text: String,
    pub color: Option<Color>,
}

/// A message: its pieces, in order.
#[derive(Clone, Debug, PartialEq, Eq)]
pub struct Chat {
    pub sections: Vec<Section>,
}

/// The hexadecimal digit for `d`, in lower case.
pub open spec fn spec_hex(d: int) -> char {
    "0123456789abcdef"@[d]
}

/// How one character is written inside a JSON string: the quote and the
/// backslash behind a backslash; the control characters below U+0020 by
/// their short names where JSON has one, and as `\u00` and two hexadecimal
/// digits otherwise; any other character as it is.
#[verifier::opaque]
pub open spec fn spec_escape_char(c: char) -> Seq<char> {
    if c == '"' {
        seq!['\\', '"']
    } else if c == '\\' {
        seq!['\\', '\\']
    } else if c == '\n' {
        seq!['\\', 'n']
    } else if c == '\r' {
        seq!['\\', 'r']
    } else if c == '\t' {
        seq!['\\', 't']
    } else if c == '\u{8}' {
        seq!['\\', 'b']
    } else if c == '\u{c}' {
        seq!['\\', 'f']
    } else if (c as u32) < 0x20 {
        seq!['\\', 'u', '0', '0', spec_hex((c as u32 / 16) as int), spec_hex((c as u32 % 16) as int)]
    } else {
        seq![c]
    }
}

/// How a text is written inside a JSON string: character by character.
pub open spec fn spec_escape(s: Seq<char>) -> Seq<char>
    decreases s.len(),
{
    if s.len() == 0 {
        Seq::empty()
    } else {
        spec_escape(s.drop_last()) + spec_escape_char(s.last())
    }
}

/// The JSON of one piece: `{"text":"..."}`, with the colour behind the text
/// where there is one.
pub open spec fn spec_section_json(text: Seq<char>, color: Option<Color>) -> Seq<char> {
    let head = "{\"text\":\""@ + spec_escape(text) + "\""@;
    match color {
        Some(c) => head + ",\"color\":\""@ + c.spec_name() + "\"}"@,
        None => head + "}"@,
    }
}

/// The JSON of the pieces from `i` on, each with a comma before it unless
/// it is the first.
pub open spec fn spec_sections_json(sections: Seq<(Seq<char>, Option<Color>)>, i: int) -> Seq<char>
    decreases sections.len() - i,
{
    if i < 0 || i >= sections.len() {
        Seq::empty()
    } else {
        (if i == 0 {
            Seq::<char>::empty()
        } else {
            ","@
        }) + spec_section_json(sections[i].0, sections[i].1) + spec_sections_json(sections, i + 1)
    }
}

/// The JSON of a message, given its pieces as text and colour: an empty
/// text that the pieces are the extras of.
pub open spec fn spec_chat_json(sections: Seq<(Seq<char>, Option<Color>)>) -> Seq<char> {
    if sections.len() == 0 {
        "{\"text\":\"\"}"@
    } else {
        "{\"text\":\"\",\"extra\":["@ + spec_sections_json(sections, 0) + "]}"@
    }
}

/// The decimal digits of `n`.
pub open spec fn spec_decimal(n: nat) -> Seq<char>
    decreases n,
{
    if n < 10 {
        seq![spec_digit_char(n)]
    } else {
        spec_decimal(n / 10).push(spec_digit_char(n % 10))
    }
}

/// The character of a digit.
pub open spec fn spec_digit_char(d: nat) -> char {
    if d == 0 {
        '0'
    } else if d == 1 {
        '1'
    } else if d == 2 {
        '2'
    } else if d == 3 {
        '3'
    } else if d == 4 {
        '4'
    } else if d == 5 {
        '5'
    } else if d == 6 {
        '6'
    } else if d == 7 {
        '7'
    } else if d == 8 {
        '8'
    } else {
        '9'
    }
}

fn digit_str(d: u32) -> (s: &'static str)
    requires
        d < 10,
    ensures
        s@ == seq![spec_digit_char(d as nat)],
{
    proof {
        reveal_strlit("0");
        reveal_strlit("1");
        reveal_strlit("2");
        reveal_strlit("3");
        reveal_strlit("4");
        reveal_strlit("5");
        reveal_strlit("6");
        reveal_strlit("7");
        reveal_strlit("8");
        reveal_strlit("9");
    }
    let s = if d == 0 {
        "0"
    } else if d == 1 {
        "1"
    } else if d == 2 {
        "2"
    } else if d == 3 {
        "3"
    } else if d == 4 {
        "4"
    } else if d == 5 {
        "5"
    } else if d == 6 {
        "6"
    } else if d == 7 {
        "7"
    } else if d == 8 {
        "8"
    } else {
        "9"
    };
    assert(s@ =~= seq![spec_digit_char(d as nat)]);
    s
}

/// The decimal digits of `n`.
pub fn decimal(n: u32) -> (out: String)
    ensures
        out@ == spec_decimal(n as nat),
{
    // The digits from the last to the first, then turned round.
    let mut digits: Vec<u32> = Vec::new();
    let mut rest: u32 = n;
    while rest >= 10
        invariant
            forall|i: int| 0 <= i < digits@.len() ==> digits@[i] < 10,
            spec_decimal(n as nat) == spec_decimal(rest as nat) + spec_tail(digits@),
        decreases rest,
    {
        let ghost before = digits@;
        digits.push(rest % 10);
        proof {
            assert(spec_tail(digits@) =~= seq![spec_digit_char((rest % 10) as nat)] + spec_tail(
                before,
            )) by {
                assert(digits@.drop_last() =~= before);
            }
            assert(spec_decimal(rest as nat) =~= spec_decimal((rest / 10) as nat) + seq![
                spec_digit_char((rest % 10) as nat),
            ]);
        }
        rest = rest / 10;
    }
    let mut out = String::new();
    out.append(digit_str(rest));
    let mut i: usize = digits.len();
    assert(out@ =~= spec_decimal(rest as nat));
    assert(digits@.subrange(0, digits@.len() as int) =~= digits@);
    while i > 0
        invariant
            i <= digits@.len(),
            forall|j: int| 0 <= j < digits@.len() ==> digits@[j] < 10,
            out@ + spec_tail(digits@.subrange(0, i as int)) == spec_decimal(rest as nat) + spec_tail(
                digits@,
            ),
        decreases i,
    {
        i -= 1;
        let ghost before = out@;
        out.append(digit_str(digits[i]));
        proof {
            let upto = digits@.subrange(0, i + 1);
            assert(upto.drop_last() =~= digits@.subrange(0, i as int));
            assert(upto.last() == digits@[i as int]);
            assert(before + spec_tail(upto) =~= out@ + spec_tail(digits@.subrange(0, i as int)));
        }
    }
    assert(digits@.subrange(0, 0) =~= Seq::empty());
    assert(out@ + Seq::<char>::empty() =~= out@);
    out
}

/// The characters of digits that were collected last digit first.
pub open spec fn spec_tail(digits: Seq<u32>) -> Seq<char>
    decreases digits.len(),
{
    if digits.len() == 0 {
        Seq::empty()
    } else {
        seq![spec_digit_char(digits.last() as nat)] + spec_tail(digits.drop_last())
    }
}

/// Appends `text` to `out` as it is written inside a JSON string.
pub fn escape_into(out: &mut String, text: &str)
    ensures
        final(out)@ == old(out)@ + spec_escape(text@),
{
    let n = text.unicode_len();
    let mut i: usize = 0;
    assert(text@.take(0) =~= Seq::empty());
    assert(old(out)@ + Seq::<char>::empty() =~= old(out)@);
    while i < n
        invariant
            i <= n,
            n == text@.len(),
            out@ == old(out)@ + spec_escape(text@.take(i as int)),
        decreases n - i,
    {
        let c = text.get_char(i);
        proof {
            reveal_strlit("\\\"");
            reveal_strlit("\\\\");
            reveal_strlit("\\n");
            reveal_strlit("\\r");
            reveal_strlit("\\t");
            reveal_strlit("\\b");
            reveal_strlit("\\f");
            reveal_strlit("\\u00");
            reveal_strlit("0123456789abcdef");
            reveal(spec_escape_char);
            let next = text@.take(i + 1);
            assert(next.drop_last() =~= text@.take(i as int));
            assert(next.last() == c);
        }
        let ghost before = out@;
        if c == '"' {
            out.append("\\\"");
            assert("\\\""@ =~= spec_escape_char(c));
        } else if c == '\\' {
            out.append("\\\\");
            assert("\\\\"@ =~= spec_escape_char(c));
        } else if c == '\n' {
            out.append("\\n");
            assert("\\n"@ =~= spec_escape_char(c));
        } else if c == '\r' {
            out.append("\\r");
            assert("\\r"@ =~= spec_escape_char(c));
        } else if c == '\t' {
            out.append("\\t");
            assert("\\t"@ =~= spec_escape_char(c));
        } else if c == '\u{8}' {
            out.append("\\b");
            assert("\\b"@ =~= spec_escape_char(c));
        } else if c == '\u{c}' {
            out.append("\\f");
            assert("\\f"@ =~= spec_escape_char(c));
        } else if (c as u32) < 0x20 {
            let digits = "0123456789abcdef";
            assert(digits.is_ascii());
            let hi = (c as u32 / 16) as usize;
            let lo = (c as u32 % 16) as usize;
            out.append("\\u00");
            out.append(digits.substring_ascii(hi, hi + 1));
            out.append(digits.substring_ascii(lo, lo + 1));
            assert(out@ =~= before + spec_escape_char(c));
        } else {
            let one = text.substring_char(i, i + 1);
            assert(one@ =~= spec_escape_char(c));
            out.append(one);
        }
        assert(out@ =~= old(out)@ + spec_escape(text@.take(i + 1)));
        i += 1;
    }
    assert(text@.take(n as int) =~= text@);
}

impl Chat {
    /// The pieces of the message, each as its text and its colour.
    pub open spec fn view(self) -> Seq<(Seq<char>, Option<Color>)> {
        Seq::new(self.sections@.len(), |i: int| (self.sections@[i].text@, self.sections@[i].color))
    }

    /// A message without text.
    pub fn empty() -> (c: Chat)
        ensures
            c@ == Seq::<(Seq<char>, Option<Color>)>::empty(),
    {
        let c = Chat { sections: Vec::new() };
        assert(c@ =~= Seq::<(Seq<char>, Option<Color>)>::empty());
        c
    }

    /// A message of one piece, without colour.
    pub fn new(text: String) -> (c: Chat)
        ensures
            c@ == seq![(text@, None::<Color>)],
    {
        let mut sections: Vec<Section> = Vec::new();
        sections.push(Section { text, color: None });
        let c = Chat { sections };
        assert(c@ =~= seq![(text@, None::<Color>)]);
        c
    }

    /// Adds a piece to the message.
    pub fn add(&mut self, text: String, color: Option<Color>)
        ensures
            final(self)@ == old(self)@.push((text@, color)),
    {
        self.sections.push(Section { text, color });
        assert(self@ =~= old(self)@.push((text@, color)));
    }

    /// The message as JSON (see [`spec_chat_json`]).
    pub fn to_json(&self) -> (out: String)
        ensures
            out@ == spec_chat_json(self@),
    {
        if self.sections.len() == 0 {
            return String::from_str("{\"text\":\"\"}");
        }
        let mut out = String::from_str("{\"text\":\"\",\"extra\":[");
        let ghost head = out@;
        let mut i: usize = 0;
        while i < self.sections.len()
            invariant
                i <= self.sections@.len(),
                out@ + spec_sections_json(self@, i as int) == head + spec_sections_json(
                    self@,
                    0,
                ),
            decreases self.sections@.len() - i,
        {
            let ghost before = out@;
            if i != 0 {
                out.append(",");
            }
            out.append("{\"text\":\"");
            escape_into(&mut out, self.sections[i].text.as_str());
            out.append("\"");
            match self.sections[i].color {
                Some(c) => {
                    out.append(",\"color\":\"");
                    out.append(c.name());
                    out.append("\"}");
                },
                None => {
                    out.append("}");
                },
            }
            proof {
                let piece = (if i == 0 {
                    Seq::<char>::empty()
                } else {
                    ","@
                }) + spec_section_json(self@[i as int].0, self@[i as int].1);
                assert(out@ =~= before + piece);
                assert(before + spec_sections_json(self@, i as int) =~= before + piece
                    + spec_sections_json(self@, i + 1));
            }
            i += 1;
        }
        let ghost body = out@;
        out.append("]}");
        assert(body + Seq::<char>::empty() =~= body);
        assert(out@ =~= spec_chat_json(self@));
        out
    }
}

} // verus!
