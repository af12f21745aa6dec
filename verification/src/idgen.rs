//! The source text of the enum of canonical packet ids: the artifact that a
//! build writes from the canonical names.

use vstd::prelude::*;
use convert_case::{Case, Casing};
use crate::ids::names_view;

verus! {

/// The name in Pascal case, as `convert_case` makes it.
pub uninterp spec fn pascal_cased(name: Seq<char>) -> Seq<char>;

/// Whether every character of the name is ASCII.
pub open spec fn spec_plain(name: Seq<char>) -> bool {
    vstd::utf8::is_ascii_chars(name)
}

/// The first name from `i` on that is not all ASCII, or -1.
pub open spec fn spec_first_odd(names: Seq<Seq<char>>, i: int) -> int
    decreases names.len() - i,
{
    if i < 0 || i >= names.len() {
        -1
    } else if !spec_plain(names[i]) {
        i
    } else {
        spec_first_odd(names, i + 1)
    }
}

/// Calls `convert_case`'s `to_case(Case::Pascal)` on a name of ASCII
/// characters. Nothing is proved of the outcome; the contract only gives
/// it its name. Other names are left out: the crate cuts a name into words
/// at positions that it counts in characters and in bytes alike.
#[verifier::external_body]
pub(crate) fn to_pascal(name: &String) -> (out: String)
    requires
        spec_plain(name@),
    ensures
        out@ == pascal_cased(name@),
{
    name.to_case(Case::Pascal)
}

/// Each name in Pascal case.
pub open spec fn spec_pascal_names(names: Seq<Seq<char>>) -> Seq<Seq<char>> {
    Seq::new(names.len(), |i: int| pascal_cased(names[i]))
}

/// Each name in Pascal case, where every name is made of ASCII characters;
/// `None` where one of them is not.
pub fn pascal_names(names: &Vec<String>) -> (r: Option<Vec<String>>)
    ensures
        r.is_some() == (spec_first_odd(names_view(names@), 0) == -1),
        r matches Some(out) ==> names_view(out@) == spec_pascal_names(names_view(names@)),
{
    let mut out: Vec<String> = Vec::new();
    let mut i: usize = 0;
    let ghost nv = names_view(names@);
    while i < names.len()
        invariant
            i <= names@.len(),
            nv == names_view(names@),
            out@.len() == i,
            spec_first_odd(nv, 0) == spec_first_odd(nv, i as int),
            forall|j: int| 0 <= j < i ==> (#[trigger] out@[j])@ == pascal_cased(names@[j]@),
        decreases names@.len() - i,
    {
        assert(nv[i as int] == names@[i as int]@);
        if !names[i].is_ascii() {
            return None;
        }
        out.push(to_pascal(&names[i]));
        i += 1;
    }
    assert(names_view(out@) =~= spec_pascal_names(names_view(names@)));
    Some(out)
}

/// The variants from `i` on, one to a line.
pub open spec fn spec_variant_lines(pascal: Seq<Seq<char>>, i: int) -> Seq<char>
    decreases pascal.len() - i,
{
    if i < 0 || i >= pascal.len() {
        Seq::empty()
    } else {
        "  "@ + pascal[i] + ",\n"@ + spec_variant_lines(pascal, i + 1)
    }
}

/// The match arms from `i` on, one to a line: the name as it is on the
/// wire, and the variant that stands for it.
pub open spec fn spec_arm_lines(names: Seq<Seq<char>>, pascal: Seq<Seq<char>>, i: int) -> Seq<char>
    decreases names.len() - i,
{
    if i < 0 || i >= names.len() {
        Seq::empty()
    } else {
        "      \""@ + names[i] + "\" => ID::"@ + pascal[i] + ",\n"@ + spec_arm_lines(
            names,
            pascal,
            i + 1,
        )
    }
}

/// The enum of ids, under the two lines that say what it is: `None` for no
/// packet, then one variant for each name.
pub open spec fn spec_enum_text(pascal: Seq<Seq<char>>) -> Seq<char> {
    "/// Auto generated packet ids. This is a combination of all packet\n/// names for all versions. Some of these packets are never used.\n#[derive(Clone, Copy, Debug, FromPrimitive, ToPrimitive, PartialEq, Eq, Hash)]\npub enum ID {\n  None,\n"@
        + spec_variant_lines(pascal, 0) + "}\n"@
}

/// The function that finds the id of a name.
pub open spec fn spec_from_str_text(names: Seq<Seq<char>>, pascal: Seq<Seq<char>>) -> Seq<char> {
    "impl ID {\n  pub fn from_str(s: &str) -> Self {\n    match s {\n"@ + spec_arm_lines(
        names,
        pascal,
        0,
    ) + "      _ => ID::None,\n    }\n  }\n}\n"@
}

/// The source of the ids of one direction: the enum, and behind it, where
/// `with_from_str` says so, the function that finds the id of a name.
pub open spec fn spec_render_ids(
    names: Seq<Seq<char>>,
    pascal: Seq<Seq<char>>,
    with_from_str: bool,
) -> Seq<char> {
    if with_from_str {
        spec_enum_text(pascal) + spec_from_str_text(names, pascal)
    } else {
        spec_enum_text(pascal)
    }
}

/// The source of the ids of one direction, given the names and what each
/// is called as a variant (see [`spec_render_ids`]).
pub fn render_ids(names: &Vec<String>, pascal: &Vec<String>, with_from_str: bool) -> (out: String)
    requires
        names@.len() == pascal@.len(),
    ensures
        out@ == spec_render_ids(names_view(names@), names_view(pascal@), with_from_str),
{
    let ghost nv = names_view(names@);
    let ghost pv = names_view(pascal@);
    let mut out = String::from_str(
        "/// Auto generated packet ids. This is a combination of all packet\n/// names for all versions. Some of these packets are never used.\n#[derive(Clone, Copy, Debug, FromPrimitive, ToPrimitive, PartialEq, Eq, Hash)]\npub enum ID {\n  None,\n",
    );
    let ghost head = out@;
    let mut i: usize = 0;
    while i < pascal.len()
        invariant
            i <= pascal@.len(),
            pv == names_view(pascal@),
            out@ + spec_variant_lines(pv, i as int) == head + spec_variant_lines(pv, 0),
        decreases pascal@.len() - i,
    {
        let ghost before = out@;
        out.append("  ");
        out.append(pascal[i].as_str());
        out.append(",\n");
        proof {
            assert(pv[i as int] == pascal@[i as int]@);
            assert(before + spec_variant_lines(pv, i as int) =~= out@ + spec_variant_lines(
                pv,
                i + 1,
            ));
        }
        i += 1;
    }
    let ghost body = out@;
    out.append("}\n");
    proof {
        assert(body + Seq::<char>::empty() =~= body);
        assert(out@ =~= spec_enum_text(pv));
    }
    if with_from_str {
        let ghost enum_text = out@;
        out.append("impl ID {\n  pub fn from_str(s: &str) -> Self {\n    match s {\n");
        let ghost head2 = out@;
        let mut k: usize = 0;
        while k < names.len()
            invariant
                k <= names@.len(),
                names@.len() == pascal@.len(),
                nv == names_view(names@),
                pv == names_view(pascal@),
                out@ + spec_arm_lines(nv, pv, k as int) == head2 + spec_arm_lines(nv, pv, 0),
            decreases names@.len() - k,
        {
            let ghost before = out@;
            out.append("      \"");
            out.append(names[k].as_str());
            out.append("\" => ID::");
            out.append(pascal[k].as_str());
            out.append(",\n");
            proof {
                assert(pv[k as int] == pascal@[k as int]@);
                assert(nv[k as int] == names@[k as int]@);
                assert(before + spec_arm_lines(nv, pv, k as int) =~= out@ + spec_arm_lines(
                    nv,
                    pv,
                    k + 1,
                ));
            }
            k += 1;
        }
        let ghost arms = out@;
        out.append("      _ => ID::None,\n    }\n  }\n}\n");
        proof {
            assert(arms + Seq::<char>::empty() =~= arms);
            assert(out@ =~= spec_enum_text(pv) + spec_from_str_text(nv, pv));
        }
    }
    out
}

/// The source of the ids of one direction, each name as a variant in Pascal
/// case; `None` where a name is not made of ASCII characters.
pub fn id_source(names: &Vec<String>, with_from_str: bool) -> (r: Option<String>)
    ensures
        r.is_some() == (spec_first_odd(names_view(names@), 0) == -1),
        r matches Some(out) ==> out@ == spec_render_ids(
            names_view(names@),
            spec_pascal_names(names_view(names@)),
            with_from_str,
        ),
{
    match pascal_names(names) {
        Some(pascal) => {
            assert(names_view(pascal@).len() == names@.len());
            Some(render_ids(names, &pascal, with_from_str))
        },
        None => None,
    }
}

} // verus!
