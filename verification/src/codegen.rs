//! A writer of source text that keeps track of indentation: the tables of
//! packet ids are written with it.

use vstd::prelude::*;

verus! {

/// What a generator has written, and how it stands.
pub struct GenState {
    /// The text so far.
    pub text: Seq<char>,
    /// The indent level: two spaces each.
    pub indent: nat,
    /// Whether the next text starts a line and gets the indent written
    /// before it.
    pub needs_indent: bool,
}

/// `n` spaces.
pub open spec fn spaces(n: nat) -> Seq<char> {
    Seq::new(n, |i: int| ' ')
}

/// The state after `src` is written: nothing changes for an empty `src`;
/// otherwise the indent comes first where a line starts.
pub open spec fn st_write(s: GenState, src: Seq<char>) -> GenState {
    if src.len() == 0 {
        s
    } else if s.needs_indent {
        GenState { text: s.text + spaces(2 * s.indent) + src, indent: s.indent, needs_indent: false }
    } else {
        GenState { text: s.text + src, indent: s.indent, needs_indent: false }
    }
}

/// The state after `src` and a line break are written. An empty `src` gives
/// an empty line, without indent.
pub open spec fn st_write_line(s: GenState, src: Seq<char>) -> GenState {
    let w = st_write(s, src);
    GenState { text: w.text.push('\n'), indent: w.indent, needs_indent: true }
}

pub open spec fn st_add_indent(s: GenState) -> GenState {
    GenState { indent: s.indent + 1, ..s }
}

pub open spec fn st_remove_indent(s: GenState) -> GenState {
    GenState { indent: (s.indent - 1) as nat, ..s }
}

/// The state after the items from `i` on are written, with `sep` between
/// two of them.
pub open spec fn st_join(s: GenState, items: Seq<&str>, i: int, sep: Seq<char>) -> GenState
    decreases items.len() - i,
{
    if i < 0 || i >= items.len() {
        s
    } else {
        let w = st_write(s, items[i]@);
        let w2 = if i != items.len() - 1 {
            st_write(w, sep)
        } else {
            w
        };
        st_join(w2, items, i + 1, sep)
    }
}

/// The state after each item from `i` on is written, followed by `end` and
/// a line break.
pub open spec fn st_lines(s: GenState, items: Seq<&str>, i: int, end: Seq<char>) -> GenState
    decreases items.len() - i,
{
    if i < 0 || i >= items.len() {
        s
    } else {
        st_lines(st_write_line(st_write(s, items[i]@), end), items, i + 1, end)
    }
}

/// The state after the fields from `i` on are written, each as
/// `name: type,` on a line of its own.
pub open spec fn st_fields(s: GenState, fields: Seq<(&str, &str)>, i: int) -> GenState
    decreases fields.len() - i,
{
    if i < 0 || i >= fields.len() {
        s
    } else {
        let a = st_write(s, fields[i].0@);
        let b = st_write(a, ": "@);
        let c = st_write(b, fields[i].1@);
        st_fields(st_write_line(c, ","@), fields, i + 1)
    }
}

/// A variant of an enum to write.
pub enum EnumVariant<'a> {
    /// `Name,`
    Named(&'a str),
    /// `Name(A, B),`
    Tuple(&'a str, &'a [&'a str]),
    /// `Name {` and then each field as `name: type,` on its own line.
    Struct(&'a str, &'a [(&'a str, &'a str)]),
}

/// The pattern of a match arm to write.
pub enum MatchBranch<'a> {
    /// `Name`
    Unit(&'a str),
    /// `Name(a, b)`
    Tuple(&'a str, &'a [&'a str]),
    /// `Name { a, b }`, one field per line
    Struct(&'a str, &'a [&'a str]),
    /// `_`
    Other,
}

/// An argument of a function to write.
pub struct FuncArg<'a> {
    pub name: &'a str,
    pub ty: &'a str,
}

/// The state after the variant is written.
pub open spec fn st_variant(s: GenState, v: EnumVariant) -> GenState {
    match v {
        EnumVariant::Named(name) => st_write_line(st_write(s, name@), ","@),
        EnumVariant::Tuple(name, fields) => st_write_line(
            st_join(st_write(st_write(s, name@), "("@), fields@, 0, ", "@),
            "),"@,
        ),
        EnumVariant::Struct(name, fields) => st_write_line(
            st_remove_indent(
                st_fields(st_add_indent(st_write_line(st_write(s, name@), " {"@)), fields@, 0),
            ),
            "},"@,
        ),
    }
}

/// The state after the variants from `i` on are written.
pub open spec fn st_variants(s: GenState, variants: Seq<EnumVariant>, i: int) -> GenState
    decreases variants.len() - i,
{
    if i < 0 || i >= variants.len() {
        s
    } else {
        st_variants(st_variant(s, variants[i]), variants, i + 1)
    }
}

/// The state after the enum `name` is written.
pub open spec fn st_enum(s: GenState, name: Seq<char>, variants: Seq<EnumVariant>) -> GenState {
    let head = st_write_line(st_write(st_write(s, "pub enum "@), name), " {"@);
    st_write_line(st_remove_indent(st_variants(st_add_indent(head), variants, 0)), "}"@)
}

/// The state after the pattern and ` => ` are written.
pub open spec fn st_branch(s: GenState, b: MatchBranch) -> GenState {
    let pattern = match b {
        MatchBranch::Unit(name) => st_write(s, name@),
        MatchBranch::Tuple(name, fields) => st_write(
            st_join(st_write(st_write(s, name@), "("@), fields@, 0, ", "@),
            ")"@,
        ),
        MatchBranch::Struct(name, fields) => st_write(
            st_remove_indent(
                st_lines(st_add_indent(st_write(st_write(s, name@), " { "@)), fields@, 0, ","@),
            ),
            " }"@,
        ),
        MatchBranch::Other => st_write(s, "_"@),
    };
    st_write(pattern, " => "@)
}

/// The state after the argument is written as `name: type`.
pub open spec fn st_arg(s: GenState, a: FuncArg) -> GenState {
    st_write(st_write(st_write(s, a.name@), ": "@), a.ty@)
}

/// The state after the arguments from `i` on are written, with `, `
/// between two of them.
pub open spec fn st_args(s: GenState, args: Seq<FuncArg>, i: int) -> GenState
    decreases args.len() - i,
{
    if i < 0 || i >= args.len() {
        s
    } else {
        let w = st_arg(s, args[i]);
        let w2 = if i != args.len() - 1 {
            st_write(w, ", "@)
        } else {
            w
        };
        st_args(w2, args, i + 1)
    }
}

/// The state after the header of a function is written, one level deeper:
/// what is written next is its body.
pub open spec fn st_func_head(
    s: GenState,
    name: Seq<char>,
    args: Seq<FuncArg>,
    ret: Option<&str>,
) -> GenState {
    let open = st_write(st_write(st_write(s, "pub fn "@), name), "("@);
    let closed = st_write(st_args(open, args, 0), ")"@);
    let with_ret = match ret {
        Some(r) => st_write(st_write(closed, " -> "@), r@),
        None => closed,
    };
    st_add_indent(st_write_line(with_ret, " {"@))
}

/// The state after a block is closed: one level back, and the closing
/// brace on a line of its own.
pub open spec fn st_end(s: GenState) -> GenState {
    st_write_line(st_remove_indent(s), "}"@)
}

/// The state after the function is written: the header, the lines of the
/// body one level deeper, and the closing brace.
pub open spec fn st_func(
    s: GenState,
    name: Seq<char>,
    args: Seq<FuncArg>,
    ret: Option<&str>,
    body: Seq<&str>,
) -> GenState {
    st_end(st_lines(st_func_head(s, name, args, ret), body, 0, ""@))
}

/// The state after the head of a match is written, one level deeper: what
/// is written next are its arms.
pub open spec fn st_match_head(s: GenState, variable: Seq<char>) -> GenState {
    st_add_indent(st_write_line(st_write(st_write(s, "match "@), variable), " {"@))
}

/// The state after the pattern of an arm and its arrow are written, with
/// the type's name and `::` before the pattern unless it is `_`: what is
/// written next is the block of the arm.
pub open spec fn st_arm(s: GenState, enum_name: Seq<char>, b: MatchBranch) -> GenState {
    match b {
        MatchBranch::Other => st_branch(s, b),
        _ => st_branch(st_write(st_write(s, enum_name), "::"@), b),
    }
}

/// The state after the arms from `i` on are written: each pattern, with the
/// type's name and `::` before it unless it is `_`, and then its block and a
/// line break.
pub open spec fn st_arms(
    s: GenState,
    enum_name: Seq<char>,
    branches: Seq<MatchBranch>,
    blocks: Seq<&str>,
    i: int,
) -> GenState
    decreases branches.len() - i,
{
    if i < 0 || i >= branches.len() {
        s
    } else {
        st_arms(
            st_write_line(st_arm(s, enum_name, branches[i]), blocks[i]@),
            enum_name,
            branches,
            blocks,
            i + 1,
        )
    }
}

/// The state after the match is written.
pub open spec fn st_match(
    s: GenState,
    variable: Seq<char>,
    enum_name: Seq<char>,
    branches: Seq<MatchBranch>,
    blocks: Seq<&str>,
) -> GenState {
    st_end(st_arms(st_match_head(s, variable), enum_name, branches, blocks, 0))
}

/// A generator of source text.
pub struct CodeGen {
    current: String,
    /// The indent level, not the number of spaces.
    indent: usize,
    /// The indent is written with the first text of a line, not with the
    /// line break before it.
    needs_indent: bool,
}

impl CodeGen {
    /// What was written, and how the generator stands.
    pub closed spec fn state(self) -> GenState {
        GenState { text: self.current@, indent: self.indent as nat, needs_indent: self.needs_indent }
    }

    /// A generator that has written nothing, at indent level 0.
    pub fn new() -> (g: CodeGen)
        ensures
            g.state() == (GenState { text: Seq::<char>::empty(), indent: 0, needs_indent: true }),
    {
        CodeGen { current: String::new(), indent: 0, needs_indent: true }
    }

    /// Writes `src`, after the indent where a line starts. Writes nothing
    /// for an empty `src`.
    pub fn write(&mut self, src: &str)
        ensures
            final(self).state() == st_write(old(self).state(), src@),
    {
        if src.is_empty() {
            return ;
        }
        if self.needs_indent {
            let ghost start = self.current@;
            let mut i: usize = 0;
            while i < self.indent
                invariant
                    i <= self.indent,
                    self.indent == old(self).indent,
                    self.needs_indent == old(self).needs_indent,
                    self.current@ == start + spaces((2 * i) as nat),
                decreases self.indent - i,
            {
                proof {
                    reveal_strlit("  ");
                }
                self.current.append("  ");
                assert(self.current@ =~= start + spaces((2 * (i + 1)) as nat));
                i += 1;
            }
            self.needs_indent = false;
        }
        self.current.append(src);
    }

    /// Writes `src` and a line break. An empty `src` gives an empty line.
    pub fn write_line(&mut self, src: &str)
        ensures
            final(self).state() == st_write_line(old(self).state(), src@),
    {
        self.write(src);
        proof {
            reveal_strlit("\n");
        }
        let ghost before = self.current@;
        self.current.append("\n");
        assert(self.current@ =~= before.push('\n'));
        self.needs_indent = true;
    }

    /// Goes one indent level deeper.
    pub fn add_indent(&mut self)
        requires
            old(self).state().indent < usize::MAX,
        ensures
            final(self).state() == st_add_indent(old(self).state()),
    {
        self.indent = self.indent + 1;
    }

    /// Comes one indent level back.
    pub fn remove_indent(&mut self)
        requires
            old(self).state().indent > 0,
        ensures
            final(self).state() == st_remove_indent(old(self).state()),
    {
        self.indent = self.indent - 1;
    }

    /// Goes back to indent level 0.
    pub fn clear_indent(&mut self)
        ensures
            final(self).state() == (GenState { indent: 0, ..old(self).state() }),
    {
        self.indent = 0;
    }

    /// The text that was written.
    pub fn into_output(self) -> (out: String)
        ensures
            out@ == self.state().text,
    {
        self.current
    }

    /// Writes the items from the first on, with `sep` between two of them.
    fn write_joined(&mut self, items: &[&str], sep: &str)
        ensures
            final(self).state() == st_join(old(self).state(), items@, 0, sep@),
            final(self).state().indent == old(self).state().indent,
    {
        let mut i: usize = 0;
        while i < items.len()
            invariant
                i <= items@.len(),
                self.state().indent == old(self).state().indent,
                st_join(self.state(), items@, i as int, sep@) == st_join(
                    old(self).state(),
                    items@,
                    0,
                    sep@,
                ),
            decreases items@.len() - i,
        {
            self.write(items[i]);
            if i != items.len() - 1 {
                self.write(sep);
            }
            i += 1;
        }
    }

    /// Writes each item, followed by `end` and a line break.
    fn write_lines(&mut self, items: &[&str], end: &str)
        ensures
            final(self).state() == st_lines(old(self).state(), items@, 0, end@),
            final(self).state().indent == old(self).state().indent,
    {
        let mut i: usize = 0;
        while i < items.len()
            invariant
                i <= items@.len(),
                self.state().indent == old(self).state().indent,
                st_lines(self.state(), items@, i as int, end@) == st_lines(
                    old(self).state(),
                    items@,
                    0,
                    end@,
                ),
            decreases items@.len() - i,
        {
            self.write(items[i]);
            self.write_line(end);
            i += 1;
        }
    }

    /// Writes an enum: `pub enum Name {`, the variants one level deeper, and
    /// the closing brace.
    pub fn write_enum(&mut self, name: &str, variants: &[EnumVariant])
        requires
            old(self).state().indent < usize::MAX - 1,
        ensures
            final(self).state() == st_enum(old(self).state(), name@, variants@),
            final(self).state().indent == old(self).state().indent,
    {
        self.write("pub enum ");
        self.write(name);
        self.write_line(" {");
        self.add_indent();
        let ghost head = self.state();
        let mut i: usize = 0;
        while i < variants.len()
            invariant
                i <= variants@.len(),
                self.state().indent == old(self).state().indent + 1,
                self.state().indent < usize::MAX,
                st_variants(self.state(), variants@, i as int) == st_variants(head, variants@, 0),
            decreases variants@.len() - i,
        {
            variants[i].write(self);
            i += 1;
        }
        self.remove_indent();
        self.write_line("}");
    }

    /// Writes a function: `pub fn name(args) -> ret {`, each line of `body`
    /// one level deeper, and the closing brace.
    pub fn write_func(&mut self, name: &str, args: &[FuncArg], ret: Option<&str>, body: &[&str])
        requires
            old(self).state().indent < usize::MAX,
        ensures
            final(self).state() == st_func(old(self).state(), name@, args@, ret, body@),
            final(self).state().indent == old(self).state().indent,
    {
        self.begin_func(name, args, ret);
        self.write_lines(body, "");
        self.end_block();
    }

    /// Closes a block that [`CodeGen::begin_func`] or
    /// [`CodeGen::begin_match`] opened: comes one level back and writes the
    /// closing brace.
    pub fn end_block(&mut self)
        requires
            old(self).state().indent > 0,
        ensures
            final(self).state() == st_end(old(self).state()),
            final(self).state().indent == old(self).state().indent - 1,
    {
        self.remove_indent();
        self.write_line("}");
    }

    /// Opens a match: writes `match variable {` and goes one level deeper.
    /// The arms follow, each begun with [`CodeGen::write_arm`]; the match is
    /// closed with [`CodeGen::end_block`].
    pub fn begin_match(&mut self, variable: &str)
        requires
            old(self).state().indent < usize::MAX,
        ensures
            final(self).state() == st_match_head(old(self).state(), variable@),
            final(self).state().indent == old(self).state().indent + 1,
    {
        self.write("match ");
        self.write(variable);
        self.write_line(" {");
        self.add_indent();
    }

    /// Begins an arm of a match: writes the pattern, with the type's name
    /// and `::` before it unless it is `_`, and the arrow. The block of the
    /// arm follows.
    pub fn write_arm(&mut self, enum_name: &str, branch: &MatchBranch)
        requires
            old(self).state().indent < usize::MAX,
        ensures
            final(self).state() == st_arm(old(self).state(), enum_name@, *branch),
            final(self).state().indent == old(self).state().indent,
    {
        match branch {
            MatchBranch::Other => {
                branch.write(self);
            },
            _ => {
                self.write(enum_name);
                self.write("::");
                branch.write(self);
            },
        }
    }

    /// Opens a function: writes `pub fn name(args) -> ret {` and goes one
    /// level deeper. The body follows, written by whatever the caller calls
    /// next; the function is closed with [`CodeGen::end_block`].
    pub fn begin_func(&mut self, name: &str, args: &[FuncArg], ret: Option<&str>)
        requires
            old(self).state().indent < usize::MAX,
        ensures
            final(self).state() == st_func_head(old(self).state(), name@, args@, ret),
            final(self).state().indent == old(self).state().indent + 1,
    {
        self.write("pub fn ");
        self.write(name);
        self.write("(");
        let ghost open = self.state();
        let mut i: usize = 0;
        while i < args.len()
            invariant
                i <= args@.len(),
                self.state().indent == old(self).state().indent,
                st_args(self.state(), args@, i as int) == st_args(open, args@, 0),
            decreases args@.len() - i,
        {
            args[i].write(self);
            if i != args.len() - 1 {
                self.write(", ");
            }
            i += 1;
        }
        self.write(")");
        match ret {
            Some(r) => {
                self.write(" -> ");
                self.write(r);
            },
            None => {},
        }
        self.write_line(" {");
        self.add_indent();
    }

    /// Writes a match: `match variable {`, one arm per branch one level
    /// deeper, each with its block from `blocks` behind the arrow, and the
    /// closing brace.
    pub fn write_match(
        &mut self,
        variable: &str,
        enum_name: &str,
        branches: &[MatchBranch],
        blocks: &[&str],
    )
        requires
            old(self).state().indent < usize::MAX - 1,
            blocks@.len() == branches@.len(),
        ensures
            final(self).state() == st_match(
                old(self).state(),
                variable@,
                enum_name@,
                branches@,
                blocks@,
            ),
            final(self).state().indent == old(self).state().indent,
    {
        self.begin_match(variable);
        let ghost head = self.state();
        let mut i: usize = 0;
        while i < branches.len()
            invariant
                i <= branches@.len(),
                blocks@.len() == branches@.len(),
                self.state().indent == old(self).state().indent + 1,
                self.state().indent < usize::MAX,
                st_arms(self.state(), enum_name@, branches@, blocks@, i as int) == st_arms(
                    head,
                    enum_name@,
                    branches@,
                    blocks@,
                    0,
                ),
            decreases branches@.len() - i,
        {
            self.write_arm(enum_name, &branches[i]);
            self.write_line(blocks[i]);
            i += 1;
        }
        self.end_block();
    }
}

impl EnumVariant<'_> {
    /// Writes the variant, with the comma and the line break behind it.
    pub fn write(&self, gen: &mut CodeGen)
        requires
            old(gen).state().indent < usize::MAX,
        ensures
            final(gen).state() == st_variant(old(gen).state(), *self),
            final(gen).state().indent == old(gen).state().indent,
    {
        match self {
            EnumVariant::Named(name) => {
                gen.write(name);
                gen.write_line(",");
            },
            EnumVariant::Tuple(name, fields) => {
                gen.write(name);
                gen.write("(");
                gen.write_joined(fields, ", ");
                gen.write_line("),");
            },
            EnumVariant::Struct(name, fields) => {
                gen.write(name);
                gen.write_line(" {");
                gen.add_indent();
                let ghost head = gen.state();
                let mut i: usize = 0;
                while i < fields.len()
                    invariant
                        i <= fields@.len(),
                        gen.state().indent == old(gen).state().indent + 1,
                        st_fields(gen.state(), fields@, i as int) == st_fields(head, fields@, 0),
                    decreases fields@.len() - i,
                {
                    gen.write(fields[i].0);
                    gen.write(": ");
                    gen.write(fields[i].1);
                    gen.write_line(",");
                    i += 1;
                }
                gen.remove_indent();
                gen.write_line("},");
            },
        }
    }
}

impl MatchBranch<'_> {
    /// Writes the pattern and the arrow behind it.
    pub fn write(&self, gen: &mut CodeGen)
        requires
            old(gen).state().indent < usize::MAX,
        ensures
            final(gen).state() == st_branch(old(gen).state(), *self),
            final(gen).state().indent == old(gen).state().indent,
    {
        match self {
            MatchBranch::Unit(name) => {
                gen.write(name);
            },
            MatchBranch::Tuple(name, fields) => {
                gen.write(name);
                gen.write("(");
                gen.write_joined(fields, ", ");
                gen.write(")");
            },
            MatchBranch::Struct(name, fields) => {
                gen.write(name);
                gen.write(" { ");
                gen.add_indent();
                gen.write_lines(fields, ",");
                gen.remove_indent();
                gen.write(" }");
            },
            MatchBranch::Other => {
                gen.write("_");
            },
        }
        gen.write(" => ");
    }
}

impl FuncArg<'_> {
    /// Writes the argument as `name: type`.
    pub fn write(&self, gen: &mut CodeGen)
        ensures
            final(gen).state() == st_arg(old(gen).state(), *self),
            final(gen).state().indent == old(gen).state().indent,
    {
        gen.write(self.name);
        gen.write(": ");
        gen.write(self.ty);
    }
}

} // verus!
