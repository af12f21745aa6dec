//! Readers of packets are given as small programs. For the simple ones the
//! writer follows from the reader: every read of a field becomes a write of
//! it, with what was done to the value undone. A reader that is not that
//! simple, one with a loop or a switch among them, leaves its packet marked
//! as one whose writer is written by hand.

use vstd::prelude::*;

verus! {

/// Where a value comes from.
#[derive(Debug, PartialEq, Eq)]
pub enum Value {
    Null,
    /// A local variable. Variable 1 is the buffer.
    Var(usize),
    /// A field of the packet.
    Field(String),
}

/// The name of a type.
#[derive(Debug, PartialEq, Eq)]
pub struct RType {
    pub name: String,
}

/// A condition on a field.
#[derive(Debug, PartialEq, Eq)]
pub struct Cond {
    pub field: String,
    pub equals: i64,
}

/// What is done to a value.
#[derive(Debug, PartialEq, Eq)]
pub enum Op {
    /// A call of a method of a class on the value, with arguments.
    Call(String, String, Vec<Expr>),
    /// A cast from a type, as a reader writes it.
    Cast(RType),
    /// A cast to a type, as a writer writes it.
    As(RType),
    BitAnd(i64),
    Div(i64),
    Mul(i64),
    Add(i64),
    /// The value is replaced where the condition holds.
    If(Cond, Box<Expr>),
}

/// A value and what is done to it, in order.
#[derive(Debug, PartialEq, Eq)]
pub struct Expr {
    pub initial: Value,
    pub ops: Vec<Op>,
}

/// A step of a reader or writer.
#[derive(Debug, PartialEq, Eq)]
pub enum Instr {
    /// A field is set to a value.
    SetField(String, Expr),
    /// A local variable is set to a value.
    Let(usize, Expr),
    Return(Expr),
    For(usize, Vec<Instr>),
    Switch(String, Vec<Instr>),
    If(Cond, Vec<Instr>, Vec<Instr>),
    /// A value is computed for what it does.
    Expr(Expr),
    Break,
}

/// A program: its local variables and its steps.
#[derive(Debug, PartialEq, Eq)]
pub struct VarBlock {
    pub vars: Vec<String>,
    pub block: Vec<Instr>,
}

/// A packet with its reader and its writer.
#[derive(Debug, PartialEq, Eq)]
pub struct Packet {
    pub name: String,
    pub reader: VarBlock,
    pub writer: VarBlock,
    /// Whether the writer has to be written by hand.
    pub manual: bool,
}

// ---------------------------------------------------------------------------
// What contracts see
// ---------------------------------------------------------------------------

pub enum ValueView {
    Null,
    Var(usize),
    Field(Seq<char>),
}

pub struct CondView {
    pub field: Seq<char>,
    pub equals: i64,
}

pub enum OpView {
    Call(Seq<char>, Seq<char>, Seq<ExprView>),
    Cast(Seq<char>),
    As(Seq<char>),
    BitAnd(i64),
    Div(i64),
    Mul(i64),
    Add(i64),
    If(CondView, Box<ExprView>),
}

pub struct ExprView {
    pub initial: ValueView,
    pub ops: Seq<OpView>,
}

pub enum InstrView {
    SetField(Seq<char>, ExprView),
    Let(usize, ExprView),
    Return(ExprView),
    For(usize, Seq<InstrView>),
    Switch(Seq<char>, Seq<InstrView>),
    If(CondView, Seq<InstrView>, Seq<InstrView>),
    Expr(ExprView),
    Break,
}

pub open spec fn value_view(v: Value) -> ValueView {
    match v {
        Value::Null => ValueView::Null,
        Value::Var(i) => ValueView::Var(i),
        Value::Field(f) => ValueView::Field(f@),
    }
}

pub open spec fn cond_view(c: Cond) -> CondView {
    CondView { field: c.field@, equals: c.equals }
}

/// The first `n` of `ops`, as contracts see them.
pub open spec fn ops_view(ops: Seq<Op>, n: nat) -> Seq<OpView>
    decreases ops, n,
{
    if n == 0 || n > ops.len() {
        Seq::empty()
    } else {
        ops_view(ops, (n - 1) as nat).push(op_view(ops[n - 1]))
    }
}

/// The first `n` of `es`, as contracts see them.
pub open spec fn exprs_view(es: Seq<Expr>, n: nat) -> Seq<ExprView>
    decreases es, n,
{
    if n == 0 || n > es.len() {
        Seq::empty()
    } else {
        exprs_view(es, (n - 1) as nat).push(expr_view(es[n - 1]))
    }
}

pub open spec fn op_view(op: Op) -> OpView
    decreases op, 0nat,
{
    match op {
        Op::Call(class, name, args) => OpView::Call(class@, name@, exprs_view(args@, args@.len())),
        Op::Cast(t) => OpView::Cast(t.name@),
        Op::As(t) => OpView::As(t.name@),
        Op::BitAnd(v) => OpView::BitAnd(v),
        Op::Div(v) => OpView::Div(v),
        Op::Mul(v) => OpView::Mul(v),
        Op::Add(v) => OpView::Add(v),
        Op::If(c, e) => OpView::If(cond_view(c), Box::new(expr_view(*e))),
    }
}

pub open spec fn expr_view(e: Expr) -> ExprView
    decreases e, 0nat,
{
    ExprView { initial: value_view(e.initial), ops: ops_view(e.ops@, e.ops@.len()) }
}

/// The first `n` of `is`, as contracts see them.
pub open spec fn instrs_view(is: Seq<Instr>, n: nat) -> Seq<InstrView>
    decreases is, n,
{
    if n == 0 || n > is.len() {
        Seq::empty()
    } else {
        instrs_view(is, (n - 1) as nat).push(instr_view(is[n - 1]))
    }
}

pub open spec fn instr_view(i: Instr) -> InstrView
    decreases i, 0nat,
{
    match i {
        Instr::SetField(f, e) => InstrView::SetField(f@, expr_view(e)),
        Instr::Let(v, e) => InstrView::Let(v, expr_view(e)),
        Instr::Return(e) => InstrView::Return(expr_view(e)),
        Instr::For(v, body) => InstrView::For(v, instrs_view(body@, body@.len())),
        Instr::Switch(f, body) => InstrView::Switch(f@, instrs_view(body@, body@.len())),
        Instr::If(c, t, f) => InstrView::If(
            cond_view(c),
            instrs_view(t@, t@.len()),
            instrs_view(f@, f@.len()),
        ),
        Instr::Expr(e) => InstrView::Expr(expr_view(e)),
        Instr::Break => InstrView::Break,
    }
}

/// All of `is`, as contracts see them.
pub open spec fn block_view(is: Seq<Instr>) -> Seq<InstrView> {
    instrs_view(is, is.len())
}

// ---------------------------------------------------------------------------
// The writer that follows from a reader
// ---------------------------------------------------------------------------

/// The name of the method that writes what the method `name` reads:
/// `write_` in place of `read_` at its start.
pub open spec fn spec_writer_name(name: Seq<char>) -> Seq<char> {
    if name.len() >= 5 && name.take(5) == "read_"@ {
        "write_"@ + name.skip(5)
    } else {
        name
    }
}

/// Whether `t` names a type of number.
pub open spec fn spec_is_number(t: Seq<char>) -> bool {
    ||| t == "u8"@
    ||| t == "i8"@
    ||| t == "u16"@
    ||| t == "i16"@
    ||| t == "u32"@
    ||| t == "i32"@
    ||| t == "u64"@
    ||| t == "i64"@
    ||| t == "f32"@
    ||| t == "f64"@
}

/// The type of what the method `name` reads, where the name says it: the
/// number type behind `read_`, and `i32` for `read_varint`.
pub open spec fn spec_read_type(name: Seq<char>) -> Option<Seq<char>> {
    if name.len() >= 5 && name.take(5) == "read_"@ {
        if spec_is_number(name.skip(5)) {
            Some(name.skip(5))
        } else if name.skip(5) == "varint"@ {
            Some("i32"@)
        } else {
            None
        }
    } else {
        None
    }
}

/// What undoes the operations from `from` on, for a value that was read
/// as the type `back`: a cast becomes a cast back to that type, a division
/// becomes a multiplication, a bitwise and stays. `None` where another
/// operation stands among them, or a cast where the type that was read is
/// not known.
pub open spec fn spec_undo(ops: Seq<OpView>, from: int, back: Option<Seq<char>>) -> Option<
    Seq<OpView>,
>
    decreases ops.len() - from,
{
    if from < 0 || from >= ops.len() {
        Some(Seq::<OpView>::empty())
    } else {
        let first = match ops[from] {
            OpView::Cast(_) => match back {
                Some(t) => Some(OpView::As(t)),
                None => None,
            },
            OpView::BitAnd(v) => Some(OpView::BitAnd(v)),
            OpView::Div(v) => Some(OpView::Mul(v)),
            _ => None,
        };
        match (first, spec_undo(ops, from + 1, back)) {
            (Some(op), Some(rest)) => Some(seq![op] + rest),
            _ => None,
        }
    }
}

/// What a step of a reader becomes.
pub enum Outcome {
    /// Nothing is written for it.
    Skip,
    /// The writer has to be written by hand.
    Manual,
    /// This step of the writer.
    Emit(InstrView),
}

/// What the reader's step `field = expr` becomes: where the value is read
/// from the buffer by a method of `tcp::Packet`, the call of the method
/// that writes, on the buffer, with the field as its argument and what was
/// done to the value undone: a cast goes back to the type that the method
/// reads. A value that is not computed, or only chosen by a condition,
/// writes nothing.
pub open spec fn spec_set_expr(expr: ExprView, field: Seq<char>) -> Outcome {
    if expr.ops.len() == 0 {
        Outcome::Skip
    } else {
        match expr.ops[0] {
            OpView::Call(class, name, _) => if class == "tcp::Packet"@ {
                match (expr.initial, spec_undo(expr.ops, 1, spec_read_type(name))) {
                    (ValueView::Var(v), Some(undone)) => if v == 1 {
                        Outcome::Emit(
                            InstrView::Expr(
                                ExprView {
                                    initial: ValueView::Var(1),
                                    ops: seq![
                                        OpView::Call(
                                            class,
                                            spec_writer_name(name),
                                            seq![
                                                ExprView {
                                                    initial: ValueView::Field(field),
                                                    ops: undone,
                                                },
                                            ],
                                        ),
                                    ],
                                },
                            ),
                        )
                    } else {
                        Outcome::Manual
                    },
                    _ => Outcome::Manual,
                }
            } else {
                Outcome::Manual
            },
            OpView::If(_, _) => Outcome::Skip,
            _ => Outcome::Manual,
        }
    }
}

/// The steps of the writer for the first `n` steps of a reader with `vars`
/// local variables, or `None` where the writer has to be written by hand:
/// a field that is set is written; a local variable that is set and a
/// return write nothing; a branch becomes a branch between the writers of
/// its two sides; any other step cannot be turned round, a loop and a
/// switch among them, and neither can the setting of a variable that the
/// reader does not have.
pub open spec fn spec_instr(read: Seq<InstrView>, n: nat, vars: nat) -> Option<Seq<InstrView>>
    decreases read, n,
{
    if n == 0 || n > read.len() {
        Some(Seq::<InstrView>::empty())
    } else {
        match spec_instr(read, (n - 1) as nat, vars) {
            None => None,
            Some(before) => match read[n - 1] {
                InstrView::SetField(field, expr) => match spec_set_expr(expr, field) {
                    Outcome::Skip => Some(before),
                    Outcome::Manual => None,
                    Outcome::Emit(w) => Some(before.push(w)),
                },
                InstrView::Let(v, _) => if v < vars {
                    Some(before)
                } else {
                    None
                },
                InstrView::Return(_) => Some(before),
                InstrView::If(c, t, f) => match (
                    spec_instr(t, t.len(), vars),
                    spec_instr(f, f.len(), vars),
                ) {
                    (Some(wt), Some(wf)) => Some(before.push(InstrView::If(c, wt, wf))),
                    _ => None,
                },
                _ => None,
            },
        }
    }
}

// ---------------------------------------------------------------------------
// Views of lists
// ---------------------------------------------------------------------------

/// The view of the first `n` operations depends on those operations only,
/// and has one entry for each.
pub proof fn lemma_ops_view(a: Seq<Op>, b: Seq<Op>, n: nat)
    requires
        n <= a.len(),
        n <= b.len(),
        forall|i: int| 0 <= i < n ==> a[i] == b[i],
    ensures
        ops_view(a, n) == ops_view(b, n),
        ops_view(a, n).len() == n,
        forall|i: int| 0 <= i < n ==> ops_view(a, n)[i] == op_view(a[i]),
    decreases n,
{
    if n > 0 {
        lemma_ops_view(a, b, (n - 1) as nat);
    }
}

/// The view of the first `n` steps depends on those steps only, and has
/// one entry for each.
pub proof fn lemma_instrs_view(a: Seq<Instr>, b: Seq<Instr>, n: nat)
    requires
        n <= a.len(),
        n <= b.len(),
        forall|i: int| 0 <= i < n ==> a[i] == b[i],
    ensures
        instrs_view(a, n) == instrs_view(b, n),
        instrs_view(a, n).len() == n,
        forall|i: int| 0 <= i < n ==> instrs_view(a, n)[i] == instr_view(a[i]),
    decreases n,
{
    if n > 0 {
        lemma_instrs_view(a, b, (n - 1) as nat);
    }
}

/// The view of a list with one more step.
pub proof fn lemma_block_push(a: Seq<Instr>, w: Instr)
    ensures
        block_view(a.push(w)) == block_view(a).push(instr_view(w)),
{
    lemma_instrs_view(a.push(w), a, a.len());
}

/// The view of a list with one more operation.
pub proof fn lemma_ops_push(a: Seq<Op>, op: Op)
    ensures
        ops_view(a.push(op), a.len() + 1) == ops_view(a, a.len()).push(op_view(op)),
{
    lemma_ops_view(a.push(op), a, a.len());
}

// ---------------------------------------------------------------------------
// Turning a reader round
// ---------------------------------------------------------------------------

/// The name of the method that writes what the method `name` reads (see
/// [`spec_writer_name`]).
pub fn writer_name(name: &String) -> (out: String)
    ensures
        out@ == spec_writer_name(name@),
{
    let text = name.as_str();
    let n = text.unicode_len();
    proof {
        reveal_strlit("read_");
    }
    if n >= 5 && text.get_char(0) == 'r' && text.get_char(1) == 'e' && text.get_char(2) == 'a'
        && text.get_char(3) == 'd' && text.get_char(4) == '_' {
        assert(name@.take(5) =~= "read_"@);
        let mut out = String::from_str("write_");
        out.append(text.substring_char(5, n));
        assert(name@.skip(5) =~= name@.subrange(5, n as int));
        out
    } else {
        proof {
            if n >= 5 {
                assert(name@.take(5)[0] == name@[0]);
                assert(name@.take(5)[1] == name@[1]);
                assert(name@.take(5)[2] == name@[2]);
                assert(name@.take(5)[3] == name@[3]);
                assert(name@.take(5)[4] == name@[4]);
            }
        }
        name.clone()
    }
}

fn same(a: &str, b: &str) -> (r: bool)
    ensures
        r == (a@ == b@),
{
    String::from_str(a) == String::from_str(b)
}

/// The type of what the method `name` reads (see [`spec_read_type`]).
pub fn read_type(name: &String) -> (r: Option<String>)
    ensures
        match spec_read_type(name@) {
            Some(t) => r matches Some(out) && out@ == t,
            None => r.is_none(),
        },
{
    let text = name.as_str();
    let n = text.unicode_len();
    proof {
        reveal_strlit("read_");
    }
    if n >= 5 && text.get_char(0) == 'r' && text.get_char(1) == 'e' && text.get_char(2) == 'a'
        && text.get_char(3) == 'd' && text.get_char(4) == '_' {
        assert(name@.take(5) =~= "read_"@);
        let t = text.substring_char(5, n);
        assert(name@.skip(5) =~= name@.subrange(5, n as int));
        if same(t, "u8") || same(t, "i8") || same(t, "u16") || same(t, "i16") || same(t, "u32")
            || same(t, "i32") || same(t, "u64") || same(t, "i64") || same(t, "f32") || same(
            t,
            "f64",
        ) {
            Some(String::from_str(t))
        } else if same(t, "varint") {
            Some(String::from_str("i32"))
        } else {
            None
        }
    } else {
        proof {
            if n >= 5 {
                assert(name@.take(5)[0] == name@[0]);
                assert(name@.take(5)[1] == name@[1]);
                assert(name@.take(5)[2] == name@[2]);
                assert(name@.take(5)[3] == name@[3]);
                assert(name@.take(5)[4] == name@[4]);
            }
        }
        None
    }
}

/// The type that contracts see in `back`.
pub open spec fn back_view(back: Option<String>) -> Option<Seq<char>> {
    match back {
        Some(t) => Some(t@),
        None => None,
    }
}

fn clone_cond(c: &Cond) -> (r: Cond)
    ensures
        cond_view(r) == cond_view(*c),
{
    Cond { field: c.field.clone(), equals: c.equals }
}

/// What undoes the operations from `from` on (see [`spec_undo`]).
pub fn undo(ops: &Vec<Op>, from: usize, back: &Option<String>) -> (r: Option<Vec<Op>>)
    requires
        from <= ops@.len(),
    ensures
        match spec_undo(ops_view(ops@, ops@.len()), from as int, back_view(*back)) {
            Some(undone) => r matches Some(out) && ops_view(out@, out@.len()) == undone,
            None => r.is_none(),
        },
{
    let ghost view = ops_view(ops@, ops@.len());
    let ghost bv = back_view(*back);
    let mut out: Vec<Op> = Vec::new();
    let mut i: usize = from;
    proof {
        lemma_ops_view(ops@, ops@, ops@.len());
        if spec_undo(view, from as int, bv).is_some() {
            assert(Seq::<OpView>::empty() + spec_undo(view, from as int, bv).unwrap() =~= spec_undo(
                view,
                from as int,
                bv,
            ).unwrap());
        }
    }
    while i < ops.len()
        invariant
            from <= i <= ops@.len(),
            view == ops_view(ops@, ops@.len()),
            bv == back_view(*back),
            view.len() == ops@.len(),
            forall|j: int| 0 <= j < ops@.len() ==> view[j] == op_view(ops@[j]),
            match spec_undo(view, i as int, bv) {
                Some(rest) => spec_undo(view, from as int, bv) == Some(
                    ops_view(out@, out@.len()) + rest,
                ),
                None => spec_undo(view, from as int, bv).is_none(),
            },
        decreases ops@.len() - i,
    {
        let ghost before = out@;
        let ghost rest0 = spec_undo(view, i as int, bv);
        let op = match &ops[i] {
            Op::Cast(_) => match back {
                Some(t) => Op::As(RType { name: t.clone() }),
                None => {
                    assert(spec_undo(view, i as int, bv).is_none());
                    return None;
                },
            },
            Op::BitAnd(v) => Op::BitAnd(*v),
            Op::Div(v) => Op::Mul(*v),
            _ => {
                assert(spec_undo(view, i as int, bv).is_none());
                return None;
            },
        };
        out.push(op);
        proof {
            lemma_ops_push(before, op);
            match (rest0, spec_undo(view, i + 1, bv)) {
                (Some(rest), Some(next)) => {
                    assert(rest == seq![op_view(op)] + next);
                    assert(ops_view(before, before.len()) + rest =~= ops_view(out@, out@.len())
                        + next);
                },
                _ => {},
            }
        }
        i += 1;
    }
    proof {
        assert(spec_undo(view, i as int, bv) == Some(Seq::<OpView>::empty()));
        assert(ops_view(out@, out@.len()) + Seq::<OpView>::empty() =~= ops_view(out@, out@.len()));
    }
    Some(out)
}

/// What a step of a reader becomes, as a step.
pub enum SetResult {
    Skip,
    Manual,
    Emit(Instr),
}

impl SetResult {
    pub open spec fn view(self) -> Outcome {
        match self {
            SetResult::Skip => Outcome::Skip,
            SetResult::Manual => Outcome::Manual,
            SetResult::Emit(i) => Outcome::Emit(instr_view(i)),
        }
    }
}

/// What makes writers from readers: it knows how many local variables the
/// reader has, and which packet it works on.
pub struct WriterGen {
    pub vars: usize,
    pub packet: String,
}

impl WriterGen {
    /// For the reader `v` of the packet called `packet`.
    pub fn new(v: &VarBlock, packet: String) -> (g: WriterGen)
        ensures
            g.vars == v.vars@.len(),
            g.packet == packet,
    {
        WriterGen { vars: v.vars.len(), packet }
    }

    /// What the reader's step `field = expr` becomes (see
    /// [`spec_set_expr`]).
    pub fn set_expr(&self, expr: &Expr, field: &String) -> (r: SetResult)
        ensures
            r@ == spec_set_expr(expr_view(*expr), field@),
    {
        proof {
            lemma_ops_view(expr.ops@, expr.ops@, expr.ops@.len());
        }
        if expr.ops.len() == 0 {
            return SetResult::Skip;
        }
        match &expr.ops[0] {
            Op::Call(class, name, _) => {
                if *class != String::from_str("tcp::Packet") {
                    return SetResult::Manual;
                }
                match expr.initial {
                    Value::Var(v) => {
                        if v != 1 {
                            return SetResult::Manual;
                        }
                    },
                    _ => {
                        return SetResult::Manual;
                    },
                }
                let back = read_type(name);
                let undone = match undo(&expr.ops, 1, &back) {
                    Some(u) => u,
                    None => {
                        return SetResult::Manual;
                    },
                };
                let val = Expr { initial: Value::Field(field.clone()), ops: undone };
                let mut args: Vec<Expr> = Vec::new();
                args.push(val);
                let call = Op::Call(class.clone(), writer_name(name), args);
                let mut ops: Vec<Op> = Vec::new();
                ops.push(call);
                let out = Instr::Expr(Expr { initial: Value::Var(1), ops });
                proof {
                    reveal_with_fuel(exprs_view, 2);
                    reveal_with_fuel(ops_view, 2);
                    assert(exprs_view(args@, 1) =~= seq![expr_view(val)]);
                    assert(ops_view(ops@, 1) =~= seq![op_view(call)]);
                }
                SetResult::Emit(out)
            },
            Op::If(_, _) => SetResult::Skip,
            _ => SetResult::Manual,
        }
    }

    /// Appends to `writer` the steps of the writer for the steps `read` of
    /// a reader (see [`spec_instr`]), and says whether that could be done;
    /// where it could not, the writer has to be written by hand, and what
    /// was appended before that was found stays in `writer`.
    pub fn instr(&self, read: &Vec<Instr>, writer: &mut Vec<Instr>) -> (ok: bool)
        ensures
            ok == spec_instr(block_view(read@), read@.len(), self.vars as nat).is_some(),
            ok ==> block_view(final(writer)@) == block_view(old(writer)@) + spec_instr(
                block_view(read@),
                read@.len(),
                self.vars as nat,
            ).unwrap(),
        decreases read@,
    {
        let ghost rv = block_view(read@);
        let ghost start = block_view(writer@);
        let mut i: usize = 0;
        proof {
            lemma_instrs_view(read@, read@, read@.len());
            assert(start + Seq::<InstrView>::empty() =~= start);
        }
        while i < read.len()
            invariant
                i <= read@.len(),
                rv == block_view(read@),
                rv.len() == read@.len(),
                forall|j: int| 0 <= j < read@.len() ==> rv[j] == instr_view(read@[j]),
                spec_instr(rv, i as nat, self.vars as nat).is_some(),
                block_view(writer@) == start + spec_instr(rv, i as nat, self.vars as nat).unwrap(),
            decreases read@.len() - i,
        {
            let ghost before = writer@;
            let ghost sofar = spec_instr(rv, i as nat, self.vars as nat).unwrap();
            proof {
                reveal_with_fuel(spec_instr, 2);
                if spec_instr(rv, (i + 1) as nat, self.vars as nat).is_none() {
                    lemma_spec_instr_prefix(rv, (i + 1) as nat, read@.len(), self.vars as nat);
                }
                assert(rv[i as int] == instr_view(read@[i as int]));
            }
            match &read[i] {
                Instr::SetField(field, expr) => match self.set_expr(expr, field) {
                    SetResult::Skip => {},
                    SetResult::Manual => {
                        return false;
                    },
                    SetResult::Emit(w) => {
                        writer.push(w);
                        proof {
                            lemma_block_push(before, w);
                            assert(start + sofar.push(instr_view(w)) =~= (start + sofar).push(
                                instr_view(w),
                            ));
                        }
                    },
                },
                Instr::Let(v, _) => {
                    if *v >= self.vars {
                        return false;
                    }
                },
                Instr::Return(_) => {},
                Instr::If(cond, when_true, when_false) => {
                    let mut when_t: Vec<Instr> = Vec::new();
                    let mut when_f: Vec<Instr> = Vec::new();
                    proof {
                        lemma_instrs_view(when_true@, when_true@, when_true@.len());
                        lemma_instrs_view(when_false@, when_false@, when_false@.len());
                    }
                    if !self.instr(when_true, &mut when_t) {
                        return false;
                    }
                    if !self.instr(when_false, &mut when_f) {
                        return false;
                    }
                    let w = Instr::If(clone_cond(cond), when_t, when_f);
                    proof {
                        lemma_instrs_view(when_true@, when_true@, when_true@.len());
                        lemma_instrs_view(when_false@, when_false@, when_false@.len());
                        let wt = spec_instr(block_view(when_true@), when_true@.len(), self.vars as nat).unwrap();
                        let wf = spec_instr(block_view(when_false@), when_false@.len(), self.vars as nat).unwrap();
                        assert(block_view(Seq::<Instr>::empty()) + wt =~= wt);
                        assert(block_view(Seq::<Instr>::empty()) + wf =~= wf);
                    }
                    writer.push(w);
                    proof {
                        lemma_block_push(before, w);
                        assert(start + sofar.push(instr_view(w)) =~= (start + sofar).push(
                            instr_view(w),
                        ));
                    }
                },
                _ => {
                    return false;
                },
            }
            i += 1;
        }
        true
    }
}

/// A reader whose first steps cannot be turned round cannot be turned
/// round.
pub proof fn lemma_spec_instr_prefix(read: Seq<InstrView>, n: nat, m: nat, vars: nat)
    requires
        n <= m <= read.len(),
        spec_instr(read, n, vars).is_none(),
    ensures
        spec_instr(read, m, vars).is_none(),
    decreases m,
{
    if n < m {
        lemma_spec_instr_prefix(read, n, (m - 1) as nat, vars);
    }
}

impl Packet {
    /// Makes the writer of the packet from its reader: the steps of the
    /// writer are appended to those that the writer has. Where the reader
    /// cannot be turned round the packet is marked as one whose writer is
    /// written by hand.
    pub fn generate_writer(&mut self)
        ensures
            final(self).name == old(self).name,
            final(self).reader == old(self).reader,
            final(self).writer.vars == old(self).writer.vars,
            final(self).manual == spec_instr(
                block_view(old(self).reader.block@),
                old(self).reader.block@.len(),
                old(self).reader.vars@.len(),
            ).is_none(),
            !final(self).manual ==> block_view(final(self).writer.block@) == block_view(
                old(self).writer.block@,
            ) + spec_instr(
                block_view(old(self).reader.block@),
                old(self).reader.block@.len(),
                old(self).reader.vars@.len(),
            ).unwrap(),
    {
        let gen = WriterGen::new(&self.reader, self.name.clone());
        let mut block: Vec<Instr> = Vec::new();
        std::mem::swap(&mut block, &mut self.writer.block);
        let ok = gen.instr(&self.reader.block, &mut block);
        self.writer.block = block;
        self.manual = !ok;
    }
}

} // verus!
