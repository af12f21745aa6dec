//! The wrappers that give the methods of a type to the scripting languages
//! of plugins. For each method of an `impl` block there is one wrapper for
//! Python and one for Panda; what this module decides is, argument by
//! argument, as what type the wrapper takes it and how it hands it on.
//!
//! The block arrives as plain values: the names, and of each type its first
//! path segment and the text as it was written.

use vstd::prelude::*;
use crate::ids::names_view;

verus! {

/// The type of an argument, as far as the wrappers depend on it.
#[derive(Debug, PartialEq, Eq)]
pub enum ArgType {
    /// A path. `head` is its first segment, `text` the path as written.
    Path { head: String, text: String },
    /// A reference to a path. `head` is the first segment of the path,
    /// `path` the path as written, `text` the whole type as written.
    RefPath { head: String, path: String, text: String },
    /// Any other type, as written.
    Other { text: String },
}

/// An argument of a method.
#[derive(Debug, PartialEq, Eq)]
pub enum FnArg {
    /// `self` in one of its forms, as written.
    Receiver { text: String },
    /// A named argument.
    Typed { name: String, ty: ArgType },
}

/// A method of the block: its name, its arguments, and its return type as
/// written with the arrow, or nothing.
#[derive(Debug, PartialEq, Eq)]
pub struct Method {
    pub name: String,
    pub args: Vec<FnArg>,
    pub ret: String,
}

/// An item of the block.
#[derive(Debug, PartialEq, Eq)]
pub enum ImplItem {
    Method(Method),
    /// Anything that is not a method, as written.
    Other(String),
}

/// A value in the attribute's arguments.
#[derive(Debug, PartialEq, Eq)]
pub enum Lit {
    Str(String),
    Bool(bool),
    Other,
}

/// An argument of the attribute.
#[derive(Debug, PartialEq, Eq)]
pub enum MacroArg {
    /// `name = value`.
    NameValue { name: String, value: Lit },
    /// Anything else, as written.
    Other(String),
}

/// Why no wrappers can be made.
#[derive(Debug, PartialEq, Eq)]
pub enum BindError {
    /// `panda_path` is not a string.
    ExpectedStr,
    /// `panda_map_key` is not a boolean.
    ExpectedBool,
    /// An argument of the attribute that it does not know.
    UnknownArg(String),
    /// The block holds something that is not a method.
    OnlyMethods,
    /// An argument of a type that a wrapper cannot take.
    CannotHandleType(String),
}

/// An error as contracts see it.
pub enum BindErrorView {
    ExpectedStr,
    ExpectedBool,
    UnknownArg(Seq<char>),
    OnlyMethods,
    CannotHandleType(Seq<char>),
}

impl BindError {
    pub open spec fn view(self) -> BindErrorView {
        match self {
            BindError::ExpectedStr => BindErrorView::ExpectedStr,
            BindError::ExpectedBool => BindErrorView::ExpectedBool,
            BindError::UnknownArg(a) => BindErrorView::UnknownArg(a@),
            BindError::OnlyMethods => BindErrorView::OnlyMethods,
            BindError::CannotHandleType(t) => BindErrorView::CannotHandleType(t@),
        }
    }
}

/// What marks a wrapper for Python.
#[derive(Clone, Copy, Debug, PartialEq, Eq, Structural)]
pub enum Marker {
    Plain,
    /// The constructor.
    New,
    /// A method without `self`.
    StaticMethod,
}

/// A wrapper: a function called `name` that takes `args`, each written as
/// `name: type`, and returns `ret`. Where `call` is there, the wrapper calls
/// the method of that name with those arguments; else its body is empty.
#[derive(Debug, PartialEq, Eq)]
pub struct Wrapper {
    pub marker: Marker,
    pub name: String,
    pub args: Vec<String>,
    pub ret: String,
    pub call: Option<(String, Vec<String>)>,
}

/// A wrapper as contracts see it.
pub struct WrapperView {
    pub marker: Marker,
    pub name: Seq<char>,
    pub args: Seq<Seq<char>>,
    pub ret: Seq<char>,
    pub call: Option<(Seq<char>, Seq<Seq<char>>)>,
}

impl Wrapper {
    pub open spec fn view(self) -> WrapperView {
        WrapperView {
            marker: self.marker,
            name: self.name@,
            args: names_view(self.args@),
            ret: self.ret@,
            call: match self.call {
                Some((name, args)) => Some((name@, names_view(args@))),
                None => None,
            },
        }
    }
}

/// What is made of a block.
#[derive(Debug, PartialEq, Eq)]
pub struct Generated {
    /// Where Panda finds the type, if that was given.
    pub panda_path: Option<String>,
    /// Whether Panda may use the type as the key of a map.
    pub panda_map_key: bool,
    /// One wrapper for each method, in order.
    pub panda_funcs: Vec<Wrapper>,
    /// One wrapper for each method, in order.
    pub python_funcs: Vec<Wrapper>,
}

// ---------------------------------------------------------------------------
// Arguments
// ---------------------------------------------------------------------------

/// Whether a type called `head` goes through a wrapper as it is: the
/// numbers and `Vec`.
pub open spec fn spec_is_plain(head: Seq<char>) -> bool {
    ||| head == "u8"@
    ||| head == "i8"@
    ||| head == "u16"@
    ||| head == "i16"@
    ||| head == "u32"@
    ||| head == "i32"@
    ||| head == "u64"@
    ||| head == "i64"@
    ||| head == "u128"@
    ||| head == "i128"@
    ||| head == "f32"@
    ||| head == "f64"@
    ||| head == "Vec"@
}

/// Whether a wrapper for Python can take the argument.
pub open spec fn spec_handled(a: FnArg) -> bool {
    match a {
        FnArg::Receiver { .. } => true,
        FnArg::Typed { ty, .. } => match ty {
            ArgType::Path { head, .. } => spec_is_plain(head@) || head@ == "Callback"@ || head@
                == "Var"@,
            ArgType::RefPath { .. } => true,
            ArgType::Other { .. } => false,
        },
    }
}

/// The type of the argument as written.
pub open spec fn spec_type_text(a: FnArg) -> Seq<char> {
    match a {
        FnArg::Receiver { text } => text@,
        FnArg::Typed { ty, .. } => match ty {
            ArgType::Path { text, .. } => text@,
            ArgType::RefPath { text, .. } => text@,
            ArgType::Other { text } => text@,
        },
    }
}

/// The argument as a wrapper for Python takes it: `self` as written, a
/// number or a `Vec` under its own type, a callback as Python's callback,
/// a variable as its number, a `&str` as a `String`, and any other
/// reference by value.
pub open spec fn spec_python_arg(a: FnArg) -> Seq<char> {
    match a {
        FnArg::Receiver { text } => text@,
        FnArg::Typed { name, ty } => match ty {
            ArgType::Path { head, text } => if head@ == "Callback"@ {
                name@ + ": crate::plugin::python::PyCallback"@
            } else if head@ == "Var"@ {
                name@ + ": i32"@
            } else {
                name@ + ": "@ + text@
            },
            ArgType::RefPath { head, path, .. } => if head@ == "str"@ {
                name@ + ": String"@
            } else {
                name@ + ": "@ + path@
            },
            ArgType::Other { text } => name@ + ": "@ + text@,
        },
    }
}

/// The argument as a wrapper for Python hands it on: under its name, a
/// `String` as a `&str`.
pub open spec fn spec_python_arg_name(a: FnArg) -> Seq<char> {
    match a {
        FnArg::Receiver { .. } => "self"@,
        FnArg::Typed { name, ty } => match ty {
            ArgType::RefPath { head, .. } => if head@ == "str"@ {
                name@ + ".as_str()"@
            } else {
                name@
            },
            _ => name@,
        },
    }
}

/// The argument as a wrapper for Panda takes it: as written, but a boxed
/// function as Panda's callback.
pub open spec fn spec_panda_arg(a: FnArg) -> Seq<char> {
    match a {
        FnArg::Receiver { text } => text@,
        FnArg::Typed { name, ty } => match ty {
            ArgType::Path { head, text } => if head@ == "Box"@ {
                name@ + ": Callback"@
            } else {
                name@ + ": "@ + text@
            },
            ArgType::RefPath { text, .. } => name@ + ": "@ + text@,
            ArgType::Other { text } => name@ + ": "@ + text@,
        },
    }
}

/// The argument as a wrapper for Panda hands it on.
pub open spec fn spec_panda_arg_name(a: FnArg) -> Seq<char> {
    match a {
        FnArg::Receiver { .. } => "self"@,
        FnArg::Typed { name, .. } => name@,
    }
}

/// The first argument from `i` on that a wrapper for Python cannot take,
/// or -1.
pub open spec fn spec_first_unhandled(args: Seq<FnArg>, i: int) -> int
    decreases args.len() - i,
{
    if i < 0 || i >= args.len() {
        -1
    } else if !spec_handled(args[i]) {
        i
    } else {
        spec_first_unhandled(args, i + 1)
    }
}

/// Without an argument that cannot be taken, every argument can; else the
/// first one that cannot is the one found.
pub proof fn lemma_first_unhandled(args: Seq<FnArg>, i: int)
    requires
        0 <= i,
    ensures
        spec_first_unhandled(args, i) == -1 ==> forall|j: int|
            i <= j < args.len() ==> spec_handled(#[trigger] args[j]),
        spec_first_unhandled(args, i) != -1 ==> i <= spec_first_unhandled(args, i) < args.len()
            && !spec_handled(args[spec_first_unhandled(args, i)]),
    decreases args.len() - i,
{
    if i < args.len() && spec_handled(args[i]) {
        lemma_first_unhandled(args, i + 1);
    }
}

fn same(a: &String, b: &str) -> (r: bool)
    ensures
        r == (a@ == b@),
{
    *a == String::from_str(b)
}

/// Exec form of [`spec_is_plain`].
pub fn is_plain(head: &String) -> (r: bool)
    ensures
        r == spec_is_plain(head@),
{
    same(head, "u8") || same(head, "i8") || same(head, "u16") || same(head, "i16") || same(
        head,
        "u32",
    ) || same(head, "i32") || same(head, "u64") || same(head, "i64") || same(head, "u128") || same(
        head,
        "i128",
    ) || same(head, "f32") || same(head, "f64") || same(head, "Vec")
}

/// `name` followed by `: ` and `ty`.
fn typed(name: &String, ty: &str) -> (out: String)
    ensures
        out@ == name@ + ": "@ + ty@,
{
    let mut out = name.clone();
    out.append(": ");
    out.append(ty);
    out
}

/// Exec form of [`spec_handled`].
pub fn handled(a: &FnArg) -> (r: bool)
    ensures
        r == spec_handled(*a),
{
    match a {
        FnArg::Receiver { .. } => true,
        FnArg::Typed { ty, .. } => match ty {
            ArgType::Path { head, .. } => is_plain(head) || same(head, "Callback") || same(
                head,
                "Var",
            ),
            ArgType::RefPath { .. } => true,
            ArgType::Other { .. } => false,
        },
    }
}

/// The type of the argument as written.
pub fn type_text(a: &FnArg) -> (t: String)
    ensures
        t@ == spec_type_text(*a),
{
    match a {
        FnArg::Receiver { text } => text.clone(),
        FnArg::Typed { ty, .. } => match ty {
            ArgType::Path { text, .. } => text.clone(),
            ArgType::RefPath { text, .. } => text.clone(),
            ArgType::Other { text } => text.clone(),
        },
    }
}

/// Exec form of [`spec_python_arg`].
fn python_arg(a: &FnArg) -> (out: String)
    ensures
        out@ == spec_python_arg(*a),
{
    match a {
        FnArg::Receiver { text } => text.clone(),
        FnArg::Typed { name, ty } => match ty {
            ArgType::Path { head, text } => if same(head, "Callback") {
                proof {
                    reveal_strlit(": ");
                    reveal_strlit("crate::plugin::python::PyCallback");
                    reveal_strlit(": crate::plugin::python::PyCallback");
                }
                let out = typed(name, "crate::plugin::python::PyCallback");
                assert(out@ =~= name@ + ": crate::plugin::python::PyCallback"@);
                out
            } else if same(head, "Var") {
                proof {
                    reveal_strlit(": ");
                    reveal_strlit("i32");
                    reveal_strlit(": i32");
                }
                let out = typed(name, "i32");
                assert(out@ =~= name@ + ": i32"@);
                out
            } else {
                typed(name, text.as_str())
            },
            ArgType::RefPath { head, path, .. } => if same(head, "str") {
                proof {
                    reveal_strlit(": ");
                    reveal_strlit("String");
                    reveal_strlit(": String");
                }
                let out = typed(name, "String");
                assert(out@ =~= name@ + ": String"@);
                out
            } else {
                typed(name, path.as_str())
            },
            ArgType::Other { text } => typed(name, text.as_str()),
        },
    }
}

/// Exec form of [`spec_python_arg_name`].
fn python_arg_name(a: &FnArg) -> (out: String)
    ensures
        out@ == spec_python_arg_name(*a),
{
    match a {
        FnArg::Receiver { .. } => String::from_str("self"),
        FnArg::Typed { name, ty } => match ty {
            ArgType::RefPath { head, .. } => if same(head, "str") {
                let mut out = name.clone();
                out.append(".as_str()");
                out
            } else {
                name.clone()
            },
            _ => name.clone(),
        },
    }
}

/// Exec form of [`spec_panda_arg`].
fn panda_arg(a: &FnArg) -> (out: String)
    ensures
        out@ == spec_panda_arg(*a),
{
    match a {
        FnArg::Receiver { text } => text.clone(),
        FnArg::Typed { name, ty } => match ty {
            ArgType::Path { head, text } => if same(head, "Box") {
                proof {
                    reveal_strlit(": ");
                    reveal_strlit("Callback");
                    reveal_strlit(": Callback");
                }
                let out = typed(name, "Callback");
                assert(out@ =~= name@ + ": Callback"@);
                out
            } else {
                typed(name, text.as_str())
            },
            ArgType::RefPath { text, .. } => typed(name, text.as_str()),
            ArgType::Other { text } => typed(name, text.as_str()),
        },
    }
}

/// Exec form of [`spec_panda_arg_name`].
fn panda_arg_name(a: &FnArg) -> (out: String)
    ensures
        out@ == spec_panda_arg_name(*a),
{
    match a {
        FnArg::Receiver { .. } => String::from_str("self"),
        FnArg::Typed { name, .. } => name.clone(),
    }
}

/// The arguments as a wrapper for Python takes them (see
/// [`spec_python_arg`]), or the error for the first of them that it cannot
/// take.
pub fn python_args(args: &Vec<FnArg>) -> (r: Result<Vec<String>, BindError>)
    ensures
        match r {
            Ok(out) => spec_first_unhandled(args@, 0) == -1 && names_view(out@) == Seq::new(
                args@.len(),
                |i: int| spec_python_arg(args@[i]),
            ),
            Err(e) => spec_first_unhandled(args@, 0) != -1 && e@ == BindErrorView::CannotHandleType(
                spec_type_text(args@[spec_first_unhandled(args@, 0)]),
            ),
        },
{
    let mut out: Vec<String> = Vec::new();
    let mut i: usize = 0;
    while i < args.len()
        invariant
            i <= args@.len(),
            out@.len() == i,
            spec_first_unhandled(args@, 0) == spec_first_unhandled(args@, i as int),
            forall|j: int| 0 <= j < i ==> (#[trigger] out@[j])@ == spec_python_arg(args@[j]),
        decreases args@.len() - i,
    {
        if !handled(&args[i]) {
            return Err(BindError::CannotHandleType(type_text(&args[i])));
        }
        out.push(python_arg(&args[i]));
        i += 1;
    }
    assert(names_view(out@) =~= Seq::new(args@.len(), |i: int| spec_python_arg(args@[i])));
    Ok(out)
}

/// The arguments as a wrapper for Python hands them on (see
/// [`spec_python_arg_name`]), or the error for the first of them that it
/// cannot take.
pub fn python_arg_names(args: &Vec<FnArg>) -> (r: Result<Vec<String>, BindError>)
    ensures
        match r {
            Ok(out) => spec_first_unhandled(args@, 0) == -1 && names_view(out@) == Seq::new(
                args@.len(),
                |i: int| spec_python_arg_name(args@[i]),
            ),
            Err(e) => spec_first_unhandled(args@, 0) != -1 && e@ == BindErrorView::CannotHandleType(
                spec_type_text(args@[spec_first_unhandled(args@, 0)]),
            ),
        },
{
    let mut out: Vec<String> = Vec::new();
    let mut i: usize = 0;
    while i < args.len()
        invariant
            i <= args@.len(),
            out@.len() == i,
            spec_first_unhandled(args@, 0) == spec_first_unhandled(args@, i as int),
            forall|j: int| 0 <= j < i ==> (#[trigger] out@[j])@ == spec_python_arg_name(args@[j]),
        decreases args@.len() - i,
    {
        if !handled(&args[i]) {
            return Err(BindError::CannotHandleType(type_text(&args[i])));
        }
        out.push(python_arg_name(&args[i]));
        i += 1;
    }
    assert(names_view(out@) =~= Seq::new(args@.len(), |i: int| spec_python_arg_name(args@[i])));
    Ok(out)
}

/// The arguments as a wrapper for Panda takes them (see
/// [`spec_panda_arg`]).
pub fn panda_args(args: &Vec<FnArg>) -> (out: Vec<String>)
    ensures
        names_view(out@) == Seq::new(args@.len(), |i: int| spec_panda_arg(args@[i])),
{
    let mut out: Vec<String> = Vec::new();
    let mut i: usize = 0;
    while i < args.len()
        invariant
            i <= args@.len(),
            out@.len() == i,
            forall|j: int| 0 <= j < i ==> (#[trigger] out@[j])@ == spec_panda_arg(args@[j]),
        decreases args@.len() - i,
    {
        out.push(panda_arg(&args[i]));
        i += 1;
    }
    assert(names_view(out@) =~= Seq::new(args@.len(), |i: int| spec_panda_arg(args@[i])));
    out
}

/// The arguments as a wrapper for Panda hands them on (see
/// [`spec_panda_arg_name`]).
pub fn panda_arg_names(args: &Vec<FnArg>) -> (out: Vec<String>)
    ensures
        names_view(out@) == Seq::new(args@.len(), |i: int| spec_panda_arg_name(args@[i])),
{
    let mut out: Vec<String> = Vec::new();
    let mut i: usize = 0;
    while i < args.len()
        invariant
            i <= args@.len(),
            out@.len() == i,
            forall|j: int| 0 <= j < i ==> (#[trigger] out@[j])@ == spec_panda_arg_name(args@[j]),
        decreases args@.len() - i,
    {
        out.push(panda_arg_name(&args[i]));
        i += 1;
    }
    assert(names_view(out@) =~= Seq::new(args@.len(), |i: int| spec_panda_arg_name(args@[i])));
    out
}

// ---------------------------------------------------------------------------
// Wrappers
// ---------------------------------------------------------------------------

/// Whether the method takes `self`.
pub open spec fn spec_has_receiver(m: Method) -> bool {
    m.args@.len() > 0 && m.args@[0] is Receiver
}

/// The wrapper for Python of a method that it can take. It is called
/// `py_` and the method's name. The constructor, `new`, is marked as such,
/// returns what the method returns, and calls it. Any other method is
/// marked as static where it does not take `self`; its wrapper is empty and
/// returns nothing.
pub open spec fn spec_python_wrapper(m: Method) -> WrapperView {
    let args = Seq::new(m.args@.len(), |i: int| spec_python_arg(m.args@[i]));
    let names = Seq::new(m.args@.len(), |i: int| spec_python_arg_name(m.args@[i]));
    if m.name@ == "new"@ {
        WrapperView {
            marker: Marker::New,
            name: "py_"@ + m.name@,
            args,
            ret: m.ret@,
            call: Some((m.name@, names)),
        }
    } else {
        WrapperView {
            marker: if spec_has_receiver(m) {
                Marker::Plain
            } else {
                Marker::StaticMethod
            },
            name: "py_"@ + m.name@,
            args,
            ret: Seq::empty(),
            call: None,
        }
    }
}

/// The wrapper for Panda of a method: it is called `pd_` and the method's
/// name, and calls the method.
pub open spec fn spec_panda_wrapper(m: Method) -> WrapperView {
    WrapperView {
        marker: Marker::Plain,
        name: "pd_"@ + m.name@,
        args: Seq::new(m.args@.len(), |i: int| spec_panda_arg(m.args@[i])),
        ret: Seq::empty(),
        call: Some((m.name@, Seq::new(m.args@.len(), |i: int| spec_panda_arg_name(m.args@[i])))),
    }
}

/// `prefix` followed by `name`.
fn prefixed(prefix: &str, name: &String) -> (out: String)
    ensures
        out@ == prefix@ + name@,
{
    let mut out = String::from_str(prefix);
    out.append(name.as_str());
    out
}

/// The wrapper for Python of the method (see [`spec_python_wrapper`]), or
/// the error for the first of its arguments that a wrapper cannot take.
pub fn python_wrapper(m: &Method) -> (r: Result<Wrapper, BindError>)
    ensures
        match r {
            Ok(w) => spec_first_unhandled(m.args@, 0) == -1 && w@ == spec_python_wrapper(*m),
            Err(e) => spec_first_unhandled(m.args@, 0) != -1 && e@
                == BindErrorView::CannotHandleType(
                spec_type_text(m.args@[spec_first_unhandled(m.args@, 0)]),
            ),
        },
{
    let args = match python_args(&m.args) {
        Ok(args) => args,
        Err(e) => {
            return Err(e);
        },
    };
    let names = match python_arg_names(&m.args) {
        Ok(names) => names,
        Err(e) => {
            return Err(e);
        },
    };
    let name = prefixed("py_", &m.name);
    let w = if same(&m.name, "new") {
        Wrapper {
            marker: Marker::New,
            name,
            args,
            ret: m.ret.clone(),
            call: Some((m.name.clone(), names)),
        }
    } else {
        let has_receiver = m.args.len() > 0 && matches!(m.args[0], FnArg::Receiver { .. });
        Wrapper {
            marker: if has_receiver {
                Marker::Plain
            } else {
                Marker::StaticMethod
            },
            name,
            args,
            ret: String::from_str(""),
            call: None,
        }
    };
    proof {
        reveal_strlit("");
        assert(w@.ret =~= spec_python_wrapper(*m).ret);
    }
    Ok(w)
}

/// The wrapper for Panda of the method (see [`spec_panda_wrapper`]).
pub fn panda_wrapper(m: &Method) -> (w: Wrapper)
    ensures
        w@ == spec_panda_wrapper(*m),
{
    let w = Wrapper {
        marker: Marker::Plain,
        name: prefixed("pd_", &m.name),
        args: panda_args(&m.args),
        ret: String::from_str(""),
        call: Some((m.name.clone(), panda_arg_names(&m.args))),
    };
    proof {
        reveal_strlit("");
        assert(w@.ret =~= Seq::<char>::empty());
    }
    w
}

// ---------------------------------------------------------------------------
// The attribute
// ---------------------------------------------------------------------------

/// What the attribute's arguments say: where Panda finds the type, and
/// whether it may be the key of a map.
pub struct Options {
    pub panda_path: Option<String>,
    pub panda_map_key: bool,
}

/// The error that the argument gives, if it gives one: `panda_path` takes a
/// string, `panda_map_key` takes a boolean, and there is no other argument.
pub open spec fn spec_arg_error(a: MacroArg) -> Option<BindErrorView> {
    match a {
        MacroArg::NameValue { name, value } => if name@ == "panda_path"@ {
            if value is Str {
                None
            } else {
                Some(BindErrorView::ExpectedStr)
            }
        } else if name@ == "panda_map_key"@ {
            if value is Bool {
                None
            } else {
                Some(BindErrorView::ExpectedBool)
            }
        } else {
            Some(BindErrorView::UnknownArg(name@))
        },
        MacroArg::Other(text) => Some(BindErrorView::UnknownArg(text@)),
    }
}

/// The first argument from `i` on that gives an error, or -1.
pub open spec fn spec_first_bad_arg(args: Seq<MacroArg>, i: int) -> int
    decreases args.len() - i,
{
    if i < 0 || i >= args.len() {
        -1
    } else if spec_arg_error(args[i]).is_some() {
        i
    } else {
        spec_first_bad_arg(args, i + 1)
    }
}

/// The path that the first `n` arguments give: that of the last
/// `panda_path` among them.
pub open spec fn spec_panda_path(args: Seq<MacroArg>, n: int) -> Option<Seq<char>>
    decreases n,
{
    if n <= 0 {
        None
    } else {
        match args[n - 1] {
            MacroArg::NameValue { name, value: Lit::Str(path) } => if name@ == "panda_path"@ {
                Some(path@)
            } else {
                spec_panda_path(args, n - 1)
            },
            _ => spec_panda_path(args, n - 1),
        }
    }
}

/// Whether the first `n` arguments allow the type as the key of a map:
/// what the last `panda_map_key` among them says, and no without one.
pub open spec fn spec_panda_map_key(args: Seq<MacroArg>, n: int) -> bool
    decreases n,
{
    if n <= 0 {
        false
    } else {
        match args[n - 1] {
            MacroArg::NameValue { name, value: Lit::Bool(key) } => if name@ == "panda_map_key"@ {
                key
            } else {
                spec_panda_map_key(args, n - 1)
            },
            _ => spec_panda_map_key(args, n - 1),
        }
    }
}

/// What the attribute's arguments say, or the error of the first of them
/// that gives one (see [`spec_arg_error`]).
pub fn parse_args(args: &Vec<MacroArg>) -> (r: Result<Options, BindError>)
    ensures
        match r {
            Ok(o) => {
                &&& spec_first_bad_arg(args@, 0) == -1
                &&& match o.panda_path {
                    Some(p) => Some(p@),
                    None => None,
                } == spec_panda_path(args@, args@.len() as int)
                &&& o.panda_map_key == spec_panda_map_key(args@, args@.len() as int)
            },
            Err(e) => spec_first_bad_arg(args@, 0) != -1 && Some(e@) == spec_arg_error(
                args@[spec_first_bad_arg(args@, 0)],
            ),
        },
{
    let mut panda_path: Option<String> = None;
    let mut panda_map_key = false;
    let mut i: usize = 0;
    while i < args.len()
        invariant
            i <= args@.len(),
            spec_first_bad_arg(args@, 0) == spec_first_bad_arg(args@, i as int),
            match panda_path {
                Some(p) => Some(p@),
                None => None,
            } == spec_panda_path(args@, i as int),
            panda_map_key == spec_panda_map_key(args@, i as int),
        decreases args@.len() - i,
    {
        match &args[i] {
            MacroArg::NameValue { name, value } => {
                if same(name, "panda_path") {
                    match value {
                        Lit::Str(path) => {
                            panda_path = Some(path.clone());
                        },
                        _ => {
                            return Err(BindError::ExpectedStr);
                        },
                    }
                } else if same(name, "panda_map_key") {
                    proof {
                        reveal_strlit("panda_path");
                        reveal_strlit("panda_map_key");
                    }
                    match value {
                        Lit::Bool(key) => {
                            panda_map_key = *key;
                        },
                        _ => {
                            return Err(BindError::ExpectedBool);
                        },
                    }
                } else {
                    return Err(BindError::UnknownArg(name.clone()));
                }
            },
            MacroArg::Other(text) => {
                return Err(BindError::UnknownArg(text.clone()));
            },
        }
        i += 1;
    }
    Ok(Options { panda_path, panda_map_key })
}

// ---------------------------------------------------------------------------
// The block
// ---------------------------------------------------------------------------

/// The error that the item gives, if it gives one: it has to be a method
/// whose arguments a wrapper for Python can take.
pub open spec fn spec_item_error(it: ImplItem) -> Option<BindErrorView> {
    match it {
        ImplItem::Method(m) => if spec_first_unhandled(m.args@, 0) == -1 {
            None
        } else {
            Some(
                BindErrorView::CannotHandleType(
                    spec_type_text(m.args@[spec_first_unhandled(m.args@, 0)]),
                ),
            )
        },
        ImplItem::Other(_) => Some(BindErrorView::OnlyMethods),
    }
}

/// The first item from `i` on that gives an error, or -1.
pub open spec fn spec_first_bad_item(items: Seq<ImplItem>, i: int) -> int
    decreases items.len() - i,
{
    if i < 0 || i >= items.len() {
        -1
    } else if spec_item_error(items[i]).is_some() {
        i
    } else {
        spec_first_bad_item(items, i + 1)
    }
}

/// The wrappers as contracts see them.
pub open spec fn wrappers_view(w: Seq<Wrapper>) -> Seq<WrapperView> {
    Seq::new(w.len(), |i: int| w[i]@)
}

/// Whether `w` is the wrapper for Python of item `i`.
pub open spec fn is_python_of(items: Seq<ImplItem>, i: int, w: WrapperView) -> bool {
    items[i] matches ImplItem::Method(m) && w == spec_python_wrapper(m)
}

/// Whether `w` is the wrapper for Panda of item `i`.
pub open spec fn is_panda_of(items: Seq<ImplItem>, i: int, w: WrapperView) -> bool {
    items[i] matches ImplItem::Method(m) && w == spec_panda_wrapper(m)
}

/// What is made of an `impl` block that carries the attribute: for each of
/// its methods, in order, one wrapper for Panda and one for Python. The
/// arguments of the attribute are read first, then the items in order; the
/// first error ends the work.
pub fn define_ty(args: &Vec<MacroArg>, items: &Vec<ImplItem>) -> (r: Result<Generated, BindError>)
    ensures
        match r {
            Ok(g) => {
                &&& spec_first_bad_arg(args@, 0) == -1
                &&& spec_first_bad_item(items@, 0) == -1
                &&& match g.panda_path {
                    Some(p) => Some(p@),
                    None => None,
                } == spec_panda_path(args@, args@.len() as int)
                &&& g.panda_map_key == spec_panda_map_key(args@, args@.len() as int)
                &&& g.python_funcs@.len() == items@.len()
                &&& g.panda_funcs@.len() == items@.len()
                &&& forall|i: int|
                    0 <= i < items@.len() ==> is_python_of(items@, i, (#[trigger] g.python_funcs@[i])@)
                &&& forall|i: int|
                    0 <= i < items@.len() ==> is_panda_of(items@, i, (#[trigger] g.panda_funcs@[i])@)
            },
            Err(e) => if spec_first_bad_arg(args@, 0) != -1 {
                Some(e@) == spec_arg_error(args@[spec_first_bad_arg(args@, 0)])
            } else {
                spec_first_bad_item(items@, 0) != -1 && Some(e@) == spec_item_error(
                    items@[spec_first_bad_item(items@, 0)],
                )
            },
        },
{
    let options = match parse_args(args) {
        Ok(o) => o,
        Err(e) => {
            return Err(e);
        },
    };
    let mut python_funcs: Vec<Wrapper> = Vec::new();
    let mut panda_funcs: Vec<Wrapper> = Vec::new();
    let mut i: usize = 0;
    while i < items.len()
        invariant
            i <= items@.len(),
            spec_first_bad_arg(args@, 0) == -1,
            spec_first_bad_item(items@, 0) == spec_first_bad_item(items@, i as int),
            python_funcs@.len() == i,
            panda_funcs@.len() == i,
            forall|j: int| 0 <= j < i ==> is_python_of(items@, j, (#[trigger] python_funcs@[j])@),
            forall|j: int| 0 <= j < i ==> is_panda_of(items@, j, (#[trigger] panda_funcs@[j])@),
        decreases items@.len() - i,
    {
        match &items[i] {
            ImplItem::Method(m) => {
                match python_wrapper(m) {
                    Ok(w) => {
                        python_funcs.push(w);
                    },
                    Err(e) => {
                        return Err(e);
                    },
                }
                panda_funcs.push(panda_wrapper(m));
            },
            ImplItem::Other(_) => {
                return Err(BindError::OnlyMethods);
            },
        }
        i += 1;
    }
    Ok(
        Generated {
            panda_path: options.panda_path,
            panda_map_key: options.panda_map_key,
            panda_funcs,
            python_funcs,
        },
    )
}

} // verus!
