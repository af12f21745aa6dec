use sugarcane::bindings::{
    define_ty, is_plain, panda_arg_names, panda_args, parse_args, python_arg_names, python_args,
    python_wrapper, ArgType, BindError, FnArg, ImplItem, Lit, MacroArg, Marker, Method, Wrapper,
};

fn path(name: &str, ty: &str) -> FnArg {
    let head = ty.split(|c| c == ':' || c == '<').next().unwrap();
    FnArg::Typed { name: name.into(), ty: ArgType::Path { head: head.into(), text: ty.into() } }
}

fn reference(name: &str, inner: &str) -> FnArg {
    FnArg::Typed {
        name: name.into(),
        ty: ArgType::RefPath { head: inner.into(), path: inner.into(), text: format!("&{}", inner) },
    }
}

fn other(name: &str, ty: &str) -> FnArg {
    FnArg::Typed { name: name.into(), ty: ArgType::Other { text: ty.into() } }
}

fn this() -> FnArg {
    FnArg::Receiver { text: "&self".into() }
}

fn texts(v: &[&str]) -> Vec<String> {
    v.iter().map(|s| s.to_string()).collect()
}

#[test]
fn arguments_for_python() {
    let args = vec![
        this(),
        path("count", "u32"),
        path("ratio", "f64"),
        path("items", "Vec<u8>"),
        path("cb", "Callback"),
        path("v", "Var"),
        reference("name", "str"),
        reference("pos", "Pos"),
    ];
    assert_eq!(
        python_args(&args),
        Ok(texts(&[
            "&self",
            "count: u32",
            "ratio: f64",
            "items: Vec<u8>",
            "cb: crate::plugin::python::PyCallback",
            "v: i32",
            "name: String",
            "pos: Pos",
        ]))
    );
    assert_eq!(
        python_arg_names(&args),
        Ok(texts(&["self", "count", "ratio", "items", "cb", "v", "name.as_str()", "pos"]))
    );
    assert_eq!(python_args(&vec![]), Ok(vec![]));
    for name in ["u8", "i8", "u16", "i16", "u32", "i32", "u64", "i64", "u128", "i128", "f32", "f64", "Vec"] {
        assert!(is_plain(&name.to_string()), "{}", name);
    }
    for name in ["usize", "bool", "String", "vec", "Callback", ""] {
        assert!(!is_plain(&name.to_string()), "{}", name);
    }
}

#[test]
fn arguments_that_python_cannot_take() {
    let args = vec![path("a", "u8"), path("b", "String"), other("c", "(u8, u8)")];
    let e = BindError::CannotHandleType("String".into());
    assert_eq!(python_args(&args), Err(e));
    assert_eq!(python_arg_names(&args), Err(BindError::CannotHandleType("String".into())));
    let args = vec![other("c", "(u8, u8)"), path("b", "String")];
    assert_eq!(python_args(&args), Err(BindError::CannotHandleType("(u8, u8)".into())));
    assert_eq!(python_args(&vec![path("x", "bool")]), Err(BindError::CannotHandleType("bool".into())));
}

#[test]
fn arguments_for_panda() {
    let args = vec![
        this(),
        path("count", "u32"),
        path("f", "Box<dyn Fn()>"),
        path("s", "String"),
        reference("name", "str"),
        other("pair", "(u8, u8)"),
    ];
    assert_eq!(
        panda_args(&args),
        texts(&["&self", "count: u32", "f: Callback", "s: String", "name: &str", "pair: (u8, u8)"])
    );
    assert_eq!(panda_arg_names(&args), texts(&["self", "count", "f", "s", "name", "pair"]));
}

#[test]
fn wrappers_of_a_block() {
    let new = Method { name: "new".into(), args: vec![path("x", "i32")], ret: "-> Self".into() };
    let get = Method { name: "get".into(), args: vec![this(), reference("key", "str")], ret: "-> u8".into() };
    let make = Method { name: "make".into(), args: vec![], ret: "".into() };
    let args = vec![
        MacroArg::NameValue { name: "panda_path".into(), value: Lit::Str("a::B".into()) },
        MacroArg::NameValue { name: "panda_map_key".into(), value: Lit::Bool(true) },
    ];
    let g = define_ty(&args, &vec![ImplItem::Method(new), ImplItem::Method(get), ImplItem::Method(make)])
        .unwrap();
    assert_eq!(g.panda_path, Some("a::B".to_string()));
    assert!(g.panda_map_key);
    assert_eq!(
        g.python_funcs,
        vec![
            Wrapper {
                marker: Marker::New,
                name: "py_new".into(),
                args: texts(&["x: i32"]),
                ret: "-> Self".into(),
                call: Some(("new".into(), texts(&["x"]))),
            },
            Wrapper {
                marker: Marker::Plain,
                name: "py_get".into(),
                args: texts(&["&self", "key: String"]),
                ret: "".into(),
                call: None,
            },
            Wrapper {
                marker: Marker::StaticMethod,
                name: "py_make".into(),
                args: vec![],
                ret: "".into(),
                call: None,
            },
        ]
    );
    assert_eq!(
        g.panda_funcs,
        vec![
            Wrapper {
                marker: Marker::Plain,
                name: "pd_new".into(),
                args: texts(&["x: i32"]),
                ret: "".into(),
                call: Some(("new".into(), texts(&["x"]))),
            },
            Wrapper {
                marker: Marker::Plain,
                name: "pd_get".into(),
                args: texts(&["&self", "key: &str"]),
                ret: "".into(),
                call: Some(("get".into(), texts(&["self", "key"]))),
            },
            Wrapper {
                marker: Marker::Plain,
                name: "pd_make".into(),
                args: vec![],
                ret: "".into(),
                call: Some(("make".into(), vec![])),
            },
        ]
    );
    let empty = define_ty(&vec![], &vec![]).unwrap();
    assert_eq!(empty.panda_path, None);
    assert!(!empty.panda_map_key);
    assert!(empty.python_funcs.is_empty() && empty.panda_funcs.is_empty());
    // a method called `new` that takes `self` is still the constructor
    let odd = Method { name: "new".into(), args: vec![this()], ret: "".into() };
    assert_eq!(python_wrapper(&odd).unwrap().marker, Marker::New);
}

#[test]
fn what_the_attribute_refuses() {
    let path_is = |v| MacroArg::NameValue { name: "panda_path".into(), value: v };
    let key_is = |v| MacroArg::NameValue { name: "panda_map_key".into(), value: v };
    assert_eq!(parse_args(&vec![path_is(Lit::Bool(true))]).err(), Some(BindError::ExpectedStr));
    assert_eq!(parse_args(&vec![path_is(Lit::Other)]).err(), Some(BindError::ExpectedStr));
    assert_eq!(parse_args(&vec![key_is(Lit::Str("x".into()))]).err(), Some(BindError::ExpectedBool));
    assert_eq!(
        parse_args(&vec![MacroArg::NameValue { name: "path".into(), value: Lit::Bool(true) }]).err(),
        Some(BindError::UnknownArg("path".into()))
    );
    assert_eq!(
        parse_args(&vec![MacroArg::Other("skip".into())]).err(),
        Some(BindError::UnknownArg("skip".into()))
    );
    // the first error counts, and the last value of an argument given twice
    assert_eq!(
        parse_args(&vec![key_is(Lit::Other), path_is(Lit::Other)]).err(),
        Some(BindError::ExpectedBool)
    );
    let o = parse_args(&vec![
        path_is(Lit::Str("a".into())),
        key_is(Lit::Bool(true)),
        path_is(Lit::Str("b".into())),
        key_is(Lit::Bool(false)),
    ])
    .ok()
    .unwrap();
    assert_eq!(o.panda_path, Some("b".to_string()));
    assert!(!o.panda_map_key);
    // the attribute is read before the block
    let bad = Method { name: "f".into(), args: vec![path("x", "bool")], ret: "".into() };
    let items = vec![ImplItem::Method(bad), ImplItem::Other("const A: u8 = 1;".into())];
    assert_eq!(define_ty(&vec![path_is(Lit::Other)], &items).err(), Some(BindError::ExpectedStr));
    assert_eq!(define_ty(&vec![], &items).err(), Some(BindError::CannotHandleType("bool".into())));
    let items = vec![ImplItem::Other("const A: u8 = 1;".into())];
    assert_eq!(define_ty(&vec![], &items).err(), Some(BindError::OnlyMethods));
}
