use sugarcane::codegen::{CodeGen, EnumVariant, FuncArg, MatchBranch};

#[test]
fn writes_an_enum() {
    let mut gen = CodeGen::new();
    gen.write_enum(
        "Hello",
        &[
            EnumVariant::Named("Nothing"),
            EnumVariant::Tuple("Something", &["String", "i32"]),
            EnumVariant::Struct("Complex", &[("name", "String"), ("amount", "i32")]),
        ],
    );
    assert_eq!(
        gen.into_output(),
        r#"pub enum Hello {
  Nothing,
  Something(String, i32),
  Complex {
    name: String,
    amount: i32,
  },
}
"#
    );
}

#[test]
fn writes_functions() {
    let mut gen = CodeGen::new();
    gen.write_func(
        "my_func",
        &[FuncArg { name: "name", ty: "String" }, FuncArg { name: "amount", ty: "i32" }],
        None,
        &["println!(\"hello world!\");"],
    );
    gen.write_func("plus_two", &[FuncArg { name: "value", ty: "i32" }], Some("i32"), &["value + 2"]);
    assert_eq!(
        gen.into_output(),
        r#"pub fn my_func(name: String, amount: i32) {
  println!("hello world!");
}
pub fn plus_two(value: i32) -> i32 {
  value + 2
}
"#
    );
}

#[test]
fn writes_a_match() {
    let mut gen = CodeGen::new();
    gen.write_match(
        "var",
        "Option",
        &[MatchBranch::Unit("None"), MatchBranch::Tuple("Some", &["value"])],
        &["println!(\"got index 0\"),", "println!(\"got index 1\"),"],
    );
    assert_eq!(
        gen.into_output(),
        r#"match var {
  Option::None => println!("got index 0"),
  Option::Some(value) => println!("got index 1"),
}
"#
    );
}

#[test]
fn match_with_struct_and_other_branch() {
    let mut gen = CodeGen::new();
    gen.write_match(
        "p",
        "Packet",
        &[MatchBranch::Struct("Chat", &["message", "position"]), MatchBranch::Other],
        &["1,", "0,"],
    );
    assert_eq!(
        gen.into_output(),
        "match p {\n  Packet::Chat { message,\n    position,\n   } => 1,\n  _ => 0,\n}\n"
    );
}

#[test]
fn indent_is_written_with_the_first_text_of_a_line() {
    let mut gen = CodeGen::new();
    gen.add_indent();
    gen.add_indent();
    gen.write("");
    gen.write("a");
    gen.write("b");
    gen.write_line("");
    gen.write_line("");
    gen.remove_indent();
    gen.write_line("c");
    gen.clear_indent();
    gen.write("d");
    assert_eq!(gen.into_output(), "    ab\n\n  c\nd");
}

#[test]
fn single_parts() {
    let mut gen = CodeGen::new();
    FuncArg { name: "x", ty: "u8" }.write(&mut gen);
    gen.write_line("");
    EnumVariant::Tuple("Empty", &[]).write(&mut gen);
    MatchBranch::Other.write(&mut gen);
    assert_eq!(gen.into_output(), "x: u8\nEmpty(),\n_ => ");
}

#[test]
fn a_function_body_can_hold_a_match() {
    let mut gen = CodeGen::new();
    gen.begin_func("name", &[FuncArg { name: "v", ty: "Option<u8>" }], Some("u8"));
    gen.begin_match("v");
    gen.write_arm("Option", &MatchBranch::Tuple("Some", &["x"]));
    gen.write_line("x,");
    gen.write_arm("Option", &MatchBranch::Other);
    gen.write_line("0,");
    gen.end_block();
    gen.end_block();
    assert_eq!(
        gen.into_output(),
        "pub fn name(v: Option<u8>) -> u8 {\n  match v {\n    Option::Some(x) => x,\n    _ => 0,\n  }\n}\n"
    );
}
