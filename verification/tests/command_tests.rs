use sugarcane::command::{Arg, Decimal, ParseError, Parser, StringType};
use sugarcane::math::Pos;

fn num(d: Decimal) -> f64 {
    d.mantissa as f64 / 10f64.powi(d.scale as i32)
}

fn double(r: Result<(Arg, usize), ParseError>) -> Result<(f64, usize), ParseError> {
    match r? {
        (Arg::Double(d), n) => Ok((num(d), n)),
        other => panic!("expected a double, got {:?}", other),
    }
}

fn float(r: Result<(Arg, usize), ParseError>) -> Result<(f64, usize), ParseError> {
    match r? {
        (Arg::Float(d), n) => Ok((num(d), n)),
        other => panic!("expected a float, got {:?}", other),
    }
}

fn range(r: Result<(Arg, usize), ParseError>) -> (f64, Option<f64>, Option<f64>) {
    match r {
        Err(ParseError::Range(v, min, max)) => (num(v), min.map(num), max.map(num)),
        other => panic!("expected a range error, got {:?}", other),
    }
}

#[test]
fn parse_types() -> Result<(), ParseError> {
    assert_eq!(Parser::Bool.parse("true")?, (Arg::Bool(true), 4));
    assert_eq!(Parser::Bool.parse("false")?, (Arg::Bool(false), 5));

    assert_eq!(double(Parser::Double { min: None, max: None }.parse("5.3"))?, (5.3, 3));
    assert_eq!(double(Parser::Double { min: None, max: None }.parse("3.0000"))?, (3.0, 6));
    assert_eq!(
        range(Parser::Double { min: Some(Decimal::new(10, 1)), max: None }.parse("-5")),
        (-5.0, Some(1.0), None)
    );

    assert_eq!(float(Parser::Float { min: None, max: None }.parse("5.3"))?, (5.3, 3));
    assert_eq!(float(Parser::Float { min: None, max: None }.parse("3.0000"))?, (3.0, 6));
    assert_eq!(
        range(Parser::Float { min: Some(Decimal::new(10, 1)), max: None }.parse("-5")),
        (-5.0, Some(1.0), None)
    );

    assert_eq!(Parser::Int { min: None, max: None }.parse("5")?, (Arg::Int(5), 1));
    assert_eq!(Parser::Int { min: None, max: None }.parse("03")?, (Arg::Int(3), 2));
    assert_eq!(
        Parser::Int { min: None, max: None }.parse("3.2"),
        Err(ParseError::InvalidText("3.2".into(), "an int".into()))
    );
    assert_eq!(
        range(Parser::Int { min: Some(1), max: None }.parse("-5")),
        (-5.0, Some(1.0), None)
    );

    assert_eq!(
        Parser::String(StringType::SingleWord).parse("big gaming")?,
        (Arg::String("big".into()), 3)
    );
    assert_eq!(
        Parser::String(StringType::SingleWord).parse("word")?,
        (Arg::String("word".into()), 4)
    );
    assert_eq!(
        Parser::String(StringType::SingleWord).parse(""),
        Err(ParseError::EOF(Parser::String(StringType::SingleWord))),
    );
    assert_eq!(
        Parser::String(StringType::QuotablePhrase).parse("big gaming")?,
        (Arg::String("big".into()), 3)
    );
    assert_eq!(
        Parser::String(StringType::QuotablePhrase).parse("\"big gaming\" things")?,
        (Arg::String("big gaming".into()), 12) // 10 + 2 because of the quotes
    );
    assert_eq!(
        Parser::String(StringType::QuotablePhrase).parse(r#""big gam\"ing" things"#)?,
        (Arg::String(r#"big gam"ing"#.into()), 14) // 11 + 2 + 1 because of the quotes and \
    );
    assert_eq!(
        Parser::String(StringType::QuotablePhrase).parse(r#""big gam\\\"ing" things"#)?,
        (Arg::String(r#"big gam\"ing"#.into()), 16)
    );
    assert_eq!(
        Parser::String(StringType::QuotablePhrase).parse(r#""big gam\\"ing" things"#)?,
        (Arg::String(r#"big gam\"#.into()), 11)
    );
    assert_eq!(
        Parser::String(StringType::GreedyPhrase).parse(r#""big gam\\"ing" things"#)?,
        (Arg::String(r#""big gam\\"ing" things"#.into()), 22)
    );

    assert_eq!(
        Parser::BlockPos.parse("10 12"),
        Err(ParseError::InvalidText("10 12".into(), "a block position".into())),
    );
    assert_eq!(Parser::BlockPos.parse("10 12 15")?, (Arg::BlockPos(Pos::new(10, 12, 15)), 8));
    Ok(())
}

#[test]
fn bool_needs_a_literal() {
    assert_eq!(
        Parser::Bool.parse("tru"),
        Err(ParseError::InvalidText("tru".into(), "true or false".into()))
    );
    assert_eq!(Parser::Bool.parse("truest"), Ok((Arg::Bool(true), 4)));
    assert_eq!(
        Parser::Bool.parse(""),
        Err(ParseError::InvalidText("".into(), "true or false".into()))
    );
}

#[test]
fn int_limits() {
    let any = Parser::Int { min: None, max: None };
    assert_eq!(any.parse("2147483647"), Ok((Arg::Int(i32::MAX), 10)));
    assert_eq!(any.parse("-2147483648 x"), Ok((Arg::Int(i32::MIN), 11)));
    assert_eq!(any.parse("+7"), Ok((Arg::Int(7), 2)));
    for bad in ["2147483648", "-2147483649", "99999999999999999999", "", "-", "+", "1a", "--1"] {
        assert_eq!(
            any.parse(bad),
            Err(ParseError::InvalidText(bad.into(), "an int".into())),
            "{}",
            bad
        );
    }
    let bounded = Parser::Int { min: Some(-3), max: Some(3) };
    assert_eq!(bounded.parse("3"), Ok((Arg::Int(3), 1)));
    assert_eq!(bounded.parse("-3"), Ok((Arg::Int(-3), 2)));
    assert_eq!(range(bounded.parse("4")), (4.0, Some(-3.0), Some(3.0)));
    assert_eq!(range(bounded.parse("-4")), (-4.0, Some(-3.0), Some(3.0)));
}

#[test]
fn decimal_forms() {
    let any = Parser::Double { min: None, max: None };
    assert_eq!(any.parse("5.3"), Ok((Arg::Double(Decimal::new(53, 1)), 3)));
    assert_eq!(any.parse("-0.25 rest"), Ok((Arg::Double(Decimal::new(-25, 2)), 5)));
    assert_eq!(any.parse(".5"), Ok((Arg::Double(Decimal::new(5, 1)), 2)));
    assert_eq!(any.parse("5."), Ok((Arg::Double(Decimal::new(5, 0)), 2)));
    assert_eq!(any.parse("+12"), Ok((Arg::Double(Decimal::new(12, 0)), 3)));
    for bad in ["", ".", "-", "1.2.3", "abc", "1e5", "1234567890123456789"] {
        assert_eq!(
            any.parse(bad),
            Err(ParseError::InvalidText(bad.into(), "a double".into())),
            "{}",
            bad
        );
    }
    assert_eq!(
        Parser::Float { min: None, max: None }.parse("x"),
        Err(ParseError::InvalidText("x".into(), "a float".into()))
    );
    let bounded = Parser::Double { min: Some(Decimal::new(5, 1)), max: Some(Decimal::new(2, 0)) };
    assert_eq!(bounded.parse("0.5"), Ok((Arg::Double(Decimal::new(5, 1)), 3)));
    assert_eq!(bounded.parse("2.00"), Ok((Arg::Double(Decimal::new(200, 2)), 4)));
    assert_eq!(range(bounded.parse("0.49")), (0.49, Some(0.5), Some(2.0)));
    assert_eq!(range(bounded.parse("2.001")), (2.001, Some(0.5), Some(2.0)));
    assert!(Decimal::new(5, 1).lt(&Decimal::new(51, 2)));
    assert!(!Decimal::new(50, 2).lt(&Decimal::new(5, 1)));
    assert!(Decimal::new(-1, 0).lt(&Decimal::new(0, 5)));
}

#[test]
fn quoted_phrases() {
    let p = Parser::String(StringType::QuotablePhrase);
    assert_eq!(
        p.parse(r#""a\nb""#),
        Err(ParseError::InvalidText(r#""a\nb""#.into(), "a valid escape character".into()))
    );
    // without the closing quote the phrase runs to the end, and one more is counted
    assert_eq!(p.parse("\"abc"), Ok((Arg::String("abc".into()), 5)));
    assert_eq!(p.parse("\"\""), Ok((Arg::String("".into()), 2)));
    assert_eq!(p.parse(" ab c"), Ok((Arg::String(" ab".into()), 3)));
    assert_eq!(p.parse("x"), Ok((Arg::String("x".into()), 1)));
    assert_eq!(p.parse(""), Err(ParseError::EOF(p)));
}

#[test]
fn block_positions() {
    let p = Parser::BlockPos;
    assert_eq!(p.parse("-1 0 +3 tail"), Ok((Arg::BlockPos(Pos::new(-1, 0, 3)), 7)));
    assert_eq!(
        p.parse("1  2 3"),
        Err(ParseError::InvalidText("1  2 3".into(), "a valid block position coordinate".into()))
    );
    assert_eq!(
        p.parse("1 2 x"),
        Err(ParseError::InvalidText("1 2 x".into(), "a valid block position coordinate".into()))
    );
    assert_eq!(
        p.parse("7"),
        Err(ParseError::InvalidText("7".into(), "a block position".into()))
    );
}

#[test]
fn other_kinds_take_one_character() {
    for p in [Parser::Uuid, Parser::Vec3, Parser::Entity { single: true, players: false }, Parser::Enum] {
        assert_eq!(p.parse("anything"), Ok((Arg::Int(5), 1)));
        assert_eq!(p.parse(""), Ok((Arg::Int(5), 1)));
    }
}

#[test]
fn words_are_measured_in_bytes() {
    let word = Parser::String(StringType::SingleWord);
    assert_eq!(word.parse("h\u{e9}llo w\u{f6}rld"), Ok((Arg::String("h\u{e9}llo".into()), 6)));
    assert_eq!(word.parse("\u{1f600}"), Ok((Arg::String("\u{1f600}".into()), 4)));
    assert_eq!(word.parse(" x"), Ok((Arg::String("".into()), 0)));
    let greedy = Parser::String(StringType::GreedyPhrase);
    assert_eq!(greedy.parse("\u{e9} \u{e9}"), Ok((Arg::String("\u{e9} \u{e9}".into()), 5)));
    assert_eq!(greedy.parse(""), Ok((Arg::String("".into()), 0)));
    // a phrase in quotes counts its characters
    let phrase = Parser::String(StringType::QuotablePhrase);
    assert_eq!(phrase.parse("\"\u{e9}\" x"), Ok((Arg::String("\u{e9}".into()), 3)));
}
