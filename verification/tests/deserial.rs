use ron_stream::deserial::{RonDeserializer, RonEvent, RonPrimitive};
use ron_stream::lexer::{ErrorKind, ParseError};

fn float_of(event: Result<RonEvent, ParseError>) -> f64 {
    match event {
        Ok(RonEvent::Primitive(RonPrimitive::Float(text))) => text.parse::<f64>().unwrap(),
        other => panic!("not a float: {:?}", other),
    }
}

fn events(src: &str) -> Result<Vec<RonEvent>, ParseError> {
    let mut parser = RonDeserializer::new(src);
    let mut out = Vec::new();
    loop {
        match parser.next_event() {
            Ok(RonEvent::Eof) => {
                out.push(RonEvent::Eof);
                return Ok(out);
            },
            Ok(e) => out.push(e),
            Err(e) => return Err(e),
        }
    }
}

fn num(x: i64) -> RonEvent<'static> {
    RonEvent::Primitive(RonPrimitive::Int(x))
}

#[test]
fn none_test() {
    let mut parser = RonDeserializer::new("None");

    assert_eq!(parser.next_event(), Ok(RonEvent::Primitive(RonPrimitive::NoneOptValue)));
    assert_eq!(parser.next_event(), Ok(RonEvent::Eof));
}

#[test]
fn bool_true_test() {
    let mut parser = RonDeserializer::new("true");

    assert_eq!(parser.next_event(), Ok(RonEvent::Primitive(RonPrimitive::Bool(true))));
    assert_eq!(parser.next_event(), Ok(RonEvent::Eof));
}

#[test]
fn bool_false_test() {
    let mut parser = RonDeserializer::new("false");

    assert_eq!(parser.next_event(), Ok(RonEvent::Primitive(RonPrimitive::Bool(false))));
    assert_eq!(parser.next_event(), Ok(RonEvent::Eof));
}

#[test]
fn int_test() {
    let mut parser = RonDeserializer::new("123");

    assert_eq!(parser.next_event(), Ok(RonEvent::Primitive(RonPrimitive::Int(123))));
    assert_eq!(parser.next_event(), Ok(RonEvent::Eof));
}

#[test]
fn float_test() {
    let mut parser = RonDeserializer::new("123.0");

    assert_eq!(float_of(parser.next_event()), 123.0);
    assert_eq!(parser.next_event(), Ok(RonEvent::Eof));
}

#[test]
fn char_test() {
    let mut parser = RonDeserializer::new("'a'");

    assert_eq!(parser.next_event(), Ok(RonEvent::Primitive(RonPrimitive::Char('a'))));
    assert_eq!(parser.next_event(), Ok(RonEvent::Eof));
}

#[test]
fn str_test() {
    let mut parser = RonDeserializer::new("\"abc\"");

    assert_eq!(parser.next_event(), Ok(RonEvent::Primitive(RonPrimitive::Str("abc"))));
    assert_eq!(parser.next_event(), Ok(RonEvent::Eof));
}

#[test]
fn enum_test() {
    let mut parser = RonDeserializer::new("SomeEnum");

    assert_eq!(parser.next_event(), Ok(RonEvent::Primitive(RonPrimitive::Enum("SomeEnum"))));
    assert_eq!(parser.next_event(), Ok(RonEvent::Eof));
}

#[test]
fn some_test() {
    let mut parser = RonDeserializer::new("Some(420)");

    assert_eq!(parser.next_event(), Ok(RonEvent::OptionalSomeValue));
    assert_eq!(parser.next_event(), Ok(RonEvent::Primitive(RonPrimitive::Int(420))));
    assert_eq!(parser.next_event(), Ok(RonEvent::Eof));
}

#[test]
fn list_test() {
    let mut parser = RonDeserializer::new("[1, 2, None, 4, EnumVal, Some(6),]");
    assert_eq!(parser.next_event(), Ok(RonEvent::ListStart));
    assert_eq!(parser.next_event(), Ok(RonEvent::Primitive(RonPrimitive::Int(1))));
    assert_eq!(parser.next_event(), Ok(RonEvent::Primitive(RonPrimitive::Int(2))));
    assert_eq!(parser.next_event(), Ok(RonEvent::Primitive(RonPrimitive::NoneOptValue)));
    assert_eq!(parser.next_event(), Ok(RonEvent::Primitive(RonPrimitive::Int(4))));
    assert_eq!(parser.next_event(), Ok(RonEvent::Primitive(RonPrimitive::Enum("EnumVal"))));
    assert_eq!(parser.next_event(), Ok(RonEvent::OptionalSomeValue));
    assert_eq!(parser.next_event(), Ok(RonEvent::Primitive(RonPrimitive::Int(6))));
    assert_eq!(parser.next_event(), Ok(RonEvent::ListEnd));
    assert_eq!(parser.next_event(), Ok(RonEvent::Eof));
}

#[test]
fn unnamed_tuple_test() {
    let mut parser = RonDeserializer::new("(1, 2, 3)");

    assert_eq!(parser.next_event(), Ok(RonEvent::TupleStart { name: None }));
    assert_eq!(parser.next_event(), Ok(RonEvent::Primitive(RonPrimitive::Int(1))));
    assert_eq!(parser.next_event(), Ok(RonEvent::Primitive(RonPrimitive::Int(2))));
    assert_eq!(parser.next_event(), Ok(RonEvent::Primitive(RonPrimitive::Int(3))));
    assert_eq!(parser.next_event(), Ok(RonEvent::TupleEnd { name: None }));
    assert_eq!(parser.next_event(), Ok(RonEvent::Eof));
}

#[test]
fn named_tuple_test() {
    let mut parser = RonDeserializer::new("Named(1, 2, 3)");

    assert_eq!(parser.next_event(), Ok(RonEvent::TupleStart { name: Some("Named") }));
    assert_eq!(parser.next_event(), Ok(RonEvent::Primitive(RonPrimitive::Int(1))));
    assert_eq!(parser.next_event(), Ok(RonEvent::Primitive(RonPrimitive::Int(2))));
    assert_eq!(parser.next_event(), Ok(RonEvent::Primitive(RonPrimitive::Int(3))));
    assert_eq!(parser.next_event(), Ok(RonEvent::TupleEnd { name: Some("Named") }));
    assert_eq!(parser.next_event(), Ok(RonEvent::Eof));
}

#[test]
fn unnamed_struct_test() {
    let mut parser = RonDeserializer::new("(first: 1, second: 2, third: 3)");

    assert_eq!(parser.next_event(), Ok(RonEvent::StructStart { name: None }));
    assert_eq!(parser.next_event(), Ok(RonEvent::NamedField("first")));
    assert_eq!(parser.next_event(), Ok(RonEvent::Primitive(RonPrimitive::Int(1))));
    assert_eq!(parser.next_event(), Ok(RonEvent::NamedField("second")));
    assert_eq!(parser.next_event(), Ok(RonEvent::Primitive(RonPrimitive::Int(2))));
    assert_eq!(parser.next_event(), Ok(RonEvent::NamedField("third")));
    assert_eq!(parser.next_event(), Ok(RonEvent::Primitive(RonPrimitive::Int(3))));
    assert_eq!(parser.next_event(), Ok(RonEvent::StructEnd { name: None }));
    assert_eq!(parser.next_event(), Ok(RonEvent::Eof));
}

#[test]
fn named_struct_test() {
    let mut parser = RonDeserializer::new("Named(first: 1, second: 2, third: 3)");

    assert_eq!(parser.next_event(), Ok(RonEvent::StructStart { name: Some("Named") }));
    assert_eq!(parser.next_event(), Ok(RonEvent::NamedField("first")));
    assert_eq!(parser.next_event(), Ok(RonEvent::Primitive(RonPrimitive::Int(1))));
    assert_eq!(parser.next_event(), Ok(RonEvent::NamedField("second")));
    assert_eq!(parser.next_event(), Ok(RonEvent::Primitive(RonPrimitive::Int(2))));
    assert_eq!(parser.next_event(), Ok(RonEvent::NamedField("third")));
    assert_eq!(parser.next_event(), Ok(RonEvent::Primitive(RonPrimitive::Int(3))));
    assert_eq!(parser.next_event(), Ok(RonEvent::StructEnd { name: Some("Named") }));
    assert_eq!(parser.next_event(), Ok(RonEvent::Eof));
}

#[test]
fn map_test() {
    let mut parser = RonDeserializer::new(r#"{ "red": 0, "green": 1, "blue": 2 }"#);
    assert_eq!(parser.next_event(), Ok(RonEvent::MapStart));
    assert_eq!(parser.next_event(), Ok(RonEvent::Primitive(RonPrimitive::Str("red"))));
    assert_eq!(parser.next_event(), Ok(RonEvent::Primitive(RonPrimitive::Int(0))));
    assert_eq!(parser.next_event(), Ok(RonEvent::Primitive(RonPrimitive::Str("green"))));
    assert_eq!(parser.next_event(), Ok(RonEvent::Primitive(RonPrimitive::Int(1))));
    assert_eq!(parser.next_event(), Ok(RonEvent::Primitive(RonPrimitive::Str("blue"))));
    assert_eq!(parser.next_event(), Ok(RonEvent::Primitive(RonPrimitive::Int(2))));
    assert_eq!(parser.next_event(), Ok(RonEvent::MapEnd));
    assert_eq!(parser.next_event(), Ok(RonEvent::Eof));
}

#[test]
fn nested_test() {
    let mut parser = RonDeserializer::new(r#"
        Player(
            name: "SomePlayer69",
            pos: (0.0, 0.0, 0.0),
            factions: {
                "pirates": -100,
                "alliance": 20,
                "crabs": 30,
                "neutral": 0,
            },
            powers: [Fire, Water, Ice, Air],
        )
        "#);

    assert_eq!(parser.next_event(), Ok(RonEvent::StructStart { name: Some("Player") }));
    assert_eq!(parser.next_event(), Ok(RonEvent::NamedField("name")));
    assert_eq!(parser.next_event(), Ok(RonEvent::Primitive(RonPrimitive::Str("SomePlayer69"))));
    assert_eq!(parser.next_event(), Ok(RonEvent::NamedField("pos")));
    assert_eq!(parser.next_event(), Ok(RonEvent::TupleStart { name: None }));
    assert_eq!(float_of(parser.next_event()), 0.0);
    assert_eq!(float_of(parser.next_event()), 0.0);
    assert_eq!(float_of(parser.next_event()), 0.0);
    assert_eq!(parser.next_event(), Ok(RonEvent::TupleEnd { name: None }));
    assert_eq!(parser.next_event(), Ok(RonEvent::NamedField("factions")));
    assert_eq!(parser.next_event(), Ok(RonEvent::MapStart));
    assert_eq!(parser.next_event(), Ok(RonEvent::Primitive(RonPrimitive::Str("pirates"))));
    assert_eq!(parser.next_event(), Ok(RonEvent::Primitive(RonPrimitive::Int(-100))));
    assert_eq!(parser.next_event(), Ok(RonEvent::Primitive(RonPrimitive::Str("alliance"))));
    assert_eq!(parser.next_event(), Ok(RonEvent::Primitive(RonPrimitive::Int(20))));
    assert_eq!(parser.next_event(), Ok(RonEvent::Primitive(RonPrimitive::Str("crabs"))));
    assert_eq!(parser.next_event(), Ok(RonEvent::Primitive(RonPrimitive::Int(30))));
    assert_eq!(parser.next_event(), Ok(RonEvent::Primitive(RonPrimitive::Str("neutral"))));
    assert_eq!(parser.next_event(), Ok(RonEvent::Primitive(RonPrimitive::Int(0))));
    assert_eq!(parser.next_event(), Ok(RonEvent::MapEnd));
    assert_eq!(parser.next_event(), Ok(RonEvent::NamedField("powers")));
    assert_eq!(parser.next_event(), Ok(RonEvent::ListStart));
    assert_eq!(parser.next_event(), Ok(RonEvent::Primitive(RonPrimitive::Enum("Fire"))));
    assert_eq!(parser.next_event(), Ok(RonEvent::Primitive(RonPrimitive::Enum("Water"))));
    assert_eq!(parser.next_event(), Ok(RonEvent::Primitive(RonPrimitive::Enum("Ice"))));
    assert_eq!(parser.next_event(), Ok(RonEvent::Primitive(RonPrimitive::Enum("Air"))));
    assert_eq!(parser.next_event(), Ok(RonEvent::ListEnd));
    assert_eq!(parser.next_event(), Ok(RonEvent::StructEnd { name: Some("Player") }));
    assert_eq!(parser.next_event(), Ok(RonEvent::Eof));
}

#[test]
fn literal_none() {
    assert_eq!(events("None"), Ok(vec![RonEvent::Primitive(RonPrimitive::NoneOptValue), RonEvent::Eof]));
}

#[test]
fn literal_some() {
    assert_eq!(events("Some(420)"), Ok(vec![RonEvent::OptionalSomeValue, num(420), RonEvent::Eof]));
}

#[test]
fn literal_tuple() {
    assert_eq!(
        events("(1, 2, 3)"),
        Ok(vec![
            RonEvent::TupleStart { name: None },
            num(1),
            num(2),
            num(3),
            RonEvent::TupleEnd { name: None },
            RonEvent::Eof,
        ])
    );
}

#[test]
fn literal_map() {
    assert_eq!(
        events(r#"{ "red": 0, "green": 1 }"#),
        Ok(vec![
            RonEvent::MapStart,
            RonEvent::Primitive(RonPrimitive::Str("red")),
            num(0),
            RonEvent::Primitive(RonPrimitive::Str("green")),
            num(1),
            RonEvent::MapEnd,
            RonEvent::Eof,
        ])
    );
}

#[test]
fn literal_struct() {
    assert_eq!(
        events("Named(first: 1, second: 2)"),
        Ok(vec![
            RonEvent::StructStart { name: Some("Named") },
            RonEvent::NamedField("first"),
            num(1),
            RonEvent::NamedField("second"),
            num(2),
            RonEvent::StructEnd { name: Some("Named") },
            RonEvent::Eof,
        ])
    );
}

#[test]
fn struct_and_tuple_are_told_apart() {
    assert_eq!(
        RonDeserializer::new("Name(a: 1)").next_event(),
        Ok(RonEvent::StructStart { name: Some("Name") })
    );
    assert_eq!(
        RonDeserializer::new("Name(1)").next_event(),
        Ok(RonEvent::TupleStart { name: Some("Name") })
    );
    assert_eq!(RonDeserializer::new("(a: 1)").next_event(), Ok(RonEvent::StructStart { name: None }));
    assert_eq!(RonDeserializer::new("(1)").next_event(), Ok(RonEvent::TupleStart { name: None }));
    assert_eq!(
        events("Name(a)"),
        Ok(vec![
            RonEvent::TupleStart { name: Some("Name") },
            RonEvent::Primitive(RonPrimitive::Enum("a")),
            RonEvent::TupleEnd { name: Some("Name") },
            RonEvent::Eof,
        ])
    );
    assert_eq!(
        events("()"),
        Ok(vec![RonEvent::TupleStart { name: None }, RonEvent::TupleEnd { name: None }, RonEvent::Eof])
    );
}

#[test]
fn trailing_comma_changes_nothing() {
    let plain = events("[1, 2]");
    assert_eq!(plain, Ok(vec![RonEvent::ListStart, num(1), num(2), RonEvent::ListEnd, RonEvent::Eof]));
    assert_eq!(events("[1, 2,]"), plain);
    assert_eq!(events("(1, 2,)"), events("(1, 2)"));
    assert_eq!(events("(a: 1,)"), events("(a: 1)"));
    assert_eq!(events(r#"{"k": 1,}"#), events(r#"{"k": 1}"#));
}

#[test]
fn leading_comma_is_tolerated() {
    assert_eq!(events("[, 1]"), Ok(vec![RonEvent::ListStart, num(1), RonEvent::ListEnd, RonEvent::Eof]));
}

#[test]
fn missing_comma_is_tolerated() {
    assert_eq!(
        events("[1 2]"),
        Ok(vec![RonEvent::ListStart, num(1), num(2), RonEvent::ListEnd, RonEvent::Eof])
    );
}

#[test]
fn eof_repeats() {
    let mut parser = RonDeserializer::new(" 7 ");
    assert_eq!(parser.next_event(), Ok(num(7)));
    for _ in 0..5 {
        assert_eq!(parser.next_event(), Ok(RonEvent::Eof));
    }
    let mut empty = RonDeserializer::new("");
    assert_eq!(empty.next_event(), Ok(RonEvent::Eof));
    assert_eq!(empty.next_event(), Ok(RonEvent::Eof));
    let mut stray = RonDeserializer::new("Some(1) ]");
    assert_eq!(stray.next_event(), Ok(RonEvent::OptionalSomeValue));
    assert_eq!(stray.next_event(), Ok(num(1)));
    assert_eq!(stray.next_event(), Ok(RonEvent::Eof));
    assert_eq!(stray.next_event(), Ok(RonEvent::Eof));
}

#[test]
fn values_follow_one_another_at_the_top_level() {
    assert_eq!(events("1 two"), Ok(vec![num(1), RonEvent::Primitive(RonPrimitive::Enum("two")), RonEvent::Eof]));
}

#[test]
fn some_is_transparent() {
    assert_eq!(
        events("Some([1])"),
        Ok(vec![RonEvent::OptionalSomeValue, RonEvent::ListStart, num(1), RonEvent::ListEnd, RonEvent::Eof])
    );
    assert_eq!(
        events("Some(Some(None))"),
        Ok(vec![
            RonEvent::OptionalSomeValue,
            RonEvent::OptionalSomeValue,
            RonEvent::Primitive(RonPrimitive::NoneOptValue),
            RonEvent::Eof,
        ])
    );
    assert_eq!(
        events("[Some(P(x: 1)), 2]"),
        Ok(vec![
            RonEvent::ListStart,
            RonEvent::OptionalSomeValue,
            RonEvent::StructStart { name: Some("P") },
            RonEvent::NamedField("x"),
            num(1),
            RonEvent::StructEnd { name: Some("P") },
            num(2),
            RonEvent::ListEnd,
            RonEvent::Eof,
        ])
    );
}

#[test]
fn nesting_is_balanced() {
    let all = events(r#"A(x: [(1, {"k": B(2)}), []], y: ())"#).unwrap();
    let mut open: Vec<RonEvent> = Vec::new();
    for e in all {
        match e {
            RonEvent::StructStart { .. } | RonEvent::TupleStart { .. } | RonEvent::MapStart | RonEvent::ListStart => {
                open.push(e)
            },
            RonEvent::StructEnd { name } => assert_eq!(open.pop(), Some(RonEvent::StructStart { name })),
            RonEvent::TupleEnd { name } => assert_eq!(open.pop(), Some(RonEvent::TupleStart { name })),
            RonEvent::MapEnd => assert_eq!(open.pop(), Some(RonEvent::MapStart)),
            RonEvent::ListEnd => assert_eq!(open.pop(), Some(RonEvent::ListStart)),
            _ => {},
        }
    }
    assert!(open.is_empty());
}

#[test]
fn names_borrow_unicode_text() {
    assert_eq!(
        events("Größe(höhe: \"çà\")"),
        Ok(vec![
            RonEvent::StructStart { name: Some("Größe") },
            RonEvent::NamedField("höhe"),
            RonEvent::Primitive(RonPrimitive::Str("çà")),
            RonEvent::StructEnd { name: Some("Größe") },
            RonEvent::Eof,
        ])
    );
}

#[test]
fn float_event_carries_the_literal() {
    assert_eq!(events("-1.5"), Ok(vec![RonEvent::Primitive(RonPrimitive::Float("-1.5")), RonEvent::Eof]));
}

fn error_of(src: &str) -> ParseError {
    match events(src) {
        Err(e) => e,
        Ok(all) => panic!("accepted: {:?}", all),
    }
}

#[test]
fn lex_errors_come_through() {
    assert_eq!(error_of("[1, \"abc"), ParseError { kind: ErrorKind::UnterminatedString, offset: 4 });
    assert_eq!(error_of("(''"), ParseError { kind: ErrorKind::EmptyChar, offset: 1 });
    assert_eq!(error_of("'ab'"), ParseError { kind: ErrorKind::OverlongChar, offset: 0 });
    assert_eq!(error_of("[1, 'a"), ParseError { kind: ErrorKind::UnterminatedChar, offset: 4 });
    assert_eq!(error_of("{1.2.3: 4}"), ParseError { kind: ErrorKind::InvalidNumber, offset: 1 });
    assert_eq!(error_of("Name 'ab'"), ParseError { kind: ErrorKind::OverlongChar, offset: 5 });
}

#[test]
fn open_container_at_end_of_input_is_rejected() {
    assert_eq!(error_of("[1, 2"), ParseError { kind: ErrorKind::UnexpectedEnd, offset: 5 });
    assert_eq!(error_of("[1,"), ParseError { kind: ErrorKind::UnexpectedEnd, offset: 3 });
    assert_eq!(error_of("{"), ParseError { kind: ErrorKind::UnexpectedEnd, offset: 1 });
    assert_eq!(error_of("(a: "), ParseError { kind: ErrorKind::UnexpectedEnd, offset: 4 });
    assert_eq!(error_of("Some("), ParseError { kind: ErrorKind::UnexpectedEnd, offset: 5 });
    assert_eq!(error_of("Some"), ParseError { kind: ErrorKind::UnexpectedEnd, offset: 4 });
    assert_eq!(error_of("Some(1"), ParseError { kind: ErrorKind::UnexpectedEnd, offset: 6 });
}

#[test]
fn missing_tokens_are_rejected() {
    assert_eq!(error_of("[1 : 2]"), ParseError { kind: ErrorKind::ExpectedValue, offset: 3 });
    assert_eq!(error_of("[)"), ParseError { kind: ErrorKind::ExpectedValue, offset: 1 });
    assert_eq!(error_of("(a: 1, 2)"), ParseError { kind: ErrorKind::ExpectedIdentifier, offset: 7 });
    assert_eq!(error_of(r#"{"k" 1}"#), ParseError { kind: ErrorKind::ExpectedColon, offset: 5 });
    assert_eq!(error_of("Some 1"), ParseError { kind: ErrorKind::ExpectedOpenParen, offset: 5 });
    assert_eq!(error_of("Some(1, 2)"), ParseError { kind: ErrorKind::ExpectedCloseParen, offset: 6 });
    assert_eq!(error_of("{[1]: 2}"), ParseError { kind: ErrorKind::ExpectedColon, offset: 2 });
}
