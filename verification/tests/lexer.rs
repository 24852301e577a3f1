use ron_stream::lexer::{keyword, ErrorKind, Lexer, ParseError, Token};
use ron_stream::number::NumberScan;

fn float_value(lexer: &Lexer, token: Result<Option<Token>, ParseError>) -> f64 {
    match token {
        Ok(Some(Token::Float(a, b))) => lexer.get_string(a, b).parse::<f64>().unwrap(),
        other => panic!("not a float: {:?}", other),
    }
}

fn lex_all(src: &str) -> Result<Vec<Token>, ParseError> {
    let mut lexer = Lexer::new(src);
    let mut out = Vec::new();
    loop {
        match lexer.next_token() {
            Ok(Some(t)) => out.push(t),
            Ok(None) => return Ok(out),
            Err(e) => return Err(e),
        }
    }
}

#[test]
fn test_next_token() {
    let src = r#" ( ) [ ] { } : , true Test false Some None 123.456 "text" 69420 -69420 'a'"#;
    let mut lexer = Lexer::new(src);
    assert_eq!(lexer.next_token(), Ok(Some(Token::LParen)));
    assert_eq!(lexer.next_token(), Ok(Some(Token::RParen)));
    assert_eq!(lexer.next_token(), Ok(Some(Token::LBracket)));
    assert_eq!(lexer.next_token(), Ok(Some(Token::RBracket)));
    assert_eq!(lexer.next_token(), Ok(Some(Token::LCurly)));
    assert_eq!(lexer.next_token(), Ok(Some(Token::RCurly)));
    assert_eq!(lexer.next_token(), Ok(Some(Token::Colon)));
    assert_eq!(lexer.next_token(), Ok(Some(Token::Comma)));
    assert_eq!(lexer.next_token(), Ok(Some(Token::Bool(true))));
    assert_eq!(lexer.next_token(), Ok(Some(Token::Ident(22, 26))));
    assert_eq!(lexer.next_token(), Ok(Some(Token::Bool(false))));
    assert_eq!(lexer.next_token(), Ok(Some(Token::SomeOptValue)));
    assert_eq!(lexer.next_token(), Ok(Some(Token::NoneOptValue)));
    let float = lexer.next_token();
    assert_eq!(float_value(&lexer, float), 123.456);
    assert_eq!(lexer.next_token(), Ok(Some(Token::Str(52, 56))));
    assert_eq!(lexer.next_token(), Ok(Some(Token::Int(69420))));
    assert_eq!(lexer.next_token(), Ok(Some(Token::Int(-69420))));
    assert_eq!(lexer.next_token(), Ok(Some(Token::Char('a'))));
    assert_eq!(lexer.next_token(), Ok(None));
}

#[test]
fn none() {
    let mut lexer = Lexer::new("None");
    assert_eq!(lexer.next_token(), Ok(Some(Token::NoneOptValue)));
    assert_eq!(lexer.next_token(), Ok(None));
}

#[test]
fn end_of_input_repeats() {
    let mut lexer = Lexer::new("  \t\n ");
    assert_eq!(lexer.next_token(), Ok(None));
    assert_eq!(lexer.next_token(), Ok(None));
    let mut empty = Lexer::new("");
    assert_eq!(empty.next_token(), Ok(None));
}

#[test]
fn float_token_carries_its_text() {
    let src = " 123.456 ";
    let mut lexer = Lexer::new(src);
    assert_eq!(lexer.next_token(), Ok(Some(Token::Float(1, 8))));
    assert_eq!(lexer.get_string(1, 8), "123.456");
}

#[test]
fn string_span_is_the_text_between_the_quotes() {
    let src = r#"x "héllo wörld" y"#;
    let mut lexer = Lexer::new(src);
    assert_eq!(lexer.next_token(), Ok(Some(Token::Ident(0, 1))));
    match lexer.next_token() {
        Ok(Some(Token::Str(a, b))) => {
            assert_eq!((a, b), (3, 16));
            assert_eq!(lexer.get_string(a, b), "héllo wörld");
        },
        other => panic!("not a string: {:?}", other),
    }
    assert_eq!(lexer.next_token(), Ok(Some(Token::Ident(18, 19))));
    assert_eq!(lexer.next_token(), Ok(None));
}

#[test]
fn empty_string_is_valid() {
    let mut lexer = Lexer::new(r#" "" "#);
    match lexer.next_token() {
        Ok(Some(Token::Str(a, b))) => {
            assert_eq!((a, b), (0, 0));
            assert_eq!(lexer.get_string(a, b), "");
        },
        other => panic!("not a string: {:?}", other),
    }
    assert_eq!(lexer.next_token(), Ok(None));
}

#[test]
fn string_takes_characters_literally() {
    let src = r#""a\n(b)""#;
    let mut lexer = Lexer::new(src);
    match lexer.next_token() {
        Ok(Some(Token::Str(a, b))) => assert_eq!(lexer.get_string(a, b), r"a\n(b)"),
        other => panic!("not a string: {:?}", other),
    }
}

#[test]
fn identifier_span_is_the_word() {
    let src = "  snake_case9(";
    let mut lexer = Lexer::new(src);
    match lexer.next_token() {
        Ok(Some(Token::Ident(a, b))) => assert_eq!(lexer.get_string(a, b), "snake_case9"),
        other => panic!("not an identifier: {:?}", other),
    }
    assert_eq!(lexer.next_token(), Ok(Some(Token::LParen)));
}

#[test]
fn identifier_at_end_of_input_reaches_the_end() {
    let src = "ünïcode";
    let mut lexer = Lexer::new(src);
    assert_eq!(lexer.next_token(), Ok(Some(Token::Ident(0, src.len()))));
    assert_eq!(lexer.get_string(0, src.len()), "ünïcode");
}

#[test]
fn keywords_need_the_exact_spelling() {
    assert_eq!(
        lex_all("true false Some None"),
        Ok(vec![Token::Bool(true), Token::Bool(false), Token::SomeOptValue, Token::NoneOptValue])
    );
    assert_eq!(
        lex_all("True nONE Somee fals"),
        Ok(vec![Token::Ident(0, 4), Token::Ident(5, 9), Token::Ident(10, 15), Token::Ident(16, 20)])
    );
}

#[test]
fn unicode_white_space_is_skipped() {
    assert_eq!(lex_all("\u{2003}1\u{00a0},\u{3000}2"), Ok(vec![Token::Int(1), Token::Comma, Token::Int(2)]));
}

#[test]
fn integer_bounds() {
    assert_eq!(lex_all("9223372036854775807"), Ok(vec![Token::Int(i64::MAX)]));
    assert_eq!(lex_all("-9223372036854775808"), Ok(vec![Token::Int(i64::MIN)]));
    assert_eq!(lex_all("0 -0 007"), Ok(vec![Token::Int(0), Token::Int(0), Token::Int(7)]));
}

#[test]
fn integer_out_of_range_is_a_float() {
    let src = "9223372036854775808";
    let mut lexer = Lexer::new(src);
    let token = lexer.next_token();
    assert_eq!(token, Ok(Some(Token::Float(0, 19))));
    assert_eq!(float_value(&lexer, token), 9223372036854775808.0);
    let src = "-9223372036854775809";
    let mut lexer = Lexer::new(src);
    let token = lexer.next_token();
    assert_eq!(token, Ok(Some(Token::Float(0, 20))));
    assert_eq!(float_value(&lexer, token), -9223372036854775809.0);
}

#[test]
fn float_shapes() {
    for (src, value) in [("1.", 1.0), ("-.5", -0.5), ("0.25", 0.25), ("-12.5", -12.5)] {
        let mut lexer = Lexer::new(src);
        let token = lexer.next_token();
        assert_eq!(token, Ok(Some(Token::Float(0, src.len()))));
        assert_eq!(float_value(&lexer, token), value);
        assert_eq!(lexer.next_token(), Ok(None));
    }
}

#[test]
fn every_float_token_parses() {
    for src in ["1.", "-.5", "0.0", "123456789012345678901234567890", "-0.", "00.10"] {
        let mut lexer = Lexer::new(src);
        match lexer.next_token() {
            Ok(Some(Token::Float(a, b))) => {
                assert!(lexer.get_string(a, b).parse::<f64>().is_ok());
            },
            other => panic!("not a float: {:?}", other),
        }
    }
}

#[test]
fn invalid_numbers_are_rejected() {
    for src in ["1.2.3", "-", "-.", "1..", "٣"] {
        let padded = format!("  {}", src);
        let want = if src == "٣" {
            Ok(vec![Token::Ident(2, 4)])
        } else {
            Err(ParseError { kind: ErrorKind::InvalidNumber, offset: 2 })
        };
        assert_eq!(lex_all(&padded), want);
    }
    assert_eq!(lex_all("1٣"), Err(ParseError { kind: ErrorKind::InvalidNumber, offset: 0 }));
}

#[test]
fn number_stops_at_the_first_other_character() {
    assert_eq!(lex_all("12,3"), Ok(vec![Token::Int(12), Token::Comma, Token::Int(3)]));
    assert_eq!(lex_all("12abc"), Ok(vec![Token::Int(12), Token::Ident(2, 5)]));
}

#[test]
fn unterminated_string_is_rejected() {
    assert_eq!(
        lex_all(r#"1 "abc"#),
        Err(ParseError { kind: ErrorKind::UnterminatedString, offset: 2 })
    );
    assert_eq!(lex_all(r#"""#), Err(ParseError { kind: ErrorKind::UnterminatedString, offset: 0 }));
}

#[test]
fn character_literals() {
    assert_eq!(lex_all("'é' '\"'"), Ok(vec![Token::Char('é'), Token::Char('"')]));
    assert_eq!(lex_all(" ''"), Err(ParseError { kind: ErrorKind::EmptyChar, offset: 1 }));
    assert_eq!(lex_all("'ab'"), Err(ParseError { kind: ErrorKind::OverlongChar, offset: 0 }));
    assert_eq!(lex_all("'"), Err(ParseError { kind: ErrorKind::UnterminatedChar, offset: 0 }));
    assert_eq!(lex_all("  'a"), Err(ParseError { kind: ErrorKind::UnterminatedChar, offset: 2 }));
}

#[test]
fn other_characters_start_a_word() {
    assert_eq!(lex_all("+ 5"), Ok(vec![Token::Ident(0, 1), Token::Int(5)]));
    assert_eq!(lex_all("+5"), Ok(vec![Token::Ident(0, 2)]));
    assert_eq!(lex_all(".5"), Ok(vec![Token::Ident(0, 2)]));
    assert_eq!(lex_all("a-b"), Err(ParseError { kind: ErrorKind::InvalidNumber, offset: 1 }));
    assert_eq!(lex_all("a-1"), Ok(vec![Token::Ident(0, 1), Token::Int(-1)]));
}

#[test]
fn error_offsets_count_bytes() {
    assert_eq!(lex_all("é 'ab'"), Err(ParseError { kind: ErrorKind::OverlongChar, offset: 3 }));
    assert_eq!(lex_all("«» \"x"), Err(ParseError { kind: ErrorKind::UnterminatedString, offset: 5 }));
}

#[test]
fn keyword_or_identifier() {
    assert_eq!(keyword("true", 0, 4), Token::Bool(true));
    assert_eq!(keyword("false", 0, 5), Token::Bool(false));
    assert_eq!(keyword("Some", 3, 7), Token::SomeOptValue);
    assert_eq!(keyword("None", 3, 7), Token::NoneOptValue);
    assert_eq!(keyword("truth", 1, 6), Token::Ident(1, 6));
    assert_eq!(keyword("none", 0, 4), Token::Ident(0, 4));
    assert_eq!(keyword("", 2, 2), Token::Ident(2, 2));
    assert_eq!(keyword("été", 0, 5), Token::Ident(0, 5));
}

fn scan(text: &str) -> NumberScan {
    let mut s = NumberScan::new();
    for c in text.chars() {
        s.absorb(c);
    }
    s
}

#[test]
fn number_scan_integers() {
    assert_eq!(scan("42").integer(false), Some(42));
    assert_eq!(scan("42").integer(true), Some(-42));
    assert_eq!(scan("0042").integer(false), Some(42));
    assert_eq!(scan("9223372036854775807").integer(false), Some(i64::MAX));
    assert_eq!(scan("9223372036854775808").integer(false), None);
    assert_eq!(scan("9223372036854775808").integer(true), Some(i64::MIN));
    assert_eq!(scan("9223372036854775809").integer(true), None);
    assert_eq!(scan("99999999999999999999999").integer(false), None);
    assert_eq!(scan("").integer(false), None);
    assert_eq!(scan("").integer(true), None);
    assert_eq!(scan("1.0").integer(false), None);
    assert_eq!(scan("1a").integer(false), None);
    assert_eq!(scan("-1").integer(false), None);
}

#[test]
fn number_scan_floats() {
    assert!(scan("1.0").is_float());
    assert!(scan("1.").is_float());
    assert!(scan(".5").is_float());
    assert!(scan("15").is_float());
    assert!(scan("99999999999999999999999").is_float());
    assert!(!scan("").is_float());
    assert!(!scan(".").is_float());
    assert!(!scan("1.2.3").is_float());
    assert!(!scan("1..").is_float());
    assert!(!scan("1e5").is_float());
    assert!(!scan("-1").is_float());
}
