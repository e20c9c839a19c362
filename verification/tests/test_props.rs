use why_rs::LexError;
use why_rs::Loc;
use why_rs::Token;
use why_rs::TokenType;
use why_rs::lexer::tokenize;

#[test]
fn test_int_statement_token_stream() {
    let received = tokenize("int x = 69;").unwrap();

    let expected = vec![
        Token { typ: TokenType::Ident, value: "int".to_string(), loc: Loc::at(1, 1), addtl: None },
        Token { typ: TokenType::Ident, value: "x".to_string(), loc: Loc::at(1, 5), addtl: None },
        Token { typ: TokenType::Eq, value: "=".to_string(), loc: Loc::at(1, 7), addtl: None },
        Token {
            typ: TokenType::NumLiteral(false),
            value: "69".to_string(),
            loc: Loc::at(1, 9),
            addtl: None,
        },
        Token { typ: TokenType::Semi, value: ";".to_string(), loc: Loc::at(1, 11), addtl: None },
        Token { typ: TokenType::Eof, value: "".to_string(), loc: Loc::at(1, 12), addtl: None },
    ];

    assert_eq!(expected, received);
}

#[test]
fn test_second_dot_is_invalid_number() {
    let result = tokenize("float f = 1.2.3;");
    match result {
        Err(LexError::InvalidNumber(loc)) => {
            // The failure is reported at the second dot.
            assert_eq!(loc.line, 1);
            assert_eq!(loc.col, 14);
        }
        other => panic!("expected InvalidNumber, got {:?}", other),
    }
}

#[test]
fn test_unterminated_single_quote_string() {
    let result = tokenize("'unterminated");
    match result {
        Err(LexError::UnterminatedString { delimiter, .. }) => {
            assert_eq!(delimiter, '\'');
        }
        other => panic!("expected UnterminatedString, got {:?}", other),
    }
}

#[test]
fn test_tokenize_is_deterministic() {
    let src = "int x = 69; mylist@->item { print(item); }";
    let first = tokenize(src).unwrap();
    let second = tokenize(src).unwrap();
    assert_eq!(first, second);
}

#[test]
fn test_last_token_is_eof_at_final_position() {
    let cases = ["x;", "a b c;", "1 + 2;", "hello"];
    for src in cases {
        let tokens = tokenize(src).unwrap();
        let last = tokens.last().unwrap();
        assert_eq!(last.typ, TokenType::Eof);
        assert_eq!(last.value, "");
    }

    // The end-of-input position is one column past the last character.
    let tokens = tokenize("x;").unwrap();
    assert_eq!(tokens.last().unwrap().loc, Loc::at(1, 3));
}

#[test]
fn test_operator_kind_depends_only_on_two_chars() {
    // The same two leading characters yield the same leading token kind,
    // whatever follows them.
    let pairs = [
        ("=1", "=z", TokenType::Eq),
        ("==1", "==z", TokenType::EqEq),
        ("=>1", "=>z", TokenType::LargeRArrow),
        ("->1", "->z", TokenType::SmallRArrow),
        ("-=1", "-=z", TokenType::MinusEq),
        ("+41", "+4z", TokenType::Plus),
        ("++1", "++z", TokenType::PlusPlus),
        ("**1", "**z", TokenType::StarStar),
        ("<=1", "<=z", TokenType::Lte),
        (">=1", ">=z", TokenType::Gte),
        ("<1", "<z", TokenType::Lt),
        (">1", ">z", TokenType::Gt),
    ];
    for (a, b, kind) in pairs {
        let ta = tokenize(a).unwrap();
        let tb = tokenize(b).unwrap();
        assert_eq!(ta[0].typ, kind);
        assert_eq!(tb[0].typ, kind);
    }
}

#[test]
fn test_round_trip_concatenation() {
    // Re-concatenating the token texts reproduces the source with
    // whitespace removed.
    let cases = [
        ("int x = 69;", "intx=69;"),
        ("1 -> 20 @-> n", "1->20@->n"),
        ("a ** b <= c", "a**b<=c"),
        ("  x\n+\r5;", "x+5;"),
        (" 5", "5"),
        ("1+2", "1+2"),
        ("a // comment\nb;", "ab;"),
        ("a /= b; // trailing", "a/=b;"),
    ];
    for (src, stripped) in cases {
        let tokens = tokenize(src).unwrap();
        let concat: String = tokens.iter().map(|t| t.value.as_str()).collect::<Vec<_>>().join("");
        assert_eq!(concat, stripped, "source was {:?}", src);
    }
}

#[test]
fn test_keyword_rewrite_keeps_text() {
    let tokens = tokenize("break;").unwrap();
    assert_eq!(tokens[0].typ, TokenType::Keyword);
    assert_eq!(tokens[0].value, "break");

    let tokens = tokenize("for while let in;").unwrap();
    for t in &tokens[0..3] {
        assert_eq!(t.typ, TokenType::Keyword);
    }

    // Type names are ordinary identifiers, not reserved words.
    let tokens = tokenize("int float string;").unwrap();
    for t in &tokens[0..3] {
        assert_eq!(t.typ, TokenType::Ident);
    }
}

#[test]
fn test_can_be_ident_classification() {
    assert!(why_rs::Lexer::can_be_ident('a'));
    assert!(why_rs::Lexer::can_be_ident('Z'));
    assert!(why_rs::Lexer::can_be_ident('0'));
    assert!(why_rs::Lexer::can_be_ident('_'));
    assert!(!why_rs::Lexer::can_be_ident(';'));
    assert!(!why_rs::Lexer::can_be_ident(' '));
}

#[test]
fn test_escaped_delimiter_kept_verbatim() {
    let tokens = tokenize("'a\\'b'").unwrap();
    assert_eq!(tokens[0].typ, TokenType::StrLiteral);
    assert_eq!(tokens[0].value, "a\\'b");
}

#[test]
fn test_comments_produce_no_tokens() {
    let tokens = tokenize("a // to line end\nb /* inner */ c;").unwrap();
    let texts: Vec<&str> = tokens.iter().map(|t| t.value.as_str()).collect();
    assert_eq!(texts, vec!["a", "b", "c", ";", ""]);
}

#[test]
fn test_slash_eq_token() {
    let tokens = tokenize("a /= b;").unwrap();
    assert_eq!(tokens[1].typ, TokenType::SlashEq);
    assert_eq!(tokens[1].value, "/=");
}

#[test]
fn test_unknown_characters_are_skipped() {
    let tokens = tokenize("a # b;").unwrap();
    let texts: Vec<&str> = tokens.iter().map(|t| t.value.as_str()).collect();
    assert_eq!(texts, vec!["a", "b", ";", ""]);
}

#[test]
fn test_unterminated_multiline_comment() {
    let result = tokenize("a /* never closed");
    assert!(matches!(result, Err(LexError::UnterminatedComment(_))));
}

#[test]
fn test_invalid_character_after_slash() {
    let result = tokenize("a / b");
    assert!(matches!(result, Err(LexError::UnterminatedComment(_))));
}

#[test]
fn test_unexpected_enclosure_error() {
    let mut lexer = why_rs::Lexer::new("x").unwrap();
    match why_rs::Lexer::lex_enclosures(&mut lexer) {
        Err(LexError::UnexpectedEnclosure { ch, loc }) => {
            assert_eq!(ch, 'x');
            assert_eq!(loc, Loc::at(1, 1));
        }
        other => panic!("expected UnexpectedEnclosure, got {:?}", other),
    }
}
