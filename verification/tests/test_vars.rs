use why_rs::Lexer;
use why_rs::Loc;
use why_rs::Token;
use why_rs::TokenType;

const SOURCE: &'static str = r#"
#one = /* multi line comment */ 1 ;
// This is a comment
#two = 2 ;

/*
 * Actual multiline comment
 */

#three = 3 ;
"#;

#[test]
fn test_vars_test_lexer_lexes_vars() {
    let mut lexer = Lexer::new(SOURCE).unwrap();
    let _ = lexer.lex().unwrap();
}

const VARS_SOURCE: &'static str = r#"int one = 1;
bool my_bool = false;
"#;

#[test]
fn test_lexer_vars_test_lexer_lexes_vars() {
    let expected_tokens = vec![
        Token { typ: TokenType::Ident, value: "int".to_string(), loc: Loc::at(1, 1), addtl: None },
        Token { typ: TokenType::Ident, value: "one".to_string(), loc: Loc::at(1, 5), addtl: None },
        Token { typ: TokenType::Eq, value: "=".to_string(), loc: Loc::at(1, 9), addtl: None },
        Token {
            typ: TokenType::NumLiteral(false),
            value: "1".to_string(),
            loc: Loc::at(1, 11),
            addtl: None,
        },
        Token { typ: TokenType::Semi, value: ";".to_string(), loc: Loc::at(1, 12), addtl: None },
        Token { typ: TokenType::Ident, value: "bool".to_string(), loc: Loc::at(2, 1), addtl: None },
        Token {
            typ: TokenType::Ident,
            value: "my_bool".to_string(),
            loc: Loc::at(2, 6),
            addtl: None,
        },
        Token { typ: TokenType::Eq, value: "=".to_string(), loc: Loc::at(2, 14), addtl: None },
        Token { typ: TokenType::Ident, value: "false".to_string(), loc: Loc::at(2, 16), addtl: None },
        Token { typ: TokenType::Semi, value: ";".to_string(), loc: Loc::at(2, 21), addtl: None },
        Token { typ: TokenType::Eof, value: "".to_string(), loc: Loc::at(3, 1), addtl: None },
    ];

    let mut lexer = Lexer::new(VARS_SOURCE).unwrap();
    let received_tokens = lexer.lex().unwrap();

    assert_eq!(expected_tokens, received_tokens);
}
