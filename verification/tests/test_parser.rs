use why_rs::Condition;
use why_rs::DeclType;
use why_rs::Expr;
use why_rs::ForBinding;
use why_rs::Keyword;
use why_rs::LexError;
use why_rs::Operator;
use why_rs::ParseError;
use why_rs::Parser;
use why_rs::Stmt;
use why_rs::Token;
use why_rs::TokenType;
use why_rs::lexer::tokenize;

fn parse_source(src: &str) -> Result<Stmt, ParseError> {
    let tokens = tokenize(src).unwrap();
    let mut parser = Parser::new(tokens);
    parser.parse()
}

#[test]
fn test_parse_foreach_over_list() {
    let stmt = parse_source("mylist@->item { print(item); }").unwrap();
    let stmts = match stmt {
        Stmt::Block(s) => s,
        other => panic!("expected a block, got {:?}", other),
    };
    assert_eq!(stmts.len(), 1);
    match &stmts[0] {
        Stmt::ForEach(binding, iterable, body) => {
            match binding {
                ForBinding::Single(name) => assert_eq!(name, "item"),
                other => panic!("expected a single binding, got {:?}", other),
            }
            match iterable {
                Expr::Ident(name) => assert_eq!(name, "mylist"),
                other => panic!("expected an identifier iterable, got {:?}", other),
            }
            assert_eq!(body.len(), 1);
            match &body[0] {
                Stmt::Expr(Expr::Call(callee, arg)) => {
                    assert!(matches!(&**callee, Expr::Ident(n) if n == "print"));
                    assert!(matches!(&**arg, Expr::Ident(n) if n == "item"));
                }
                other => panic!("expected a call statement, got {:?}", other),
            }
        }
        other => panic!("expected a for-each statement, got {:?}", other),
    }
}

#[test]
fn test_parse_foreach_over_range() {
    let stmt = parse_source("1->20@->n { }").unwrap();
    let stmts = match stmt {
        Stmt::Block(s) => s,
        other => panic!("expected a block, got {:?}", other),
    };
    assert_eq!(stmts.len(), 1);
    match &stmts[0] {
        Stmt::ForEach(binding, iterable, body) => {
            assert!(matches!(binding, ForBinding::Single(n) if n == "n"));
            match iterable {
                Expr::Range(inclusive, lo, hi) => {
                    assert!(!inclusive);
                    assert!(matches!(&**lo, Expr::Int(1)));
                    assert!(matches!(&**hi, Expr::Int(20)));
                }
                other => panic!("expected a range iterable, got {:?}", other),
            }
            assert!(body.is_empty());
        }
        other => panic!("expected a for-each statement, got {:?}", other),
    }
}

#[test]
fn test_parse_foreach_inclusive_range_pair_binding() {
    let stmt = parse_source("my_dict@=>(key, value) { print(key); }").unwrap();
    let stmts = match stmt {
        Stmt::Block(s) => s,
        other => panic!("expected a block, got {:?}", other),
    };
    match &stmts[0] {
        Stmt::ForEach(ForBinding::Pair(k, v), Expr::Ident(dict), body) => {
            assert_eq!(k, "key");
            assert_eq!(v, "value");
            assert_eq!(dict, "my_dict");
            assert_eq!(body.len(), 1);
        }
        other => panic!("expected a pair-bound for-each, got {:?}", other),
    }
}

#[test]
fn test_parse_break_outside_loop_fails() {
    let result = parse_source("@!;");
    match result {
        Err(ParseError::BreakOutsideLoop(loc)) => {
            assert_eq!(loc.line, 1);
            assert_eq!(loc.col, 1);
        }
        other => panic!("expected BreakOutsideLoop, got {:?}", other),
    }
}

#[test]
fn test_parse_break_inside_loop() {
    let stmt = parse_source("@->true! { @!; }").unwrap();
    let stmts = match stmt {
        Stmt::Block(s) => s,
        other => panic!("expected a block, got {:?}", other),
    };
    match &stmts[0] {
        Stmt::While(cond, body) => {
            assert!(matches!(cond, Expr::Ident(n) if n == "true"));
            assert_eq!(body.len(), 1);
            assert!(matches!(body[0], Stmt::Break));
        }
        other => panic!("expected a while statement, got {:?}", other),
    }
}

#[test]
fn test_parse_var_decl_int() {
    let stmt = parse_source("int x = 69;").unwrap();
    let stmts = match stmt {
        Stmt::Block(s) => s,
        other => panic!("expected a block, got {:?}", other),
    };
    match &stmts[0] {
        Stmt::VarDecl(DeclType::Int, name, Expr::Int(69)) => assert_eq!(name, "x"),
        other => panic!("expected an int declaration, got {:?}", other),
    }
}

#[test]
fn test_parse_var_decl_float_and_string() {
    let stmt = parse_source("float f = 1.5;\nstring s = 'hi';").unwrap();
    let stmts = match stmt {
        Stmt::Block(s) => s,
        other => panic!("expected a block, got {:?}", other),
    };
    assert_eq!(stmts.len(), 2);
    match &stmts[0] {
        Stmt::VarDecl(DeclType::Float, name, Expr::Float(text)) => {
            assert_eq!(name, "f");
            assert_eq!(text, "1.5");
        }
        other => panic!("expected a float declaration, got {:?}", other),
    }
    match &stmts[1] {
        Stmt::VarDecl(DeclType::Str, name, Expr::Str(text)) => {
            assert_eq!(name, "s");
            assert_eq!(text, "hi");
        }
        other => panic!("expected a string declaration, got {:?}", other),
    }
}

#[test]
fn test_parse_var_decl_type_mismatch() {
    let result = parse_source("int x = 'oops';");
    match result {
        Err(ParseError::TypeMismatch { loc, declared, found }) => {
            assert_eq!(declared, DeclType::Int);
            assert_eq!(loc.line, 1);
            assert_eq!(loc.col, 9);
            assert!(matches!(found, Expr::Str(s) if s == "oops"));
        }
        other => panic!("expected TypeMismatch, got {:?}", other),
    }
}

#[test]
fn test_parse_reassignment() {
    let stmt = parse_source("x = 5;").unwrap();
    let stmts = match stmt {
        Stmt::Block(s) => s,
        other => panic!("expected a block, got {:?}", other),
    };
    match &stmts[0] {
        Stmt::Expr(Expr::Assign(name, value)) => {
            assert_eq!(name, "x");
            assert!(matches!(&**value, Expr::Int(5)));
        }
        other => panic!("expected a reassignment, got {:?}", other),
    }
}

#[test]
fn test_parse_if_else() {
    let stmt = parse_source("(number > 100)? { x = 1; } !-> { x = 2; }").unwrap();
    let stmts = match stmt {
        Stmt::Block(s) => s,
        other => panic!("expected a block, got {:?}", other),
    };
    match &stmts[0] {
        Stmt::If(cond, then_body, else_body) => {
            match cond {
                Expr::Paren(inner) => match &**inner {
                    Expr::Cond(Condition::Gt, l, r) => {
                        assert!(matches!(&**l, Expr::Ident(n) if n == "number"));
                        assert!(matches!(&**r, Expr::Int(100)));
                    }
                    other => panic!("expected a comparison, got {:?}", other),
                },
                other => panic!("expected a parenthesized condition, got {:?}", other),
            }
            assert_eq!(then_body.len(), 1);
            assert_eq!(else_body.as_ref().unwrap().len(), 1);
        }
        other => panic!("expected an if statement, got {:?}", other),
    }
}

#[test]
fn test_parse_expression_precedence() {
    // 1 + 2 * 3 ** 2 groups as 1 + (2 * (3 ** 2)).
    let stmt = parse_source("1 + 2 * 3 ** 2;").unwrap();
    let stmts = match stmt {
        Stmt::Block(s) => s,
        other => panic!("expected a block, got {:?}", other),
    };
    match &stmts[0] {
        Stmt::Expr(Expr::Binary(Operator::Add, l, r)) => {
            assert!(matches!(&**l, Expr::Int(1)));
            match &**r {
                Expr::Binary(Operator::Mult, m_l, m_r) => {
                    assert!(matches!(&**m_l, Expr::Int(2)));
                    match &**m_r {
                        Expr::Binary(Operator::Pow, p_l, p_r) => {
                            assert!(matches!(&**p_l, Expr::Int(3)));
                            assert!(matches!(&**p_r, Expr::Int(2)));
                        }
                        other => panic!("expected a power, got {:?}", other),
                    }
                }
                other => panic!("expected a product, got {:?}", other),
            }
        }
        other => panic!("expected an additive expression, got {:?}", other),
    }
}

#[test]
fn test_parse_unary_minus() {
    let stmt = parse_source("-5;").unwrap();
    let stmts = match stmt {
        Stmt::Block(s) => s,
        other => panic!("expected a block, got {:?}", other),
    };
    match &stmts[0] {
        Stmt::Expr(Expr::Unary(Operator::Subtract, inner)) => {
            assert!(matches!(&**inner, Expr::Int(5)));
        }
        other => panic!("expected a unary minus, got {:?}", other),
    }
}

#[test]
fn test_parse_nested_block() {
    let stmt = parse_source("{ x = 1; { y = 2; } }").unwrap();
    let stmts = match stmt {
        Stmt::Block(s) => s,
        other => panic!("expected a block, got {:?}", other),
    };
    match &stmts[0] {
        Stmt::Block(inner) => {
            assert_eq!(inner.len(), 2);
            assert!(matches!(inner[1], Stmt::Block(_)));
        }
        other => panic!("expected a nested block, got {:?}", other),
    }
}

#[test]
fn test_parse_unterminated_block() {
    let result = parse_source("{ x = 1;");
    match result {
        Err(ParseError::UnterminatedBlock { loc }) => {
            assert_eq!(loc.line, 1);
            assert_eq!(loc.col, 1);
        }
        other => panic!("expected UnterminatedBlock, got {:?}", other),
    }
}

#[test]
fn test_parse_unexpected_token() {
    let result = parse_source("(1;");
    match result {
        Err(ParseError::UnexpectedToken { expected, found, .. }) => {
            assert_eq!(expected, TokenType::RParen);
            assert_eq!(found, TokenType::Semi);
        }
        other => panic!("expected UnexpectedToken, got {:?}", other),
    }
}

#[test]
fn test_parse_unexpected_end_of_input() {
    let mut parser = Parser::new(Vec::new());
    let result = parser.parse();
    assert!(matches!(result, Err(ParseError::UnexpectedEndOfInput)));
}

#[test]
fn test_parse_empty_program() {
    // A bare end-of-input token yields an empty program block.
    let tokens = vec![Token::with_value_at(TokenType::Eof, String::new(), 1, 1)];
    let mut parser = Parser::new(tokens);
    match parser.parse() {
        Ok(Stmt::Block(stmts)) => assert!(stmts.is_empty()),
        other => panic!("expected an empty block, got {:?}", other),
    }
}

#[test]
fn test_parse_int_literal_too_large() {
    let result = parse_source("99999999999999999999;");
    assert!(matches!(result, Err(ParseError::UnexpectedToken { .. })));
}

#[test]
fn test_parser_next_and_peek() {
    let tokens = tokenize("a b").unwrap();
    let mut parser = Parser::new(tokens);

    assert_eq!(parser.peek().unwrap().value, "a");
    assert_eq!(parser.next().unwrap().value, "a");
    assert_eq!(parser.peek().unwrap().value, "b");
    assert_eq!(parser.next().unwrap().value, "b");
    assert_eq!(parser.next().unwrap().typ, TokenType::Eof);
    assert!(parser.peek().is_none());
    assert!(parser.next().is_none());
}

#[test]
fn test_parser_expect() {
    let tokens = tokenize("a;").unwrap();
    let mut parser = Parser::new(tokens);

    assert!(parser.expect(TokenType::Ident).is_ok());
    match parser.expect(TokenType::Comma) {
        Err(ParseError::UnexpectedToken { expected, found, loc }) => {
            assert_eq!(expected, TokenType::Comma);
            assert_eq!(found, TokenType::Semi);
            assert_eq!(loc.line, 1);
            assert_eq!(loc.col, 2);
        }
        other => panic!("expected UnexpectedToken, got {:?}", other),
    }
    assert!(parser.expect(TokenType::Eof).is_ok());
    assert!(matches!(
        parser.expect(TokenType::Eof),
        Err(ParseError::UnexpectedEndOfInput)
    ));
}

#[test]
fn test_operator_try_from() {
    let plus = Token::with_value(TokenType::Plus, "+".to_string());
    assert_eq!(Operator::try_from(&plus).unwrap(), Operator::Add);
    let pow = Token::with_value(TokenType::StarStar, "**".to_string());
    assert_eq!(Operator::try_from(&pow).unwrap(), Operator::Pow);
    let semi = Token::with_value(TokenType::Semi, ";".to_string());
    assert!(Operator::try_from(&semi).is_err());
}

#[test]
fn test_condition_try_from() {
    let lt = Token::with_value(TokenType::Lt, "<".to_string());
    assert_eq!(Condition::try_from(&lt).unwrap(), Condition::Lt);
    let eq_eq = Token::with_value(TokenType::EqEq, "==".to_string());
    assert_eq!(Condition::try_from(&eq_eq).unwrap(), Condition::EqEq);
    let plus = Token::with_value(TokenType::Plus, "+".to_string());
    assert!(Condition::try_from(&plus).is_err());
}

#[test]
fn test_keyword_try_from() {
    let brk = Token::with_value(TokenType::Keyword, "break".to_string());
    assert_eq!(Keyword::try_from(&brk).unwrap(), Keyword::Break);
    let let_kw = Token::with_value(TokenType::Keyword, "let".to_string());
    assert_eq!(Keyword::try_from(&let_kw).unwrap(), Keyword::Let);
    // `while` is reserved by the tokenizer but has no keyword tag.
    let while_kw = Token::with_value(TokenType::Keyword, "while".to_string());
    assert!(Keyword::try_from(&while_kw).is_err());
    let ident = Token::with_value(TokenType::Ident, "break".to_string());
    assert!(Keyword::try_from(&ident).is_err());
}

#[test]
fn test_tokenize_empty_source() {
    assert_eq!(tokenize(""), Err(LexError::EmptySource));
}
