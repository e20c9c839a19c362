//! Front end of a small interpreted scripting language: a tokenizer that
//! turns source text into a located token sequence, and a recursive-descent
//! parser that builds a syntax tree from that sequence.

pub mod ast;
pub mod lexer;
pub mod parser;
pub mod tokens;

pub use ast::Condition;
pub use ast::DeclType;
pub use ast::Expr;
pub use ast::ForBinding;
pub use ast::Keyword;
pub use ast::Operator;
pub use ast::Stmt;
pub use lexer::LexError;
pub use lexer::Lexer;
pub use lexer::tokenize;
pub use parser::ParseError;
pub use parser::Parser;
pub use tokens::Loc;
pub use tokens::Token;
pub use tokens::TokenType;
