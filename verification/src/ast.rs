//! The syntax-tree data model: operators, conditions, keywords, expressions
//! and statements, together with their mathematical views.

use vstd::prelude::*;

use crate::tokens::Token;
use crate::tokens::TokenType;

verus! {

/// Binary and unary operators of the expression grammar.
#[derive(Copy, Clone, Debug, Eq, PartialEq, Structural)]
pub enum Operator {
    Add,
    Increment,
    IncrementBy,
    Subtract,
    Decrement,
    DecrementBy,
    MultBy,
    DivBy,
    Pow,
    Mult,
    Div,
    Dot,
}

/// Comparison operators of a conditional test.
#[derive(Copy, Clone, Debug, Eq, PartialEq, Structural)]
pub enum Condition {
    Lt,
    Gt,
    Lte,
    Gte,
    Ne,
    EqEq,
}

/// Reserved words of the language.
#[derive(Copy, Clone, Debug, Eq, PartialEq, Structural)]
pub enum Keyword {
    For,
    In,
    If,
    Is,
    Break,
    Return,
    Let,
    Else,
    Const,
}

/// The operator that a token kind stands for, if any.
pub open spec fn operator_of(typ: TokenType) -> Option<Operator> {
    match typ {
        TokenType::Plus => Option::Some(Operator::Add),
        TokenType::PlusPlus => Option::Some(Operator::Increment),
        TokenType::PlusEq => Option::Some(Operator::IncrementBy),
        TokenType::Minus => Option::Some(Operator::Subtract),
        TokenType::MinusMinus => Option::Some(Operator::Decrement),
        TokenType::MinusEq => Option::Some(Operator::DecrementBy),
        TokenType::StarEq => Option::Some(Operator::MultBy),
        TokenType::SlashEq => Option::Some(Operator::DivBy),
        TokenType::StarStar => Option::Some(Operator::Pow),
        TokenType::Star => Option::Some(Operator::Mult),
        TokenType::Slash => Option::Some(Operator::Div),
        TokenType::Dot => Option::Some(Operator::Dot),
        _ => Option::None,
    }
}

/// The comparison that a token kind stands for, if any.
pub open spec fn condition_of(typ: TokenType) -> Option<Condition> {
    match typ {
        TokenType::EqEq => Option::Some(Condition::EqEq),
        TokenType::Ne => Option::Some(Condition::Ne),
        TokenType::Gte => Option::Some(Condition::Gte),
        TokenType::Lte => Option::Some(Condition::Lte),
        TokenType::Gt => Option::Some(Condition::Gt),
        TokenType::Lt => Option::Some(Condition::Lt),
        _ => Option::None,
    }
}

/// The keyword that a `Keyword` token with the given text stands for, if any.
pub open spec fn keyword_of(typ: TokenType, text: Seq<char>) -> Option<Keyword> {
    if typ != TokenType::Keyword {
        Option::None
    } else if text == "in"@ {
        Option::Some(Keyword::In)
    } else if text == "if"@ {
        Option::Some(Keyword::If)
    } else if text == "is"@ {
        Option::Some(Keyword::Is)
    } else if text == "break"@ {
        Option::Some(Keyword::Break)
    } else if text == "return"@ {
        Option::Some(Keyword::Return)
    } else if text == "let"@ {
        Option::Some(Keyword::Let)
    } else if text == "else"@ {
        Option::Some(Keyword::Else)
    } else if text == "const"@ {
        Option::Some(Keyword::Const)
    } else if text == "for"@ {
        Option::Some(Keyword::For)
    } else {
        Option::None
    }
}

impl Condition {
    /// The comparison denoted by a token, by its kind alone.
    pub fn try_from(token: &Token) -> (r: Result<Self, &'static str>)
        ensures
            condition_of(token.typ) is Some ==> r is Ok && r->Ok_0 == condition_of(
                token.typ,
            )->0,
            condition_of(token.typ) is None ==> r is Err,
    {
        match token.typ {
            TokenType::EqEq => Ok(Condition::EqEq),
            TokenType::Ne => Ok(Condition::Ne),
            TokenType::Gte => Ok(Condition::Gte),
            TokenType::Lte => Ok(Condition::Lte),
            TokenType::Gt => Ok(Condition::Gt),
            TokenType::Lt => Ok(Condition::Lt),
            _ => Err("Failed to convert conditional token"),
        }
    }
}

impl Operator {
    /// The operator denoted by a token, by its kind alone.
    pub fn try_from(token: &Token) -> (r: Result<Self, &'static str>)
        ensures
            operator_of(token.typ) is Some ==> r is Ok && r->Ok_0 == operator_of(token.typ)->0,
            operator_of(token.typ) is None ==> r is Err,
    {
        match token.typ {
            TokenType::Plus => Ok(Operator::Add),
            TokenType::PlusPlus => Ok(Operator::Increment),
            TokenType::PlusEq => Ok(Operator::IncrementBy),
            TokenType::Minus => Ok(Operator::Subtract),
            TokenType::MinusMinus => Ok(Operator::Decrement),
            TokenType::MinusEq => Ok(Operator::DecrementBy),
            TokenType::StarEq => Ok(Operator::MultBy),
            TokenType::SlashEq => Ok(Operator::DivBy),
            TokenType::StarStar => Ok(Operator::Pow),
            TokenType::Star => Ok(Operator::Mult),
            TokenType::Slash => Ok(Operator::Div),
            TokenType::Dot => Ok(Operator::Dot),
            _ => Err("Failed to convert operator token"),
        }
    }
}

impl Keyword {
    /// The keyword denoted by a `Keyword` token, by its text.
    pub fn try_from(token: &Token) -> (r: Result<Self, &'static str>)
        ensures
            keyword_of(token.typ, token.value@) is Some ==> r is Ok && r->Ok_0 == keyword_of(
                token.typ,
                token.value@,
            )->0,
            keyword_of(token.typ, token.value@) is None ==> r is Err,
    {
        match token.typ {
            TokenType::Keyword => {
                if token.value == String::from_str("in") {
                    Ok(Keyword::In)
                } else if token.value == String::from_str("if") {
                    Ok(Keyword::If)
                } else if token.value == String::from_str("is") {
                    Ok(Keyword::Is)
                } else if token.value == String::from_str("break") {
                    Ok(Keyword::Break)
                } else if token.value == String::from_str("return") {
                    Ok(Keyword::Return)
                } else if token.value == String::from_str("let") {
                    Ok(Keyword::Let)
                } else if token.value == String::from_str("else") {
                    Ok(Keyword::Else)
                } else if token.value == String::from_str("const") {
                    Ok(Keyword::Const)
                } else if token.value == String::from_str("for") {
                    Ok(Keyword::For)
                } else {
                    Err("Unknown Keyword token")
                }
            },
            _ => Err("Failed to convert keyword token"),
        }
    }
}

/// The declared type of a variable declaration.
#[derive(Copy, Clone, Debug, Eq, PartialEq, Structural)]
pub enum DeclType {
    Int,
    Float,
    Str,
    Array,
    Mapping,
}

/// The binding pattern of a for-each loop: a single name, or a key/value
/// pair for mapping iteration.
#[derive(Debug)]
pub enum ForBinding {
    Single(String),
    Pair(String, String),
}

/// An expression node of the syntax tree.
#[derive(Debug)]
pub enum Expr {
    /// Parse-time placeholder, never a leaf of a finished tree.
    Null,
    /// Integer literal.
    Int(i64),
    /// Fractional numeric literal, kept as its digit text.
    Float(String),
    /// String literal content.
    Str(String),
    /// Identifier reference.
    Ident(String),
    /// Unary operation.
    Unary(Operator, Box<Expr>),
    /// Binary operation.
    Binary(Operator, Box<Expr>, Box<Expr>),
    /// Comparison test.
    Cond(Condition, Box<Expr>, Box<Expr>),
    /// Reassignment of an identifier.
    Assign(String, Box<Expr>),
    /// Call of a callee on one argument.
    Call(Box<Expr>, Box<Expr>),
    /// Parenthesized sub-expression.
    Paren(Box<Expr>),
    /// Range between two expressions; the flag is true for an inclusive range.
    Range(bool, Box<Expr>, Box<Expr>),
}

/// A statement node of the syntax tree.
#[derive(Debug)]
pub enum Stmt {
    /// An expression followed by `;`.
    Expr(Expr),
    /// A variable declaration: declared type, name, initializer.
    VarDecl(DeclType, String, Expr),
    /// A for-each loop: binding, iterable, body.
    ForEach(ForBinding, Expr, Vec<Stmt>),
    /// A while-true loop.
    While(Expr, Vec<Stmt>),
    /// An if branch with an optional else branch.
    If(Expr, Vec<Stmt>, Option<Vec<Stmt>>),
    /// A break out of the nearest loop.
    Break,
    /// A brace-delimited sequence of statements.
    Block(Vec<Stmt>),
}

/// Mathematical view of an expression.
pub enum ExprV {
    Null,
    Int(i64),
    Float(Seq<char>),
    Str(Seq<char>),
    Ident(Seq<char>),
    Unary(Operator, Box<ExprV>),
    Binary(Operator, Box<ExprV>, Box<ExprV>),
    Cond(Condition, Box<ExprV>, Box<ExprV>),
    Assign(Seq<char>, Box<ExprV>),
    Call(Box<ExprV>, Box<ExprV>),
    Paren(Box<ExprV>),
    Range(bool, Box<ExprV>, Box<ExprV>),
}

/// Mathematical view of a for-each binding.
pub enum ForBindingV {
    Single(Seq<char>),
    Pair(Seq<char>, Seq<char>),
}

/// Mathematical view of a statement.
pub enum StmtV {
    Expr(ExprV),
    VarDecl(DeclType, Seq<char>, ExprV),
    ForEach(ForBindingV, ExprV, Seq<StmtV>),
    While(ExprV, Seq<StmtV>),
    If(ExprV, Seq<StmtV>, Option<Seq<StmtV>>),
    Break,
    Block(Seq<StmtV>),
}

impl View for ForBinding {
    type V = ForBindingV;

    open spec fn view(&self) -> ForBindingV {
        match self {
            ForBinding::Single(s) => ForBindingV::Single(s@),
            ForBinding::Pair(k, v) => ForBindingV::Pair(k@, v@),
        }
    }
}

/// The mathematical view of an expression.
pub open spec fn expr_view(e: Expr) -> ExprV
    decreases e,
{
    match e {
        Expr::Null => ExprV::Null,
        Expr::Int(n) => ExprV::Int(n),
        Expr::Float(s) => ExprV::Float(s@),
        Expr::Str(s) => ExprV::Str(s@),
        Expr::Ident(s) => ExprV::Ident(s@),
        Expr::Unary(op, e1) => ExprV::Unary(op, Box::new(expr_view(*e1))),
        Expr::Binary(op, l, r) => ExprV::Binary(
            op,
            Box::new(expr_view(*l)),
            Box::new(expr_view(*r)),
        ),
        Expr::Cond(c, l, r) => ExprV::Cond(c, Box::new(expr_view(*l)), Box::new(expr_view(*r))),
        Expr::Assign(name, e1) => ExprV::Assign(name@, Box::new(expr_view(*e1))),
        Expr::Call(f, a) => ExprV::Call(Box::new(expr_view(*f)), Box::new(expr_view(*a))),
        Expr::Paren(e1) => ExprV::Paren(Box::new(expr_view(*e1))),
        Expr::Range(incl, l, r) => ExprV::Range(
            incl,
            Box::new(expr_view(*l)),
            Box::new(expr_view(*r)),
        ),
    }
}

impl View for Expr {
    type V = ExprV;

    open spec fn view(&self) -> ExprV {
        expr_view(*self)
    }
}

/// The mathematical view of a statement.
pub open spec fn stmt_view(s: Stmt) -> StmtV
    decreases s,
{
    match s {
        Stmt::Expr(e) => StmtV::Expr(expr_view(e)),
        Stmt::VarDecl(t, name, e) => StmtV::VarDecl(t, name@, expr_view(e)),
        Stmt::ForEach(b, e, body) => StmtV::ForEach(b@, expr_view(e), stmts_view(body@)),
        Stmt::While(e, body) => StmtV::While(expr_view(e), stmts_view(body@)),
        Stmt::If(e, then_body, else_body) => StmtV::If(
            expr_view(e),
            stmts_view(then_body@),
            match else_body {
                Option::Some(b) => Option::Some(stmts_view(b@)),
                Option::None => Option::None,
            },
        ),
        Stmt::Break => StmtV::Break,
        Stmt::Block(body) => StmtV::Block(stmts_view(body@)),
    }
}

/// View of a statement sequence, element by element.
pub open spec fn stmts_view(ss: Seq<Stmt>) -> Seq<StmtV>
    decreases ss,
{
    if ss.len() == 0 {
        Seq::empty()
    } else {
        stmts_view(ss.drop_last()).push(stmt_view(ss.last()))
    }
}

impl View for Stmt {
    type V = StmtV;

    open spec fn view(&self) -> StmtV {
        stmt_view(*self)
    }
}

} // verus!
