//! The parser: consumes a token sequence through a lookahead-1 cursor and
//! builds a syntax tree, by recursive descent for statements and precedence
//! climbing for expressions.

use vstd::prelude::*;

use crate::ast::Condition;
use crate::ast::DeclType;
use crate::ast::Expr;
use crate::ast::ExprV;
use crate::ast::ForBinding;
use crate::ast::ForBindingV;
use crate::ast::Operator;
use crate::ast::Stmt;
use crate::ast::StmtV;
use crate::ast::condition_of;
use crate::ast::expr_view;
use crate::tokens::Loc;
use crate::tokens::Token;
use crate::tokens::TokenType;

verus! {

/// A parsing failure.
#[derive(Debug)]
pub enum ParseError {
    /// A required token was absent or of the wrong kind. `expected` is
    /// `Null` where no single kind was required, as at the start of an
    /// expression.
    UnexpectedToken { expected: TokenType, found: TokenType, loc: Loc },
    /// The token sequence ended where more input was required.
    UnexpectedEndOfInput,
    /// A declaration's initializer had the wrong literal shape; carries
    /// the offending expression.
    TypeMismatch { loc: Loc, declared: DeclType, found: Expr },
    /// A break statement stood outside every loop body.
    BreakOutsideLoop(Loc),
    /// A block opened at the carried position was never closed.
    UnterminatedBlock { loc: Loc },
}

/// Mathematical view of a parsing failure.
pub enum ParseErrorV {
    UnexpectedToken { expected: TokenType, found: TokenType, loc: Loc },
    UnexpectedEndOfInput,
    TypeMismatch { loc: Loc, declared: DeclType, found: ExprV },
    BreakOutsideLoop(Loc),
    UnterminatedBlock { loc: Loc },
}

impl View for ParseError {
    type V = ParseErrorV;

    open spec fn view(&self) -> ParseErrorV {
        match self {
            ParseError::UnexpectedToken { expected, found, loc } => ParseErrorV::UnexpectedToken {
                expected: *expected,
                found: *found,
                loc: *loc,
            },
            ParseError::UnexpectedEndOfInput => ParseErrorV::UnexpectedEndOfInput,
            ParseError::TypeMismatch { loc, declared, found } => ParseErrorV::TypeMismatch {
                loc: *loc,
                declared: *declared,
                found: expr_view(*found),
            },
            ParseError::BreakOutsideLoop(loc) => ParseErrorV::BreakOutsideLoop(*loc),
            ParseError::UnterminatedBlock { loc } => ParseErrorV::UnterminatedBlock { loc: *loc },
        }
    }
}

/// The value of a decimal digit string.
pub open spec fn digits_val(s: Seq<char>) -> int
    decreases s.len(),
{
    if s.len() == 0 {
        0
    } else {
        digits_val(s.drop_last()) * 10 + (s.last() as int - '0' as int)
    }
}

/// Whether every character of a text is an ASCII digit.
pub open spec fn all_digits(s: Seq<char>) -> bool {
    forall|i: int| 0 <= i < s.len() ==> crate::lexer::digit_char(#[trigger] s[i])
}

/// The integer a numeric literal's text denotes, when it is a non-empty
/// digit string whose value fits in an `i64`.
pub open spec fn int_of_digits(s: Seq<char>) -> Option<i64> {
    if s.len() > 0 && all_digits(s) && digits_val(s) <= i64::MAX {
        Option::Some(digits_val(s) as i64)
    } else {
        Option::None
    }
}

/// A digit string's value only grows as digits are appended.
proof fn lemma_digits_val_grows(s: Seq<char>)
    requires
        all_digits(s),
        s.len() > 0,
    ensures
        digits_val(s) >= digits_val(s.drop_last()),
        digits_val(s) >= 0,
    decreases s.len(),
{
    assert(crate::lexer::digit_char(s[s.len() - 1]));
    assert(s.last() as int - '0' as int >= 0);
    if s.len() > 1 {
        assert(all_digits(s.drop_last())) by {
            assert(forall|i: int|
                0 <= i < s.drop_last().len() ==> s.drop_last()[i] == #[trigger] s[i]);
        }
        lemma_digits_val_grows(s.drop_last());
        assert(digits_val(s.drop_last()) * 10 >= digits_val(s.drop_last())) by (nonlinear_arith)
            requires
                digits_val(s.drop_last()) >= 0,
        ;
    }
}

/// Reads the value of a numeric literal's digit text, or nothing when the
/// text is empty, holds a non-digit, or does not fit in an `i64`.
fn parse_int_text(s: &String) -> (r: Option<i64>)
    ensures
        r == int_of_digits(s@),
{
    let text = s.as_str();
    let n = text.unicode_len();
    if n == 0 {
        return None;
    }

    let mut v: i64 = 0;
    let mut i: usize = 0;
    while i < n
        invariant
            text@ == s@,
            n == text@.len(),
            0 < n,
            i <= n,
            all_digits(text@.subrange(0, i as int)),
            v == digits_val(text@.subrange(0, i as int)),
            v >= 0,
        decreases n - i,
    {
        let c = text.get_char(i);
        if !('0' <= c && c <= '9') {
            proof {
                assert(!crate::lexer::digit_char(text@[i as int]));
                assert(!all_digits(text@));
            }
            return None;
        }
        let d: i64 = (c as u32 as i64) - ('0' as u32 as i64);
        let ghost pre = text@.subrange(0, i as int);
        let ghost cur = text@.subrange(0, i + 1);
        proof {
            assert(cur.drop_last() =~= pre);
            assert(cur.last() == text@[i as int]);
            assert(all_digits(cur)) by {
                assert(forall|j: int| 0 <= j < i ==> cur[j] == #[trigger] pre[j]);
            }
        }
        let step = match v.checked_mul(10) {
            Some(m) => m.checked_add(d),
            None => None,
        };
        match step {
            Some(nv) => {
                v = nv;
            },
            None => {
                // The value has outgrown an i64 and can only keep growing.
                proof {
                    assert(digits_val(cur) > i64::MAX);
                    if all_digits(text@) {
                        lemma_digits_prefix_overflow(text@, i + 1);
                    }
                }
                return None;
            },
        }
        i = i + 1;
    }
    proof {
        assert(text@.subrange(0, n as int) =~= text@);
    }
    Some(v)
}

/// Once a digit prefix's value exceeds `i64::MAX`, the whole string's does.
proof fn lemma_digits_prefix_overflow(s: Seq<char>, k: int)
    requires
        0 < k <= s.len(),
        all_digits(s),
        digits_val(s.subrange(0, k)) > i64::MAX,
    ensures
        digits_val(s) > i64::MAX,
    decreases s.len() - k,
{
    if k < s.len() {
        let a = s.subrange(0, k);
        let b = s.subrange(0, k + 1);
        assert(b.drop_last() =~= a);
        assert(all_digits(a)) by {
            assert(forall|i: int| 0 <= i < k ==> a[i] == #[trigger] s[i]);
        }
        lemma_digits_val_grows(a);
        assert(digits_val(b) == digits_val(a) * 10 + (b.last() as int - '0' as int));
        assert(digits_val(a) * 10 >= digits_val(a)) by (nonlinear_arith)
            requires
                digits_val(a) >= 0,
        ;
        assert(crate::lexer::digit_char(s[k]));
        lemma_digits_prefix_overflow(s, k + 1);
    } else {
        assert(s.subrange(0, k) =~= s);
    }
}

/// A parser, for building a syntax tree from tokens.
#[derive(Debug)]
pub struct Parser {
    /// The token sequence being parsed.
    pub tokens: Vec<Token>,
    /// The cursor: index of the next token to consume.
    pub pos: usize,
    /// How many loop bodies enclose the position being parsed.
    pub loop_depth: usize,
}

impl Parser {
    /// The cursor never leaves the token sequence, the loop-nesting depth
    /// never outruns the cursor, and the sequence leaves index headroom.
    pub open spec fn wf(&self) -> bool {
        &&& self.pos <= self.tokens.len()
        &&& self.loop_depth <= self.pos
        &&& self.tokens.len() < usize::MAX
    }

    /// The kind of the token at the cursor, if any.
    pub open spec fn peek_typ(&self) -> Option<TokenType> {
        if self.pos < self.tokens.len() {
            Option::Some(self.tokens[self.pos as int].typ)
        } else {
            Option::None
        }
    }

    /// A parser over the given tokens, at their start, outside any loop.
    pub fn new(tokens: Vec<Token>) -> (r: Self)
        requires
            tokens@.len() < usize::MAX,
        ensures
            r.tokens == tokens,
            r.pos == 0,
            r.loop_depth == 0,
            r.wf(),
    {
        Self { tokens, pos: 0, loop_depth: 0 }
    }

    /// Consumes and returns the token at the cursor, or nothing at the end.
    pub fn next(&mut self) -> (r: Option<Token>)
        requires
            old(self).wf(),
        ensures
            final(self).wf(),
            final(self).tokens == old(self).tokens,
            final(self).loop_depth == old(self).loop_depth,
            old(self).pos < old(self).tokens.len() ==> {
                &&& final(self).pos == old(self).pos + 1
                &&& r is Some
                &&& r->0@ == old(self).tokens[old(self).pos as int]@
            },
            old(self).pos >= old(self).tokens.len() ==> final(self).pos == old(self).pos && r
                is None,
    {
        if self.pos < self.tokens.len() {
            let t = self.tokens[self.pos].clone();
            self.pos = self.pos + 1;
            Some(t)
        } else {
            None
        }
    }

    /// The token at the cursor, without consuming it.
    pub fn peek(&self) -> (r: Option<&Token>)
        ensures
            self.pos < self.tokens.len() ==> r is Some && r->0 == &self.tokens[self.pos as int],
            self.pos >= self.tokens.len() ==> r is None,
    {
        if self.pos < self.tokens.len() {
            Some(&self.tokens[self.pos])
        } else {
            None
        }
    }

    /// Expects a particular token type next and consumes it.
    ///
    /// Fails exactly when the sequence has ended (`UnexpectedEndOfInput`)
    /// or the next token's kind differs (`UnexpectedToken`).
    pub fn expect(&mut self, typ: TokenType) -> (r: Result<(), ParseError>)
        requires
            old(self).wf(),
        ensures
            final(self).wf(),
            final(self).tokens == old(self).tokens,
            final(self).loop_depth == old(self).loop_depth,
            r is Ok <==> (old(self).pos < old(self).tokens.len() && old(self).tokens[old(self).pos as int].typ == typ),
            r is Ok ==> final(self).pos == old(self).pos + 1,
            final(self).pos >= old(self).pos,
            final(self).pos <= old(self).pos + 1,
            r is Err ==> r->Err_0@ == (sp_expect(
                old(self).tokens@,
                old(self).pos as int,
                typ,
            ))->Err_0,
            old(self).pos >= old(self).tokens.len() ==> (r matches Result::Err(
                ParseError::UnexpectedEndOfInput,
            ) && final(self).pos == old(self).pos),
            old(self).pos < old(self).tokens.len() ==> final(self).pos == old(self).pos + 1,
            old(self).pos < old(self).tokens.len() && old(self).tokens[old(self).pos as int].typ
                != typ ==> (r matches Result::Err(
                ParseError::UnexpectedToken { expected, found, loc },
            ) && expected == typ && found == old(self).tokens[old(self).pos as int].typ && loc
                == old(self).tokens[old(self).pos as int].loc),
    {
        let next = self.next();

        match next {
            None => Err(ParseError::UnexpectedEndOfInput),
            Some(token) => {
                if token.typ != typ {
                    Err(
                        ParseError::UnexpectedToken {
                            expected: typ,
                            found: token.typ,
                            loc: token.loc,
                        },
                    )
                } else {
                    Ok(())
                }
            },
        }
    }

    /// The token `k` places past the cursor, without consuming anything.
    pub fn peek_ahead(&self, k: usize) -> (r: Option<&Token>)
        requires
            self.wf(),
        ensures
            self.pos + k < self.tokens.len() ==> r is Some && r->0 == &self.tokens[self.pos + k],
            self.pos + k >= self.tokens.len() ==> r is None,
    {
        if self.tokens.len() - self.pos > k {
            Some(&self.tokens[self.pos + k])
        } else {
            None
        }
    }
}

/// The binary operator a token kind stands for at the term level.
pub open spec fn term_op(typ: TokenType) -> Option<Operator> {
    match typ {
        TokenType::Star => Option::Some(Operator::Mult),
        TokenType::Slash => Option::Some(Operator::Div),
        TokenType::StarEq => Option::Some(Operator::MultBy),
        TokenType::SlashEq => Option::Some(Operator::DivBy),
        TokenType::PlusEq => Option::Some(Operator::IncrementBy),
        TokenType::MinusEq => Option::Some(Operator::DecrementBy),
        TokenType::Dot => Option::Some(Operator::Dot),
        _ => Option::None,
    }
}

/// The postfix operator a token kind stands for at the term level.
pub open spec fn postfix_op(typ: TokenType) -> Option<Operator> {
    match typ {
        TokenType::PlusPlus => Option::Some(Operator::Increment),
        TokenType::MinusMinus => Option::Some(Operator::Decrement),
        _ => Option::None,
    }
}

/// Whether the cursor of `ts` at `p` stands on the three tokens of a
/// break statement: `@`, `!`, `;`.
pub open spec fn at_break(ts: Seq<Token>, p: int) -> bool {
    &&& p + 2 < ts.len()
    &&& ts[p].typ == TokenType::At
    &&& ts[p + 1].typ == TokenType::Exclamation
    &&& ts[p + 2].typ == TokenType::Semi
}

/// The declared type a type-keyword identifier's text stands for, if any.
pub open spec fn decl_type_of(s: Seq<char>) -> Option<DeclType> {
    if s == "int"@ {
        Option::Some(DeclType::Int)
    } else if s == "float"@ {
        Option::Some(DeclType::Float)
    } else if s == "string"@ {
        Option::Some(DeclType::Str)
    } else if s == "array"@ {
        Option::Some(DeclType::Array)
    } else if s == "mapping"@ {
        Option::Some(DeclType::Mapping)
    } else {
        Option::None
    }
}

/// Whether a literal expression matches a declared type's required shape.
/// Only `int`, `float` and `string` constrain their initializer.
pub open spec fn shape_matches(t: DeclType, e: crate::ast::ExprV) -> bool {
    match t {
        DeclType::Int => e is Int,
        DeclType::Float => e is Float,
        DeclType::Str => e is Str,
        DeclType::Array => true,
        DeclType::Mapping => true,
    }
}

/// What expecting a token type at a cursor yields: the cursor past it, or
/// the failure `Parser::expect` reports.
pub open spec fn sp_expect(ts: Seq<Token>, p: int, typ: TokenType) -> Result<int, ParseErrorV> {
    if p >= ts.len() {
        Result::Err(ParseErrorV::UnexpectedEndOfInput)
    } else if ts[p].typ != typ {
        Result::Err(
            ParseErrorV::UnexpectedToken { expected: typ, found: ts[p].typ, loc: ts[p].loc },
        )
    } else {
        Result::Ok(p + 1)
    }
}

/// A cursor clamped into `[lo, hi]`. The recursions of the parse model
/// step to the cursor a sub-parse returned; this guard keeps the model
/// well-founded on every ghost input, and the verified functions show it
/// never fires on a real parse (a successful sub-parse always lands
/// between those bounds).
pub open spec fn clamped(lo: int, q: int, hi: int) -> int {
    let capped = if q < hi {
        q
    } else {
        hi
    };
    if capped < lo {
        lo
    } else {
        capped
    }
}

/// What parsing a terminal node yields: literals and bare identifiers by
/// one token, calls, unary minus and parenthesized sub-expressions by
/// recursion, everything else the failure `parse_primary` reports.
pub open spec fn sp_primary(ts: Seq<Token>, p: int) -> Result<(ExprV, int), ParseErrorV>
    decreases ts.len() - p, 0int,
{
    if p >= ts.len() {
        Result::Err(ParseErrorV::UnexpectedEndOfInput)
    } else {
        let t = ts[p];
        match t.typ {
            TokenType::NumLiteral(frac) => {
                if frac {
                    Result::Ok((ExprV::Float(t.value@), p + 1))
                } else {
                    match int_of_digits(t.value@) {
                        Option::Some(v) => Result::Ok((ExprV::Int(v), p + 1)),
                        Option::None => Result::Err(
                            ParseErrorV::UnexpectedToken {
                                expected: TokenType::NumLiteral(false),
                                found: TokenType::NumLiteral(false),
                                loc: t.loc,
                            },
                        ),
                    }
                }
            },
            TokenType::StrLiteral => Result::Ok((ExprV::Str(t.value@), p + 1)),
            TokenType::LParen => match sp_expr(ts, p + 1) {
                Result::Err(e) => Result::Err(e),
                Result::Ok((inner, p1)) => match sp_expect(ts, p1, TokenType::RParen) {
                    Result::Err(e) => Result::Err(e),
                    Result::Ok(p2) => Result::Ok((ExprV::Paren(Box::new(inner)), p2)),
                },
            },
            TokenType::Ident => {
                if p + 1 < ts.len() && ts[p + 1].typ == TokenType::LParen {
                    match sp_expr(ts, p + 2) {
                        Result::Err(e) => Result::Err(e),
                        Result::Ok((arg, p1)) => match sp_expect(ts, p1, TokenType::RParen) {
                            Result::Err(e) => Result::Err(e),
                            Result::Ok(p2) => Result::Ok(
                                (
                                    ExprV::Call(
                                        Box::new(ExprV::Ident(t.value@)),
                                        Box::new(arg),
                                    ),
                                    p2,
                                ),
                            ),
                        },
                    }
                } else {
                    Result::Ok((ExprV::Ident(t.value@), p + 1))
                }
            },
            TokenType::Minus => match sp_factor(ts, p + 1) {
                Result::Err(e) => Result::Err(e),
                Result::Ok((inner, p1)) => Result::Ok(
                    (ExprV::Unary(Operator::Subtract, Box::new(inner)), p1),
                ),
            },
            _ => Result::Err(
                ParseErrorV::UnexpectedToken {
                    expected: TokenType::Null,
                    found: t.typ,
                    loc: t.loc,
                },
            ),
        }
    }
}

/// What parsing a factor yields: a terminal, and `**` joins it
/// right-associatively to the factor after it.
pub open spec fn sp_factor(ts: Seq<Token>, p: int) -> Result<(ExprV, int), ParseErrorV>
    decreases ts.len() - p, 1int,
{
    match sp_primary(ts, p) {
        Result::Err(e) => Result::Err(e),
        Result::Ok((e, p1)) => {
            if p < ts.len() && p1 < ts.len() && ts[p1].typ == TokenType::StarStar {
                match sp_factor(ts, clamped(p + 1, p1 + 1, ts.len() as int)) {
                    Result::Err(e2) => Result::Err(e2),
                    Result::Ok((rhs, p2)) => Result::Ok(
                        (ExprV::Binary(Operator::Pow, Box::new(e), Box::new(rhs)), p2),
                    ),
                }
            } else {
                Result::Ok((e, p1))
            }
        },
    }
}

/// What extending an expression with term-level operators yields: the
/// postfix `++`/`--` wrap it, the term binaries join it left to right to
/// the factor after each, and the first token with neither mapping
/// terminates the level, unconsumed.
pub open spec fn sp_term_rest(ts: Seq<Token>, p: int, e: ExprV) -> Result<
    (ExprV, int),
    ParseErrorV,
>
    decreases ts.len() - p, 0int,
{
    if p >= ts.len() {
        Result::Ok((e, p))
    } else {
        let ty = ts[p].typ;
        match postfix_op(ty) {
            Option::Some(op) => sp_term_rest(ts, p + 1, ExprV::Unary(op, Box::new(e))),
            Option::None => match term_op(ty) {
                Option::Some(op) => match sp_factor(ts, p + 1) {
                    Result::Err(e2) => Result::Err(e2),
                    Result::Ok((rhs, p2)) => sp_term_rest(
                        ts,
                        clamped(p + 1, p2, ts.len() as int),
                        ExprV::Binary(op, Box::new(e), Box::new(rhs)),
                    ),
                },
                Option::None => Result::Ok((e, p)),
            },
        }
    }
}

/// What parsing a term yields: a factor extended by the term level.
pub open spec fn sp_term(ts: Seq<Token>, p: int) -> Result<(ExprV, int), ParseErrorV>
    decreases ts.len() - p, 2int,
{
    match sp_factor(ts, p) {
        Result::Err(e) => Result::Err(e),
        Result::Ok((e, p1)) => sp_term_rest(ts, clamped(p, p1, ts.len() as int), e),
    }
}

/// What extending an expression with `+` and `-` yields: terms joined
/// left to right; any other token terminates the level, unconsumed.
pub open spec fn sp_additive_rest(ts: Seq<Token>, p: int, e: ExprV) -> Result<
    (ExprV, int),
    ParseErrorV,
>
    decreases ts.len() - p, 0int,
{
    if p >= ts.len() {
        Result::Ok((e, p))
    } else {
        let ty = ts[p].typ;
        if ty == TokenType::Plus {
            match sp_term(ts, p + 1) {
                Result::Err(e2) => Result::Err(e2),
                Result::Ok((rhs, p2)) => sp_additive_rest(
                    ts,
                    clamped(p + 1, p2, ts.len() as int),
                    ExprV::Binary(Operator::Add, Box::new(e), Box::new(rhs)),
                ),
            }
        } else if ty == TokenType::Minus {
            match sp_term(ts, p + 1) {
                Result::Err(e2) => Result::Err(e2),
                Result::Ok((rhs, p2)) => sp_additive_rest(
                    ts,
                    clamped(p + 1, p2, ts.len() as int),
                    ExprV::Binary(Operator::Subtract, Box::new(e), Box::new(rhs)),
                ),
            }
        } else {
            Result::Ok((e, p))
        }
    }
}

/// What parsing an additive chain yields: a term extended by `+`/`-`.
pub open spec fn sp_additive(ts: Seq<Token>, p: int) -> Result<(ExprV, int), ParseErrorV>
    decreases ts.len() - p, 3int,
{
    match sp_term(ts, p) {
        Result::Err(e) => Result::Err(e),
        Result::Ok((e, p1)) => sp_additive_rest(ts, clamped(p, p1, ts.len() as int), e),
    }
}

/// What parsing an expression yields: an additive chain, optionally
/// joined to a second one by `->`/`=>` into a range or by a comparison
/// operator into a conditional test; any other following token leaves
/// the chain as it is, unconsumed.
pub open spec fn sp_expr(ts: Seq<Token>, p: int) -> Result<(ExprV, int), ParseErrorV>
    decreases ts.len() - p, 4int,
{
    match sp_additive(ts, p) {
        Result::Err(e) => Result::Err(e),
        Result::Ok((a, p1)) => {
            if p1 >= ts.len() {
                Result::Ok((a, p1))
            } else {
                let ty = ts[p1].typ;
                if ty == TokenType::SmallRArrow {
                    match sp_additive(ts, clamped(p, p1 + 1, ts.len() as int)) {
                        Result::Err(e) => Result::Err(e),
                        Result::Ok((b, p2)) => Result::Ok(
                            (ExprV::Range(false, Box::new(a), Box::new(b)), p2),
                        ),
                    }
                } else if ty == TokenType::LargeRArrow {
                    match sp_additive(ts, clamped(p, p1 + 1, ts.len() as int)) {
                        Result::Err(e) => Result::Err(e),
                        Result::Ok((b, p2)) => Result::Ok(
                            (ExprV::Range(true, Box::new(a), Box::new(b)), p2),
                        ),
                    }
                } else {
                    match condition_of(ty) {
                        Option::Some(c) => match sp_additive(ts, clamped(p, p1 + 1, ts.len() as int)) {
                            Result::Err(e) => Result::Err(e),
                            Result::Ok((b, p2)) => Result::Ok(
                                (ExprV::Cond(c, Box::new(a), Box::new(b)), p2),
                            ),
                        },
                        Option::None => Result::Ok((a, p1)),
                    }
                }
            }
        },
    }
}

/// What parsing a for-each binding yields: `->` and a name, or `=>` and
/// a parenthesized name pair, or the failure `parse_for_binding` reports.
pub open spec fn sp_for_binding(ts: Seq<Token>, p: int) -> Result<(ForBindingV, int), ParseErrorV> {
    if p >= ts.len() {
        Result::Err(ParseErrorV::UnexpectedEndOfInput)
    } else if ts[p].typ == TokenType::SmallRArrow {
        if p + 1 >= ts.len() {
            Result::Err(ParseErrorV::UnexpectedEndOfInput)
        } else if ts[p + 1].typ != TokenType::Ident {
            Result::Err(
                ParseErrorV::UnexpectedToken {
                    expected: TokenType::Ident,
                    found: ts[p + 1].typ,
                    loc: ts[p + 1].loc,
                },
            )
        } else {
            Result::Ok((ForBindingV::Single(ts[p + 1].value@), p + 2))
        }
    } else if ts[p].typ == TokenType::LargeRArrow {
        match sp_expect(ts, p + 1, TokenType::LParen) {
            Result::Err(e) => Result::Err(e),
            Result::Ok(p2) => {
                if p2 >= ts.len() {
                    Result::Err(ParseErrorV::UnexpectedEndOfInput)
                } else if ts[p2].typ != TokenType::Ident {
                    Result::Err(
                        ParseErrorV::UnexpectedToken {
                            expected: TokenType::Ident,
                            found: ts[p2].typ,
                            loc: ts[p2].loc,
                        },
                    )
                } else {
                    match sp_expect(ts, p2 + 1, TokenType::Comma) {
                        Result::Err(e) => Result::Err(e),
                        Result::Ok(p3) => {
                            if p3 >= ts.len() {
                                Result::Err(ParseErrorV::UnexpectedEndOfInput)
                            } else if ts[p3].typ != TokenType::Ident {
                                Result::Err(
                                    ParseErrorV::UnexpectedToken {
                                        expected: TokenType::Ident,
                                        found: ts[p3].typ,
                                        loc: ts[p3].loc,
                                    },
                                )
                            } else {
                                match sp_expect(ts, p3 + 1, TokenType::RParen) {
                                    Result::Err(e) => Result::Err(e),
                                    Result::Ok(p4) => Result::Ok(
                                        (
                                            ForBindingV::Pair(
                                                ts[p2].value@,
                                                ts[p3].value@,
                                            ),
                                            p4,
                                        ),
                                    ),
                                }
                            }
                        },
                    }
                }
            },
        }
    } else {
        Result::Err(
            ParseErrorV::UnexpectedToken {
                expected: TokenType::SmallRArrow,
                found: ts[p].typ,
                loc: ts[p].loc,
            },
        )
    }
}

/// What parsing the statements of a block opened at `open_loc` yields:
/// the statements before the closing brace, appended to `acc`, with the
/// cursor resting on that brace; the unterminated-block failure at the
/// opening location when the sequence or the program ends first.
pub open spec fn sp_block_items(
    ts: Seq<Token>,
    p: int,
    depth: int,
    open_loc: Loc,
    acc: Seq<StmtV>,
) -> Result<(Seq<StmtV>, int), ParseErrorV>
    decreases ts.len() - p, 8int,
{
    if p >= ts.len() {
        Result::Err(ParseErrorV::UnterminatedBlock { loc: open_loc })
    } else if ts[p].typ == TokenType::RBrace {
        Result::Ok((acc, p))
    } else if ts[p].typ == TokenType::Eof {
        Result::Err(ParseErrorV::UnterminatedBlock { loc: open_loc })
    } else {
        match sp_statement(ts, p, depth) {
            Result::Err(e) => Result::Err(e),
            Result::Ok((s, p1)) => sp_block_items(
                ts,
                clamped(p + 1, p1, ts.len() as int),
                depth,
                open_loc,
                acc.push(s),
            ),
        }
    }
}

/// What parsing a brace-delimited block yields: `{`, the statements, and
/// the matching `}`, with the cursor past it.
pub open spec fn sp_braced_block(ts: Seq<Token>, p: int, depth: int) -> Result<
    (Seq<StmtV>, int),
    ParseErrorV,
>
    decreases ts.len() - p, 5int,
{
    if p >= ts.len() {
        Result::Err(ParseErrorV::UnexpectedEndOfInput)
    } else {
        match sp_expect(ts, p, TokenType::LBrace) {
            Result::Err(e) => Result::Err(e),
            Result::Ok(p1) => match sp_block_items(ts, p + 1, depth, ts[p].loc, Seq::empty()) {
                Result::Err(e) => Result::Err(e),
                Result::Ok((ss, p2)) => match sp_expect(ts, p2, TokenType::RBrace) {
                    Result::Err(e) => Result::Err(e),
                    Result::Ok(p3) => Result::Ok((ss, p3)),
                },
            },
        }
    }
}

/// What parsing one statement yields, by its leading tokens: a nested
/// block; a break (`@ !` and `;`, legal only at positive loop depth) or
/// a while-true loop (`@ -> true !` and a body at raised depth); else a
/// declaration, reassignment, for-each loop, if branch or expression
/// statement.
pub open spec fn sp_statement(ts: Seq<Token>, p: int, depth: int) -> Result<
    (StmtV, int),
    ParseErrorV,
>
    decreases ts.len() - p, 7int,
{
    if p >= ts.len() {
        Result::Err(ParseErrorV::UnexpectedEndOfInput)
    } else if ts[p].typ == TokenType::LBrace {
        match sp_braced_block(ts, p, depth) {
            Result::Err(e) => Result::Err(e),
            Result::Ok((ss, p1)) => Result::Ok((StmtV::Block(ss), p1)),
        }
    } else if ts[p].typ == TokenType::At {
        if p + 1 >= ts.len() {
            Result::Err(ParseErrorV::UnexpectedEndOfInput)
        } else if ts[p + 1].typ == TokenType::Exclamation {
            match sp_expect(ts, p + 2, TokenType::Semi) {
                Result::Err(e) => Result::Err(e),
                Result::Ok(p3) => {
                    if depth == 0 {
                        Result::Err(ParseErrorV::BreakOutsideLoop(ts[p].loc))
                    } else {
                        Result::Ok((StmtV::Break, p3))
                    }
                },
            }
        } else if ts[p + 1].typ == TokenType::SmallRArrow {
            if p + 2 >= ts.len() {
                Result::Err(ParseErrorV::UnexpectedEndOfInput)
            } else if ts[p + 2].typ != TokenType::Ident {
                Result::Err(
                    ParseErrorV::UnexpectedToken {
                        expected: TokenType::Ident,
                        found: ts[p + 2].typ,
                        loc: ts[p + 2].loc,
                    },
                )
            } else if ts[p + 2].value@ != "true"@ {
                Result::Err(
                    ParseErrorV::UnexpectedToken {
                        expected: TokenType::Ident,
                        found: ts[p + 2].typ,
                        loc: ts[p + 2].loc,
                    },
                )
            } else {
                match sp_expect(ts, p + 3, TokenType::Exclamation) {
                    Result::Err(e) => Result::Err(e),
                    Result::Ok(p4) => match sp_braced_block(ts, p4, depth + 1) {
                        Result::Err(e) => Result::Err(e),
                        Result::Ok((body, p5)) => Result::Ok(
                            (StmtV::While(ExprV::Ident(ts[p + 2].value@), body), p5),
                        ),
                    },
                }
            }
        } else {
            Result::Err(
                ParseErrorV::UnexpectedToken {
                    expected: TokenType::SmallRArrow,
                    found: ts[p + 1].typ,
                    loc: ts[p].loc,
                },
            )
        }
    } else {
        sp_simple_statement(ts, p, depth)
    }
}

/// Whether the cursor stands on a variable declaration's three leading
/// tokens: a type-keyword identifier, a name, and `=`.
pub open spec fn at_decl(ts: Seq<Token>, p: int) -> bool {
    &&& p < ts.len()
    &&& ts[p].typ == TokenType::Ident
    &&& decl_type_of(ts[p].value@) is Some
    &&& p + 1 < ts.len()
    &&& ts[p + 1].typ == TokenType::Ident
    &&& p + 2 < ts.len()
    &&& ts[p + 2].typ == TokenType::Eq
}

/// What parsing a statement led by an expression or declaration yields:
/// a declaration (shape-checked against its declared type), a
/// reassignment, a for-each loop over the expression, an if branch with
/// an optional `!->` else branch, or an expression statement closed by
/// `;`.
pub open spec fn sp_simple_statement(ts: Seq<Token>, p: int, depth: int) -> Result<
    (StmtV, int),
    ParseErrorV,
>
    decreases ts.len() - p, 6int,
{
    if at_decl(ts, p) {
        let dt = decl_type_of(ts[p].value@)->0;
        let init_loc = if p + 3 < ts.len() {
            ts[p + 3].loc
        } else {
            Loc { line: 1, col: 1 }
        };
        match sp_expr(ts, p + 3) {
            Result::Err(e) => Result::Err(e),
            Result::Ok((init, p1)) => match sp_expect(ts, p1, TokenType::Semi) {
                Result::Err(e) => Result::Err(e),
                Result::Ok(p2) => {
                    if !shape_matches(dt, init) {
                        Result::Err(
                            ParseErrorV::TypeMismatch { loc: init_loc, declared: dt, found: init },
                        )
                    } else {
                        Result::Ok((StmtV::VarDecl(dt, ts[p + 1].value@, init), p2))
                    }
                },
            },
        }
    } else if p < ts.len() && ts[p].typ == TokenType::Ident && p + 1 < ts.len() && ts[p + 1].typ
        == TokenType::Eq {
        match sp_expr(ts, p + 2) {
            Result::Err(e) => Result::Err(e),
            Result::Ok((value, p1)) => match sp_expect(ts, p1, TokenType::Semi) {
                Result::Err(e) => Result::Err(e),
                Result::Ok(p2) => Result::Ok(
                    (StmtV::Expr(ExprV::Assign(ts[p].value@, Box::new(value))), p2),
                ),
            },
        }
    } else {
        match sp_expr(ts, p) {
            Result::Err(e) => Result::Err(e),
            Result::Ok((e, p1)) => {
                if p1 < ts.len() && ts[p1].typ == TokenType::At {
                    match sp_for_binding(ts, p1 + 1) {
                        Result::Err(e2) => Result::Err(e2),
                        Result::Ok((b, p2)) => match sp_braced_block(
                            ts,
                            clamped(p, p2, ts.len() as int),
                            depth + 1,
                        ) {
                            Result::Err(e2) => Result::Err(e2),
                            Result::Ok((body, p3)) => Result::Ok(
                                (StmtV::ForEach(b, e, body), p3),
                            ),
                        },
                    }
                } else if p1 < ts.len() && ts[p1].typ == TokenType::QuestionMark {
                    match sp_braced_block(ts, clamped(p, p1 + 1, ts.len() as int), depth) {
                        Result::Err(e2) => Result::Err(e2),
                        Result::Ok((then_body, p2)) => {
                            if p2 < ts.len() && ts[p2].typ == TokenType::Exclamation {
                                match sp_expect(ts, p2 + 1, TokenType::SmallRArrow) {
                                    Result::Err(e2) => Result::Err(e2),
                                    Result::Ok(p3) => match sp_braced_block(
                                        ts,
                                        clamped(p, p3, ts.len() as int),
                                        depth,
                                    ) {
                                        Result::Err(e2) => Result::Err(e2),
                                        Result::Ok((else_body, p4)) => Result::Ok(
                                            (
                                                StmtV::If(
                                                    e,
                                                    then_body,
                                                    Option::Some(else_body),
                                                ),
                                                p4,
                                            ),
                                        ),
                                    },
                                }
                            } else {
                                Result::Ok((StmtV::If(e, then_body, Option::None), p2))
                            }
                        },
                    }
                } else {
                    match sp_expect(ts, p1, TokenType::Semi) {
                        Result::Err(e2) => Result::Err(e2),
                        Result::Ok(p2) => Result::Ok((StmtV::Expr(e), p2)),
                    }
                }
            },
        }
    }
}

/// What parsing top-level statements yields: the statements before the
/// end-of-input token, appended to `acc`, with the cursor resting on it.
pub open spec fn sp_program_items(ts: Seq<Token>, p: int, depth: int, acc: Seq<StmtV>) -> Result<
    (Seq<StmtV>, int),
    ParseErrorV,
>
    decreases ts.len() - p, 9int,
{
    if p >= ts.len() {
        Result::Err(ParseErrorV::UnexpectedEndOfInput)
    } else if ts[p].typ == TokenType::Eof {
        Result::Ok((acc, p))
    } else {
        match sp_statement(ts, p, depth) {
            Result::Err(e) => Result::Err(e),
            Result::Ok((s, p1)) => sp_program_items(
                ts,
                clamped(p + 1, p1, ts.len() as int),
                depth,
                acc.push(s),
            ),
        }
    }
}

/// What parsing a whole token sequence yields: the program as a block of
/// its top-level statements, with the end-of-input token consumed last,
/// or the first failure.
pub open spec fn sp_parse(ts: Seq<Token>, p: int, depth: int) -> Result<(StmtV, int), ParseErrorV>
    decreases ts.len() - p, 10int,
{
    match sp_program_items(ts, p, depth, Seq::empty()) {
        Result::Err(e) => Result::Err(e),
        Result::Ok((ss, p1)) => match sp_expect(ts, p1, TokenType::Eof) {
            Result::Err(e) => Result::Err(e),
            Result::Ok(p2) => Result::Ok((StmtV::Block(ss), p2)),
        },
    }
}

impl Parser {
    /// Parses a terminal node: a literal, an identifier or a call of one,
    /// a unary minus, or a parenthesized sub-expression.
    ///
    /// Fails on the end of input, on any other leading token kind, and on
    /// an integer literal whose value does not fit in an `i64`.
    pub fn parse_primary(&mut self) -> (r: Result<Expr, ParseError>)
        requires
            old(self).wf(),
        ensures
            final(self).wf(),
            final(self).tokens == old(self).tokens,
            final(self).loop_depth == old(self).loop_depth,
            final(self).pos >= old(self).pos,
            r is Ok ==> final(self).pos > old(self).pos,
            match sp_primary(old(self).tokens@, old(self).pos as int) {
                Result::Ok(o) => r is Ok && r->Ok_0@ == o.0 && final(self).pos == o.1,
                Result::Err(e) => r is Err && r->Err_0@ == e,
            },
        decreases old(self).tokens.len() - old(self).pos, 0int,
    {
        let next = match self.next() {
            None => {
                return Err(ParseError::UnexpectedEndOfInput);
            },
            Some(t) => t,
        };

        match next.typ {
            TokenType::NumLiteral(false) => match parse_int_text(&next.value) {
                Some(v) => Ok(Expr::Int(v)),
                None => Err(
                    // The digits do not denote a representable integer.
                    ParseError::UnexpectedToken {
                        expected: TokenType::NumLiteral(false),
                        found: TokenType::NumLiteral(false),
                        loc: next.loc,
                    },
                ),
            },
            TokenType::NumLiteral(true) => Ok(Expr::Float(next.value)),
            TokenType::StrLiteral => Ok(Expr::Str(next.value)),
            TokenType::LParen => {
                let expr = self.parse_expr()?;
                self.expect(TokenType::RParen)?;
                Ok(Expr::Paren(Box::new(expr)))
            },
            TokenType::Ident => {
                let is_call = match self.peek() {
                    Some(t) => t.typ == TokenType::LParen,
                    None => false,
                };
                if is_call {
                    let _ = self.next();
                    let arg = self.parse_expr()?;
                    self.expect(TokenType::RParen)?;
                    let ghost callee_text = next.value@;
                    let callee = Expr::Ident(next.value);
                    proof {
                        assert(callee@ == ExprV::Ident(callee_text));
                    }
                    Ok(Expr::Call(Box::new(callee), Box::new(arg)))
                } else {
                    Ok(Expr::Ident(next.value))
                }
            },
            TokenType::Minus => {
                let expr = self.parse_factor()?;
                Ok(Expr::Unary(Operator::Subtract, Box::new(expr)))
            },
            _ => Err(
                ParseError::UnexpectedToken {
                    expected: TokenType::Null,
                    found: next.typ,
                    loc: next.loc,
                },
            ),
        }
    }

    /// Parses a factor: a terminal, possibly raised to a power by the
    /// right-associative `**`.
    pub fn parse_factor(&mut self) -> (r: Result<Expr, ParseError>)
        requires
            old(self).wf(),
        ensures
            final(self).wf(),
            final(self).tokens == old(self).tokens,
            final(self).loop_depth == old(self).loop_depth,
            final(self).pos >= old(self).pos,
            r is Ok ==> final(self).pos > old(self).pos,
            match sp_factor(old(self).tokens@, old(self).pos as int) {
                Result::Ok(o) => r is Ok && r->Ok_0@ == o.0 && final(self).pos == o.1,
                Result::Err(e) => r is Err && r->Err_0@ == e,
            },
        decreases old(self).tokens.len() - old(self).pos, 1int,
    {
        let expr = self.parse_primary()?;

        let pow_next = match self.peek() {
            Some(t) => t.typ == TokenType::StarStar,
            None => false,
        };
        if pow_next {
            let _ = self.next();
            let right = self.parse_factor()?;
            return Ok(Expr::Binary(Operator::Pow, Box::new(expr), Box::new(right)));
        }

        Ok(expr)
    }

    /// Extends a parsed factor with term-level operators, left to right:
    /// the multiplicative and compound-assignment binaries, `.` access,
    /// and the postfix `++`/`--`.
    fn parse_term_rest(&mut self, expr: Expr) -> (r: Result<Expr, ParseError>)
        requires
            old(self).wf(),
        ensures
            final(self).wf(),
            final(self).tokens == old(self).tokens,
            final(self).loop_depth == old(self).loop_depth,
            final(self).pos >= old(self).pos,
            match sp_term_rest(old(self).tokens@, old(self).pos as int, expr@) {
                Result::Ok(o) => r is Ok && r->Ok_0@ == o.0 && final(self).pos == o.1,
                Result::Err(e) => r is Err && r->Err_0@ == e,
            },
        decreases old(self).tokens.len() - old(self).pos, 0int,
    {
        let next_typ = match self.peek() {
            Some(t) => t.typ,
            None => {
                return Ok(expr);
            },
        };

        match next_typ {
            TokenType::PlusPlus => {
                let _ = self.next();
                self.parse_term_rest(Expr::Unary(Operator::Increment, Box::new(expr)))
            },
            TokenType::MinusMinus => {
                let _ = self.next();
                self.parse_term_rest(Expr::Unary(Operator::Decrement, Box::new(expr)))
            },
            TokenType::Star | TokenType::Slash | TokenType::StarEq | TokenType::SlashEq
                | TokenType::PlusEq | TokenType::MinusEq | TokenType::Dot => {
                let op_token = match self.next() {
                    Some(t) => t,
                    None => {
                        return Ok(expr);
                    },
                };
                let operand = match Operator::try_from(&op_token) {
                    Ok(o) => o,
                    Err(_) => {
                        return Ok(expr);
                    },
                };
                let right = self.parse_factor()?;
                self.parse_term_rest(Expr::Binary(operand, Box::new(expr), Box::new(right)))
            },
            _ => Ok(expr),
        }
    }

    /// Parses a term: factors joined left-associatively by the
    /// term-level operators.
    pub fn parse_term(&mut self) -> (r: Result<Expr, ParseError>)
        requires
            old(self).wf(),
        ensures
            final(self).wf(),
            final(self).tokens == old(self).tokens,
            final(self).loop_depth == old(self).loop_depth,
            final(self).pos >= old(self).pos,
            r is Ok ==> final(self).pos > old(self).pos,
            match sp_term(old(self).tokens@, old(self).pos as int) {
                Result::Ok(o) => r is Ok && r->Ok_0@ == o.0 && final(self).pos == o.1,
                Result::Err(e) => r is Err && r->Err_0@ == e,
            },
        decreases old(self).tokens.len() - old(self).pos, 2int,
    {
        let expr = self.parse_factor()?;
        self.parse_term_rest(expr)
    }

    /// Extends a parsed term with `+` and `-`, left to right.
    fn parse_additive_rest(&mut self, expr: Expr) -> (r: Result<Expr, ParseError>)
        requires
            old(self).wf(),
        ensures
            final(self).wf(),
            final(self).tokens == old(self).tokens,
            final(self).loop_depth == old(self).loop_depth,
            final(self).pos >= old(self).pos,
            match sp_additive_rest(old(self).tokens@, old(self).pos as int, expr@) {
                Result::Ok(o) => r is Ok && r->Ok_0@ == o.0 && final(self).pos == o.1,
                Result::Err(e) => r is Err && r->Err_0@ == e,
            },
        decreases old(self).tokens.len() - old(self).pos, 0int,
    {
        let next_typ = match self.peek() {
            Some(t) => t.typ,
            None => {
                return Ok(expr);
            },
        };

        match next_typ {
            TokenType::Plus => {
                let _ = self.next();
                let right = self.parse_term()?;
                self.parse_additive_rest(Expr::Binary(Operator::Add, Box::new(expr), Box::new(right)))
            },
            TokenType::Minus => {
                let _ = self.next();
                let right = self.parse_term()?;
                self.parse_additive_rest(
                    Expr::Binary(Operator::Subtract, Box::new(expr), Box::new(right)),
                )
            },
            _ => Ok(expr),
        }
    }

    /// Parses terms joined left-associatively by the additive operators.
    fn parse_additive(&mut self) -> (r: Result<Expr, ParseError>)
        requires
            old(self).wf(),
        ensures
            final(self).wf(),
            final(self).tokens == old(self).tokens,
            final(self).loop_depth == old(self).loop_depth,
            final(self).pos >= old(self).pos,
            r is Ok ==> final(self).pos > old(self).pos,
            match sp_additive(old(self).tokens@, old(self).pos as int) {
                Result::Ok(o) => r is Ok && r->Ok_0@ == o.0 && final(self).pos == o.1,
                Result::Err(e) => r is Err && r->Err_0@ == e,
            },
        decreases old(self).tokens.len() - old(self).pos, 3int,
    {
        let expr = self.parse_term()?;
        self.parse_additive_rest(expr)
    }

    /// Parses an expression: an additive chain, optionally joined to a
    /// second one by a comparison operator into a conditional test, or by
    /// `->` / `=>` into an exclusive or inclusive range.
    #[verifier::rlimit(100)]
    #[verifier::spinoff_prover]
    pub fn parse_expr(&mut self) -> (r: Result<Expr, ParseError>)
        requires
            old(self).wf(),
        ensures
            final(self).wf(),
            final(self).tokens == old(self).tokens,
            final(self).loop_depth == old(self).loop_depth,
            final(self).pos >= old(self).pos,
            r is Ok ==> final(self).pos > old(self).pos,
            match sp_expr(old(self).tokens@, old(self).pos as int) {
                Result::Ok(o) => r is Ok && r->Ok_0@ == o.0 && final(self).pos == o.1,
                Result::Err(e) => r is Err && r->Err_0@ == e,
            },
        decreases old(self).tokens.len() - old(self).pos, 4int,
    {
        let expr = self.parse_additive()?;

        let next_typ = match self.peek() {
            Some(t) => t.typ,
            None => {
                return Ok(expr);
            },
        };

        match next_typ {
            TokenType::SmallRArrow => {
                let _ = self.next();
                let hi = self.parse_additive()?;
                Ok(Expr::Range(false, Box::new(expr), Box::new(hi)))
            },
            TokenType::LargeRArrow => {
                let _ = self.next();
                let hi = self.parse_additive()?;
                Ok(Expr::Range(true, Box::new(expr), Box::new(hi)))
            },
            TokenType::Lt | TokenType::Gt | TokenType::Lte | TokenType::Gte | TokenType::Ne
                | TokenType::EqEq => {
                let op_token = match self.next() {
                    Some(t) => t,
                    None => {
                        return Ok(expr);
                    },
                };
                let cond = match Condition::try_from(&op_token) {
                    Ok(c) => c,
                    Err(_) => {
                        return Ok(expr);
                    },
                };
                let right = self.parse_additive()?;
                Ok(Expr::Cond(cond, Box::new(expr), Box::new(right)))
            },
            _ => Ok(expr),
        }
    }

    /// Parses a brace-delimited loop body, with the loop-nesting depth
    /// raised around it so that break statements inside it are legal.
    fn parse_loop_body(&mut self) -> (r: Result<Vec<Stmt>, ParseError>)
        requires
            old(self).wf(),
            old(self).loop_depth < old(self).pos,
        ensures
            final(self).wf(),
            final(self).tokens == old(self).tokens,
            final(self).loop_depth == old(self).loop_depth,
            final(self).pos >= old(self).pos,
            r is Ok ==> final(self).pos > old(self).pos,
            match sp_braced_block(
                old(self).tokens@,
                old(self).pos as int,
                old(self).loop_depth + 1,
            ) {
                Result::Ok(o) => r is Ok && crate::ast::stmts_view(r->Ok_0@) == o.0 && final(self).pos == o.1,
                Result::Err(e) => r is Err && r->Err_0@ == e,
            },
        decreases old(self).tokens.len() - old(self).pos, 6int,
    {
        self.loop_depth = self.loop_depth + 1;
        let r = self.parse_braced_block();
        self.loop_depth = self.loop_depth - 1;
        r
    }

    /// Parses statements up to the closing brace of a block opened at
    /// `open_loc`, appending them to `stmts`.
    ///
    /// Fails with `UnterminatedBlock` at the opening location when the
    /// sequence or the program ends before the closing brace.
    #[verifier::rlimit(100)]
    #[verifier::spinoff_prover]
    fn parse_block_items(&mut self, stmts: &mut Vec<Stmt>, open_loc: Loc) -> (r: Result<
        (),
        ParseError,
    >)
        requires
            old(self).wf(),
        ensures
            final(self).wf(),
            final(self).tokens == old(self).tokens,
            final(self).loop_depth == old(self).loop_depth,
            final(self).pos >= old(self).pos,
            r is Ok ==> final(self).peek_typ() == Option::Some(TokenType::RBrace),
            match sp_block_items(
                old(self).tokens@,
                old(self).pos as int,
                old(self).loop_depth as int,
                open_loc,
                crate::ast::stmts_view(old(stmts)@),
            ) {
                Result::Ok(o) => r is Ok && crate::ast::stmts_view(final(stmts)@) == o.0 && final(self).pos == o.1,
                Result::Err(e) => r is Err && r->Err_0@ == e,
            },
        decreases old(self).tokens.len() - old(self).pos, 8int,
    {
        let next_typ = match self.peek() {
            None => {
                return Err(ParseError::UnterminatedBlock { loc: open_loc });
            },
            Some(t) => t.typ,
        };

        match next_typ {
            TokenType::RBrace => Ok(()),
            TokenType::Eof => Err(ParseError::UnterminatedBlock { loc: open_loc }),
            _ => {
                let stmt = self.parse_statement()?;
                let ghost prev = stmts@;
                stmts.push(stmt);
                proof {
                    assert(stmts@.drop_last() =~= prev);
                    assert(crate::ast::stmts_view(stmts@) == crate::ast::stmts_view(prev).push(
                        stmts@.last()@,
                    ));
                }
                self.parse_block_items(stmts, open_loc)
            },
        }
    }

    /// Parses a brace-delimited block: `{`, an ordered sequence of
    /// statements, and the matching `}`.
    ///
    /// Fails with `UnterminatedBlock`, reported at the opening brace, when
    /// the block is never closed.
    pub fn parse_braced_block(&mut self) -> (r: Result<Vec<Stmt>, ParseError>)
        requires
            old(self).wf(),
        ensures
            final(self).wf(),
            final(self).tokens == old(self).tokens,
            final(self).loop_depth == old(self).loop_depth,
            final(self).pos >= old(self).pos,
            r is Ok ==> final(self).pos > old(self).pos,
            match sp_braced_block(
                old(self).tokens@,
                old(self).pos as int,
                old(self).loop_depth as int,
            ) {
                Result::Ok(o) => r is Ok && crate::ast::stmts_view(r->Ok_0@) == o.0 && final(self).pos == o.1,
                Result::Err(e) => r is Err && r->Err_0@ == e,
            },
        decreases old(self).tokens.len() - old(self).pos, 5int,
    {
        let open_loc = match self.peek() {
            Some(t) => t.loc,
            None => {
                return Err(ParseError::UnexpectedEndOfInput);
            },
        };
        self.expect(TokenType::LBrace)?;

        let mut stmts: Vec<Stmt> = Vec::new();
        self.parse_block_items(&mut stmts, open_loc)?;
        self.expect(TokenType::RBrace)?;
        Ok(stmts)
    }

    /// Parses the for-each binding after the `@` of a loop qualifier:
    /// `->` and a name, or `=>` and a parenthesized name pair.
    fn parse_for_binding(&mut self) -> (r: Result<ForBinding, ParseError>)
        requires
            old(self).wf(),
        ensures
            final(self).wf(),
            final(self).tokens == old(self).tokens,
            final(self).loop_depth == old(self).loop_depth,
            final(self).pos >= old(self).pos,
            r is Ok ==> final(self).pos > old(self).pos,
            match sp_for_binding(old(self).tokens@, old(self).pos as int) {
                Result::Ok(o) => r is Ok && r->Ok_0@ == o.0 && final(self).pos == o.1,
                Result::Err(e) => r is Err && r->Err_0@ == e,
            },
        decreases old(self).tokens.len() - old(self).pos, 5int,
    {
        let arrow = match self.next() {
            None => {
                return Err(ParseError::UnexpectedEndOfInput);
            },
            Some(t) => t,
        };

        match arrow.typ {
            TokenType::SmallRArrow => {
                let name = match self.next() {
                    None => {
                        return Err(ParseError::UnexpectedEndOfInput);
                    },
                    Some(t) => t,
                };
                if name.typ != TokenType::Ident {
                    return Err(
                        ParseError::UnexpectedToken {
                            expected: TokenType::Ident,
                            found: name.typ,
                            loc: name.loc,
                        },
                    );
                }
                Ok(ForBinding::Single(name.value))
            },
            TokenType::LargeRArrow => {
                self.expect(TokenType::LParen)?;
                let key = match self.next() {
                    None => {
                        return Err(ParseError::UnexpectedEndOfInput);
                    },
                    Some(t) => t,
                };
                if key.typ != TokenType::Ident {
                    return Err(
                        ParseError::UnexpectedToken {
                            expected: TokenType::Ident,
                            found: key.typ,
                            loc: key.loc,
                        },
                    );
                }
                self.expect(TokenType::Comma)?;
                let value = match self.next() {
                    None => {
                        return Err(ParseError::UnexpectedEndOfInput);
                    },
                    Some(t) => t,
                };
                if value.typ != TokenType::Ident {
                    return Err(
                        ParseError::UnexpectedToken {
                            expected: TokenType::Ident,
                            found: value.typ,
                            loc: value.loc,
                        },
                    );
                }
                self.expect(TokenType::RParen)?;
                Ok(ForBinding::Pair(key.value, value.value))
            },
            _ => Err(
                ParseError::UnexpectedToken {
                    expected: TokenType::SmallRArrow,
                    found: arrow.typ,
                    loc: arrow.loc,
                },
            ),
        }
    }

    /// Parses one statement, by its leading tokens: a nested block, a
    /// break or while-true form led by `@`, a variable declaration, a
    /// reassignment, a for-each loop, an if branch, or an expression
    /// statement closed by `;`.
    ///
    /// A break statement is legal only inside a loop body: met outside
    /// one, it fails with `BreakOutsideLoop` at its `@`.
    #[verifier::rlimit(100)]
    #[verifier::spinoff_prover]
    pub fn parse_statement(&mut self) -> (r: Result<Stmt, ParseError>)
        requires
            old(self).wf(),
        ensures
            final(self).wf(),
            final(self).tokens == old(self).tokens,
            final(self).loop_depth == old(self).loop_depth,
            final(self).pos >= old(self).pos,
            r is Ok ==> final(self).pos > old(self).pos,
            old(self).pos >= old(self).tokens.len() ==> (r matches Result::Err(
                ParseError::UnexpectedEndOfInput,
            )),
            at_break(old(self).tokens@, old(self).pos as int) && old(self).loop_depth == 0 ==> (
            r matches Result::Err(ParseError::BreakOutsideLoop(l)) && l == old(self).tokens[old(
                self,
            ).pos as int].loc),
            at_break(old(self).tokens@, old(self).pos as int) && old(self).loop_depth > 0 ==> r
                is Ok && r->Ok_0@ == crate::ast::StmtV::Break && final(self).pos == old(self).pos
                + 3,
            match sp_statement(
                old(self).tokens@,
                old(self).pos as int,
                old(self).loop_depth as int,
            ) {
                Result::Ok(o) => r is Ok && r->Ok_0@ == o.0 && final(self).pos == o.1,
                Result::Err(e) => r is Err && r->Err_0@ == e,
            },
        decreases old(self).tokens.len() - old(self).pos, 7int,
    {
        let lead_typ = match self.peek() {
            None => {
                return Err(ParseError::UnexpectedEndOfInput);
            },
            Some(t) => t.typ,
        };

        match lead_typ {
            TokenType::LBrace => {
                let body = self.parse_braced_block()?;
                Ok(Stmt::Block(body))
            },
            TokenType::At => {
                let at = match self.next() {
                    None => {
                        return Err(ParseError::UnexpectedEndOfInput);
                    },
                    Some(t) => t,
                };
                let after = match self.peek() {
                    None => {
                        return Err(ParseError::UnexpectedEndOfInput);
                    },
                    Some(t) => t.typ,
                };
                match after {
                    TokenType::Exclamation => {
                        let _ = self.next();
                        self.expect(TokenType::Semi)?;
                        if self.loop_depth == 0 {
                            return Err(ParseError::BreakOutsideLoop(at.loc));
                        }
                        Ok(Stmt::Break)
                    },
                    TokenType::SmallRArrow => {
                        let _ = self.next();
                        let cond = match self.next() {
                            None => {
                                return Err(ParseError::UnexpectedEndOfInput);
                            },
                            Some(t) => t,
                        };
                        if cond.typ != TokenType::Ident {
                            return Err(
                                ParseError::UnexpectedToken {
                                    expected: TokenType::Ident,
                                    found: cond.typ,
                                    loc: cond.loc,
                                },
                            );
                        }
                        if !(cond.value == String::from_str("true")) {
                            return Err(
                                ParseError::UnexpectedToken {
                                    expected: TokenType::Ident,
                                    found: cond.typ,
                                    loc: cond.loc,
                                },
                            );
                        }
                        self.expect(TokenType::Exclamation)?;
                        let body = self.parse_loop_body()?;
                        Ok(Stmt::While(Expr::Ident(cond.value), body))
                    },
                    _ => Err(
                        ParseError::UnexpectedToken {
                            expected: TokenType::SmallRArrow,
                            found: after,
                            loc: at.loc,
                        },
                    ),
                }
            },
            _ => self.parse_simple_statement(),
        }
    }

    /// Parses a statement that begins with an expression or a declaration:
    /// a variable declaration, a reassignment, a for-each loop, an if
    /// branch, or an expression statement.
    #[verifier::rlimit(100)]
    #[verifier::spinoff_prover]
    fn parse_simple_statement(&mut self) -> (r: Result<Stmt, ParseError>)
        requires
            old(self).wf(),
        ensures
            final(self).wf(),
            final(self).tokens == old(self).tokens,
            final(self).loop_depth == old(self).loop_depth,
            final(self).pos >= old(self).pos,
            r is Ok ==> final(self).pos > old(self).pos,
            match sp_simple_statement(
                old(self).tokens@,
                old(self).pos as int,
                old(self).loop_depth as int,
            ) {
                Result::Ok(o) => r is Ok && r->Ok_0@ == o.0 && final(self).pos == o.1,
                Result::Err(e) => r is Err && r->Err_0@ == e,
            },
        decreases old(self).tokens.len() - old(self).pos, 6int,
    {
        // A declaration: a type keyword, a name, and `=`.
        let decl = match self.peek() {
            Some(t) if t.typ == TokenType::Ident => {
                let dt = if t.value == String::from_str("int") {
                    Some(DeclType::Int)
                } else if t.value == String::from_str("float") {
                    Some(DeclType::Float)
                } else if t.value == String::from_str("string") {
                    Some(DeclType::Str)
                } else if t.value == String::from_str("array") {
                    Some(DeclType::Array)
                } else if t.value == String::from_str("mapping") {
                    Some(DeclType::Mapping)
                } else {
                    None
                };
                match dt {
                    Some(d) => {
                        let name_next = match self.peek_ahead(1) {
                            Some(t1) => t1.typ == TokenType::Ident,
                            None => false,
                        };
                        let eq_after = match self.peek_ahead(2) {
                            Some(t2) => t2.typ == TokenType::Eq,
                            None => false,
                        };
                        if name_next && eq_after {
                            Some(d)
                        } else {
                            None
                        }
                    },
                    None => None,
                }
            },
            _ => None,
        };
        if let Some(declared) = decl {
            let _ = self.next();
            let name = match self.next() {
                None => {
                    return Err(ParseError::UnexpectedEndOfInput);
                },
                Some(t) => t,
            };
            self.expect(TokenType::Eq)?;
            let init_loc = match self.peek() {
                Some(t) => t.loc,
                None => Loc { line: 1, col: 1 },
            };
            let init = self.parse_expr()?;
            self.expect(TokenType::Semi)?;
            let shape_ok = match declared {
                DeclType::Int => matches!(init, Expr::Int(_)),
                DeclType::Float => matches!(init, Expr::Float(_)),
                DeclType::Str => matches!(init, Expr::Str(_)),
                DeclType::Array => true,
                DeclType::Mapping => true,
            };
            if !shape_ok {
                return Err(ParseError::TypeMismatch { loc: init_loc, declared, found: init });
            }
            return Ok(Stmt::VarDecl(declared, name.value, init));
        }

        // A reassignment: a bare identifier followed by `=`.
        let reassign = match self.peek() {
            Some(t) if t.typ == TokenType::Ident => match self.peek_ahead(1) {
                Some(t1) => t1.typ == TokenType::Eq,
                None => false,
            },
            _ => false,
        };
        if reassign {
            let name = match self.next() {
                None => {
                    return Err(ParseError::UnexpectedEndOfInput);
                },
                Some(t) => t,
            };
            let _ = self.next();
            let value = self.parse_expr()?;
            self.expect(TokenType::Semi)?;
            return Ok(Stmt::Expr(Expr::Assign(name.value, Box::new(value))));
        }

        let expr = self.parse_expr()?;

        let after = match self.peek() {
            Some(t) => Some(t.typ),
            None => None,
        };
        match after {
            Some(TokenType::At) => {
                // A loop qualifier: the expression is the iterable.
                let _ = self.next();
                let binding = self.parse_for_binding()?;
                let body = self.parse_loop_body()?;
                Ok(Stmt::ForEach(binding, expr, body))
            },
            Some(TokenType::QuestionMark) => {
                // An if branch, with an optional `!->` else branch.
                let _ = self.next();
                let then_body = self.parse_braced_block()?;
                let has_else = match self.peek() {
                    Some(t) => t.typ == TokenType::Exclamation,
                    None => false,
                };
                if has_else {
                    let _ = self.next();
                    self.expect(TokenType::SmallRArrow)?;
                    let else_body = self.parse_braced_block()?;
                    Ok(Stmt::If(expr, then_body, Some(else_body)))
                } else {
                    Ok(Stmt::If(expr, then_body, None))
                }
            },
            _ => {
                self.expect(TokenType::Semi)?;
                Ok(Stmt::Expr(expr))
            },
        }
    }

    /// Parses top-level statements until the end-of-input token.
    fn parse_program_items(&mut self, stmts: &mut Vec<Stmt>) -> (r: Result<(), ParseError>)
        requires
            old(self).wf(),
        ensures
            final(self).wf(),
            final(self).tokens == old(self).tokens,
            final(self).loop_depth == old(self).loop_depth,
            final(self).pos >= old(self).pos,
            r is Ok ==> final(self).peek_typ() matches Option::Some(TokenType::Eof),
            old(self).pos >= old(self).tokens.len() ==> (r matches Result::Err(
                ParseError::UnexpectedEndOfInput,
            )),
            old(self).peek_typ() matches Option::Some(t) && t == TokenType::Eof ==> r is Ok
                && final(self).pos == old(self).pos && *final(stmts) == *old(stmts),
            at_break(old(self).tokens@, old(self).pos as int) && old(self).loop_depth == 0 ==> (
            r matches Result::Err(ParseError::BreakOutsideLoop(_))),
            match sp_program_items(
                old(self).tokens@,
                old(self).pos as int,
                old(self).loop_depth as int,
                crate::ast::stmts_view(old(stmts)@),
            ) {
                Result::Ok(o) => r is Ok && crate::ast::stmts_view(final(stmts)@) == o.0 && final(self).pos == o.1,
                Result::Err(e) => r is Err && r->Err_0@ == e,
            },
        decreases old(self).tokens.len() - old(self).pos, 9int,
    {
        let next_typ = match self.peek() {
            None => {
                return Err(ParseError::UnexpectedEndOfInput);
            },
            Some(t) => t.typ,
        };

        if next_typ == TokenType::Eof {
            return Ok(());
        }

        let stmt = self.parse_statement()?;
        let ghost prev = stmts@;
        stmts.push(stmt);
        proof {
            assert(stmts@.drop_last() =~= prev);
            assert(crate::ast::stmts_view(stmts@) == crate::ast::stmts_view(prev).push(
                stmts@.last()@,
            ));
        }
        self.parse_program_items(stmts)
    }

    /// Parses a stream of tokens into the program's syntax tree: a block
    /// statement holding the ordered top-level statements.
    ///
    /// Consumes the entire sequence; succeeds only if the last consumed
    /// token is the end-of-input marker. An empty program, a bare
    /// end-of-input token, yields an empty block. A break statement at
    /// the top level fails with `BreakOutsideLoop`.
    pub fn parse(&mut self) -> (r: Result<Stmt, ParseError>)
        requires
            old(self).wf(),
        ensures
            final(self).wf(),
            final(self).tokens == old(self).tokens,
            final(self).loop_depth == old(self).loop_depth,
            final(self).pos >= old(self).pos,
            r is Ok ==> final(self).pos >= 1 && final(self).tokens[final(self).pos - 1].typ
                == TokenType::Eof && r->Ok_0@ is Block,
            old(self).pos >= old(self).tokens.len() ==> (r matches Result::Err(
                ParseError::UnexpectedEndOfInput,
            )),
            old(self).peek_typ() matches Option::Some(t) && t == TokenType::Eof ==> r is Ok
                && r->Ok_0@ == crate::ast::StmtV::Block(Seq::empty()) && final(self).pos == old(
                self,
            ).pos + 1,
            at_break(old(self).tokens@, old(self).pos as int) && old(self).loop_depth == 0 ==> (
            r matches Result::Err(ParseError::BreakOutsideLoop(_))),
            match sp_parse(old(self).tokens@, old(self).pos as int, old(self).loop_depth as int) {
                Result::Ok(o) => r is Ok && r->Ok_0@ == o.0 && final(self).pos == o.1,
                Result::Err(e) => r is Err && r->Err_0@ == e,
            },
    {
        let mut stmts: Vec<Stmt> = Vec::new();
        self.parse_program_items(&mut stmts)?;
        self.expect(TokenType::Eof)?;
        proof {
            if stmts@ =~= Seq::<Stmt>::empty() {
                assert(crate::ast::stmts_view(stmts@) =~= Seq::<crate::ast::StmtV>::empty());
            }
        }
        Ok(Stmt::Block(stmts))
    }
}

} // verus!
