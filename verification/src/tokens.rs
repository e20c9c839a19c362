//! The token data model: token kinds, source locations, and located tokens.

use vstd::prelude::*;

verus! {

/// The closed set of token kinds the tokenizer can emit.
///
/// `NumLiteral` carries an is-fractional flag: it is `true` exactly when the
/// literal's text contains a `.`. Reserved words are emitted as `Keyword`
/// tokens whose `value` holds the word itself.
#[derive(Copy, Clone, Debug, Eq, PartialEq, Structural)]
pub enum TokenType {
    Eof,
    Ident,
    Keyword,
    Eq,
    LParen,
    RParen,
    Hash,
    Dollar,
    Colon,
    Comma,
    Dot,
    Plus,
    PlusPlus,
    Minus,
    MinusMinus,
    MinusEq,
    PlusEq,
    StarEq,
    SlashEq,
    StarStar,
    Star,
    Caret,
    Slash,
    Backslash,
    Semi,
    At,
    And,
    SmallRArrow,
    LargeRArrow,
    NumLiteral(bool),
    StrLiteral,
    Lt,
    Gt,
    Lte,
    Gte,
    Ne,
    EqEq,
    LBrace,
    RBrace,
    Exclamation,
    LBracket,
    RBracket,
    Bar,
    QuestionMark,
    Percent,
    Null,
}

/// A line/column position in the source text, both 1-based.
#[derive(Copy, Clone, Debug, Eq, PartialEq, Structural)]
pub struct Loc {
    pub line: usize,
    pub col: usize,
}

/// A classified, located lexeme. `value` holds the literal text: the operator
/// spelling, the identifier name, the digits of a number, or the content of a
/// string literal without its delimiters.
#[derive(Debug)]
pub struct Token {
    pub typ: TokenType,
    pub value: String,
    pub loc: Loc,
    pub addtl: Option<Vec<String>>,
}

/// The mathematical value of a token: its kind, its text as a character
/// sequence, and its position.
pub struct TokenV {
    pub typ: TokenType,
    pub text: Seq<char>,
    pub line: nat,
    pub col: nat,
    pub addtl: Option<Seq<Seq<char>>>,
}

impl View for Token {
    type V = TokenV;

    open spec fn view(&self) -> TokenV {
        TokenV {
            typ: self.typ,
            text: self.value@,
            line: self.loc.line as nat,
            col: self.loc.col as nat,
            addtl: match self.addtl {
                Option::Some(v) => Option::Some(v.deep_view()),
                Option::None => Option::None,
            },
        }
    }
}

impl Loc {
    /// The initial position: line 1, column 1.
    pub fn new() -> (r: Self)
        ensures
            r.line == 1,
            r.col == 1,
    {
        Self { line: 1, col: 1 }
    }

    /// A position at the given line and column.
    pub fn at(line: usize, col: usize) -> (r: Self)
        ensures
            r.line == line,
            r.col == col,
    {
        Self { line, col }
    }
}

impl Default for Loc {
    fn default() -> (r: Self)
        ensures
            r.line == 1,
            r.col == 1,
    {
        Self::new()
    }
}

impl Clone for Token {
    fn clone(&self) -> (r: Self)
        ensures
            r@ == self@,
            r.typ == self.typ,
            r.loc == self.loc,
    {
        let addtl = match &self.addtl {
            Option::Some(v) => Option::Some(clone_strings(v)),
            Option::None => Option::None,
        };
        let r = Token { typ: self.typ, value: self.value.clone(), loc: self.loc, addtl };
        proof {
            assert(r@.addtl == self@.addtl);
        }
        r
    }
}

/// Clones a vector of strings, keeping every character of every element.
fn clone_strings(v: &Vec<String>) -> (r: Vec<String>)
    ensures
        r.deep_view() == v.deep_view(),
{
    let mut r: Vec<String> = Vec::new();
    let n = v.len();
    let mut i: usize = 0;
    while i < n
        invariant
            n == v.len(),
            i <= n,
            r.len() == i,
            forall|j: int| 0 <= j < i ==> r[j]@ == v[j]@,
        decreases n - i,
    {
        r.push(v[i].clone());
        i = i + 1;
    }
    proof {
        assert(r.deep_view() =~~= v.deep_view());
    }
    r
}

/// Compares two optional string vectors element by element.
fn addtl_eq(a: &Option<Vec<String>>, b: &Option<Vec<String>>) -> (r: bool)
    ensures
        r == spec_addtl_eq(a, b),
{
    match (a, b) {
        (Option::None, Option::None) => true,
        (Option::Some(x), Option::Some(y)) => {
            if x.len() != y.len() {
                proof {
                    assert(x.deep_view().len() != y.deep_view().len());
                }
                return false;
            }
            let n = x.len();
            let mut i: usize = 0;
            while i < n
                invariant
                    *a == Option::Some(*x),
                    *b == Option::Some(*y),
                    n == x.len(),
                    n == y.len(),
                    i <= n,
                    forall|j: int| 0 <= j < i ==> x[j]@ == y[j]@,
                decreases n - i,
            {
                if !(x[i] == y[i]) {
                    proof {
                        assert(x.deep_view()[i as int] != y.deep_view()[i as int]);
                        assert(x.deep_view() != y.deep_view());
                    }
                    return false;
                }
                i = i + 1;
            }
            proof {
                assert(x.deep_view() =~~= y.deep_view());
            }
            true
        },
        _ => false,
    }
}

/// Equality of the optional extra-text fields, over their character contents.
pub open spec fn spec_addtl_eq(a: &Option<Vec<String>>, b: &Option<Vec<String>>) -> bool {
    match (a, b) {
        (Option::None, Option::None) => true,
        (Option::Some(x), Option::Some(y)) => x.deep_view() == y.deep_view(),
        _ => false,
    }
}

impl PartialEq for Token {
    fn eq(&self, other: &Self) -> (r: bool) {
        let typ_eq = self.typ == other.typ;
        let value_eq = self.value == other.value;
        let loc_eq = self.loc == other.loc;
        typ_eq && value_eq && loc_eq && addtl_eq(&self.addtl, &other.addtl)
    }
}

impl vstd::std_specs::cmp::PartialEqSpecImpl for Token {
    open spec fn obeys_eq_spec() -> bool {
        true
    }

    open spec fn eq_spec(&self, other: &Token) -> bool {
        &&& self.typ == other.typ
        &&& self.value@ == other.value@
        &&& self.loc == other.loc
        &&& spec_addtl_eq(&self.addtl, &other.addtl)
    }
}

impl Default for Token {
    fn default() -> (r: Self)
        ensures
            r.typ == TokenType::Null,
            r.value@ == Seq::<char>::empty(),
            r.loc.line == 1,
            r.loc.col == 1,
            r.addtl is None,
    {
        Self {
            typ: TokenType::Null,
            value: String::new(),
            loc: Loc::new(),
            addtl: Option::None,
        }
    }
}

impl Token {
    /// A token of the given kind with empty text at the initial position.
    pub fn new(typ: TokenType) -> (r: Self)
        ensures
            r.typ == typ,
            r.value@ == Seq::<char>::empty(),
            r.loc.line == 1,
            r.loc.col == 1,
            r.addtl is None,
    {
        Self { typ, value: String::new(), addtl: Option::None, loc: Loc::new() }
    }

    /// A token of the given kind with empty text at the given position.
    pub fn at(typ: TokenType, line: usize, col: usize) -> (r: Self)
        ensures
            r.typ == typ,
            r.value@ == Seq::<char>::empty(),
            r.loc.line == line,
            r.loc.col == col,
            r.addtl is None,
    {
        Self { typ, value: String::new(), addtl: Option::None, loc: Loc::at(line, col) }
    }

    /// A token of the given kind and text at the initial position.
    pub fn with_value(typ: TokenType, value: String) -> (r: Self)
        ensures
            r.typ == typ,
            r.value == value,
            r.loc.line == 1,
            r.loc.col == 1,
            r.addtl is None,
    {
        Self { typ, value, addtl: Option::None, loc: Loc::new() }
    }

    /// A token of the given kind and text at the given position.
    pub fn with_value_at(typ: TokenType, value: String, line: usize, col: usize) -> (r: Self)
        ensures
            r.typ == typ,
            r.value == value,
            r.loc.line == line,
            r.loc.col == col,
            r.addtl is None,
    {
        Self { typ, value, addtl: Option::None, loc: Loc::at(line, col) }
    }
}

} // verus!
