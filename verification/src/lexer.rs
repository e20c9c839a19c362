//! The tokenizer: scans a character sequence left to right, tracking
//! line/column positions, and produces a located token sequence.
//!
//! Every scanning function is specified exactly: the tokens it emits and the
//! cursor state it leaves behind are pinned to spec-level scan functions, so
//! the whole run of [`Lexer::lex`] is a mathematical function of the source.

use vstd::prelude::*;

use crate::tokens::Loc;
use crate::tokens::Token;
use crate::tokens::TokenType;
use crate::tokens::TokenV;

verus! {

/// Whether a character counts as alphanumeric.
pub uninterp spec fn alphanumeric_char(c: char) -> bool;

/// Whether a character counts as alphabetic.
pub uninterp spec fn alphabetic_char(c: char) -> bool;

/// Relies on `char::is_alphanumeric`: the result depends on the character
/// alone, true exactly for the Unicode general categories of letters and
/// numbers. Per that documentation, ASCII letters and digits are
/// alphanumeric, while space, the line-break characters and `/` are not.
pub assume_specification[ char::is_alphanumeric ](c: char) -> (r: bool)
    ensures
        r == alphanumeric_char(c),
        ('a' <= c && c <= 'z') || ('A' <= c && c <= 'Z') || ('0' <= c && c <= '9') ==> r,
        c == ' ' || c == '\n' || c == '\r' || c == '/' ==> !r,
;

/// Relies on `char::is_alphabetic`: the result depends on the character
/// alone, true exactly for the Unicode letter categories. Per that
/// documentation, ASCII letters are alphabetic, and space and the
/// line-break characters are not.
pub assume_specification[ char::is_alphabetic ](c: char) -> (r: bool)
    ensures
        r == alphabetic_char(c),
        ('a' <= c && c <= 'z') || ('A' <= c && c <= 'Z') ==> r,
        c == ' ' || c == '\n' || c == '\r' ==> !r,
;

/// Relies on `String::push`: appends the character to the string.
pub assume_specification[ String::push ](s: &mut String, c: char)
    ensures
        final(s)@ == old(s)@.push(c),
;

/// A lexing failure, carrying the position at which it was detected.
#[derive(Copy, Clone, Debug, Eq, PartialEq, Structural)]
pub enum LexError {
    /// The source text was empty.
    EmptySource,
    /// A comment opened by `/` was malformed or never closed.
    UnterminatedComment(Loc),
    /// A string literal was never closed; carries its opening delimiter.
    UnterminatedString { delimiter: char, loc: Loc },
    /// A numeric literal held a second `.`.
    InvalidNumber(Loc),
    /// A character that is not a bracket reached the enclosure scanner.
    UnexpectedEnclosure { ch: char, loc: Loc },
}

/// The cursor of a scan: index into the source, and 1-based line/column.
pub struct ScanState {
    pub idx: int,
    pub line: int,
    pub col: int,
}

/// What one scanning step produces: the cursor after it and the tokens it
/// emitted, or a lexing failure.
pub type ScanResult = Result<(ScanState, Seq<TokenV>), LexError>;

/// Whether a character is a line break.
pub open spec fn nl(c: char) -> bool {
    c == '\n' || c == '\r'
}

/// Whether a character is whitespace to the tokenizer: space or line break.
pub open spec fn space_char(c: char) -> bool {
    c == ' ' || c == '\n' || c == '\r'
}

/// Whether a character is an ASCII digit.
pub open spec fn digit_char(c: char) -> bool {
    '0' <= c && c <= '9'
}

/// Whether a character may appear in an identifier.
pub open spec fn ident_char(c: char) -> bool {
    alphanumeric_char(c) || c == '_'
}

/// Whether a character may start an identifier.
pub open spec fn ident_start_char(c: char) -> bool {
    alphabetic_char(c) || c == '_'
}

/// A lexer, for generating tokens from text.
#[derive(Debug)]
pub struct Lexer {
    /// The source code to be lexed.
    pub src: Vec<char>,
    /// The current index being lexed.
    pub idx: usize,
    /// The current line being lexed.
    pub line: usize,
    /// The current column being lexed.
    pub col: usize,
    /// The current character being lexed.
    pub c: char,
    /// The tokens that have already been lexed.
    pub tokens: Vec<Token>,
}

/// The cursor of a lexer as a mathematical scan state.
pub open spec fn st_of(l: Lexer) -> ScanState {
    ScanState { idx: l.idx as int, line: l.line as int, col: l.col as int }
}

impl Lexer {
    /// Structural well-formedness: the source is non-empty and leaves
    /// arithmetic headroom, the index is in bounds, and the current
    /// character is the one at the index.
    pub open spec fn wf0(&self) -> bool {
        &&& 1 <= self.src.len()
        &&& self.src.len() <= usize::MAX - 8
        &&& self.idx < self.src.len()
        &&& self.c == self.src[self.idx as int]
    }

    /// Position bounds that hold while the scan is still advancing: the
    /// line and column never outrun the index.
    pub open spec fn pos_ok(&self) -> bool {
        &&& 1 <= self.line <= self.idx + 1
        &&& 1 <= self.col <= self.idx + 2
    }

    /// Position bounds with a little slack, for states reached after the
    /// cursor has hit the last character.
    pub open spec fn pos_loose(&self, slack: int) -> bool {
        &&& 1 <= self.line <= self.idx + 1 + slack
        &&& 1 <= self.col <= self.idx + 2 + slack
    }

    /// True, if there is more src file to read.
    pub fn can_advance(&self) -> (r: bool)
        requires
            self.src.len() >= 1,
        ensures
            r == can_adv(self.src@, self.idx as int),
    {
        self.idx < self.src.len() - 1
    }

    /// Returns true if the character is a newline.
    pub fn is_newline(c: char) -> (r: bool)
        ensures
            r == nl(c),
    {
        c == '\n' || c == '\r'
    }

    /// Returns true if the character can appear in an identifier.
    pub fn can_be_ident(c: char) -> (r: bool)
        ensures
            r == ident_char(c),
    {
        c.is_alphanumeric() || c == '_'
    }

    /// Moves to the next character for further lexing.
    pub fn next(lexer: &mut Lexer)
        requires
            old(lexer).wf0(),
            old(lexer).line < usize::MAX,
            old(lexer).col < usize::MAX,
        ensures
            final(lexer).wf0(),
            final(lexer).src == old(lexer).src,
            final(lexer).tokens == old(lexer).tokens,
            st_of(*final(lexer)) == spec_next(old(lexer).src@, st_of(*old(lexer))),
    {
        if Lexer::is_newline(lexer.c) {
            // A line break resets the column and advances the line.
            lexer.line = lexer.line + 1;
            lexer.col = 1;
        } else {
            lexer.col = lexer.col + 1;
        }

        if lexer.can_advance() {
            // The index always increases; fetch the next character.
            lexer.idx = lexer.idx + 1;
            lexer.c = lexer.src[lexer.idx];
        }
    }

    /// Peeks at some other character nearby.
    pub fn peek(&self, offset: isize) -> (r: Option<char>)
        requires
            self.wf0(),
            offset != isize::MIN,
            can_adv(self.src@, self.idx as int) && abs_of(offset as int) < self.src.len()
                ==> 0 <= self.idx + offset < self.src.len(),
        ensures
            r == spec_peek(self.src@, self.idx as int, offset as int),
    {
        let mag: usize = if offset < 0 {
            (-offset) as usize
        } else {
            offset as usize
        };
        if !self.can_advance() || mag >= self.src.len() {
            return None;
        }

        if offset < 0 {
            Some(self.src[self.idx - mag])
        } else {
            Some(self.src[self.idx + mag])
        }
    }
}

/// Whether the cursor can still advance: it is not yet on the last character.
pub open spec fn can_adv(src: Seq<char>, idx: int) -> bool {
    idx < src.len() - 1
}

/// The magnitude of an offset.
pub open spec fn abs_of(off: int) -> int {
    if off < 0 {
        -off
    } else {
        off
    }
}

/// The cursor after one advance: the column grows, or a line break resets
/// it; the index moves unless it is already on the last character.
pub open spec fn spec_next(src: Seq<char>, st: ScanState) -> ScanState {
    let line = if nl(src[st.idx]) {
        st.line + 1
    } else {
        st.line
    };
    let col = if nl(src[st.idx]) {
        1
    } else {
        st.col + 1
    };
    let idx = if can_adv(src, st.idx) {
        st.idx + 1
    } else {
        st.idx
    };
    ScanState { idx, line, col }
}

/// The character a peek returns: `None` when the cursor cannot advance or
/// the offset's magnitude reaches the source length.
pub open spec fn spec_peek(src: Seq<char>, idx: int, off: int) -> Option<char> {
    if !can_adv(src, idx) || abs_of(off) >= src.len() {
        Option::None
    } else {
        Option::Some(src[idx + off])
    }
}

/// The character a peek returns, with `'\0'` for `None`, as the scanners
/// use it to look one character ahead.
pub open spec fn peek_or_nul(src: Seq<char>, idx: int) -> char {
    match spec_peek(src, idx, 1) {
        Option::Some(c) => c,
        Option::None => '\0',
    }
}

/// A token value without extra text, at the given cursor position.
pub open spec fn tokv(typ: TokenType, text: Seq<char>, st: ScanState) -> TokenV {
    TokenV { typ, text, line: st.line as nat, col: st.col as nat, addtl: Option::None }
}

/// The views of a token sequence.
pub open spec fn toks_of(ts: Seq<Token>) -> Seq<TokenV> {
    ts.map_values(|t: Token| t@)
}

/// The cursor after skipping whitespace: it advances while the character
/// after the cursor is whitespace, then advances once more.
pub open spec fn spec_skip_ws(src: Seq<char>, st: ScanState) -> ScanState
    decreases src.len() - st.idx,
{
    if can_adv(src, st.idx) && abs_of(1) < src.len() && space_char(src[st.idx + 1]) {
        spec_skip_ws(src, spec_next(src, st))
    } else {
        spec_next(src, st)
    }
}

/// The token an `=` produces, decided by the character after it.
pub open spec fn spec_eq_token(src: Seq<char>, st: ScanState) -> TokenV {
    let nxt = peek_or_nul(src, st.idx);
    if nxt == '>' {
        tokv(TokenType::LargeRArrow, "=>"@, st)
    } else if nxt == '=' {
        tokv(TokenType::EqEq, "=="@, st)
    } else {
        tokv(TokenType::Eq, "="@, st)
    }
}

/// The token a `-` produces, decided by the character after it.
pub open spec fn spec_minus_token(src: Seq<char>, st: ScanState) -> TokenV {
    let nxt = peek_or_nul(src, st.idx);
    if nxt == '-' {
        tokv(TokenType::MinusMinus, "--"@, st)
    } else if nxt == '=' {
        tokv(TokenType::MinusEq, "-="@, st)
    } else if nxt == '>' {
        tokv(TokenType::SmallRArrow, "->"@, st)
    } else {
        tokv(TokenType::Minus, "-"@, st)
    }
}

/// The token a `+` produces, decided by the character after it.
pub open spec fn spec_plus_token(src: Seq<char>, st: ScanState) -> TokenV {
    let nxt = peek_or_nul(src, st.idx);
    if nxt == '+' {
        tokv(TokenType::PlusPlus, "++"@, st)
    } else if nxt == '=' {
        tokv(TokenType::PlusEq, "+="@, st)
    } else {
        tokv(TokenType::Plus, "+"@, st)
    }
}

/// The token a `*` produces, decided by the character after it.
pub open spec fn spec_star_token(src: Seq<char>, st: ScanState) -> TokenV {
    let nxt = peek_or_nul(src, st.idx);
    if nxt == '*' {
        tokv(TokenType::StarStar, "**"@, st)
    } else if nxt == '=' {
        tokv(TokenType::StarEq, "*="@, st)
    } else {
        tokv(TokenType::Star, "*"@, st)
    }
}

/// Whether the cursor stands on the two characters `*/`.
pub open spec fn spec_end_mlc(src: Seq<char>, idx: int) -> bool {
    can_adv(src, idx) && src[idx] == '*' && peek_or_nul(src, idx) == '/'
}

impl Lexer {
    /// Creates a new lexer to be used on a given string.
    ///
    /// Fails exactly when the text is empty.
    pub fn new(src: &str) -> (r: Result<Self, LexError>)
        requires
            src@.len() <= usize::MAX - 8,
        ensures
            r is Ok <==> src@.len() > 0,
            r is Err ==> r->Err_0 == LexError::EmptySource,
            r is Ok ==> {
                let l = r->Ok_0;
                &&& l.src@ == src@
                &&& l.idx == 0
                &&& l.line == 1
                &&& l.col == 1
                &&& l.c == src@[0]
                &&& l.tokens@ == Seq::<Token>::empty()
                &&& l.wf0()
                &&& l.pos_ok()
            },
    {
        let n = src.unicode_len();
        if n == 0 {
            return Err(LexError::EmptySource);
        }

        let mut chars: Vec<char> = Vec::with_capacity(n);
        let mut i: usize = 0;
        while i < n
            invariant
                n == src@.len(),
                i <= n,
                chars@ == src@.subrange(0, i as int),
            decreases n - i,
        {
            chars.push(src.get_char(i));
            proof {
                assert(chars@ =~= src@.subrange(0, i + 1));
            }
            i = i + 1;
        }
        proof {
            assert(chars@ =~= src@);
        }

        let c = chars[0];
        Ok(
            Lexer {
                c,
                src: chars,
                idx: 0,
                line: 1,
                col: 1,
                // Arbitrarily guessing a token will happen every 6 chars
                tokens: Vec::with_capacity(n / 6 + 1),
            },
        )
    }

    pub fn skip_whitespace(lexer: &mut Lexer)
        requires
            old(lexer).wf0(),
            old(lexer).pos_ok(),
        ensures
            final(lexer).wf0(),
            final(lexer).pos_loose(1),
            can_adv(final(lexer).src@, final(lexer).idx as int) ==> final(lexer).pos_ok(),
            final(lexer).src == old(lexer).src,
            final(lexer).tokens == old(lexer).tokens,
            st_of(*final(lexer)) == spec_skip_ws(old(lexer).src@, st_of(*old(lexer))),
        decreases old(lexer).src.len() - old(lexer).idx,
    {
        let keep_going = match lexer.peek(1) {
            Some(c) => c == ' ' || c == '\n' || c == '\r',
            None => false,
        };
        if keep_going {
            Lexer::next(lexer);
            Lexer::skip_whitespace(lexer);
        } else {
            Lexer::next(lexer);
        }
    }

    /// Determines which token this is, if the char was an equals.
    pub fn get_eq_token(&self) -> (r: Token)
        requires
            self.wf0(),
        ensures
            r@ == spec_eq_token(self.src@, st_of(*self)),
    {
        match self.peek(1) {
            Some('>') => Token::with_value_at(
                TokenType::LargeRArrow,
                String::from_str("=>"),
                self.line,
                self.col,
            ),
            Some('=') => Token::with_value_at(
                TokenType::EqEq,
                String::from_str("=="),
                self.line,
                self.col,
            ),
            _ => Token::with_value_at(TokenType::Eq, String::from_str("="), self.line, self.col),
        }
    }

    /// Pushes an `Eq`, `EqEq`, or `LargeRArrow` token onto the token
    /// stack, and advances past any second character.
    pub fn lex_eq(lexer: &mut Lexer)
        requires
            old(lexer).wf0(),
            old(lexer).pos_ok(),
        ensures
            final(lexer).wf0(),
            final(lexer).pos_ok(),
            final(lexer).src == old(lexer).src,
            toks_of(final(lexer).tokens@) == toks_of(old(lexer).tokens@).push(
                spec_eq_token(old(lexer).src@, st_of(*old(lexer))),
            ),
            st_of(*final(lexer)) == spec_lex_eq_st(old(lexer).src@, st_of(*old(lexer))),
    {
        let token = lexer.get_eq_token();
        let typ = token.typ;
        let ghost toks0 = lexer.tokens@;
        lexer.tokens.push(token);
        proof {
            assert(toks_of(lexer.tokens@) =~= toks_of(toks0).push(
                spec_eq_token(lexer.src@, st_of(*lexer)),
            ));
        }

        match typ {
            TokenType::Eq => (),
            _ => Lexer::next(lexer),
        }
    }

    /// Determines which token this is, if the char was a minus.
    pub fn get_minus_token(&self) -> (r: Token)
        requires
            self.wf0(),
        ensures
            r@ == spec_minus_token(self.src@, st_of(*self)),
    {
        match self.peek(1) {
            Some('-') => Token::with_value_at(
                TokenType::MinusMinus,
                String::from_str("--"),
                self.line,
                self.col,
            ),
            Some('=') => Token::with_value_at(
                TokenType::MinusEq,
                String::from_str("-="),
                self.line,
                self.col,
            ),
            Some('>') => Token::with_value_at(
                TokenType::SmallRArrow,
                String::from_str("->"),
                self.line,
                self.col,
            ),
            _ => Token::with_value_at(TokenType::Minus, String::from_str("-"), self.line, self.col),
        }
    }

    /// Pushes a `Minus`, `MinusMinus`, `MinusEq`, or `SmallRArrow`
    /// token onto the token stack, and advances past any second character.
    pub fn lex_minus(lexer: &mut Lexer)
        requires
            old(lexer).wf0(),
            old(lexer).pos_ok(),
        ensures
            final(lexer).wf0(),
            final(lexer).pos_ok(),
            final(lexer).src == old(lexer).src,
            toks_of(final(lexer).tokens@) == toks_of(old(lexer).tokens@).push(
                spec_minus_token(old(lexer).src@, st_of(*old(lexer))),
            ),
            st_of(*final(lexer)) == spec_lex_minus_st(old(lexer).src@, st_of(*old(lexer))),
    {
        let token = lexer.get_minus_token();
        let typ = token.typ;
        let ghost toks0 = lexer.tokens@;
        lexer.tokens.push(token);
        proof {
            assert(toks_of(lexer.tokens@) =~= toks_of(toks0).push(
                spec_minus_token(lexer.src@, st_of(*lexer)),
            ));
        }

        match typ {
            TokenType::Minus => (),
            _ => Lexer::next(lexer),
        }
    }

    /// Determines which token this is, if the char was a plus.
    pub fn get_plus_token(&self) -> (r: Token)
        requires
            self.wf0(),
        ensures
            r@ == spec_plus_token(self.src@, st_of(*self)),
    {
        match self.peek(1) {
            Some('+') => Token::with_value_at(
                TokenType::PlusPlus,
                String::from_str("++"),
                self.line,
                self.col,
            ),
            Some('=') => Token::with_value_at(
                TokenType::PlusEq,
                String::from_str("+="),
                self.line,
                self.col,
            ),
            _ => Token::with_value_at(TokenType::Plus, String::from_str("+"), self.line, self.col),
        }
    }

    /// Pushes a `Plus`, `PlusPlus`, or `PlusEq` token onto the token
    /// stack, and advances past any second character.
    pub fn lex_plus(lexer: &mut Lexer)
        requires
            old(lexer).wf0(),
            old(lexer).pos_ok(),
        ensures
            final(lexer).wf0(),
            final(lexer).pos_ok(),
            final(lexer).src == old(lexer).src,
            toks_of(final(lexer).tokens@) == toks_of(old(lexer).tokens@).push(
                spec_plus_token(old(lexer).src@, st_of(*old(lexer))),
            ),
            st_of(*final(lexer)) == spec_lex_plus_st(old(lexer).src@, st_of(*old(lexer))),
    {
        let token = lexer.get_plus_token();
        let typ = token.typ;
        let ghost toks0 = lexer.tokens@;
        lexer.tokens.push(token);
        proof {
            assert(toks_of(lexer.tokens@) =~= toks_of(toks0).push(
                spec_plus_token(lexer.src@, st_of(*lexer)),
            ));
        }

        match typ {
            TokenType::Plus => (),
            _ => Lexer::next(lexer),
        }
    }

    /// Determines which token this is, if the char was a star.
    pub fn get_star_token(&self) -> (r: Token)
        requires
            self.wf0(),
        ensures
            r@ == spec_star_token(self.src@, st_of(*self)),
    {
        match self.peek(1) {
            Some('*') => Token::with_value_at(
                TokenType::StarStar,
                String::from_str("**"),
                self.line,
                self.col,
            ),
            Some('=') => Token::with_value_at(
                TokenType::StarEq,
                String::from_str("*="),
                self.line,
                self.col,
            ),
            _ => Token::with_value_at(TokenType::Star, String::from_str("*"), self.line, self.col),
        }
    }

    /// Pushes a `Star`, `StarStar`, or `StarEq` token onto the token
    /// stack, and advances past any second character.
    pub fn lex_star(lexer: &mut Lexer)
        requires
            old(lexer).wf0(),
            old(lexer).pos_ok(),
        ensures
            final(lexer).wf0(),
            final(lexer).pos_ok(),
            final(lexer).src == old(lexer).src,
            toks_of(final(lexer).tokens@) == toks_of(old(lexer).tokens@).push(
                spec_star_token(old(lexer).src@, st_of(*old(lexer))),
            ),
            st_of(*final(lexer)) == spec_lex_star_st(old(lexer).src@, st_of(*old(lexer))),
    {
        let token = lexer.get_star_token();
        let typ = token.typ;
        let ghost toks0 = lexer.tokens@;
        lexer.tokens.push(token);
        proof {
            assert(toks_of(lexer.tokens@) =~= toks_of(toks0).push(
                spec_star_token(lexer.src@, st_of(*lexer)),
            ));
        }

        match typ {
            TokenType::Star => (),
            _ => Lexer::next(lexer),
        }
    }

    /// Returns true if the current and next char are `*/`.
    pub fn end_multiline_comment(lexer: &Lexer) -> (r: bool)
        requires
            lexer.wf0(),
        ensures
            r == spec_end_mlc(lexer.src@, lexer.idx as int),
    {
        lexer.c == '*' && match lexer.peek(1) {
            Some(c) => c == '/',
            None => false,
        }
    }
}

/// The cursor after lexing an `=`: a one-character token leaves the cursor
/// in place; a two-character token advances it once.
pub open spec fn spec_lex_eq_st(src: Seq<char>, st: ScanState) -> ScanState {
    if spec_eq_token(src, st).typ == TokenType::Eq {
        st
    } else {
        spec_next(src, st)
    }
}

/// The cursor after lexing a `-`, in the same way.
pub open spec fn spec_lex_minus_st(src: Seq<char>, st: ScanState) -> ScanState {
    if spec_minus_token(src, st).typ == TokenType::Minus {
        st
    } else {
        spec_next(src, st)
    }
}

/// The cursor after lexing a `+`, in the same way.
pub open spec fn spec_lex_plus_st(src: Seq<char>, st: ScanState) -> ScanState {
    if spec_plus_token(src, st).typ == TokenType::Plus {
        st
    } else {
        spec_next(src, st)
    }
}

/// The cursor after lexing a `*`, in the same way.
pub open spec fn spec_lex_star_st(src: Seq<char>, st: ScanState) -> ScanState {
    if spec_star_token(src, st).typ == TokenType::Star {
        st
    } else {
        spec_next(src, st)
    }
}

/// The position of a cursor as a `Loc`.
pub open spec fn loc_of(st: ScanState) -> Loc {
    Loc { line: st.line as usize, col: st.col as usize }
}

/// Whether a text is one of the reserved words.
pub open spec fn is_reserved(s: Seq<char>) -> bool {
    ||| s == "if"@
    ||| s == "in"@
    ||| s == "is"@
    ||| s == "break"@
    ||| s == "return"@
    ||| s == "let"@
    ||| s == "else"@
    ||| s == "const"@
    ||| s == "for"@
    ||| s == "while"@
}

/// The identifier scan: accumulates identifier characters while the cursor
/// can advance, and returns where it stops.
pub open spec fn spec_scan_ident(src: Seq<char>, st: ScanState, acc: Seq<char>) -> (ScanState, Seq<
    char,
>)
    decreases src.len() - st.idx,
{
    if can_adv(src, st.idx) && ident_char(src[st.idx]) {
        spec_scan_ident(src, spec_next(src, st), acc.push(src[st.idx]))
    } else {
        (st, acc)
    }
}

/// What lexing an identifier produces: the cursor after it and its token,
/// whose kind is rewritten to `Keyword` for a reserved word.
pub open spec fn spec_lex_ident(src: Seq<char>, st: ScanState) -> (ScanState, TokenV) {
    let (st1, acc) = spec_scan_ident(src, st, Seq::empty());
    let text = if !can_adv(src, st1.idx) && ident_char(src[st1.idx]) {
        acc.push(src[st1.idx])
    } else {
        acc
    };
    let typ = if is_reserved(text) {
        TokenType::Keyword
    } else {
        TokenType::Ident
    };
    (st1, tokv(typ, text, st))
}

/// The numeric scan: accumulates digits and at most one `.` while the
/// cursor can advance; a second `.` is a failure at its own position.
pub open spec fn spec_scan_num(src: Seq<char>, st: ScanState, acc: Seq<char>, frac: bool) -> Result<
    (ScanState, Seq<char>, bool),
    LexError,
>
    decreases src.len() - st.idx,
{
    if can_adv(src, st.idx) && (digit_char(src[st.idx]) || src[st.idx] == '.') {
        if src[st.idx] == '.' {
            if frac {
                Result::Err(LexError::InvalidNumber(loc_of(st)))
            } else {
                spec_scan_num(src, spec_next(src, st), acc.push('.'), true)
            }
        } else {
            spec_scan_num(src, spec_next(src, st), acc.push(src[st.idx]), frac)
        }
    } else {
        Result::Ok((st, acc, frac))
    }
}

/// What lexing a numeric literal produces: the cursor after it and its
/// token, or the failure for a second `.`.
pub open spec fn spec_lex_number(src: Seq<char>, st: ScanState) -> Result<
    (ScanState, TokenV),
    LexError,
> {
    let first = src[st.idx];
    if !can_adv(src, st.idx) {
        Result::Ok((spec_next(src, st), tokv(TokenType::NumLiteral(false), seq![first], st)))
    } else {
        match spec_scan_num(src, spec_next(src, st), seq![first], false) {
            Result::Err(e) => Result::Err(e),
            Result::Ok((st1, acc, frac)) => {
                let text = if !can_adv(src, st1.idx) && digit_char(src[st1.idx]) {
                    acc.push(src[st1.idx])
                } else {
                    acc
                };
                Result::Ok((st1, tokv(TokenType::NumLiteral(frac), text, st)))
            },
        }
    }
}

/// The string scan: accumulates characters until the delimiter, keeping a
/// backslash-escaped delimiter verbatim.
pub open spec fn spec_scan_str(src: Seq<char>, st: ScanState, delim: char, acc: Seq<char>) -> (
    ScanState,
    Seq<char>,
)
    decreases src.len() - st.idx,
{
    if src[st.idx] != delim && can_adv(src, st.idx) {
        if src[st.idx] == '\\' && peek_or_nul(src, st.idx) == delim {
            spec_scan_str(
                src,
                spec_next(src, spec_next(src, st)),
                delim,
                acc.push('\\').push(delim),
            )
        } else {
            spec_scan_str(src, spec_next(src, st), delim, acc.push(src[st.idx]))
        }
    } else {
        (st, acc)
    }
}

/// What lexing a string literal produces: the cursor after it and its
/// token located at the opening delimiter, or the unterminated-string
/// failure at the position where the scan gave up.
pub open spec fn spec_lex_string(src: Seq<char>, st: ScanState) -> Result<
    (ScanState, TokenV),
    LexError,
> {
    let delim = src[st.idx];
    let (st1, acc) = spec_scan_str(src, spec_next(src, st), delim, Seq::empty());
    if src[st1.idx] == delim {
        Result::Ok((st1, tokv(TokenType::StrLiteral, acc, st)))
    } else {
        Result::Err(LexError::UnterminatedString { delimiter: delim, loc: loc_of(st1) })
    }
}

/// The multi-line comment scan: advances until `*/`, then steps past both
/// characters; reports whether the closing was found.
pub open spec fn spec_scan_mlc(src: Seq<char>, st: ScanState) -> (ScanState, bool)
    decreases src.len() - st.idx,
{
    if can_adv(src, st.idx) {
        if spec_end_mlc(src, st.idx) {
            (spec_next(src, spec_next(src, st)), true)
        } else {
            spec_scan_mlc(src, spec_next(src, st))
        }
    } else {
        (st, false)
    }
}

/// The single-line comment scan: advances to the line break, or to the
/// last character.
pub open spec fn spec_scan_eol(src: Seq<char>, st: ScanState) -> ScanState
    decreases src.len() - st.idx,
{
    if can_adv(src, st.idx) && !nl(src[st.idx]) {
        spec_scan_eol(src, spec_next(src, st))
    } else {
        st
    }
}

/// The multi-line phase of comment skipping: success when the closing
/// `*/` is found, the unterminated-comment failure otherwise.
pub open spec fn spec_skip_mlc_phase(src: Seq<char>, st: ScanState) -> ScanResult {
    let (st2, found) = spec_scan_mlc(src, st);
    if found {
        Result::Ok((st2, Seq::empty()))
    } else {
        Result::Err(LexError::UnterminatedComment(loc_of(st2)))
    }
}

/// What comment skipping produces from a `/`: a `/=` token, a skipped
/// single-line or multi-line comment, or a failure when the character
/// after the `/` opens none of these.
pub open spec fn spec_skip_comment(src: Seq<char>, st: ScanState, multiline: bool) -> ScanResult {
    if multiline {
        spec_skip_mlc_phase(src, st)
    } else {
        let nxt = peek_or_nul(src, st.idx);
        if !(nxt == '/' || nxt == '*' || nxt == '=') {
            Result::Err(LexError::UnterminatedComment(loc_of(st)))
        } else {
            let st1 = spec_next(src, st);
            if src[st1.idx] == '=' {
                Result::Ok((st1, seq![tokv(TokenType::SlashEq, "/="@, st1)]))
            } else if src[st1.idx] == '*' {
                spec_skip_mlc_phase(src, st1)
            } else {
                Result::Ok((spec_scan_eol(src, st1), Seq::empty()))
            }
        }
    }
}

/// The scans only move the cursor forward.
pub proof fn lemma_scan_ident_mono(src: Seq<char>, st: ScanState, acc: Seq<char>)
    ensures
        spec_scan_ident(src, st, acc).0.idx >= st.idx,
        spec_scan_ident(src, st, acc).0.idx == st.idx || spec_scan_ident(src, st, acc).0.idx
            < src.len(),
    decreases src.len() - st.idx,
{
    if can_adv(src, st.idx) && ident_char(src[st.idx]) {
        lemma_scan_ident_mono(src, spec_next(src, st), acc.push(src[st.idx]));
    }
}

pub proof fn lemma_scan_num_mono(src: Seq<char>, st: ScanState, acc: Seq<char>, frac: bool)
    ensures
        spec_scan_num(src, st, acc, frac) matches Result::Ok(o) ==> o.0.idx >= st.idx && (o.0.idx
            == st.idx || o.0.idx < src.len()),
    decreases src.len() - st.idx,
{
    if can_adv(src, st.idx) && (digit_char(src[st.idx]) || src[st.idx] == '.') {
        if src[st.idx] == '.' {
            if !frac {
                lemma_scan_num_mono(src, spec_next(src, st), acc.push('.'), true);
            }
        } else {
            lemma_scan_num_mono(src, spec_next(src, st), acc.push(src[st.idx]), frac);
        }
    }
}

pub proof fn lemma_scan_str_mono(src: Seq<char>, st: ScanState, delim: char, acc: Seq<char>)
    ensures
        spec_scan_str(src, st, delim, acc).0.idx >= st.idx,
        spec_scan_str(src, st, delim, acc).0.idx == st.idx || spec_scan_str(
            src,
            st,
            delim,
            acc,
        ).0.idx < src.len(),
    decreases src.len() - st.idx,
{
    if src[st.idx] != delim && can_adv(src, st.idx) {
        if src[st.idx] == '\\' && peek_or_nul(src, st.idx) == delim {
            lemma_scan_str_mono(
                src,
                spec_next(src, spec_next(src, st)),
                delim,
                acc.push('\\').push(delim),
            );
        } else {
            lemma_scan_str_mono(src, spec_next(src, st), delim, acc.push(src[st.idx]));
        }
    }
}

pub proof fn lemma_scan_mlc_mono(src: Seq<char>, st: ScanState)
    ensures
        spec_scan_mlc(src, st).0.idx >= st.idx,
        spec_scan_mlc(src, st).0.idx == st.idx || spec_scan_mlc(src, st).0.idx < src.len(),
    decreases src.len() - st.idx,
{
    if can_adv(src, st.idx) && !spec_end_mlc(src, st.idx) {
        lemma_scan_mlc_mono(src, spec_next(src, st));
    }
}

pub proof fn lemma_scan_eol_mono(src: Seq<char>, st: ScanState)
    ensures
        spec_scan_eol(src, st).idx >= st.idx,
        spec_scan_eol(src, st).idx == st.idx || spec_scan_eol(src, st).idx < src.len(),
    decreases src.len() - st.idx,
{
    if can_adv(src, st.idx) && !nl(src[st.idx]) {
        lemma_scan_eol_mono(src, spec_next(src, st));
    }
}

/// Every scanning step leaves the cursor at or after where it began.
pub proof fn lemma_step_mono(src: Seq<char>, st: ScanState)
    ensures
        spec_lex_eq_st(src, st).idx >= st.idx,
        spec_lex_minus_st(src, st).idx >= st.idx,
        spec_lex_plus_st(src, st).idx >= st.idx,
        spec_lex_star_st(src, st).idx >= st.idx,
        spec_lex_ident(src, st).0.idx >= st.idx,
        spec_lex_ident(src, st).0.idx == st.idx || spec_lex_ident(src, st).0.idx < src.len(),
        spec_lex_number(src, st) matches Result::Ok(o) ==> o.0.idx >= st.idx && (o.0.idx == st.idx
            || o.0.idx < src.len()),
        spec_lex_string(src, st) matches Result::Ok(o) ==> o.0.idx >= st.idx && (o.0.idx == st.idx
            || o.0.idx < src.len()),
        spec_skip_comment(src, st, false) matches Result::Ok(o) ==> o.0.idx >= st.idx && (o.0.idx
            == st.idx || o.0.idx < src.len()),
        spec_comparison(src, st) matches Result::Ok(o) ==> o.0.idx >= st.idx && (o.0.idx == st.idx
            || o.0.idx < src.len()),
{
    lemma_scan_ident_mono(src, st, Seq::empty());
    if can_adv(src, st.idx) {
        lemma_scan_num_mono(src, spec_next(src, st), seq![src[st.idx]], false);
    }
    lemma_scan_str_mono(src, spec_next(src, st), src[st.idx], Seq::empty());
    let st1 = spec_next(src, st);
    lemma_scan_mlc_mono(src, st1);
    lemma_scan_eol_mono(src, st1);
}

/// Prefixes a token sequence onto the outcome of the rest of a scan.
pub open spec fn cons_toks(ts: Seq<TokenV>, r: ScanResult) -> ScanResult {
    match r {
        Result::Ok((st2, ts2)) => Result::Ok((st2, ts + ts2)),
        Result::Err(e) => Result::Err(e),
    }
}

/// The whole scan from one cursor position: dispatch on the current
/// character, emit that character's tokens, then go on until the cursor
/// reaches the last character. The end-of-input token is not included;
/// [`spec_lex_from`] appends it.
pub open spec fn spec_lex_go(src: Seq<char>, st: ScanState) -> ScanResult
    decreases src.len() - st.idx, 1int,
        via spec_lex_go_dec
{
    let c = src[st.idx];
    if c == '=' {
        spec_step(src, spec_lex_eq_st(src, st), seq![spec_eq_token(src, st)])
    } else if c == '&' {
        spec_step(src, st, seq![tokv(TokenType::And, "&"@, st)])
    } else if c == ';' {
        spec_step(src, st, seq![tokv(TokenType::Semi, ";"@, st)])
    } else if c == '.' {
        spec_step(src, st, seq![tokv(TokenType::Dot, "."@, st)])
    } else if c == ',' {
        spec_step(src, st, seq![tokv(TokenType::Comma, ","@, st)])
    } else if c == ':' {
        spec_step(src, st, seq![tokv(TokenType::Colon, ":"@, st)])
    } else if c == '@' {
        spec_step(src, st, seq![tokv(TokenType::At, "@"@, st)])
    } else if c == '$' {
        spec_step(src, st, seq![tokv(TokenType::Dollar, "$"@, st)])
    } else if c == '!' {
        spec_step(src, st, seq![tokv(TokenType::Exclamation, "!"@, st)])
    } else if c == '-' {
        spec_step(src, spec_lex_minus_st(src, st), seq![spec_minus_token(src, st)])
    } else if c == '+' {
        spec_step(src, spec_lex_plus_st(src, st), seq![spec_plus_token(src, st)])
    } else if c == '*' {
        spec_step(src, spec_lex_star_st(src, st), seq![spec_star_token(src, st)])
    } else if c == '^' {
        spec_step(src, st, seq![tokv(TokenType::Caret, "^"@, st)])
    } else if c == '?' {
        spec_step(src, st, seq![tokv(TokenType::QuestionMark, "?"@, st)])
    } else if c == '/' {
        match spec_skip_comment(src, st, false) {
            Result::Err(e) => Result::Err(e),
            Result::Ok((st1, ts)) => spec_step(src, st1, ts),
        }
    } else if c == '<' || c == '>' {
        match spec_comparison(src, st) {
            Result::Err(e) => Result::Err(e),
            Result::Ok((st1, ts)) => spec_step(src, st1, ts),
        }
    } else if c == '"' || c == '\'' {
        match spec_lex_string(src, st) {
            Result::Err(e) => Result::Err(e),
            Result::Ok((st1, t)) => spec_step(src, st1, seq![t]),
        }
    } else if space_char(c) {
        spec_step(src, st, Seq::empty())
    } else if c == '(' || c == ')' || c == '[' || c == ']' || c == '{' || c == '}' {
        match spec_enclosure_token(src, st) {
            Result::Err(e) => Result::Err(e),
            Result::Ok(t) => spec_step(src, st, seq![t]),
        }
    } else if digit_char(c) {
        match spec_lex_number(src, st) {
            Result::Err(e) => Result::Err(e),
            Result::Ok((st1, t)) => {
                if !can_adv(src, st1.idx) && !digit_char(src[st1.idx]) {
                    cons_toks(seq![t], spec_lex_go(src, st1))
                } else if !can_adv(src, st1.idx) {
                    Result::Ok((st1, seq![t]))
                } else {
                    cons_toks(seq![t], spec_lex_go(src, st1))
                }
            },
        }
    } else if ident_start_char(c) {
        let (st1, t) = spec_lex_ident(src, st);
        if !can_adv(src, st1.idx) && ident_char(src[st1.idx]) {
            Result::Ok((st1, seq![t]))
        } else if st1.idx > st.idx {
            cons_toks(seq![t], spec_lex_go(src, st1))
        } else {
            Result::Ok((st1, seq![t]))
        }
    } else {
        // An unrecognized character is silently skipped.
        spec_step(src, st, Seq::empty())
    }
}

/// The footer of one dispatch: stop on the last character, else advance
/// once and scan on.
pub open spec fn spec_step(src: Seq<char>, st: ScanState, ts: Seq<TokenV>) -> ScanResult
    decreases src.len() - st.idx, 0int,
{
    if !can_adv(src, st.idx) {
        Result::Ok((st, ts))
    } else {
        cons_toks(ts, spec_lex_go(src, spec_next(src, st)))
    }
}

#[via_fn]
proof fn spec_lex_go_dec(src: Seq<char>, st: ScanState) {
    lemma_step_mono(src, st);
    let c = src[st.idx];
    if digit_char(c) {
        if spec_lex_number(src, st) is Ok && can_adv(src, st.idx) {
            let st1 = spec_lex_number(src, st)->Ok_0.0;
            assert(st1.idx > st.idx) by {
                lemma_scan_num_mono(src, spec_next(src, st), seq![src[st.idx]], false);
            }
        }
    }
}

/// The whole remaining scan including the closing end-of-input token,
/// which sits one advance past where the scan stops.
pub open spec fn spec_lex_from(src: Seq<char>, st: ScanState) -> Result<Seq<TokenV>, LexError> {
    match spec_lex_go(src, st) {
        Result::Err(e) => Result::Err(e),
        Result::Ok((st1, ts)) => Result::Ok(ts.push(tokv(TokenType::Eof, ""@, spec_next(src, st1)))),
    }
}

/// What tokenizing a source text yields: its token sequence closed by the
/// end-of-input token, or the failure the scan runs into. The empty text
/// is rejected outright.
pub open spec fn spec_tokenize(src: Seq<char>) -> Result<Seq<TokenV>, LexError> {
    if src.len() == 0 {
        Result::Err(LexError::EmptySource)
    } else {
        spec_lex_from(src, ScanState { idx: 0, line: 1, col: 1 })
    }
}

impl Lexer {
    /// The footer of one dispatch of [`Lexer::lex_go`]: stop on the last
    /// character, else advance once and scan on. `st0` and `toks0` are the
    /// scan's entry cursor and tokens; `ts` is what the dispatch emitted.
    fn lex_footer(
        lexer: &mut Lexer,
        Ghost(toks0): Ghost<Seq<TokenV>>,
        Ghost(ts): Ghost<Seq<TokenV>>,
    ) -> (r: Result<(), LexError>)
        requires
            old(lexer).wf0(),
            old(lexer).pos_loose(1),
            can_adv(old(lexer).src@, old(lexer).idx as int) ==> old(lexer).pos_ok(),
            toks_of(old(lexer).tokens@) == toks0 + ts,
        ensures
            final(lexer).wf0(),
            final(lexer).pos_loose(1),
            can_adv(final(lexer).src@, final(lexer).idx as int) ==> final(lexer).pos_ok(),
            final(lexer).src == old(lexer).src,
            match spec_step(old(lexer).src@, st_of(*old(lexer)), ts) {
                Result::Ok((st2, ts2)) => r is Ok && st_of(*final(lexer)) == st2 && toks_of(
                    final(lexer).tokens@,
                ) == toks0 + ts2,
                Result::Err(e) => r == Result::<(), LexError>::Err(e),
            },
        decreases old(lexer).src.len() - old(lexer).idx, 0int,
    {
        if !lexer.can_advance() {
            return Ok(());
        }
        Lexer::next(lexer);
        let ghost mid = st_of(*lexer);
        let r = Lexer::lex_go(lexer);
        proof {
            if spec_lex_go(lexer.src@, mid) is Ok {
                let ts2 = spec_lex_go(lexer.src@, mid)->Ok_0.1;
                vstd::seq_lib::lemma_concat_associative(toks0, ts, ts2);
            }
        }
        r
    }

    /// One dispatch of the scan on the current character, followed by the
    /// rest of the scan. Emits that character's tokens and recurses until
    /// the cursor rests on the last character.
    #[verifier::rlimit(100)]
    #[verifier::spinoff_prover]
    fn lex_go(lexer: &mut Lexer) -> (r: Result<(), LexError>)
        requires
            old(lexer).wf0(),
            old(lexer).pos_ok(),
        ensures
            final(lexer).wf0(),
            final(lexer).pos_loose(1),
            can_adv(final(lexer).src@, final(lexer).idx as int) ==> final(lexer).pos_ok(),
            final(lexer).src == old(lexer).src,
            match spec_lex_go(old(lexer).src@, st_of(*old(lexer))) {
                Result::Ok((st1, ts)) => r is Ok && st_of(*final(lexer)) == st1 && toks_of(
                    final(lexer).tokens@,
                ) == toks_of(old(lexer).tokens@) + ts,
                Result::Err(e) => r == Result::<(), LexError>::Err(e),
            },
        decreases old(lexer).src.len() - old(lexer).idx, 1int,
    {
        let ghost src_g = lexer.src@;
        let ghost st0 = st_of(*lexer);
        let ghost toks0 = toks_of(lexer.tokens@);
        proof {
            lemma_step_mono(src_g, st0);
        }

        match lexer.c {
            '=' => {
                Lexer::lex_eq(lexer);
                proof {
                    assert(toks_of(lexer.tokens@) =~= toks0 + seq![spec_eq_token(src_g, st0)]);
                }
                {
                    let ghost ts_a: Seq<TokenV> = seq![spec_eq_token(src_g, st0)];
                    Lexer::lex_footer(lexer, Ghost(toks0), Ghost(ts_a))
                }
            },
            '&' => {
                Lexer::lex_and(lexer);
                proof {
                    assert(toks_of(lexer.tokens@) =~= toks0 + seq![
                        tokv(TokenType::And, "&"@, st0),
                    ]);
                }
                {
                    let ghost ts_a: Seq<TokenV> = seq![tokv(TokenType::And, "&"@, st0)];
                    Lexer::lex_footer(lexer, Ghost(toks0), Ghost(ts_a))
                }
            },
            ';' => {
                Lexer::lex_semi(lexer);
                proof {
                    assert(toks_of(lexer.tokens@) =~= toks0 + seq![
                        tokv(TokenType::Semi, ";"@, st0),
                    ]);
                }
                {
                    let ghost ts_a: Seq<TokenV> = seq![tokv(TokenType::Semi, ";"@, st0)];
                    Lexer::lex_footer(lexer, Ghost(toks0), Ghost(ts_a))
                }
            },
            '.' => {
                Lexer::lex_dot(lexer);
                proof {
                    assert(toks_of(lexer.tokens@) =~= toks0 + seq![
                        tokv(TokenType::Dot, "."@, st0),
                    ]);
                }
                {
                    let ghost ts_a: Seq<TokenV> = seq![tokv(TokenType::Dot, "."@, st0)];
                    Lexer::lex_footer(lexer, Ghost(toks0), Ghost(ts_a))
                }
            },
            ',' => {
                Lexer::lex_comma(lexer);
                proof {
                    assert(toks_of(lexer.tokens@) =~= toks0 + seq![
                        tokv(TokenType::Comma, ","@, st0),
                    ]);
                }
                {
                    let ghost ts_a: Seq<TokenV> = seq![tokv(TokenType::Comma, ","@, st0)];
                    Lexer::lex_footer(lexer, Ghost(toks0), Ghost(ts_a))
                }
            },
            ':' => {
                Lexer::lex_colon(lexer);
                proof {
                    assert(toks_of(lexer.tokens@) =~= toks0 + seq![
                        tokv(TokenType::Colon, ":"@, st0),
                    ]);
                }
                {
                    let ghost ts_a: Seq<TokenV> = seq![tokv(TokenType::Colon, ":"@, st0)];
                    Lexer::lex_footer(lexer, Ghost(toks0), Ghost(ts_a))
                }
            },
            '@' => {
                Lexer::lex_at(lexer);
                proof {
                    assert(toks_of(lexer.tokens@) =~= toks0 + seq![tokv(TokenType::At, "@"@, st0)]);
                }
                {
                    let ghost ts_a: Seq<TokenV> = seq![tokv(TokenType::At, "@"@, st0)];
                    Lexer::lex_footer(lexer, Ghost(toks0), Ghost(ts_a))
                }
            },
            '$' => {
                Lexer::lex_dollar(lexer);
                proof {
                    assert(toks_of(lexer.tokens@) =~= toks0 + seq![
                        tokv(TokenType::Dollar, "$"@, st0),
                    ]);
                }
                {
                    let ghost ts_a: Seq<TokenV> = seq![tokv(TokenType::Dollar, "$"@, st0)];
                    Lexer::lex_footer(lexer, Ghost(toks0), Ghost(ts_a))
                }
            },
            '!' => {
                Lexer::lex_exclamation(lexer);
                proof {
                    assert(toks_of(lexer.tokens@) =~= toks0 + seq![
                        tokv(TokenType::Exclamation, "!"@, st0),
                    ]);
                }
                {
                    let ghost ts_a: Seq<TokenV> = seq![tokv(TokenType::Exclamation, "!"@, st0)];
                    Lexer::lex_footer(lexer, Ghost(toks0), Ghost(ts_a))
                }
            },
            '-' => {
                Lexer::lex_minus(lexer);
                proof {
                    assert(toks_of(lexer.tokens@) =~= toks0 + seq![spec_minus_token(src_g, st0)]);
                }
                {
                    let ghost ts_a: Seq<TokenV> = seq![spec_minus_token(src_g, st0)];
                    Lexer::lex_footer(lexer, Ghost(toks0), Ghost(ts_a))
                }
            },
            '+' => {
                Lexer::lex_plus(lexer);
                proof {
                    assert(toks_of(lexer.tokens@) =~= toks0 + seq![spec_plus_token(src_g, st0)]);
                }
                {
                    let ghost ts_a: Seq<TokenV> = seq![spec_plus_token(src_g, st0)];
                    Lexer::lex_footer(lexer, Ghost(toks0), Ghost(ts_a))
                }
            },
            '*' => {
                Lexer::lex_star(lexer);
                proof {
                    assert(toks_of(lexer.tokens@) =~= toks0 + seq![spec_star_token(src_g, st0)]);
                }
                {
                    let ghost ts_a: Seq<TokenV> = seq![spec_star_token(src_g, st0)];
                    Lexer::lex_footer(lexer, Ghost(toks0), Ghost(ts_a))
                }
            },
            '^' => {
                Lexer::lex_caret(lexer);
                proof {
                    assert(toks_of(lexer.tokens@) =~= toks0 + seq![
                        tokv(TokenType::Caret, "^"@, st0),
                    ]);
                }
                {
                    let ghost ts_a: Seq<TokenV> = seq![tokv(TokenType::Caret, "^"@, st0)];
                    Lexer::lex_footer(lexer, Ghost(toks0), Ghost(ts_a))
                }
            },
            '?' => {
                Lexer::lex_question_mark(lexer);
                proof {
                    assert(toks_of(lexer.tokens@) =~= toks0 + seq![
                        tokv(TokenType::QuestionMark, "?"@, st0),
                    ]);
                }
                {
                    let ghost ts_a: Seq<TokenV> = seq![tokv(TokenType::QuestionMark, "?"@, st0)];
                    Lexer::lex_footer(lexer, Ghost(toks0), Ghost(ts_a))
                }
            },
            '/' => {
                Lexer::skip_comment(lexer, false)?;
                let ghost ts = spec_skip_comment(src_g, st0, false)->Ok_0.1;
                Lexer::lex_footer(lexer, Ghost(toks0), Ghost(ts))
            },
            '<' | '>' => {
                Lexer::lex_comparison(lexer)?;
                let ghost ts = spec_comparison(src_g, st0)->Ok_0.1;
                Lexer::lex_footer(lexer, Ghost(toks0), Ghost(ts))
            },
            '"' | '\'' => {
                Lexer::lex_string(lexer)?;
                let ghost t = spec_lex_string(src_g, st0)->Ok_0.1;
                proof {
                    assert(toks_of(lexer.tokens@) =~= toks0 + seq![t]);
                }
                {
                    let ghost ts_a: Seq<TokenV> = seq![t];
                    Lexer::lex_footer(lexer, Ghost(toks0), Ghost(ts_a))
                }
            },
            ' ' | '\n' | '\r' => {
                proof {
                    assert(toks_of(lexer.tokens@) =~= toks0 + Seq::<TokenV>::empty());
                }
                {
                    let ghost ts_a: Seq<TokenV> = Seq::empty();
                    Lexer::lex_footer(lexer, Ghost(toks0), Ghost(ts_a))
                }
            },
            '(' | ')' | '[' | ']' | '{' | '}' => {
                Lexer::lex_enclosures(lexer)?;
                let ghost t = spec_enclosure_token(src_g, st0)->Ok_0;
                proof {
                    assert(toks_of(lexer.tokens@) =~= toks0 + seq![t]);
                }
                {
                    let ghost ts_a: Seq<TokenV> = seq![t];
                    Lexer::lex_footer(lexer, Ghost(toks0), Ghost(ts_a))
                }
            },
            _ => {
                let is_digit = '0' <= lexer.c && lexer.c <= '9';
                if is_digit {
                    Lexer::lex_number(lexer)?;
                    let ghost t = spec_lex_number(src_g, st0)->Ok_0.1;
                    proof {
                        if can_adv(src_g, st0.idx) {
                            lemma_scan_num_mono(
                                src_g,
                                spec_next(src_g, st0),
                                seq![src_g[st0.idx]],
                                false,
                            );
                        }
                    }
                    let again_digit = '0' <= lexer.c && lexer.c <= '9';
                    if !lexer.can_advance() && again_digit {
                        proof {
                            assert(toks_of(lexer.tokens@) =~= toks0 + seq![t]);
                        }
                        return Ok(());
                    }
                    let r = Lexer::lex_go(lexer);
                    proof {
                        if spec_lex_go(src_g, st_of(*lexer)) is Ok {
                            let ts2 = spec_lex_go(src_g, st_of(*lexer))->Ok_0.1;
                            assert(toks0 + (seq![t] + ts2) =~= (toks0 + seq![t]) + ts2);
                            assert((toks0 + seq![t]) =~= toks0.push(t));
                        }
                    }
                    r
                } else if lexer.c.is_alphabetic() || lexer.c == '_' {
                    let idx0 = lexer.idx;
                    Lexer::lex_ident(lexer);
                    let ghost t = spec_lex_ident(src_g, st0).1;
                    if !lexer.can_advance() && Lexer::can_be_ident(lexer.c) {
                        proof {
                            assert(toks_of(lexer.tokens@) =~= toks0 + seq![t]);
                        }
                        return Ok(());
                    }
                    if lexer.idx > idx0 {
                        let r = Lexer::lex_go(lexer);
                        proof {
                            if spec_lex_go(src_g, st_of(*lexer)) is Ok {
                                let ts2 = spec_lex_go(src_g, st_of(*lexer))->Ok_0.1;
                                assert(toks0 + (seq![t] + ts2) =~= (toks0 + seq![t]) + ts2);
                                assert((toks0 + seq![t]) =~= toks0.push(t));
                            }
                        }
                        return r;
                    }
                    proof {
                        assert(toks_of(lexer.tokens@) =~= toks0 + seq![t]);
                    }
                    Ok(())
                } else {
                    // An unrecognized character is silently skipped.
                    proof {
                        assert(toks_of(lexer.tokens@) =~= toks0 + Seq::<TokenV>::empty());
                    }
                    {
                    let ghost ts_a: Seq<TokenV> = Seq::empty();
                    Lexer::lex_footer(lexer, Ghost(toks0), Ghost(ts_a))
                }
                }
            },
        }
    }

    /// Lexes the text attached to this lexer: the whole token sequence of
    /// the source, closed by an end-of-input token one advance past where
    /// the scan stops. The tokens also remain on `self.tokens`.
    ///
    /// Fails exactly when the scan runs into a lexing failure.
    pub fn lex(&mut self) -> (r: Result<Vec<Token>, LexError>)
        requires
            old(self).wf0(),
            old(self).pos_ok(),
        ensures
            final(self).wf0(),
            final(self).src == old(self).src,
            match spec_lex_from(old(self).src@, st_of(*old(self))) {
                Result::Ok(ts) => r is Ok && toks_of(r->Ok_0@) == toks_of(old(self).tokens@) + ts
                    && toks_of(final(self).tokens@) == toks_of(old(self).tokens@) + ts,
                Result::Err(e) => r == Result::<Vec<Token>, LexError>::Err(e),
            },
    {
        let ghost src_g = self.src@;
        let ghost st0 = st_of(*self);
        let ghost toks0 = toks_of(self.tokens@);

        Lexer::lex_go(self)?;
        Lexer::next(self);
        let ghost ts_body = spec_lex_go(src_g, st0)->Ok_0.1;
        let ghost eof = tokv(TokenType::Eof, ""@, st_of(*self));
        Lexer::emit(self, TokenType::Eof, "");
        proof {
            assert(toks_of(self.tokens@) =~= toks0 + ts_body.push(eof));
        }

        let out = self.tokens.clone();
        proof {
            assert(toks_of(out@) =~= toks_of(self.tokens@));
        }
        Ok(out)
    }
}

/// Tokenizes a source text from scratch: the token sequence of the text,
/// closed by an end-of-input token, or the failure the scan runs into.
pub fn tokenize(src: &str) -> (r: Result<Vec<Token>, LexError>)
    requires
        src@.len() <= usize::MAX - 8,
    ensures
        match spec_tokenize(src@) {
            Result::Ok(ts) => r is Ok && toks_of(r->Ok_0@) == ts,
            Result::Err(e) => r == Result::<Vec<Token>, LexError>::Err(e),
        },
{
    let mut lexer = match Lexer::new(src) {
        Ok(l) => l,
        Err(e) => {
            return Err(e);
        },
    };
    let r = lexer.lex();
    proof {
        if spec_tokenize(src@) is Ok {
            let ts = spec_tokenize(src@)->Ok_0;
            assert(toks_of(Seq::<Token>::empty()) + ts =~= ts);
        }
    }
    r
}

/// Returns true if the character is a newline.
pub fn is_newline(c: char) -> (r: bool)
    ensures
        r == nl(c),
{
    c == '\n' || c == '\r'
}

/// Tokenizing is deterministic: the token sequence is a mathematical
/// function of the source text alone, so two runs on identical sources
/// yield identical outcomes.
pub proof fn lemma_tokenize_deterministic(s1: Seq<char>, s2: Seq<char>)
    requires
        s1 == s2,
    ensures
        spec_tokenize(s1) == spec_tokenize(s2),
{
}

/// Every successful tokenizing ends in the end-of-input token: it is the
/// last token, its text is empty, and it sits one advance past the cursor
/// position where the scan stopped.
pub proof fn lemma_tokenize_ends_with_eof(src: Seq<char>)
    requires
        spec_tokenize(src) is Ok,
    ensures
        spec_tokenize(src)->Ok_0.len() >= 1,
        spec_tokenize(src)->Ok_0.last() == tokv(
            TokenType::Eof,
            ""@,
            spec_next(src, spec_lex_go(src, ScanState { idx: 0, line: 1, col: 1 })->Ok_0.0),
        ),
{
}

/// The kind of the token emitted for each two-character operator prefix
/// (`=`, `-`, `+`, `*`, `<`, `>`) depends only on the current character
/// and the one after it, never on earlier context.
pub proof fn lemma_two_char_op_local(src1: Seq<char>, st1: ScanState, src2: Seq<char>, st2: ScanState)
    requires
        src1[st1.idx] == src2[st2.idx],
        peek_or_nul(src1, st1.idx) == peek_or_nul(src2, st2.idx),
    ensures
        spec_eq_token(src1, st1).typ == spec_eq_token(src2, st2).typ,
        spec_minus_token(src1, st1).typ == spec_minus_token(src2, st2).typ,
        spec_plus_token(src1, st1).typ == spec_plus_token(src2, st2).typ,
        spec_star_token(src1, st1).typ == spec_star_token(src2, st2).typ,
        spec_comparison(src1, st1) is Ok <==> spec_comparison(src2, st2) is Ok,
        spec_comparison(src1, st1) is Ok ==> spec_comparison(src1, st1)->Ok_0.1[0].typ
            == spec_comparison(src2, st2)->Ok_0.1[0].typ,
{
}

impl Lexer {
    /// Accumulates identifier characters into `name` while the cursor can
    /// advance.
    fn scan_ident(lexer: &mut Lexer, name: &mut String)
        requires
            old(lexer).wf0(),
            old(lexer).pos_ok(),
        ensures
            final(lexer).wf0(),
            final(lexer).pos_ok(),
            final(lexer).src == old(lexer).src,
            final(lexer).tokens == old(lexer).tokens,
            ({
                let (st1, acc) = spec_scan_ident(old(lexer).src@, st_of(*old(lexer)), old(name)@);
                st_of(*final(lexer)) == st1 && final(name)@ == acc
            }),
        decreases old(lexer).src.len() - old(lexer).idx,
    {
        if lexer.can_advance() && Lexer::can_be_ident(lexer.c) {
            name.push(lexer.c);
            Lexer::next(lexer);
            Lexer::scan_ident(lexer, name);
        }
    }

    /// Generate an `Ident` token, push to the stack, and advance. A
    /// reserved word is rewritten to a `Keyword` token, keeping its text.
    pub fn lex_ident(lexer: &mut Lexer)
        requires
            old(lexer).wf0(),
            old(lexer).pos_ok(),
        ensures
            final(lexer).wf0(),
            final(lexer).pos_ok(),
            final(lexer).src == old(lexer).src,
            st_of(*final(lexer)) == spec_lex_ident(old(lexer).src@, st_of(*old(lexer))).0,
            toks_of(final(lexer).tokens@) == toks_of(old(lexer).tokens@).push(
                spec_lex_ident(old(lexer).src@, st_of(*old(lexer))).1,
            ),
    {
        let line0 = lexer.line;
        let col0 = lexer.col;
        let mut name = String::new();

        Lexer::scan_ident(lexer, &mut name);

        if !lexer.can_advance() && Lexer::can_be_ident(lexer.c) {
            name.push(lexer.c);
        }

        let reserved = name == String::from_str("if") || name == String::from_str("in") || name
            == String::from_str("is") || name == String::from_str("break") || name
            == String::from_str("return") || name == String::from_str("let") || name
            == String::from_str("else") || name == String::from_str("const") || name
            == String::from_str("for") || name == String::from_str("while");
        let typ = if reserved {
            TokenType::Keyword
        } else {
            TokenType::Ident
        };

        let ghost toks0 = lexer.tokens@;
        let ghost target = spec_lex_ident(old(lexer).src@, st_of(*old(lexer))).1;
        let token = Token::with_value_at(typ, name, line0, col0);
        proof {
            assert(token@ == target);
        }
        lexer.tokens.push(token);
        proof {
            assert(toks_of(lexer.tokens@) =~= toks_of(toks0).push(target));
        }
    }

    /// Accumulates digits and at most one `.` into `digits` while the
    /// cursor can advance; fails on a second `.`.
    fn scan_number(lexer: &mut Lexer, digits: &mut String, frac: &mut bool) -> (r: Result<
        (),
        LexError,
    >)
        requires
            old(lexer).wf0(),
            old(lexer).pos_ok(),
        ensures
            final(lexer).wf0(),
            final(lexer).pos_ok(),
            final(lexer).src == old(lexer).src,
            final(lexer).tokens == old(lexer).tokens,
            match spec_scan_num(old(lexer).src@, st_of(*old(lexer)), old(digits)@, *old(frac)) {
                Result::Ok((st1, acc, f)) => r is Ok && st_of(*final(lexer)) == st1
                    && final(digits)@ == acc && *final(frac) == f,
                Result::Err(e) => r == Result::<(), LexError>::Err(e),
            },
        decreases old(lexer).src.len() - old(lexer).idx,
    {
        let is_digit = '0' <= lexer.c && lexer.c <= '9';
        if lexer.can_advance() && (is_digit || lexer.c == '.') {
            if lexer.c == '.' {
                if *frac {
                    // A second dot cannot belong to the literal.
                    return Err(LexError::InvalidNumber(Loc::at(lexer.line, lexer.col)));
                }
                *frac = true;
            }
            digits.push(lexer.c);
            Lexer::next(lexer);
            Lexer::scan_number(lexer, digits, frac)
        } else {
            Ok(())
        }
    }

    /// Generate a numeric-literal token, push to the stack, and advance.
    ///
    /// Fails exactly when the literal holds a second `.`, at the position
    /// of that dot.
    pub fn lex_number(lexer: &mut Lexer) -> (r: Result<(), LexError>)
        requires
            old(lexer).wf0(),
            old(lexer).pos_ok(),
        ensures
            final(lexer).wf0(),
            final(lexer).pos_loose(1),
            can_adv(final(lexer).src@, final(lexer).idx as int) ==> final(lexer).pos_ok(),
            can_adv(old(lexer).src@, old(lexer).idx as int) ==> final(lexer).pos_ok(),
            final(lexer).src == old(lexer).src,
            match spec_lex_number(old(lexer).src@, st_of(*old(lexer))) {
                Result::Ok((st1, t)) => r is Ok && st_of(*final(lexer)) == st1 && toks_of(
                    final(lexer).tokens@,
                ) == toks_of(old(lexer).tokens@).push(t),
                Result::Err(e) => r == Result::<(), LexError>::Err(e) && final(lexer).tokens
                    == old(lexer).tokens,
            },
    {
        let line0 = lexer.line;
        let col0 = lexer.col;
        let mut digits = String::new();
        let mut frac = false;

        digits.push(lexer.c);
        let had_more = lexer.can_advance();
        Lexer::next(lexer);

        if had_more {
            Lexer::scan_number(lexer, &mut digits, &mut frac)?;

            let last_digit = '0' <= lexer.c && lexer.c <= '9';
            if !lexer.can_advance() && last_digit {
                digits.push(lexer.c);
            }
        }

        let ghost toks0 = lexer.tokens@;
        let ghost target = spec_lex_number(old(lexer).src@, st_of(*old(lexer)))->Ok_0.1;
        let token = Token::with_value_at(TokenType::NumLiteral(frac), digits, line0, col0);
        proof {
            assert(token@ == target);
        }
        lexer.tokens.push(token);
        proof {
            assert(toks_of(lexer.tokens@) =~= toks_of(toks0).push(target));
        }
        Ok(())
    }

    /// Accumulates string content into `content` until the delimiter,
    /// keeping a backslash-escaped delimiter verbatim.
    fn scan_string(lexer: &mut Lexer, content: &mut String, delim: char)
        requires
            old(lexer).wf0(),
            old(lexer).pos_loose(1),
            can_adv(old(lexer).src@, old(lexer).idx as int) ==> old(lexer).pos_ok(),
        ensures
            final(lexer).wf0(),
            final(lexer).pos_loose(1),
            can_adv(final(lexer).src@, final(lexer).idx as int) ==> final(lexer).pos_ok(),
            final(lexer).src == old(lexer).src,
            final(lexer).tokens == old(lexer).tokens,
            ({
                let (st1, acc) = spec_scan_str(
                    old(lexer).src@,
                    st_of(*old(lexer)),
                    delim,
                    old(content)@,
                );
                st_of(*final(lexer)) == st1 && final(content)@ == acc
            }),
        decreases old(lexer).src.len() - old(lexer).idx,
    {
        if lexer.c != delim && lexer.can_advance() {
            let escaped = lexer.c == '\\' && match lexer.peek(1) {
                Some(c) => c == delim,
                None => false,
            };
            if escaped {
                // Keep the escape and the delimiter verbatim.
                content.push(lexer.c);
                content.push(delim);
                Lexer::next(lexer);
                Lexer::next(lexer);
            } else {
                content.push(lexer.c);
                Lexer::next(lexer);
            }
            Lexer::scan_string(lexer, content, delim);
        }
    }

    /// Lexes a string token from the current position, and adds it to the
    /// lexer's internal token stack. The token is located at the opening
    /// delimiter and its text holds the content without the delimiters.
    ///
    /// Fails exactly when the string is never closed.
    pub fn lex_string(lexer: &mut Lexer) -> (r: Result<(), LexError>)
        requires
            old(lexer).wf0(),
            old(lexer).pos_ok(),
        ensures
            final(lexer).wf0(),
            final(lexer).pos_loose(1),
            can_adv(final(lexer).src@, final(lexer).idx as int) ==> final(lexer).pos_ok(),
            final(lexer).src == old(lexer).src,
            match spec_lex_string(old(lexer).src@, st_of(*old(lexer))) {
                Result::Ok((st1, t)) => r is Ok && st_of(*final(lexer)) == st1 && toks_of(
                    final(lexer).tokens@,
                ) == toks_of(old(lexer).tokens@).push(t),
                Result::Err(e) => r == Result::<(), LexError>::Err(e) && final(lexer).tokens
                    == old(lexer).tokens,
            },
    {
        let line0 = lexer.line;
        let col0 = lexer.col;
        let mut content = String::new();
        let delim = lexer.c;

        Lexer::next(lexer);
        Lexer::scan_string(lexer, &mut content, delim);

        if lexer.c == delim {
            let ghost toks0 = lexer.tokens@;
            let ghost target = spec_lex_string(old(lexer).src@, st_of(*old(lexer)))->Ok_0.1;
            let token = Token::with_value_at(TokenType::StrLiteral, content, line0, col0);
            proof {
                assert(token@ == target);
            }
            lexer.tokens.push(token);
            proof {
                assert(toks_of(lexer.tokens@) =~= toks_of(toks0).push(target));
            }
            Ok(())
        } else {
            // We never closed the quote.
            Err(LexError::UnterminatedString { delimiter: delim, loc: Loc::at(lexer.line, lexer.col) })
        }
    }

    /// Advances until the closing `*/` of a multi-line comment and steps
    /// past it; reports whether the closing was found.
    fn scan_multiline_end(lexer: &mut Lexer) -> (found: bool)
        requires
            old(lexer).wf0(),
            old(lexer).pos_ok(),
        ensures
            final(lexer).wf0(),
            final(lexer).pos_loose(1),
            can_adv(final(lexer).src@, final(lexer).idx as int) ==> final(lexer).pos_ok(),
            final(lexer).src == old(lexer).src,
            final(lexer).tokens == old(lexer).tokens,
            ({
                let (st1, f) = spec_scan_mlc(old(lexer).src@, st_of(*old(lexer)));
                st_of(*final(lexer)) == st1 && found == f
            }),
        decreases old(lexer).src.len() - old(lexer).idx,
    {
        if lexer.can_advance() {
            if Lexer::end_multiline_comment(lexer) {
                Lexer::next(lexer);
                Lexer::next(lexer);
                true
            } else {
                Lexer::next(lexer);
                Lexer::scan_multiline_end(lexer)
            }
        } else {
            false
        }
    }

    /// Advances to the end of the current line, or to the last character.
    fn scan_line_end(lexer: &mut Lexer)
        requires
            old(lexer).wf0(),
            old(lexer).pos_ok(),
        ensures
            final(lexer).wf0(),
            final(lexer).pos_ok(),
            final(lexer).src == old(lexer).src,
            final(lexer).tokens == old(lexer).tokens,
            st_of(*final(lexer)) == spec_scan_eol(old(lexer).src@, st_of(*old(lexer))),
        decreases old(lexer).src.len() - old(lexer).idx,
    {
        if lexer.can_advance() && !Lexer::is_newline(lexer.c) {
            Lexer::next(lexer);
            Lexer::scan_line_end(lexer);
        }
    }

    /// Advances the current index/char until it is no longer a comment.
    /// From a `/` this skips a `//` comment to its line end, skips a
    /// `/*` comment past the first `*/`, or emits a `/=` token.
    ///
    /// Fails exactly when the character after the `/` opens none of
    /// these, or a multi-line comment is never closed.
    pub fn skip_comment(lexer: &mut Lexer, multiline: bool) -> (r: Result<(), LexError>)
        requires
            old(lexer).wf0(),
            old(lexer).pos_ok(),
        ensures
            final(lexer).wf0(),
            final(lexer).pos_loose(1),
            can_adv(final(lexer).src@, final(lexer).idx as int) ==> final(lexer).pos_ok(),
            final(lexer).src == old(lexer).src,
            match spec_skip_comment(old(lexer).src@, st_of(*old(lexer)), multiline) {
                Result::Ok((st1, ts)) => r is Ok && st_of(*final(lexer)) == st1 && toks_of(
                    final(lexer).tokens@,
                ) == toks_of(old(lexer).tokens@) + ts,
                Result::Err(e) => r == Result::<(), LexError>::Err(e) && final(lexer).tokens
                    == old(lexer).tokens,
            },
    {
        if multiline {
            let found = Lexer::scan_multiline_end(lexer);
            if found {
                proof {
                    assert(toks_of(lexer.tokens@) =~= toks_of(lexer.tokens@) + Seq::<
                        TokenV,
                    >::empty());
                }
                return Ok(());
            }
            return Err(LexError::UnterminatedComment(Loc::at(lexer.line, lexer.col)));
        }

        let nxt = match lexer.peek(1) {
            Some(c) => c,
            None => '\0',
        };
        if nxt != '/' && nxt != '*' && nxt != '=' {
            return Err(LexError::UnterminatedComment(Loc::at(lexer.line, lexer.col)));
        }

        Lexer::next(lexer);

        if lexer.c == '=' {
            // This is a /= not a comment.
            let ghost toks0 = lexer.tokens@;
            Lexer::emit(lexer, TokenType::SlashEq, "/=");
            proof {
                assert(toks_of(lexer.tokens@) =~= toks_of(toks0) + seq![
                    tokv(TokenType::SlashEq, "/="@, st_of(*lexer)),
                ]);
            }
            Ok(())
        } else if lexer.c == '*' {
            // We are starting a multi-line comment.
            let found = Lexer::scan_multiline_end(lexer);
            if found {
                proof {
                    assert(toks_of(lexer.tokens@) =~= toks_of(lexer.tokens@) + Seq::<
                        TokenV,
                    >::empty());
                }
                Ok(())
            } else {
                Err(LexError::UnterminatedComment(Loc::at(lexer.line, lexer.col)))
            }
        } else {
            // This is a single-line comment.
            Lexer::scan_line_end(lexer);
            proof {
                assert(toks_of(lexer.tokens@) =~= toks_of(lexer.tokens@) + Seq::<TokenV>::empty());
            }
            Ok(())
        }
    }
}

/// The token that lexing an enclosure character produces, or the failure
/// for a character that is no enclosure.
pub open spec fn spec_enclosure_token(src: Seq<char>, st: ScanState) -> Result<TokenV, LexError> {
    let c = src[st.idx];
    if c == '(' {
        Result::Ok(tokv(TokenType::LParen, "("@, st))
    } else if c == ')' {
        Result::Ok(tokv(TokenType::RParen, ")"@, st))
    } else if c == '[' {
        Result::Ok(tokv(TokenType::LBracket, "["@, st))
    } else if c == ']' {
        Result::Ok(tokv(TokenType::RBracket, "]"@, st))
    } else if c == '{' {
        Result::Ok(tokv(TokenType::LBrace, "{"@, st))
    } else if c == '}' {
        Result::Ok(tokv(TokenType::RBrace, "}"@, st))
    } else {
        Result::Err(
            LexError::UnexpectedEnclosure {
                ch: c,
                loc: Loc { line: st.line as usize, col: st.col as usize },
            },
        )
    }
}

/// What lexing a comparison character produces: the token it emits and the
/// cursor after it, or the failure for a character that is no comparison.
pub open spec fn spec_comparison(src: Seq<char>, st: ScanState) -> ScanResult {
    let c = src[st.idx];
    let nxt = peek_or_nul(src, st.idx);
    if c == '<' {
        if nxt == '=' {
            Result::Ok((spec_next(src, st), seq![tokv(TokenType::Lte, "<="@, st)]))
        } else {
            Result::Ok((st, seq![tokv(TokenType::Lt, "<"@, st)]))
        }
    } else if c == '>' {
        if nxt == '=' {
            Result::Ok((spec_next(src, st), seq![tokv(TokenType::Gte, ">="@, st)]))
        } else {
            Result::Ok((st, seq![tokv(TokenType::Gt, ">"@, st)]))
        }
    } else {
        Result::Err(
            LexError::UnexpectedEnclosure {
                ch: c,
                loc: Loc { line: st.line as usize, col: st.col as usize },
            },
        )
    }
}

impl Lexer {
    /// Pushes a token of the given kind and text at the current position.
    fn emit(lexer: &mut Lexer, typ: TokenType, text: &str)
        requires
            old(lexer).wf0(),
        ensures
            final(lexer).wf0(),
            final(lexer).src == old(lexer).src,
            final(lexer).idx == old(lexer).idx,
            final(lexer).line == old(lexer).line,
            final(lexer).col == old(lexer).col,
            final(lexer).c == old(lexer).c,
            final(lexer).pos_ok() == old(lexer).pos_ok(),
            toks_of(final(lexer).tokens@) == toks_of(old(lexer).tokens@).push(
                tokv(typ, text@, st_of(*old(lexer))),
            ),
    {
        let token = Token::with_value_at(typ, String::from_str(text), lexer.line, lexer.col);
        let ghost toks0 = lexer.tokens@;
        lexer.tokens.push(token);
        proof {
            assert(toks_of(lexer.tokens@) =~= toks_of(toks0).push(
                tokv(typ, text@, st_of(*lexer)),
            ));
        }
    }

    /// Generate a `Semi` token, push to the stack.
    pub fn lex_semi(lexer: &mut Lexer)
        requires
            old(lexer).wf0(),
        ensures
            final(lexer).wf0(),
            final(lexer).src == old(lexer).src,
            st_of(*final(lexer)) == st_of(*old(lexer)),
            final(lexer).c == old(lexer).c,
            final(lexer).pos_ok() == old(lexer).pos_ok(),
            toks_of(final(lexer).tokens@) == toks_of(old(lexer).tokens@).push(
                tokv(TokenType::Semi, ";"@, st_of(*old(lexer))),
            ),
    {
        Lexer::emit(lexer, TokenType::Semi, ";");
    }

    /// Generate a `Dot` token, push to the stack.
    pub fn lex_dot(lexer: &mut Lexer)
        requires
            old(lexer).wf0(),
        ensures
            final(lexer).wf0(),
            final(lexer).src == old(lexer).src,
            st_of(*final(lexer)) == st_of(*old(lexer)),
            final(lexer).c == old(lexer).c,
            final(lexer).pos_ok() == old(lexer).pos_ok(),
            toks_of(final(lexer).tokens@) == toks_of(old(lexer).tokens@).push(
                tokv(TokenType::Dot, "."@, st_of(*old(lexer))),
            ),
    {
        Lexer::emit(lexer, TokenType::Dot, ".");
    }

    /// Generate a `Comma` token, push to the stack.
    pub fn lex_comma(lexer: &mut Lexer)
        requires
            old(lexer).wf0(),
        ensures
            final(lexer).wf0(),
            final(lexer).src == old(lexer).src,
            st_of(*final(lexer)) == st_of(*old(lexer)),
            final(lexer).c == old(lexer).c,
            final(lexer).pos_ok() == old(lexer).pos_ok(),
            toks_of(final(lexer).tokens@) == toks_of(old(lexer).tokens@).push(
                tokv(TokenType::Comma, ","@, st_of(*old(lexer))),
            ),
    {
        Lexer::emit(lexer, TokenType::Comma, ",");
    }

    /// Generate a `Colon` token, push to the stack.
    pub fn lex_colon(lexer: &mut Lexer)
        requires
            old(lexer).wf0(),
        ensures
            final(lexer).wf0(),
            final(lexer).src == old(lexer).src,
            st_of(*final(lexer)) == st_of(*old(lexer)),
            final(lexer).c == old(lexer).c,
            final(lexer).pos_ok() == old(lexer).pos_ok(),
            toks_of(final(lexer).tokens@) == toks_of(old(lexer).tokens@).push(
                tokv(TokenType::Colon, ":"@, st_of(*old(lexer))),
            ),
    {
        Lexer::emit(lexer, TokenType::Colon, ":");
    }

    /// Generate an `At` token, push to the stack.
    pub fn lex_at(lexer: &mut Lexer)
        requires
            old(lexer).wf0(),
        ensures
            final(lexer).wf0(),
            final(lexer).src == old(lexer).src,
            st_of(*final(lexer)) == st_of(*old(lexer)),
            final(lexer).c == old(lexer).c,
            final(lexer).pos_ok() == old(lexer).pos_ok(),
            toks_of(final(lexer).tokens@) == toks_of(old(lexer).tokens@).push(
                tokv(TokenType::At, "@"@, st_of(*old(lexer))),
            ),
    {
        Lexer::emit(lexer, TokenType::At, "@");
    }

    /// Generate an `And` token, push to the stack.
    pub fn lex_and(lexer: &mut Lexer)
        requires
            old(lexer).wf0(),
        ensures
            final(lexer).wf0(),
            final(lexer).src == old(lexer).src,
            st_of(*final(lexer)) == st_of(*old(lexer)),
            final(lexer).c == old(lexer).c,
            final(lexer).pos_ok() == old(lexer).pos_ok(),
            toks_of(final(lexer).tokens@) == toks_of(old(lexer).tokens@).push(
                tokv(TokenType::And, "&"@, st_of(*old(lexer))),
            ),
    {
        Lexer::emit(lexer, TokenType::And, "&");
    }

    /// Generate a `Dollar` token, push to the stack.
    pub fn lex_dollar(lexer: &mut Lexer)
        requires
            old(lexer).wf0(),
        ensures
            final(lexer).wf0(),
            final(lexer).src == old(lexer).src,
            st_of(*final(lexer)) == st_of(*old(lexer)),
            final(lexer).c == old(lexer).c,
            final(lexer).pos_ok() == old(lexer).pos_ok(),
            toks_of(final(lexer).tokens@) == toks_of(old(lexer).tokens@).push(
                tokv(TokenType::Dollar, "$"@, st_of(*old(lexer))),
            ),
    {
        Lexer::emit(lexer, TokenType::Dollar, "$");
    }

    /// Generate an `Exclamation` token, push to the stack.
    pub fn lex_exclamation(lexer: &mut Lexer)
        requires
            old(lexer).wf0(),
        ensures
            final(lexer).wf0(),
            final(lexer).src == old(lexer).src,
            st_of(*final(lexer)) == st_of(*old(lexer)),
            final(lexer).c == old(lexer).c,
            final(lexer).pos_ok() == old(lexer).pos_ok(),
            toks_of(final(lexer).tokens@) == toks_of(old(lexer).tokens@).push(
                tokv(TokenType::Exclamation, "!"@, st_of(*old(lexer))),
            ),
    {
        Lexer::emit(lexer, TokenType::Exclamation, "!");
    }

    /// Generate a `Caret` token, push to the stack.
    pub fn lex_caret(lexer: &mut Lexer)
        requires
            old(lexer).wf0(),
        ensures
            final(lexer).wf0(),
            final(lexer).src == old(lexer).src,
            st_of(*final(lexer)) == st_of(*old(lexer)),
            final(lexer).c == old(lexer).c,
            final(lexer).pos_ok() == old(lexer).pos_ok(),
            toks_of(final(lexer).tokens@) == toks_of(old(lexer).tokens@).push(
                tokv(TokenType::Caret, "^"@, st_of(*old(lexer))),
            ),
    {
        Lexer::emit(lexer, TokenType::Caret, "^");
    }

    /// Generate a `QuestionMark` token, push to the stack.
    pub fn lex_question_mark(lexer: &mut Lexer)
        requires
            old(lexer).wf0(),
        ensures
            final(lexer).wf0(),
            final(lexer).src == old(lexer).src,
            st_of(*final(lexer)) == st_of(*old(lexer)),
            final(lexer).c == old(lexer).c,
            final(lexer).pos_ok() == old(lexer).pos_ok(),
            toks_of(final(lexer).tokens@) == toks_of(old(lexer).tokens@).push(
                tokv(TokenType::QuestionMark, "?"@, st_of(*old(lexer))),
            ),
    {
        Lexer::emit(lexer, TokenType::QuestionMark, "?");
    }

    /// Lexes enclosure chars: brackets, parentheses and braces.
    ///
    /// Fails exactly when the current character is none of
    /// `(`, `)`, `[`, `]`, `{`, `}`.
    pub fn lex_enclosures(lexer: &mut Lexer) -> (r: Result<(), LexError>)
        requires
            old(lexer).wf0(),
        ensures
            final(lexer).wf0(),
            final(lexer).src == old(lexer).src,
            st_of(*final(lexer)) == st_of(*old(lexer)),
            final(lexer).c == old(lexer).c,
            final(lexer).pos_ok() == old(lexer).pos_ok(),
            match spec_enclosure_token(old(lexer).src@, st_of(*old(lexer))) {
                Result::Ok(t) => r is Ok && toks_of(final(lexer).tokens@) == toks_of(
                    old(lexer).tokens@,
                ).push(t),
                Result::Err(e) => r == Result::<(), LexError>::Err(e) && final(lexer).tokens
                    == old(lexer).tokens,
            },
    {
        match lexer.c {
            '(' => {
                Lexer::emit(lexer, TokenType::LParen, "(");
                Ok(())
            },
            ')' => {
                Lexer::emit(lexer, TokenType::RParen, ")");
                Ok(())
            },
            '[' => {
                Lexer::emit(lexer, TokenType::LBracket, "[");
                Ok(())
            },
            ']' => {
                Lexer::emit(lexer, TokenType::RBracket, "]");
                Ok(())
            },
            '{' => {
                Lexer::emit(lexer, TokenType::LBrace, "{");
                Ok(())
            },
            '}' => {
                Lexer::emit(lexer, TokenType::RBrace, "}");
                Ok(())
            },
            _ => Err(
                LexError::UnexpectedEnclosure {
                    ch: lexer.c,
                    loc: Loc::at(lexer.line, lexer.col),
                },
            ),
        }
    }

    /// Lexes `<`, `>`, `<=` or `>=`.
    ///
    /// Fails exactly when the current character is neither `<` nor `>`.
    pub fn lex_comparison(lexer: &mut Lexer) -> (r: Result<(), LexError>)
        requires
            old(lexer).wf0(),
            old(lexer).pos_ok(),
        ensures
            final(lexer).wf0(),
            final(lexer).pos_ok(),
            final(lexer).src == old(lexer).src,
            match spec_comparison(old(lexer).src@, st_of(*old(lexer))) {
                Result::Ok((st, ts)) => r is Ok && st_of(*final(lexer)) == st && toks_of(
                    final(lexer).tokens@,
                ) == toks_of(old(lexer).tokens@) + ts,
                Result::Err(e) => r == Result::<(), LexError>::Err(e) && final(lexer).tokens
                    == old(lexer).tokens && st_of(*final(lexer)) == st_of(*old(lexer)),
            },
    {
        let nxt = match lexer.peek(1) {
            Some(c) => c,
            None => '\0',
        };
        let ghost st0 = st_of(*lexer);
        let ghost toks0 = lexer.tokens@;

        let token = match lexer.c {
            '<' => {
                if nxt == '=' {
                    let token = Token::with_value_at(
                        TokenType::Lte,
                        String::from_str("<="),
                        lexer.line,
                        lexer.col,
                    );
                    Lexer::next(lexer);
                    token
                } else {
                    Token::with_value_at(TokenType::Lt, String::from_str("<"), lexer.line, lexer.col)
                }
            },
            '>' => {
                if nxt == '=' {
                    let token = Token::with_value_at(
                        TokenType::Gte,
                        String::from_str(">="),
                        lexer.line,
                        lexer.col,
                    );
                    Lexer::next(lexer);
                    token
                } else {
                    Token::with_value_at(TokenType::Gt, String::from_str(">"), lexer.line, lexer.col)
                }
            },
            _ => {
                return Err(
                    LexError::UnexpectedEnclosure {
                        ch: lexer.c,
                        loc: Loc::at(lexer.line, lexer.col),
                    },
                );
            },
        };

        lexer.tokens.push(token);
        proof {
            let r = spec_comparison(lexer.src@, st0);
            assert(toks_of(lexer.tokens@) =~= toks_of(toks0) + r->Ok_0.1);
        }
        Ok(())
    }
}


/// The token texts of a sequence, concatenated in order.
pub open spec fn concat_texts(ts: Seq<TokenV>) -> Seq<char>
    decreases ts.len(),
{
    if ts.len() == 0 {
        Seq::empty()
    } else {
        concat_texts(ts.drop_last()) + ts.last().text
    }
}

/// Concatenating token sequences concatenates their texts.
proof fn lemma_concat_texts_app(a: Seq<TokenV>, b: Seq<TokenV>)
    ensures
        concat_texts(a + b) == concat_texts(a) + concat_texts(b),
    decreases b.len(),
{
    if b.len() == 0 {
        assert(a + b =~= a);
        assert(concat_texts(a) + concat_texts(b) =~= concat_texts(a));
    } else {
        assert((a + b).drop_last() =~= a + b.drop_last());
        lemma_concat_texts_app(a, b.drop_last());
        assert((a + b).last() == b.last());
        assert(concat_texts(a) + (concat_texts(b.drop_last()) + b.last().text) =~= (concat_texts(a)
            + concat_texts(b.drop_last())) + b.last().text);
    }
}

/// A one-token sequence contributes exactly its text.
proof fn lemma_concat_single(t: TokenV)
    ensures
        concat_texts(seq![t]) == t.text,
{
    assert(seq![t].drop_last() =~= Seq::<TokenV>::empty());
    assert(concat_texts(Seq::<TokenV>::empty()) == Seq::<char>::empty());
    assert(Seq::<char>::empty() + t.text =~= t.text);
}

/// The index where a single-line comment's scan stops: the first line
/// break at or after `i`, or the last character when none follows.
pub open spec fn eol_idx(src: Seq<char>, i: int) -> int
    decreases src.len() - i,
{
    if i >= src.len() - 1 {
        i
    } else if nl(src[i]) {
        i
    } else {
        eol_idx(src, i + 1)
    }
}

/// The stop index of a single-line comment's scan stays in range.
proof fn lemma_eol_idx_bounds(src: Seq<char>, i: int)
    ensures
        eol_idx(src, i) >= i,
        i <= src.len() - 1 ==> eol_idx(src, i) <= src.len() - 1,
    decreases src.len() - i,
{
    if !(i >= src.len() - 1) && !nl(src[i]) {
        lemma_eol_idx_bounds(src, i + 1);
    }
}

/// The single-line comment scan's exit index, computed either way.
proof fn lemma_scan_eol_idx(src: Seq<char>, st: ScanState)
    ensures
        spec_scan_eol(src, st).idx == eol_idx(src, st.idx),
    decreases src.len() - st.idx,
{
    if can_adv(src, st.idx) && !nl(src[st.idx]) {
        lemma_scan_eol_idx(src, spec_next(src, st));
    }
}

/// A text with its whitespace and comments removed: whitespace goes, a
/// `//` comment goes through the character on which its scan stops, a
/// `/=` stays, and every other character stays.
pub open spec fn strip_src(src: Seq<char>, i: int) -> Seq<char>
    decreases src.len() - i,
        via strip_src_dec
{
    if i >= src.len() {
        Seq::empty()
    } else if space_char(src[i]) {
        strip_src(src, i + 1)
    } else if src[i] == '/' && i + 1 < src.len() && src[i + 1] == '/' {
        strip_src(src, eol_idx(src, i + 1) + 1)
    } else if src[i] == '/' && i + 1 < src.len() && src[i + 1] == '=' {
        seq!['/', '='] + strip_src(src, i + 2)
    } else {
        seq![src[i]] + strip_src(src, i + 1)
    }
}

#[via_fn]
proof fn strip_src_dec(src: Seq<char>, i: int) {
    if i < src.len() && !space_char(src[i]) && src[i] == '/' && i + 1 < src.len() && src[i + 1]
        == '/' {
        lemma_eol_idx_bounds(src, i + 1);
    }
}

/// A character the stripped text keeps in place: not whitespace and not
/// the opener of a comment or of `/=`.
pub open spec fn plain_char(c: char) -> bool {
    !space_char(c) && c != '/'
}

/// Removing whitespace and comments keeps a run of plain characters as
/// it stands.
proof fn lemma_strip_run(src: Seq<char>, i: int, j: int)
    requires
        0 <= i <= j <= src.len(),
        forall|k: int| i <= k < j ==> plain_char(#[trigger] src[k]),
    ensures
        strip_src(src, i) == src.subrange(i, j) + strip_src(src, j),
    decreases j - i,
{
    if i == j {
        assert(src.subrange(i, j) =~= Seq::<char>::empty());
        assert(Seq::<char>::empty() + strip_src(src, j) =~= strip_src(src, j));
    } else {
        lemma_strip_run(src, i + 1, j);
        assert(src.subrange(i, j) =~= seq![src[i]] + src.subrange(i + 1, j));
        assert(seq![src[i]] + (src.subrange(i + 1, j) + strip_src(src, j)) =~= (seq![src[i]]
            + src.subrange(i + 1, j)) + strip_src(src, j));
    }
}

/// A character the scan handles in a way that round-trips: whitespace,
/// an ASCII digit, an identifier character that also starts identifiers,
/// an operator, punctuation or bracket character, or a `/` (whose
/// comment forms [`comment_ok`] constrains). String delimiters are out:
/// a string's token text drops them, so `'ab'` comes back as `ab`.
pub open spec fn round_trip_char(c: char) -> bool {
    ||| space_char(c)
    ||| digit_char(c)
    ||| (ident_start_char(c) && alphanumeric_char(c) && c != '"' && c != '\'' && c != '/')
    ||| c == '=' || c == '&' || c == ';' || c == '.' || c == ',' || c == ':' || c == '@' || c
        == '$' || c == '!' || c == '-' || c == '+' || c == '*' || c == '^' || c == '?' || c == '<'
        || c == '>' || c == '(' || c == ')' || c == '[' || c == ']' || c == '{' || c == '}' || c
        == '/'
}

/// Every `/` of the source opens a single-line comment or a `/=`. A `/*`
/// comment is out: the scan steps past the character that directly
/// follows its closing `*/`, so a source such as `/*x*/y` does not
/// round-trip.
pub open spec fn comment_ok(src: Seq<char>) -> bool {
    forall|i: int|
        0 <= i < src.len() && #[trigger] src[i] == '/' ==> i + 1 < src.len() && (src[i + 1] == '/'
            || src[i + 1] == '=')
}

/// The classification facts the round-trip law assumes of the
/// uninterpreted character classes: whitespace and `/` are not
/// alphanumeric, so no identifier scan can swallow them.
pub open spec fn classification_facts() -> bool {
    &&& !alphanumeric_char(' ')
    &&& !alphanumeric_char('\n')
    &&& !alphanumeric_char('\r')
    &&& !alphanumeric_char('/')
}

/// Establishes the classification facts the round-trip law assumes, by
/// asking the character classifier itself. A caller runs this once and
/// may then invoke [`lemma_round_trip`].
pub fn confirm_classification_facts()
    ensures
        classification_facts(),
{
    let space_an = ' '.is_alphanumeric();
    let nl_an = '\n'.is_alphanumeric();
    let cr_an = '\r'.is_alphanumeric();
    let slash_an = '/'.is_alphanumeric();
    proof {
        assert(!space_an && !nl_an && !cr_an && !slash_an);
    }
}

/// The identifier scan consumes exactly the identifier characters it
/// walks over, and keeps each of them.
proof fn lemma_scan_ident_rt(src: Seq<char>, st: ScanState, acc: Seq<char>)
    requires
        0 <= st.idx < src.len(),
    ensures
        ({
            let (st1, acc1) = spec_scan_ident(src, st, acc);
            &&& st.idx <= st1.idx < src.len()
            &&& acc1 == acc + src.subrange(st.idx, st1.idx)
            &&& forall|k: int| st.idx <= k < st1.idx ==> ident_char(#[trigger] src[k])
        }),
    decreases src.len() - st.idx,
{
    let (st1, acc1) = spec_scan_ident(src, st, acc);
    if can_adv(src, st.idx) && ident_char(src[st.idx]) {
        lemma_scan_ident_rt(src, spec_next(src, st), acc.push(src[st.idx]));
        assert(acc.push(src[st.idx]) =~= acc + src.subrange(st.idx, st.idx + 1));
        assert(acc1 =~= acc + src.subrange(st.idx, st1.idx)) by {
            assert(src.subrange(st.idx, st.idx + 1) + src.subrange(st.idx + 1, st1.idx)
                =~= src.subrange(st.idx, st1.idx));
        }
    } else {
        assert(acc1 =~= acc + src.subrange(st.idx, st.idx));
    }
}

/// The numeric scan consumes exactly the digits and dots it walks over,
/// and keeps each of them.
proof fn lemma_scan_num_rt(src: Seq<char>, st: ScanState, acc: Seq<char>, frac: bool)
    requires
        0 <= st.idx < src.len(),
        spec_scan_num(src, st, acc, frac) is Ok,
    ensures
        ({
            let (st1, acc1, f) = spec_scan_num(src, st, acc, frac)->Ok_0;
            &&& st.idx <= st1.idx < src.len()
            &&& acc1 == acc + src.subrange(st.idx, st1.idx)
            &&& forall|k: int|
                st.idx <= k < st1.idx ==> digit_char(#[trigger] src[k]) || src[k] == '.'
        }),
    decreases src.len() - st.idx,
{
    let (st1, acc1, f) = spec_scan_num(src, st, acc, frac)->Ok_0;
    if can_adv(src, st.idx) && (digit_char(src[st.idx]) || src[st.idx] == '.') {
        if src[st.idx] == '.' {
            lemma_scan_num_rt(src, spec_next(src, st), acc.push('.'), true);
        } else {
            lemma_scan_num_rt(src, spec_next(src, st), acc.push(src[st.idx]), frac);
        }
        assert(acc.push(src[st.idx]) =~= acc + src.subrange(st.idx, st.idx + 1));
        assert(acc1 =~= acc + src.subrange(st.idx, st1.idx)) by {
            assert(src.subrange(st.idx, st.idx + 1) + src.subrange(st.idx + 1, st1.idx)
                =~= src.subrange(st.idx, st1.idx));
        }
    } else {
        assert(acc1 =~= acc + src.subrange(st.idx, st.idx));
    }
}

/// One dispatch that consumed the characters up to and including the one
/// at `st1.idx`, all kept in one token's text, followed by the rest of
/// the scan, reproduces the stripped source from `st.idx` on.
proof fn lemma_step_keep(src: Seq<char>, st: ScanState, st1: ScanState, t: TokenV)
    requires
        0 <= st.idx <= st1.idx < src.len(),
        classification_facts(),
        forall|i: int| 0 <= i < src.len() ==> round_trip_char(#[trigger] src[i]),
        comment_ok(src),
        strip_src(src, st.idx) == t.text + strip_src(src, st1.idx + 1),
        spec_step(src, st1, seq![t]) is Ok,
    ensures
        concat_texts(spec_step(src, st1, seq![t])->Ok_0.1) == strip_src(src, st.idx),
    decreases src.len() - st1.idx, 0int,
{
    lemma_concat_single(t);
    if !can_adv(src, st1.idx) {
        // The scan stops on the last character; nothing follows.
        assert(st1.idx == src.len() - 1);
        assert(strip_src(src, st1.idx + 1) =~= Seq::<char>::empty());
        assert(t.text + Seq::<char>::empty() =~= t.text);
    } else {
        let st2 = spec_next(src, st1);
        lemma_go_rt(src, st2);
        lemma_concat_texts_app(seq![t], spec_lex_go(src, st2)->Ok_0.1);
    }
}

/// One dispatch that consumed the characters up to and including the one
/// at `st1.idx` without emitting a token, followed by the rest of the
/// scan, reproduces the stripped source from `st.idx` on.
proof fn lemma_step_skip(src: Seq<char>, st: ScanState, st1: ScanState)
    requires
        0 <= st.idx <= st1.idx < src.len(),
        classification_facts(),
        forall|i: int| 0 <= i < src.len() ==> round_trip_char(#[trigger] src[i]),
        comment_ok(src),
        strip_src(src, st.idx) == strip_src(src, st1.idx + 1),
        spec_step(src, st1, Seq::<TokenV>::empty()) is Ok,
    ensures
        concat_texts(spec_step(src, st1, Seq::<TokenV>::empty())->Ok_0.1) == strip_src(
            src,
            st.idx,
        ),
    decreases src.len() - st1.idx, 0int,
{
    if !can_adv(src, st1.idx) {
        assert(st1.idx == src.len() - 1);
        assert(strip_src(src, st1.idx + 1) =~= Seq::<char>::empty());
        assert(concat_texts(Seq::<TokenV>::empty()) =~= Seq::<char>::empty());
    } else {
        let st2 = spec_next(src, st1);
        lemma_go_rt(src, st2);
        let rest = spec_lex_go(src, st2)->Ok_0.1;
        lemma_concat_texts_app(Seq::<TokenV>::empty(), rest);
        assert(concat_texts(Seq::<TokenV>::empty()) =~= Seq::<char>::empty());
        assert(Seq::<char>::empty() + concat_texts(rest) =~= concat_texts(rest));
        assert(Seq::<TokenV>::empty() + rest =~= rest);
    }
}

/// The scan from any position of a round-trip source reproduces, through
/// its token texts, the stripped source from that position on.
#[verifier::rlimit(100)]
#[verifier::spinoff_prover]
proof fn lemma_go_rt(src: Seq<char>, st: ScanState)
    requires
        0 <= st.idx < src.len(),
        classification_facts(),
        forall|i: int| 0 <= i < src.len() ==> round_trip_char(#[trigger] src[i]),
        comment_ok(src),
        spec_lex_go(src, st) is Ok,
    ensures
        concat_texts(spec_lex_go(src, st)->Ok_0.1) == strip_src(src, st.idx),
    decreases src.len() - st.idx, 1int,
{
    reveal_strlit("=");
    reveal_strlit("==");
    reveal_strlit("=>");
    reveal_strlit("&");
    reveal_strlit(";");
    reveal_strlit(".");
    reveal_strlit(",");
    reveal_strlit(":");
    reveal_strlit("@");
    reveal_strlit("$");
    reveal_strlit("!");
    reveal_strlit("-");
    reveal_strlit("--");
    reveal_strlit("-=");
    reveal_strlit("->");
    reveal_strlit("+");
    reveal_strlit("++");
    reveal_strlit("+=");
    reveal_strlit("*");
    reveal_strlit("**");
    reveal_strlit("*=");
    reveal_strlit("^");
    reveal_strlit("?");
    reveal_strlit("<");
    reveal_strlit("<=");
    reveal_strlit(">");
    reveal_strlit(">=");
    reveal_strlit("(");
    reveal_strlit(")");
    reveal_strlit("[");
    reveal_strlit("]");
    reveal_strlit("{");
    reveal_strlit("}");
    reveal_strlit("/=");

    let c = src[st.idx];
    let len = src.len() as int;
    assert(round_trip_char(c));

    if c == '=' {
        let t = spec_eq_token(src, st);
        let st1 = spec_lex_eq_st(src, st);
        if t.typ == TokenType::Eq {
            assert(t.text =~= seq![c]);
            assert(strip_src(src, st.idx) =~= t.text + strip_src(src, st.idx + 1));
            lemma_step_keep(src, st, st, t);
        } else {
            assert(peek_or_nul(src, st.idx) == src[st.idx + 1]);
            assert(t.text =~= seq![src[st.idx], src[st.idx + 1]]);
            assert(strip_src(src, st.idx + 1) =~= seq![src[st.idx + 1]] + strip_src(
                src,
                st.idx + 2,
            ));
            assert(strip_src(src, st.idx) =~= t.text + strip_src(src, st.idx + 2));
            lemma_step_keep(src, st, st1, t);
        }
    } else if c == '&' {
        let t = tokv(TokenType::And, "&"@, st);
        assert(t.text =~= seq![c]);
        assert(strip_src(src, st.idx) =~= t.text + strip_src(src, st.idx + 1));
        lemma_step_keep(src, st, st, t);
    } else if c == ';' {
        let t = tokv(TokenType::Semi, ";"@, st);
        assert(t.text =~= seq![c]);
        assert(strip_src(src, st.idx) =~= t.text + strip_src(src, st.idx + 1));
        lemma_step_keep(src, st, st, t);
    } else if c == '.' {
        let t = tokv(TokenType::Dot, "."@, st);
        assert(t.text =~= seq![c]);
        assert(strip_src(src, st.idx) =~= t.text + strip_src(src, st.idx + 1));
        lemma_step_keep(src, st, st, t);
    } else if c == ',' {
        let t = tokv(TokenType::Comma, ","@, st);
        assert(t.text =~= seq![c]);
        assert(strip_src(src, st.idx) =~= t.text + strip_src(src, st.idx + 1));
        lemma_step_keep(src, st, st, t);
    } else if c == ':' {
        let t = tokv(TokenType::Colon, ":"@, st);
        assert(t.text =~= seq![c]);
        assert(strip_src(src, st.idx) =~= t.text + strip_src(src, st.idx + 1));
        lemma_step_keep(src, st, st, t);
    } else if c == '@' {
        let t = tokv(TokenType::At, "@"@, st);
        assert(t.text =~= seq![c]);
        assert(strip_src(src, st.idx) =~= t.text + strip_src(src, st.idx + 1));
        lemma_step_keep(src, st, st, t);
    } else if c == '$' {
        let t = tokv(TokenType::Dollar, "$"@, st);
        assert(t.text =~= seq![c]);
        assert(strip_src(src, st.idx) =~= t.text + strip_src(src, st.idx + 1));
        lemma_step_keep(src, st, st, t);
    } else if c == '!' {
        let t = tokv(TokenType::Exclamation, "!"@, st);
        assert(t.text =~= seq![c]);
        assert(strip_src(src, st.idx) =~= t.text + strip_src(src, st.idx + 1));
        lemma_step_keep(src, st, st, t);
    } else if c == '-' {
        let t = spec_minus_token(src, st);
        let st1 = spec_lex_minus_st(src, st);
        if t.typ == TokenType::Minus {
            assert(t.text =~= seq![c]);
            assert(strip_src(src, st.idx) =~= t.text + strip_src(src, st.idx + 1));
            lemma_step_keep(src, st, st, t);
        } else {
            assert(peek_or_nul(src, st.idx) == src[st.idx + 1]);
            assert(t.text =~= seq![src[st.idx], src[st.idx + 1]]);
            assert(strip_src(src, st.idx + 1) =~= seq![src[st.idx + 1]] + strip_src(
                src,
                st.idx + 2,
            ));
            assert(strip_src(src, st.idx) =~= t.text + strip_src(src, st.idx + 2));
            lemma_step_keep(src, st, st1, t);
        }
    } else if c == '+' {
        let t = spec_plus_token(src, st);
        let st1 = spec_lex_plus_st(src, st);
        if t.typ == TokenType::Plus {
            assert(t.text =~= seq![c]);
            assert(strip_src(src, st.idx) =~= t.text + strip_src(src, st.idx + 1));
            lemma_step_keep(src, st, st, t);
        } else {
            assert(peek_or_nul(src, st.idx) == src[st.idx + 1]);
            assert(t.text =~= seq![src[st.idx], src[st.idx + 1]]);
            assert(strip_src(src, st.idx + 1) =~= seq![src[st.idx + 1]] + strip_src(
                src,
                st.idx + 2,
            ));
            assert(strip_src(src, st.idx) =~= t.text + strip_src(src, st.idx + 2));
            lemma_step_keep(src, st, st1, t);
        }
    } else if c == '*' {
        let t = spec_star_token(src, st);
        let st1 = spec_lex_star_st(src, st);
        if t.typ == TokenType::Star {
            assert(t.text =~= seq![c]);
            assert(strip_src(src, st.idx) =~= t.text + strip_src(src, st.idx + 1));
            lemma_step_keep(src, st, st, t);
        } else {
            assert(peek_or_nul(src, st.idx) == src[st.idx + 1]);
            assert(t.text =~= seq![src[st.idx], src[st.idx + 1]]);
            assert(strip_src(src, st.idx + 1) =~= seq![src[st.idx + 1]] + strip_src(
                src,
                st.idx + 2,
            ));
            assert(strip_src(src, st.idx) =~= t.text + strip_src(src, st.idx + 2));
            lemma_step_keep(src, st, st1, t);
        }
    } else if c == '^' {
        let t = tokv(TokenType::Caret, "^"@, st);
        assert(t.text =~= seq![c]);
        assert(strip_src(src, st.idx) =~= t.text + strip_src(src, st.idx + 1));
        lemma_step_keep(src, st, st, t);
    } else if c == '?' {
        let t = tokv(TokenType::QuestionMark, "?"@, st);
        assert(t.text =~= seq![c]);
        assert(strip_src(src, st.idx) =~= t.text + strip_src(src, st.idx + 1));
        lemma_step_keep(src, st, st, t);
    } else if c == '/' {
        // Every slash opens `//` or `/=` on a round-trip source.
        assert(st.idx + 1 < len && (src[st.idx + 1] == '/' || src[st.idx + 1] == '='));
        assert(can_adv(src, st.idx));
        assert(peek_or_nul(src, st.idx) == src[st.idx + 1]);
        let st1 = spec_next(src, st);
        if src[st.idx + 1] == '=' {
            let t = tokv(TokenType::SlashEq, "/="@, st1);
            assert(t.text =~= seq!['/', '=']);
            assert(strip_src(src, st.idx) =~= t.text + strip_src(src, st.idx + 2));
            lemma_step_keep(src, st, st1, t);
        } else {
            let stc = spec_scan_eol(src, st1);
            lemma_scan_eol_idx(src, st1);
            lemma_eol_idx_bounds(src, st.idx + 1);
            assert(strip_src(src, st.idx) == strip_src(src, stc.idx + 1));
            lemma_step_skip(src, st, stc);
        }
    } else if c == '"' || c == '\'' {
        assert(false);
    } else if space_char(c) {
        assert(strip_src(src, st.idx) == strip_src(src, st.idx + 1));
        lemma_step_skip(src, st, st);
    } else if c == '(' || c == ')' || c == '[' || c == ']' || c == '{' || c == '}' {
        let t = spec_enclosure_token(src, st)->Ok_0;
        assert(t.text =~= seq![c]);
        assert(strip_src(src, st.idx) =~= t.text + strip_src(src, st.idx + 1));
        lemma_step_keep(src, st, st, t);
    } else if c == '<' || c == '>' {
        let r = spec_comparison(src, st);
        let (st1, ts) = r->Ok_0;
        let t = ts[0];
        if st1 == st {
            assert(t.text =~= seq![c]);
            assert(strip_src(src, st.idx) =~= t.text + strip_src(src, st.idx + 1));
            lemma_step_keep(src, st, st, t);
        } else {
            assert(peek_or_nul(src, st.idx) == src[st.idx + 1]);
            assert(t.text =~= seq![src[st.idx], src[st.idx + 1]]);
            assert(strip_src(src, st.idx + 1) =~= seq![src[st.idx + 1]] + strip_src(
                src,
                st.idx + 2,
            ));
            assert(strip_src(src, st.idx) =~= t.text + strip_src(src, st.idx + 2));
            lemma_step_keep(src, st, st1, t);
        }
        assert(ts =~= seq![t]);
    } else if digit_char(c) {
        let r = spec_lex_number(src, st);
        let (st1, t) = r->Ok_0;
        if !can_adv(src, st.idx) {
            // A single digit on the last character.
            assert(t.text =~= src.subrange(st.idx, st.idx + 1));
            lemma_strip_run(src, st.idx, len);
            assert(strip_src(src, len) =~= Seq::<char>::empty());
            assert(src.subrange(st.idx, len) + Seq::<char>::empty() =~= src.subrange(st.idx, len));
            assert(t.text =~= src.subrange(st.idx, len));
            lemma_concat_single(t);
        } else {
            lemma_scan_num_rt(src, spec_next(src, st), seq![c], false);
            let scan = spec_scan_num(src, spec_next(src, st), seq![c], false)->Ok_0;
            assert(seq![c] =~= src.subrange(st.idx, st.idx + 1));
            assert(scan.1 =~= src.subrange(st.idx, st1.idx)) by {
                assert(src.subrange(st.idx, st.idx + 1) + src.subrange(st.idx + 1, st1.idx)
                    =~= src.subrange(st.idx, st1.idx));
            }
            assert(forall|k: int| st.idx <= k < st1.idx ==> plain_char(#[trigger] src[k]));
            if !can_adv(src, st1.idx) && digit_char(src[st1.idx]) {
                // The literal runs to the last character.
                assert(t.text =~= src.subrange(st.idx, st1.idx + 1));
                lemma_strip_run(src, st.idx, len);
                assert(strip_src(src, len) =~= Seq::<char>::empty());
                assert(src.subrange(st.idx, len) + Seq::<char>::empty() =~= src.subrange(
                    st.idx,
                    len,
                ));
                assert(t.text =~= src.subrange(st.idx, len));
                lemma_concat_single(t);
            } else {
                // The literal stops before a character it does not claim.
                assert(t.text == src.subrange(st.idx, st1.idx));
                lemma_go_rt(src, st1);
                let ts2 = spec_lex_go(src, st1)->Ok_0.1;
                lemma_concat_texts_app(seq![t], ts2);
                lemma_concat_single(t);
                lemma_strip_run(src, st.idx, st1.idx);
            }
        }
    } else if ident_start_char(c) {
        let (st1, t) = spec_lex_ident(src, st);
        lemma_scan_ident_rt(src, st, Seq::empty());
        let scan = spec_scan_ident(src, st, Seq::empty());
        assert(scan.1 =~= src.subrange(st.idx, st1.idx)) by {
            assert(Seq::<char>::empty() + src.subrange(st.idx, st1.idx) =~= src.subrange(
                st.idx,
                st1.idx,
            ));
        }
        assert(forall|k: int| st.idx <= k < st1.idx ==> plain_char(#[trigger] src[k])) by {
            assert(forall|k: int|
                st.idx <= k < st1.idx ==> ident_char(#[trigger] src[k]) && plain_char(src[k]));
        }
        if !can_adv(src, st1.idx) && ident_char(src[st1.idx]) {
            // The identifier runs to the last character.
            assert(t.text =~= src.subrange(st.idx, st1.idx + 1));
            assert(plain_char(src[st1.idx]));
            lemma_strip_run(src, st.idx, len);
            assert(strip_src(src, len) =~= Seq::<char>::empty());
            assert(src.subrange(st.idx, len) + Seq::<char>::empty() =~= src.subrange(st.idx, len));
            assert(t.text =~= src.subrange(st.idx, len));
            lemma_concat_single(t);
        } else if st1.idx > st.idx {
            assert(t.text == src.subrange(st.idx, st1.idx));
            lemma_go_rt(src, st1);
            let ts2 = spec_lex_go(src, st1)->Ok_0.1;
            lemma_concat_texts_app(seq![t], ts2);
            lemma_concat_single(t);
            lemma_strip_run(src, st.idx, st1.idx);
        } else {
            // The dispatching character is an identifier character, so
            // the scan cannot have stalled on it.
            assert(ident_char(c));
            if can_adv(src, st.idx) {
                lemma_scan_ident_rt(src, spec_next(src, st), Seq::empty().push(c));
            }
            assert(false);
        }
    } else {
        assert(false);
    }
}

/// Ordering of scan positions: by line, then by column.
pub open spec fn st_le(a: ScanState, b: ScanState) -> bool {
    a.line < b.line || (a.line == b.line && a.col <= b.col)
}

/// A cursor whose line and column are not negative, as every reachable
/// cursor's are.
pub open spec fn st_pos(st: ScanState) -> bool {
    st.line >= 0 && st.col >= 0
}

/// Whether a token sits at or after a cursor position.
pub open spec fn tok_at_or_after(st: ScanState, t: TokenV) -> bool {
    st.line < t.line || (st.line == t.line && st.col <= t.col)
}

/// Whether a token sits at or before a cursor position.
pub open spec fn tok_at_or_before(st: ScanState, t: TokenV) -> bool {
    t.line < st.line || (t.line == st.line && t.col <= st.col)
}

/// Ordering of token locations: by line, then by column.
pub open spec fn tok_loc_le(a: TokenV, b: TokenV) -> bool {
    a.line < b.line || (a.line == b.line && a.col <= b.col)
}

/// A token sequence whose locations never go backwards.
pub open spec fn locs_sorted(ts: Seq<TokenV>) -> bool {
    forall|i: int, j: int| 0 <= i < j < ts.len() ==> tok_loc_le(#[trigger] ts[i], #[trigger] ts[j])
}

/// The scans only move the cursor onward in line/column order.
proof fn lemma_scan_ident_loc(src: Seq<char>, st: ScanState, acc: Seq<char>)
    ensures
        st_le(st, spec_scan_ident(src, st, acc).0),
        st_pos(st) ==> st_pos(spec_scan_ident(src, st, acc).0),
    decreases src.len() - st.idx,
{
    if can_adv(src, st.idx) && ident_char(src[st.idx]) {
        lemma_scan_ident_loc(src, spec_next(src, st), acc.push(src[st.idx]));
    }
}

proof fn lemma_scan_num_loc(src: Seq<char>, st: ScanState, acc: Seq<char>, frac: bool)
    ensures
        spec_scan_num(src, st, acc, frac) matches Result::Ok(o) ==> st_le(st, o.0) && (st_pos(st)
            ==> st_pos(o.0)),
    decreases src.len() - st.idx,
{
    if can_adv(src, st.idx) && (digit_char(src[st.idx]) || src[st.idx] == '.') {
        if src[st.idx] == '.' {
            if !frac {
                lemma_scan_num_loc(src, spec_next(src, st), acc.push('.'), true);
            }
        } else {
            lemma_scan_num_loc(src, spec_next(src, st), acc.push(src[st.idx]), frac);
        }
    }
}

proof fn lemma_scan_str_loc(src: Seq<char>, st: ScanState, delim: char, acc: Seq<char>)
    ensures
        st_le(st, spec_scan_str(src, st, delim, acc).0),
        st_pos(st) ==> st_pos(spec_scan_str(src, st, delim, acc).0),
    decreases src.len() - st.idx,
{
    if src[st.idx] != delim && can_adv(src, st.idx) {
        if src[st.idx] == '\\' && peek_or_nul(src, st.idx) == delim {
            lemma_scan_str_loc(
                src,
                spec_next(src, spec_next(src, st)),
                delim,
                acc.push('\\').push(delim),
            );
        } else {
            lemma_scan_str_loc(src, spec_next(src, st), delim, acc.push(src[st.idx]));
        }
    }
}

proof fn lemma_scan_mlc_loc(src: Seq<char>, st: ScanState)
    ensures
        st_le(st, spec_scan_mlc(src, st).0),
        st_pos(st) ==> st_pos(spec_scan_mlc(src, st).0),
    decreases src.len() - st.idx,
{
    if can_adv(src, st.idx) && !spec_end_mlc(src, st.idx) {
        lemma_scan_mlc_loc(src, spec_next(src, st));
    }
}

proof fn lemma_scan_eol_loc(src: Seq<char>, st: ScanState)
    ensures
        st_le(st, spec_scan_eol(src, st)),
        st_pos(st) ==> st_pos(spec_scan_eol(src, st)),
    decreases src.len() - st.idx,
{
    if can_adv(src, st.idx) && !nl(src[st.idx]) {
        lemma_scan_eol_loc(src, spec_next(src, st));
    }
}

/// Every scanning step moves the cursor onward, and the tokens it emits
/// sit between its entry and exit positions.
proof fn lemma_step_loc_facts(src: Seq<char>, st: ScanState)
    requires
        st_pos(st),
    ensures
        st_le(st, spec_lex_eq_st(src, st)) && st_pos(spec_lex_eq_st(src, st)),
        st_le(st, spec_lex_minus_st(src, st)) && st_pos(spec_lex_minus_st(src, st)),
        st_le(st, spec_lex_plus_st(src, st)) && st_pos(spec_lex_plus_st(src, st)),
        st_le(st, spec_lex_star_st(src, st)) && st_pos(spec_lex_star_st(src, st)),
        st_le(st, spec_lex_ident(src, st).0) && st_pos(spec_lex_ident(src, st).0),
        spec_lex_number(src, st) matches Result::Ok(o) ==> st_le(st, o.0) && st_pos(o.0),
        spec_lex_string(src, st) matches Result::Ok(o) ==> st_le(st, o.0) && st_pos(o.0),
        spec_comparison(src, st) matches Result::Ok(o) ==> st_le(st, o.0) && st_pos(o.0),
        spec_skip_comment(src, st, false) matches Result::Ok(o) ==> st_le(st, o.0) && st_pos(o.0)
            && (forall|i: int|
            0 <= i < o.1.len() ==> tok_at_or_after(st, #[trigger] o.1[i]) && tok_at_or_before(
                o.0,
                o.1[i],
            )),
{
    lemma_scan_ident_loc(src, st, Seq::empty());
    if can_adv(src, st.idx) {
        lemma_scan_num_loc(src, spec_next(src, st), seq![src[st.idx]], false);
    }
    lemma_scan_str_loc(src, spec_next(src, st), src[st.idx], Seq::empty());
    let st1 = spec_next(src, st);
    lemma_scan_mlc_loc(src, st1);
    lemma_scan_eol_loc(src, st1);
}

/// The rest of a scan, from the footer of one dispatch: the cursor only
/// moves onward, later tokens sit at or after the footer's position, and
/// tokens already emitted stay in place.
proof fn lemma_step_locs(src: Seq<char>, st: ScanState, ts: Seq<TokenV>)
    requires
        st_pos(st),
        spec_step(src, st, ts) is Ok,
        locs_sorted(ts),
        forall|i: int| 0 <= i < ts.len() ==> tok_at_or_before(st, #[trigger] ts[i]),
    ensures
        ({
            let (st2, tsall) = spec_step(src, st, ts)->Ok_0;
            &&& st_le(st, st2)
            &&& locs_sorted(tsall)
            &&& tsall.len() >= ts.len()
            &&& forall|i: int| 0 <= i < ts.len() ==> tsall[i] == ts[i]
            &&& forall|i: int|
                ts.len() <= i < tsall.len() ==> tok_at_or_after(st, #[trigger] tsall[i])
                    && tok_at_or_before(st2, tsall[i])
        }),
    decreases src.len() - st.idx, 0int,
{
    if can_adv(src, st.idx) {
        let stn = spec_next(src, st);
        lemma_go_locs(src, stn);
        let (st2, rest) = spec_lex_go(src, stn)->Ok_0;
        assert(forall|i: int| 0 <= i < rest.len() ==> (ts + rest)[ts.len() + i] == rest[i]);
    }
}

/// The whole remaining scan: the cursor only moves onward, and the tokens
/// come out with their locations in scan order, between the entry and
/// exit positions.
#[verifier::rlimit(100)]
#[verifier::spinoff_prover]
proof fn lemma_go_locs(src: Seq<char>, st: ScanState)
    requires
        st_pos(st),
        spec_lex_go(src, st) is Ok,
    ensures
        ({
            let (st1, ts) = spec_lex_go(src, st)->Ok_0;
            &&& st_le(st, st1)
            &&& locs_sorted(ts)
            &&& forall|i: int|
                0 <= i < ts.len() ==> tok_at_or_after(st, #[trigger] ts[i]) && tok_at_or_before(
                    st1,
                    ts[i],
                )
        }),
    decreases src.len() - st.idx, 1int,
{
    lemma_step_mono(src, st);
    lemma_step_loc_facts(src, st);
    let c = src[st.idx];
    if c == '=' {
        lemma_step_locs(src, spec_lex_eq_st(src, st), seq![spec_eq_token(src, st)]);
    } else if c == '&' {
        lemma_step_locs(src, st, seq![tokv(TokenType::And, "&"@, st)]);
    } else if c == ';' {
        lemma_step_locs(src, st, seq![tokv(TokenType::Semi, ";"@, st)]);
    } else if c == '.' {
        lemma_step_locs(src, st, seq![tokv(TokenType::Dot, "."@, st)]);
    } else if c == ',' {
        lemma_step_locs(src, st, seq![tokv(TokenType::Comma, ","@, st)]);
    } else if c == ':' {
        lemma_step_locs(src, st, seq![tokv(TokenType::Colon, ":"@, st)]);
    } else if c == '@' {
        lemma_step_locs(src, st, seq![tokv(TokenType::At, "@"@, st)]);
    } else if c == '$' {
        lemma_step_locs(src, st, seq![tokv(TokenType::Dollar, "$"@, st)]);
    } else if c == '!' {
        lemma_step_locs(src, st, seq![tokv(TokenType::Exclamation, "!"@, st)]);
    } else if c == '-' {
        lemma_step_locs(src, spec_lex_minus_st(src, st), seq![spec_minus_token(src, st)]);
    } else if c == '+' {
        lemma_step_locs(src, spec_lex_plus_st(src, st), seq![spec_plus_token(src, st)]);
    } else if c == '*' {
        lemma_step_locs(src, spec_lex_star_st(src, st), seq![spec_star_token(src, st)]);
    } else if c == '^' {
        lemma_step_locs(src, st, seq![tokv(TokenType::Caret, "^"@, st)]);
    } else if c == '?' {
        lemma_step_locs(src, st, seq![tokv(TokenType::QuestionMark, "?"@, st)]);
    } else if c == '/' {
        let (stc, tsc) = spec_skip_comment(src, st, false)->Ok_0;
        lemma_step_locs(src, stc, tsc);
    } else if c == '<' || c == '>' {
        let (stc, tsc) = spec_comparison(src, st)->Ok_0;
        lemma_step_locs(src, stc, tsc);
    } else if c == '"' || c == '\'' {
        let (st1, t) = spec_lex_string(src, st)->Ok_0;
        lemma_step_locs(src, st1, seq![t]);
    } else if space_char(c) {
        lemma_step_locs(src, st, Seq::empty());
    } else if c == '(' || c == ')' || c == '[' || c == ']' || c == '{' || c == '}' {
        let t = spec_enclosure_token(src, st)->Ok_0;
        lemma_step_locs(src, st, seq![t]);
    } else if digit_char(c) {
        let (st1, t) = spec_lex_number(src, st)->Ok_0;
        if can_adv(src, st.idx) {
            lemma_scan_num_mono(src, spec_next(src, st), seq![src[st.idx]], false);
        }
        if !can_adv(src, st1.idx) && !digit_char(src[st1.idx]) {
            lemma_go_locs(src, st1);
            let (st2, rest) = spec_lex_go(src, st1)->Ok_0;
            assert(forall|i: int|
                0 <= i < rest.len() ==> (seq![t] + rest)[1 + i] == rest[i]);
        } else if !can_adv(src, st1.idx) {
        } else {
            lemma_go_locs(src, st1);
            let (st2, rest) = spec_lex_go(src, st1)->Ok_0;
            assert(forall|i: int|
                0 <= i < rest.len() ==> (seq![t] + rest)[1 + i] == rest[i]);
        }
    } else if ident_start_char(c) {
        let (st1, t) = spec_lex_ident(src, st);
        if !can_adv(src, st1.idx) && ident_char(src[st1.idx]) {
        } else if st1.idx > st.idx {
            lemma_go_locs(src, st1);
            let (st2, rest) = spec_lex_go(src, st1)->Ok_0;
            assert(forall|i: int|
                0 <= i < rest.len() ==> (seq![t] + rest)[1 + i] == rest[i]);
        } else {
        }
    } else {
        lemma_step_locs(src, st, Seq::empty());
    }
}

/// Monotonic scan: in every successful tokenizing, each token's location
/// precedes or equals the location of every later token, the end-of-input
/// token included.
pub proof fn lemma_token_locations_ordered(src: Seq<char>)
    requires
        spec_tokenize(src) is Ok,
    ensures
        locs_sorted(spec_tokenize(src)->Ok_0),
{
    let init = ScanState { idx: 0, line: 1, col: 1 };
    lemma_go_locs(src, init);
    let (st1, ts) = spec_lex_go(src, init)->Ok_0;
    let eof = tokv(TokenType::Eof, ""@, spec_next(src, st1));
    assert(forall|i: int| 0 <= i < ts.len() ==> ts.push(eof)[i] == ts[i]);
    assert(forall|i: int|
        0 <= i < ts.len() ==> tok_at_or_before(st1, #[trigger] ts[i]) && tok_loc_le(
            ts[i],
            eof,
        ));
}

/// Round trip: for a source of round-trip characters whose comments are
/// single-line, re-concatenating the text fields of a successful
/// tokenizing reproduces the source with whitespace and comments
/// removed. The end-of-input token contributes empty text. The
/// classification hypotheses pin the uninterpreted character classes
/// down to how Unicode behaves (whitespace and `/` are not
/// alphanumeric); [`confirm_classification_facts`] establishes them.
pub proof fn lemma_round_trip(src: Seq<char>)
    requires
        classification_facts(),
        forall|i: int| 0 <= i < src.len() ==> round_trip_char(#[trigger] src[i]),
        comment_ok(src),
        spec_tokenize(src) is Ok,
    ensures
        concat_texts(spec_tokenize(src)->Ok_0) == strip_src(src, 0),
{
    reveal_strlit("");
    let init = ScanState { idx: 0, line: 1, col: 1 };
    let ts = spec_lex_go(src, init)->Ok_0.1;
    lemma_go_rt(src, init);
    let eof = tokv(TokenType::Eof, ""@, spec_next(src, spec_lex_go(src, init)->Ok_0.0));
    assert(ts.push(eof) =~= ts + seq![eof]);
    lemma_concat_texts_app(ts, seq![eof]);
    lemma_concat_single(eof);
    assert(eof.text =~= Seq::<char>::empty());
    assert(concat_texts(ts) + Seq::<char>::empty() =~= concat_texts(ts));
}

} // verus!
