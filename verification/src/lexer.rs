//! The lexer: turns source text into a stream of positioned tokens.
//! Identifiers are ASCII letters, digits and underscores; integer
//! literals are decimal; `#` starts a comment running to the end of the
//! line. Positions are 1-based character indices.

use vstd::prelude::*;
use vstd::string::*;
use crate::token::{as_keyword, spec_as_keyword, SpecToken, SpecTokenType, Token, TokenType};
use crate::utils::{str_chars, Const, Position, WithPos};

verus! {

/// A character together with its 1-based position in the source.
#[derive(Debug, Clone, PartialEq)]
pub struct CharPos {
    pub c: char,
    pub pos: Position,
}

/// Iterator over the characters of a source text, counting positions
/// from one.
#[derive(Debug)]
pub struct CharPosIter {
    chars: Vec<char>,
    index: usize,
}

impl CharPosIter {
    /// The source characters.
    pub closed spec fn spec_src(&self) -> Seq<char> {
        self.chars@
    }

    /// How many characters have been consumed.
    pub closed spec fn spec_index(&self) -> int {
        self.index as int
    }

    pub open spec fn wf(&self) -> bool {
        0 <= self.spec_index() <= self.spec_src().len()
    }

    pub fn new(src: &str) -> (r: CharPosIter)
        ensures
            r.wf(),
            r.spec_src() == src@,
            r.spec_index() == 0,
    {
        CharPosIter { chars: str_chars(src), index: 0 }
    }

    /// The next character with its position, if any is left.
    pub fn next(&mut self) -> (r: Option<CharPos>)
        requires
            old(self).wf(),
        ensures
            final(self).wf(),
            final(self).spec_src() == old(self).spec_src(),
            old(self).spec_index() == old(self).spec_src().len() ==> r is None
                && final(self).spec_index() == old(self).spec_index(),
            old(self).spec_index() < old(self).spec_src().len() ==> (r matches Some(cp)
                && cp.c == old(self).spec_src()[old(self).spec_index()]
                && cp.pos.pos == old(self).spec_index() + 1
                && final(self).spec_index() == old(self).spec_index() + 1),
    {
        if self.index < self.chars.len() {
            let c = self.chars[self.index];
            self.index = self.index + 1;
            Some(CharPos { c, pos: Position { pos: self.index } })
        } else {
            None
        }
    }
}

/// Failures of the lexer.
#[derive(Debug, Clone, PartialEq)]
pub enum LexerError {
    /// More characters were needed for a complete token.
    ExpectingMoreCharacters,
    /// A character no token can start with.
    UnexpectedCharacter(char),
    /// A digit sequence that does not fit the 32-bit integer type; the
    /// offending spelling is kept.
    ParseIntError(String),
}

/// Mathematical mirror of `LexerError`.
pub enum SpecLexerError {
    ExpectingMoreCharacters,
    UnexpectedCharacter(char),
    ParseIntError(Seq<char>),
}

impl View for LexerError {
    type V = SpecLexerError;

    open spec fn view(&self) -> SpecLexerError {
        match self {
            LexerError::ExpectingMoreCharacters => SpecLexerError::ExpectingMoreCharacters,
            LexerError::UnexpectedCharacter(c) => SpecLexerError::UnexpectedCharacter(*c),
            LexerError::ParseIntError(s) => SpecLexerError::ParseIntError(s@),
        }
    }
}

/// A lexer error with the position it occurred at.
pub type Error = WithPos<LexerError>;

/// ASCII letters and the underscore start an identifier.
pub open spec fn is_ident_start(c: char) -> bool {
    (97 <= c as u32 && c as u32 <= 122) || (65 <= c as u32 && c as u32 <= 90) || c == '_'
}

/// Identifier continuation: letters, digits and the underscore.
pub open spec fn is_ident_char(c: char) -> bool {
    is_ident_start(c) || is_digit(c)
}

/// ASCII decimal digits.
pub open spec fn is_digit(c: char) -> bool {
    48 <= c as u32 && c as u32 <= 57
}

/// ASCII whitespace.
pub open spec fn is_space(c: char) -> bool {
    c == ' ' || c == '\t' || c == '\n' || c == '\r'
}

/// End of the identifier starting at `i`: the first position at or
/// after `i` holding no identifier character.
pub open spec fn ident_end(s: Seq<char>, i: int) -> int
    decreases s.len() - i,
{
    if i < 0 || i >= s.len() {
        i
    } else if is_ident_char(s[i]) {
        ident_end(s, i + 1)
    } else {
        i
    }
}

/// End of the digit run starting at `i`.
pub open spec fn digits_end(s: Seq<char>, i: int) -> int
    decreases s.len() - i,
{
    if i < 0 || i >= s.len() {
        i
    } else if is_digit(s[i]) {
        digits_end(s, i + 1)
    } else {
        i
    }
}

/// End of the comment starting at `i`: the position of the next
/// newline, or the end of the text.
pub open spec fn comment_end(s: Seq<char>, i: int) -> int
    decreases s.len() - i,
{
    if i < 0 || i >= s.len() {
        i
    } else if s[i] != '\n' {
        comment_end(s, i + 1)
    } else {
        i
    }
}

/// First non-whitespace position at or after `i`.
pub open spec fn skip_ws(s: Seq<char>, i: int) -> int
    decreases s.len() - i,
{
    if i < 0 || i >= s.len() {
        i
    } else if is_space(s[i]) {
        skip_ws(s, i + 1)
    } else {
        i
    }
}

/// The non-negative integer a digit sequence denotes.
pub open spec fn digits_val(s: Seq<char>) -> int
    decreases s.len(),
{
    if s.len() == 0 {
        0
    } else {
        digits_val(s.drop_last()) * 10 + (s.last() as u32 - 48)
    }
}

/// The token starting at position `i` of the source, which must not be
/// whitespace, together with the position scanning continues from.
pub open spec fn spec_match_next(s: Seq<char>, i: int) -> (Result<
    SpecToken,
    (SpecLexerError, Position),
>, int) {
    let c = s[i];
    let p = Position { pos: (i + 1) as usize };
    if c == '+' {
        (Ok(SpecToken { token: SpecTokenType::Operator(crate::token::Operator::ADD), pos: p }), i + 1)
    } else if c == '-' {
        (Ok(SpecToken { token: SpecTokenType::Operator(crate::token::Operator::SUB), pos: p }), i + 1)
    } else if c == '*' {
        (Ok(SpecToken { token: SpecTokenType::Operator(crate::token::Operator::MUL), pos: p }), i + 1)
    } else if c == '/' {
        (Ok(SpecToken { token: SpecTokenType::Operator(crate::token::Operator::DIV), pos: p }), i + 1)
    } else if c == '=' {
        (Ok(SpecToken { token: SpecTokenType::Assign, pos: p }), i + 1)
    } else if c == '(' {
        (Ok(SpecToken { token: SpecTokenType::LParen, pos: p }), i + 1)
    } else if c == ')' {
        (Ok(SpecToken { token: SpecTokenType::RParen, pos: p }), i + 1)
    } else if c == ';' {
        (Ok(SpecToken { token: SpecTokenType::Semicolon, pos: p }), i + 1)
    } else if c == '#' {
        let j = comment_end(s, i + 1);
        let after = if j < s.len() {
            j + 1
        } else {
            j
        };
        (Ok(SpecToken { token: SpecTokenType::Comment(s.subrange(i + 1, j)), pos: p }), after)
    } else if is_ident_start(c) {
        let j = ident_end(s, i);
        let w = s.subrange(i, j);
        match spec_as_keyword(w) {
            Some(k) => (Ok(SpecToken { token: SpecTokenType::Keyword(k), pos: p }), j),
            None => (Ok(SpecToken { token: SpecTokenType::Ident(w), pos: p }), j),
        }
    } else if is_digit(c) {
        let j = digits_end(s, i);
        let w = s.subrange(i, j);
        if digits_val(w) <= i32::MAX {
            (Ok(SpecToken { token: SpecTokenType::Const(Const::I32(digits_val(w) as i32)), pos: p }), j)
        } else {
            (Err((SpecLexerError::ParseIntError(w), p)), j)
        }
    } else {
        (Err((SpecLexerError::UnexpectedCharacter(c), p)), i)
    }
}

/// What one call of `TokenIterator::next` at index `i` yields, and the
/// index afterwards: whitespace is skipped first, and at the end of the
/// text there is no token.
pub open spec fn spec_next_token(s: Seq<char>, i: int) -> (Option<
    Result<SpecToken, (SpecLexerError, Position)>,
>, int) {
    let j = skip_ws(s, i);
    if j == s.len() {
        (None, j)
    } else {
        let (r, ni) = spec_match_next(s, j);
        (Some(r), ni)
    }
}

fn is_ident_start_c(c: char) -> (r: bool)
    ensures
        r == is_ident_start(c),
{
    let u = c as u32;
    (97 <= u && u <= 122) || (65 <= u && u <= 90) || c == '_'
}

fn is_ident_char_c(c: char) -> (r: bool)
    ensures
        r == is_ident_char(c),
{
    let u = c as u32;
    (97 <= u && u <= 122) || (65 <= u && u <= 90) || c == '_' || (48 <= u && u <= 57)
}

fn is_digit_c(c: char) -> (r: bool)
    ensures
        r == is_digit(c),
{
    let u = c as u32;
    48 <= u && u <= 57
}

fn is_space_c(c: char) -> (r: bool)
    ensures
        r == is_space(c),
{
    c == ' ' || c == '\t' || c == '\n' || c == '\r'
}

/// Token stream over one source text.
#[derive(Debug)]
pub struct TokenIterator {
    src: String,
    chars: Vec<char>,
    index: usize,
}

impl TokenIterator {
    /// The source characters.
    pub closed spec fn spec_src(&self) -> Seq<char> {
        self.chars@
    }

    /// The current scanning position (0-based character index).
    pub closed spec fn spec_index(&self) -> int {
        self.index as int
    }

    pub closed spec fn wf(&self) -> bool {
        self.src@ == self.chars@ && 0 <= self.index <= self.chars@.len()
    }

    /// A well-formed iterator's position lies within its source.
    pub proof fn lemma_wf_bounds(&self)
        requires
            self.wf(),
        ensures
            0 <= self.spec_index() <= self.spec_src().len(),
    {
    }

    pub fn new(src: &str) -> (r: TokenIterator)
        ensures
            r.wf(),
            r.spec_src() == src@,
            r.spec_index() == 0,
    {
        TokenIterator { src: String::from_str(src), chars: str_chars(src), index: 0 }
    }

    /// The substring of the source between two character positions.
    fn text(&self, from: usize, to: usize) -> (r: String)
        requires
            self.wf(),
            from <= to <= self.spec_src().len(),
        ensures
            r@ == self.spec_src().subrange(from as int, to as int),
    {
        self.src.as_str().substring_char(from, to).to_owned()
    }

    /// Scan the token starting at the current position, which must hold
    /// the character `c`; advances past the token.
    #[verifier::loop_isolation(false)]
    pub fn match_next(&mut self, c: &CharPos) -> (r: Result<Token, Error>)
        requires
            old(self).wf(),
            old(self).spec_index() < old(self).spec_src().len(),
            c.c == old(self).spec_src()[old(self).spec_index()],
            c.pos.pos == old(self).spec_index() + 1,
        ensures
            final(self).wf(),
            final(self).spec_src() == old(self).spec_src(),
            ({
                let (res, ni) = spec_match_next(old(self).spec_src(), old(self).spec_index());
                final(self).spec_index() == ni && match res {
                    Ok(st) => r matches Ok(t) && t@.token == st.token && t@.pos == st.pos,
                    Err((ek, ep)) => r matches Err(e) && e.item@ == ek && e.position == ep,
                }
            }),
    {
        let ghost s = self.spec_src();
        let p = c.pos;
        let ch = c.c;
        if ch == '+' {
            self.index = self.index + 1;
            Ok(Token { token: TokenType::OPERATOR(crate::token::Operator::ADD), pos: p })
        } else if ch == '-' {
            self.index = self.index + 1;
            Ok(Token { token: TokenType::OPERATOR(crate::token::Operator::SUB), pos: p })
        } else if ch == '*' {
            self.index = self.index + 1;
            Ok(Token { token: TokenType::OPERATOR(crate::token::Operator::MUL), pos: p })
        } else if ch == '/' {
            self.index = self.index + 1;
            Ok(Token { token: TokenType::OPERATOR(crate::token::Operator::DIV), pos: p })
        } else if ch == '=' {
            self.index = self.index + 1;
            Ok(Token { token: TokenType::ASSIGN, pos: p })
        } else if ch == '(' {
            self.index = self.index + 1;
            Ok(Token { token: TokenType::LPAREN, pos: p })
        } else if ch == ')' {
            self.index = self.index + 1;
            Ok(Token { token: TokenType::RPAREN, pos: p })
        } else if ch == ';' {
            self.index = self.index + 1;
            Ok(Token { token: TokenType::SEMICOLON, pos: p })
        } else if ch == '#' {
            let start = self.index + 1;
            let mut j: usize = start;
            while j < self.chars.len() && self.chars[j] != '\n'
                invariant
                    start <= j <= s.len(),
                    comment_end(s, start as int) == comment_end(s, j as int),
                decreases s.len() - j,
            {
                j = j + 1;
            }
            let content = self.text(start, j);
            if j < self.chars.len() {
                self.index = j + 1;
            } else {
                self.index = j;
            }
            Ok(Token { token: TokenType::COMMENT(content), pos: p })
        } else if is_ident_start_c(ch) {
            let start = self.index;
            let mut j: usize = start;
            while j < self.chars.len() && is_ident_char_c(self.chars[j])
                invariant
                    start <= j <= s.len(),
                    ident_end(s, start as int) == ident_end(s, j as int),
                decreases s.len() - j,
            {
                j = j + 1;
            }
            let word = self.text(start, j);
            self.index = j;
            match as_keyword(word.as_str()) {
                Some(k) => Ok(Token { token: TokenType::KEYWORD(k), pos: p }),
                None => Ok(Token { token: TokenType::IDENT(word), pos: p }),
            }
        } else if is_digit_c(ch) {
            let start = self.index;
            let mut j: usize = start;
            while j < self.chars.len() && is_digit_c(self.chars[j])
                invariant
                    start <= j <= s.len(),
                    digits_end(s, start as int) == digits_end(s, j as int),
                decreases s.len() - j,
            {
                j = j + 1;
            }
            let word = self.text(start, j);
            self.index = j;
            proof {
                lemma_digits_end_digits(s, start as int);
            }
            match parse_digits_range(&self.chars, start, j) {
                Some(v) => Ok(Token { token: TokenType::CONST(Const::I32(v)), pos: p }),
                None => Err(WithPos { item: LexerError::ParseIntError(word), position: p }),
            }
        } else {
            Err(WithPos { item: LexerError::UnexpectedCharacter(ch), position: p })
        }
    }

    /// The next token of the source, `None` at the end of the text, or
    /// the first lexing error.
    #[verifier::loop_isolation(false)]
    pub fn next(&mut self) -> (r: Option<Result<Token, Error>>)
        requires
            old(self).wf(),
        ensures
            final(self).wf(),
            final(self).spec_src() == old(self).spec_src(),
            ({
                let (res, ni) = spec_next_token(old(self).spec_src(), old(self).spec_index());
                final(self).spec_index() == ni && match res {
                    None => r is None,
                    Some(Ok(st)) => r matches Some(Ok(t)) && t@.token == st.token && t@.pos == st.pos,
                    Some(Err((ek, ep))) => r matches Some(Err(e)) && e.item@ == ek
                        && e.position == ep,
                }
            }),
    {
        let ghost s = self.spec_src();
        let ghost i0 = self.spec_index();
        while self.index < self.chars.len() && is_space_c(self.chars[self.index])
            invariant
                self.wf(),
                i0 <= self.spec_index() <= s.len(),
                self.spec_src() == s,
                skip_ws(s, i0) == skip_ws(s, self.spec_index()),
            decreases s.len() - self.spec_index(),
        {
            self.index = self.index + 1;
        }
        if self.index == self.chars.len() {
            None
        } else {
            let cp = CharPos { c: self.chars[self.index], pos: Position { pos: self.index + 1 } };
            Some(self.match_next(&cp))
        }
    }
}

/// Every digit sequence denotes a non-negative number.
proof fn lemma_digits_val_nonneg(s: Seq<char>)
    requires
        forall|k: int| 0 <= k < s.len() ==> is_digit(#[trigger] s[k]),
    ensures
        digits_val(s) >= 0,
    decreases s.len(),
{
    if s.len() > 0 {
        lemma_digits_val_nonneg(s.drop_last());
    }
}

/// A digit sequence denotes at least as much as any of its prefixes.
proof fn lemma_digits_val_monotone(s: Seq<char>, m: int)
    requires
        forall|k: int| 0 <= k < s.len() ==> is_digit(#[trigger] s[k]),
        0 <= m <= s.len(),
    ensures
        digits_val(s.take(m)) <= digits_val(s),
    decreases s.len() - m,
{
    if m < s.len() {
        lemma_digits_val_monotone(s, m + 1);
        let t = s.take(m + 1);
        assert(t.drop_last() =~= s.take(m));
        lemma_digits_val_nonneg(s.take(m));
        assert(digits_val(t) == digits_val(s.take(m)) * 10 + (t.last() as u32 - 48));
        assert(digits_val(s.take(m)) * 10 >= digits_val(s.take(m)));
    } else {
        assert(s.take(m) =~= s);
    }
}

/// Every character of a digit run is a digit.
proof fn lemma_digits_end_digits(s: Seq<char>, i: int)
    requires
        0 <= i <= s.len(),
    ensures
        i <= digits_end(s, i) <= s.len(),
        forall|k: int| i <= k < digits_end(s, i) ==> is_digit(#[trigger] s[k]),
    decreases s.len() - i,
{
    if i < s.len() && is_digit(s[i]) {
        lemma_digits_end_digits(s, i + 1);
    }
}

/// Parse a run of decimal digits as a 32-bit integer; `None` exactly
/// when the denoted number does not fit.
#[verifier::loop_isolation(false)]
pub fn parse_digits_range(chars: &Vec<char>, start: usize, end: usize) -> (r: Option<i32>)
    requires
        start <= end <= chars@.len(),
        forall|k: int| start <= k < end ==> is_digit(#[trigger] chars@[k]),
    ensures
        match r {
            Some(v) => v >= 0 && v as int == digits_val(chars@.subrange(start as int, end as int)),
            None => digits_val(chars@.subrange(start as int, end as int)) > i32::MAX,
        },
{
    let ghost w = chars@.subrange(start as int, end as int);
    proof {
        assert forall|k: int| 0 <= k < w.len() implies is_digit(#[trigger] w[k]) by {
            assert(w[k] == chars@[start + k]);
        }
    }
    let mut acc: i32 = 0;
    let mut j: usize = start;
    while j < end
        invariant
            start <= j <= end,
            acc >= 0,
            acc as int == digits_val(w.take(j - start)),
        decreases end - j,
    {
        proof {
            assert(w.take(j - start + 1).drop_last() =~= w.take(j - start));
            assert(w.take(j - start + 1).last() == chars@[j as int]);
        }
        let d = (chars[j] as u32 - 48) as i32;
        if acc > (i32::MAX - d) / 10 {
            proof {
                lemma_digits_val_monotone(w, j - start + 1);
                assert(digits_val(w.take(j - start + 1)) == acc as int * 10 + d);
            }
            return None;
        }
        acc = acc * 10 + d;
        j = j + 1;
    }
    proof {
        assert(w.take(end - start) =~= w);
    }
    Some(acc)
}

} // verus!
