//! The tokenizer: scans source text and produces one token per call, returning
//! an end-of-input token forever once the source is exhausted. It never fails;
//! unrecognized characters come back as `Illegal` tokens for the parser to
//! react to.

use vstd::prelude::*;

use crate::token::{Token, TokenType, TokenV};

verus! {

/// A decimal digit.
pub open spec fn is_digit_char(c: char) -> bool {
    48 <= c as u32 && c as u32 <= 57
}

/// Whether `c` is a decimal digit.
pub fn digit_char(c: char) -> (r: bool)
    ensures
        r == is_digit_char(c),
{
    let u = c as u32;
    48 <= u && u <= 57
}

/// The characters the tokenizer skips between tokens: the Unicode
/// `White_Space` set.
pub open spec fn is_whitespace_char(c: char) -> bool {
    let u = c as u32;
    (9 <= u && u <= 13)  // tab, line feed, vertical tab, form feed, carriage return
    || u == 32  // space
    || u == 0x85  // next line
    || u == 0xa0  // no-break space
    || u == 0x1680  // ogham space mark
    || (0x2000 <= u && u <= 0x200a)  // en quad .. hair space
    || u == 0x2028  // line separator
    || u == 0x2029  // paragraph separator
    || u == 0x202f  // narrow no-break space
    || u == 0x205f  // medium mathematical space
    || u == 0x3000  // ideographic space
}

/// Whether `c` is whitespace.
pub fn whitespace_char(c: char) -> (r: bool)
    ensures
        r == is_whitespace_char(c),
{
    let u = c as u32;
    (9 <= u && u <= 13) || u == 32 || u == 0x85 || u == 0xa0 || u == 0x1680 || (0x2000 <= u && u
        <= 0x200a) || u == 0x2028 || u == 0x2029 || u == 0x202f || u == 0x205f || u == 0x3000
}

/// Whether `c` counts as a letter for identifier tokens. Its truth is fixed
/// by the wrapper `alphabetic_char` below and nowhere else.
pub uninterp spec fn is_alphabetic_char(c: char) -> bool;

/// Relies on `char::is_alphabetic`: whether `c` has the Unicode `Alphabetic`
/// property, a function of the character alone.
#[verifier::external_body]
fn alphabetic_char(c: char) -> (r: bool)
    ensures
        r == is_alphabetic_char(c),
{
    c.is_alphabetic()
}

/// A character that may continue a numeric lexeme: a digit or a dot.
pub open spec fn is_number_char(c: char) -> bool {
    is_digit_char(c) || c == '.'
}

/// Whether `c` may continue a numeric lexeme.
pub fn number_char(c: char) -> (r: bool)
    ensures
        r == is_number_char(c),
{
    digit_char(c) || c == '.'
}

/// A character that may continue an identifier lexeme: a letter or `_`.
pub open spec fn is_identifier_char(c: char) -> bool {
    is_alphabetic_char(c) || c == '_'
}

/// Whether `c` may continue an identifier lexeme.
fn identifier_char(c: char) -> (r: bool)
    ensures
        r == is_identifier_char(c),
{
    alphabetic_char(c) || c == '_'
}

/// The token kind of a single-character punctuation token, if `c` is one.
pub open spec fn symbol_kind(c: char) -> Option<TokenType> {
    if c == '+' {
        Some(TokenType::Plus)
    } else if c == '-' {
        Some(TokenType::Minus)
    } else if c == '*' {
        Some(TokenType::Asterisk)
    } else if c == '/' {
        Some(TokenType::Slash)
    } else if c == '^' {
        Some(TokenType::Pow)
    } else if c == '%' {
        Some(TokenType::Modulus)
    } else if c == '(' {
        Some(TokenType::LeftParen)
    } else if c == ')' {
        Some(TokenType::RightParen)
    } else if c == ';' {
        Some(TokenType::SemiColon)
    } else {
        None
    }
}

/// The token kind of a single-character punctuation token, if `c` is one.
pub fn symbol_token_type(c: char) -> (r: Option<TokenType>)
    ensures
        r == symbol_kind(c),
{
    if c == '+' {
        Some(TokenType::Plus)
    } else if c == '-' {
        Some(TokenType::Minus)
    } else if c == '*' {
        Some(TokenType::Asterisk)
    } else if c == '/' {
        Some(TokenType::Slash)
    } else if c == '^' {
        Some(TokenType::Pow)
    } else if c == '%' {
        Some(TokenType::Modulus)
    } else if c == '(' {
        Some(TokenType::LeftParen)
    } else if c == ')' {
        Some(TokenType::RightParen)
    } else if c == ';' {
        Some(TokenType::SemiColon)
    } else {
        None
    }
}

/// The first position at or after `pos` holding a non-whitespace character,
/// or the end of the source.
pub open spec fn skip_ws(s: Seq<char>, pos: int) -> int
    decreases s.len() - pos,
{
    if 0 <= pos < s.len() && is_whitespace_char(s[pos]) {
        skip_ws(s, pos + 1)
    } else {
        pos
    }
}

/// The end of the maximal run of digits and dots starting at `pos`.
pub open spec fn number_run_end(s: Seq<char>, pos: int) -> int
    decreases s.len() - pos,
{
    if 0 <= pos < s.len() && is_number_char(s[pos]) {
        number_run_end(s, pos + 1)
    } else {
        pos
    }
}

/// The end of the maximal run of letters and underscores starting at `pos`.
pub open spec fn identifier_run_end(s: Seq<char>, pos: int) -> int
    decreases s.len() - pos,
{
    if 0 <= pos < s.len() && is_identifier_char(s[pos]) {
        identifier_run_end(s, pos + 1)
    } else {
        pos
    }
}

/// Whether the sequence holds a dot anywhere.
pub open spec fn seq_has_dot(s: Seq<char>) -> bool {
    exists|i: int| 0 <= i < s.len() && s[i] == '.'
}

/// The result of scanning one token: its kind, its lexeme, and the cursor
/// position just past it.
pub struct SpecToken {
    pub kind: TokenType,
    pub lexeme: Seq<char>,
    pub end: int,
}

/// The token found at cursor position `pos` of source `s`: whitespace is
/// skipped, then the token is classified by its first character. Punctuation
/// comes first, then numeric lexemes (maximal runs of digits and dots, a
/// `Float` exactly when a dot occurs), then identifiers, and any other
/// character is a one-character `Illegal` token. At the end of the source the
/// token is `Eof` with an empty lexeme.
pub open spec fn spec_token(s: Seq<char>, pos: int) -> SpecToken {
    let p = skip_ws(s, pos);
    if !(0 <= p < s.len()) {
        SpecToken { kind: TokenType::Eof, lexeme: Seq::<char>::empty(), end: s.len() as int }
    } else {
        let c = s[p];
        match symbol_kind(c) {
            Some(kind) => SpecToken { kind, lexeme: seq![c], end: p + 1 },
            None => {
                if is_number_char(c) {
                    let q = number_run_end(s, p);
                    SpecToken {
                        kind: if seq_has_dot(s.subrange(p, q)) {
                            TokenType::Float
                        } else {
                            TokenType::Integer
                        },
                        lexeme: s.subrange(p, q),
                        end: q,
                    }
                } else if is_identifier_char(c) {
                    let q = identifier_run_end(s, p);
                    SpecToken { kind: TokenType::Identifier, lexeme: s.subrange(p, q), end: q }
                } else {
                    SpecToken { kind: TokenType::Illegal, lexeme: seq![c], end: p + 1 }
                }
            },
        }
    }
}

/// Whether token value `t` is the token `st` with line number 1.
pub open spec fn token_is(t: TokenV, st: SpecToken) -> bool {
    &&& t.token_type == st.kind
    &&& t.lexeme == st.lexeme
    &&& t.line == 1
    &&& t.position == st.end
}

/// `skip_ws` stays between `pos` and the end of the source.
pub proof fn lemma_skip_ws_range(s: Seq<char>, pos: int)
    requires
        0 <= pos <= s.len(),
    ensures
        pos <= skip_ws(s, pos) <= s.len(),
    decreases s.len() - pos,
{
    if 0 <= pos < s.len() && is_whitespace_char(s[pos]) {
        lemma_skip_ws_range(s, pos + 1);
    }
}

/// A numeric run stays between `pos` and the end of the source, holds only
/// digits and dots, and stops at the first character that is neither.
pub proof fn lemma_number_run(s: Seq<char>, pos: int)
    requires
        0 <= pos <= s.len(),
    ensures
        pos <= number_run_end(s, pos) <= s.len(),
        forall|i: int| pos <= i < number_run_end(s, pos) ==> is_number_char(s[i]),
        number_run_end(s, pos) == s.len() || !is_number_char(s[number_run_end(s, pos)]),
    decreases s.len() - pos,
{
    if 0 <= pos < s.len() && is_number_char(s[pos]) {
        lemma_number_run(s, pos + 1);
    }
}

/// A numeric run from `from` ends exactly at `to` when every character before
/// `to` is a digit or a dot and `to` is the end of the source or the first
/// character that is neither.
pub proof fn lemma_number_run_exact(s: Seq<char>, from: int, to: int)
    requires
        0 <= from <= to <= s.len(),
        forall|i: int| from <= i < to ==> is_number_char(s[i]),
        to == s.len() || !is_number_char(s[to]),
    ensures
        number_run_end(s, from) == to,
    decreases to - from,
{
    if from < to {
        lemma_number_run_exact(s, from + 1, to);
    }
}

/// An identifier run stays between `pos` and the end of the source.
pub proof fn lemma_identifier_run_range(s: Seq<char>, pos: int)
    requires
        0 <= pos <= s.len(),
    ensures
        pos <= identifier_run_end(s, pos) <= s.len(),
    decreases s.len() - pos,
{
    if 0 <= pos < s.len() && is_identifier_char(s[pos]) {
        lemma_identifier_run_range(s, pos + 1);
    }
}

/// Every token ends within the source, and every token other than `Eof`
/// covers at least one character past the whitespace; an `Eof` token ends
/// exactly at the end of the source.
pub proof fn lemma_spec_token_end(s: Seq<char>, pos: int)
    requires
        0 <= pos <= s.len(),
    ensures
        pos <= spec_token(s, pos).end <= s.len(),
        spec_token(s, pos).kind == TokenType::Eof ==> spec_token(s, pos).end == s.len(),
        spec_token(s, pos).kind != TokenType::Eof ==> spec_token(s, pos).end >= pos + 1,
{
    lemma_skip_ws_range(s, pos);
    let p = skip_ws(s, pos);
    if 0 <= p < s.len() {
        let c = s[p];
        if symbol_kind(c) is None {
            if is_number_char(c) {
                lemma_number_run(s, p);
                assert(number_run_end(s, p) == number_run_end(s, p + 1));
                lemma_number_run(s, p + 1);
            } else if is_identifier_char(c) {
                lemma_identifier_run_range(s, p);
                assert(identifier_run_end(s, p) == identifier_run_end(s, p + 1));
                lemma_identifier_run_range(s, p + 1);
            }
        }
    }
}

/// The tokenizer's cursor over an owned source text. `position` is the index
/// (in characters) of `current_char`; `read_position` is always one past it.
/// Line tracking is carried on tokens but never advanced: every token
/// reports line 1.
pub struct Lexer {
    /// The source code
    pub source: String,
    /// The current position (0 initially)
    pub position: usize,
    /// The next position in the input
    pub read_position: usize,
    /// The current line number (1 initially)
    pub line_no: usize,
    /// The current character being processed
    pub current_char: Option<char>,
}

impl Lexer {
    /// The cursor is inside the source, `read_position` trails one past
    /// `position`, and `current_char` mirrors the character under the cursor.
    pub open spec fn wf(&self) -> bool {
        &&& self.source@.len() < usize::MAX
        &&& self.read_position == self.position + 1
        &&& self.position <= self.source@.len()
        &&& self.current_char == (if self.position < self.source@.len() {
            Some(self.source@[self.position as int])
        } else {
            None::<char>
        })
        &&& self.line_no == 1
    }

    /// A tokenizer over `source`, with the cursor on the first character.
    pub fn new(source: String) -> (l: Lexer)
        requires
            source@.len() < usize::MAX,
        ensures
            l.wf(),
            l.source == source,
            l.position == 0,
    {
        let mut lexer = Lexer {
            source,
            position: 0,
            read_position: 0,
            line_no: 1,
            current_char: None,
        };
        lexer.read_char();
        lexer
    }

    /// Advance the cursor by one character.
    fn read_char(&mut self)
        requires
            old(self).source@.len() < usize::MAX,
            old(self).read_position <= old(self).source@.len(),
        ensures
            final(self).source == old(self).source,
            final(self).line_no == old(self).line_no,
            final(self).position == old(self).read_position,
            final(self).read_position == old(self).read_position + 1,
            final(self).current_char == (if final(self).position < final(self).source@.len() {
                Some(final(self).source@[final(self).position as int])
            } else {
                None::<char>
            }),
    {
        let n = self.source.as_str().unicode_len();
        if self.read_position >= n {
            self.current_char = None;
        } else {
            self.current_char = Some(self.source.as_str().get_char(self.read_position));
        }
        self.position = self.read_position;
        self.read_position = self.read_position + 1;
    }

    /// Move the cursor past any whitespace.
    fn skip_whitespace(&mut self)
        requires
            old(self).wf(),
        ensures
            final(self).wf(),
            final(self).source == old(self).source,
            final(self).position as int == skip_ws(old(self).source@, old(self).position as int),
    {
        loop
            invariant
                self.wf(),
                self.source == old(self).source,
                skip_ws(self.source@, self.position as int) == skip_ws(
                    old(self).source@,
                    old(self).position as int,
                ),
            ensures
                self.wf(),
                self.source == old(self).source,
                self.position as int == skip_ws(old(self).source@, old(self).position as int),
            decreases self.source@.len() - self.position,
        {
            match self.current_char {
                Some(ch) => {
                    if whitespace_char(ch) {
                        self.read_char();
                    } else {
                        assert(skip_ws(self.source@, self.position as int) == self.position as int);
                        break ;
                    }
                },
                None => {
                    assert(skip_ws(self.source@, self.position as int) == self.position as int);
                    break ;
                },
            }
        }
    }

    /// Consume the maximal run of digits and dots under the cursor and return
    /// its text.
    fn read_number(&mut self) -> (lexeme: String)
        requires
            old(self).wf(),
        ensures
            final(self).wf(),
            final(self).source == old(self).source,
            old(self).position <= final(self).position,
            final(self).position as int == number_run_end(
                old(self).source@,
                old(self).position as int,
            ),
            lexeme@ == old(self).source@.subrange(
                old(self).position as int,
                final(self).position as int,
            ),
    {
        let start = self.position;
        loop
            invariant
                self.wf(),
                self.source == old(self).source,
                start <= self.position,
                number_run_end(self.source@, self.position as int) == number_run_end(
                    old(self).source@,
                    start as int,
                ),
            ensures
                self.wf(),
                self.source == old(self).source,
                start <= self.position,
                self.position as int == number_run_end(old(self).source@, start as int),
            decreases self.source@.len() - self.position,
        {
            match self.current_char {
                Some(ch) => {
                    if number_char(ch) {
                        self.read_char();
                    } else {
                        assert(number_run_end(self.source@, self.position as int)
                            == self.position as int);
                        break ;
                    }
                },
                None => {
                    assert(number_run_end(self.source@, self.position as int)
                        == self.position as int);
                    break ;
                },
            }
        }
        self.source.as_str().substring_char(start, self.position).to_owned()
    }

    /// Consume the maximal run of letters and underscores under the cursor
    /// and return its text.
    fn read_identifier(&mut self) -> (lexeme: String)
        requires
            old(self).wf(),
        ensures
            final(self).wf(),
            final(self).source == old(self).source,
            old(self).position <= final(self).position,
            final(self).position as int == identifier_run_end(
                old(self).source@,
                old(self).position as int,
            ),
            lexeme@ == old(self).source@.subrange(
                old(self).position as int,
                final(self).position as int,
            ),
    {
        let start = self.position;
        loop
            invariant
                self.wf(),
                self.source == old(self).source,
                start <= self.position,
                identifier_run_end(self.source@, self.position as int) == identifier_run_end(
                    old(self).source@,
                    start as int,
                ),
            ensures
                self.wf(),
                self.source == old(self).source,
                start <= self.position,
                self.position as int == identifier_run_end(old(self).source@, start as int),
            decreases self.source@.len() - self.position,
        {
            match self.current_char {
                Some(ch) => {
                    if identifier_char(ch) {
                        self.read_char();
                    } else {
                        assert(identifier_run_end(self.source@, self.position as int)
                            == self.position as int);
                        break ;
                    }
                },
                None => {
                    assert(identifier_run_end(self.source@, self.position as int)
                        == self.position as int);
                    break ;
                },
            }
        }
        self.source.as_str().substring_char(start, self.position).to_owned()
    }

    /// Scan and return the next token. At the end of the source this returns
    /// an `Eof` token forever; it never fails.
    pub fn next_token(&mut self) -> (t: Token)
        requires
            old(self).wf(),
        ensures
            final(self).wf(),
            final(self).source == old(self).source,
            token_is(t@, spec_token(old(self).source@, old(self).position as int)),
            final(self).position as int == spec_token(
                old(self).source@,
                old(self).position as int,
            ).end,
    {
        proof {
            lemma_skip_ws_range(old(self).source@, old(self).position as int);
        }
        self.skip_whitespace();
        let ghost s = self.source@;
        let ghost p = self.position as int;
        match self.current_char {
            None => {
                assert(s.subrange(p, p) =~= Seq::<char>::empty());
                Token::new(TokenType::Eof, String::new(), self.line_no, self.position)
            },
            Some(c) => {
                assert(c == s[p]);
                match symbol_token_type(c) {
                    Some(kind) => {
                        let lexeme = self.source.as_str().substring_char(
                            self.position,
                            self.position + 1,
                        ).to_owned();
                        assert(lexeme@ =~= seq![c]);
                        self.read_char();
                        Token::new(kind, lexeme, self.line_no, self.position)
                    },
                    None => {
                        if number_char(c) {
                            let lexeme = self.read_number();
                            let kind = if contains_dot(&lexeme) {
                                TokenType::Float
                            } else {
                                TokenType::Integer
                            };
                            Token::new(kind, lexeme, self.line_no, self.position)
                        } else if identifier_char(c) {
                            let lexeme = self.read_identifier();
                            Token::new(TokenType::Identifier, lexeme, self.line_no, self.position)
                        } else {
                            let lexeme = self.source.as_str().substring_char(
                                self.position,
                                self.position + 1,
                            ).to_owned();
                            assert(lexeme@ =~= seq![c]);
                            self.read_char();
                            Token::new(TokenType::Illegal, lexeme, self.line_no, self.position)
                        }
                    },
                }
            },
        }
    }
}

/// An `Integer` token's lexeme is a nonempty run of decimal digits.
pub proof fn lemma_integer_token_lexeme(s: Seq<char>, pos: int)
    requires
        0 <= pos <= s.len(),
        spec_token(s, pos).kind == TokenType::Integer,
    ensures
        spec_token(s, pos).lexeme.len() >= 1,
        forall|i: int|
            0 <= i < spec_token(s, pos).lexeme.len() ==> is_digit_char(
                spec_token(s, pos).lexeme[i],
            ),
{
    lemma_skip_ws_range(s, pos);
    let p = skip_ws(s, pos);
    let q = number_run_end(s, p);
    let lexeme = spec_token(s, pos).lexeme;
    lemma_number_run(s, p);
    assert(number_run_end(s, p) == number_run_end(s, p + 1));
    lemma_number_run(s, p + 1);
    assert(lexeme =~= s.subrange(p, q));
    assert forall|i: int| 0 <= i < lexeme.len() implies is_digit_char(lexeme[i]) by {
        assert(lexeme[i] == s[p + i]);
        assert(is_number_char(s[p + i]));
        if lexeme[i] == '.' {
            assert(seq_has_dot(lexeme));
        }
    }
}

/// For a source text made only of decimal digits, the tokenizer yields
/// exactly one token before the end of the input: an integer literal whose
/// lexeme is the whole source; after it, every scan returns end-of-input.
pub proof fn lemma_single_integer_token(s: Seq<char>)
    requires
        s.len() >= 1,
        forall|i: int| 0 <= i < s.len() ==> is_digit_char(s[i]),
    ensures
        spec_token(s, 0).kind == TokenType::Integer,
        spec_token(s, 0).lexeme == s,
        spec_token(s, 0).end == s.len(),
        spec_token(s, s.len() as int).kind == TokenType::Eof,
{
    assert(is_digit_char(s[0]));
    assert(!is_whitespace_char(s[0]));
    assert(skip_ws(s, 0) == 0);
    lemma_number_run_exact(s, 0, s.len() as int);
    assert(s.subrange(0, s.len() as int) =~= s);
    assert(!seq_has_dot(s));
    assert(skip_ws(s, s.len() as int) == s.len() as int);
}

/// Whether the string holds a dot anywhere.
fn contains_dot(s: &String) -> (r: bool)
    ensures
        r == seq_has_dot(s@),
{
    let n = s.as_str().unicode_len();
    let mut i: usize = 0;
    while i < n
        invariant
            i <= n,
            n == s@.len(),
            forall|j: int| 0 <= j < i ==> s@[j] != '.',
        decreases n - i,
    {
        if s.as_str().get_char(i) == '.' {
            return true;
        }
        i = i + 1;
    }
    false
}

} // verus!
