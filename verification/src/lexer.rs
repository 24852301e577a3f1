//! The tokenizer: source text in, one token per call out.
//!
//! What the tokenizer does is fixed by [`lex_at`], a function from the text
//! and a character position to the token that starts there. The executable
//! [`Lexer`] walks the text once and is proved to return exactly that.

use crate::number::{int_literal, is_digit, is_float_literal, unsigned_part, NumberScan};
use crate::text::{
    byte_offset, char_indices, char_is_alphanumeric, char_is_numeric, char_is_whitespace,
    indices_next, is_alphanumeric, is_numeric, is_span, is_whitespace, pending, slice_between,
};
use std::str::CharIndices;
use vstd::prelude::*;
use vstd::string::StrSliceExecFns;

verus! {

/// A lexical token. `Ident`, `Str` and `Float` carry the half-open byte range
/// of their text in the source.
#[derive(Debug, Clone, Copy, PartialEq)]
pub enum Token {
    LParen,
    RParen,
    LBracket,
    RBracket,
    LCurly,
    RCurly,
    Colon,
    Comma,
    Ident(usize, usize),
    Bool(bool),
    /// A number that is no 64-bit integer: the byte range of its digits.
    Float(usize, usize),
    Int(i64),
    Char(char),
    Str(usize, usize),
    SomeOptValue,
    NoneOptValue,
}

/// Why a text was rejected.
#[derive(Debug, Clone, Copy, PartialEq)]
pub enum ErrorKind {
    /// A string literal has no closing quote.
    UnterminatedString,
    /// A character literal has no closing quote before the text ends.
    UnterminatedChar,
    /// A character literal holds nothing: `''`.
    EmptyChar,
    /// A character literal holds more than one character.
    OverlongChar,
    /// A run of digits and dots that is neither an integer nor a float.
    InvalidNumber,
    /// The text ends where a token or a value is required.
    UnexpectedEnd,
    /// A value is required and the token starts none.
    ExpectedValue,
    /// A field name is required.
    ExpectedIdentifier,
    /// A `:` is required after a key or a field name.
    ExpectedColon,
    /// A `(` is required after `Some`.
    ExpectedOpenParen,
    /// A `)` is required after the value inside `Some(`.
    ExpectedCloseParen,
}

/// A rejection, with the byte position of the token that caused it.
#[derive(Debug, Clone, Copy, PartialEq)]
pub struct ParseError {
    pub kind: ErrorKind,
    pub offset: usize,
}

/// The classes of characters that the tokenizer scans runs of.
pub enum CharClass {
    /// White space between tokens.
    Space,
    /// What may follow the first character of a number.
    Digits,
    /// What may follow the first character of an identifier.
    Word,
    /// What may stand inside a string literal.
    Quoted,
}

/// Whether the character `c` is of class `k`.
pub open spec fn in_class(c: char, k: CharClass) -> bool {
    match k {
        CharClass::Space => is_whitespace(c),
        CharClass::Digits => is_numeric(c) || c == '.',
        CharClass::Word => is_alphanumeric(c) || c == '_',
        CharClass::Quoted => c != '"',
    }
}

/// The first position at or after `i` whose character is not of class `k`,
/// or the end of the text.
pub open spec fn run_end(s: Seq<char>, i: int, k: CharClass) -> int
    decreases s.len() - i,
{
    if 0 <= i < s.len() && in_class(s[i], k) {
        run_end(s, i + 1, k)
    } else {
        i
    }
}

/// A token together with the character positions it was read from.
pub struct Lexeme {
    pub token: Token,
    /// Where the token starts.
    pub start: int,
    /// The characters `lo..hi` are the text of an `Ident`, `Str` or `Float`.
    pub lo: int,
    pub hi: int,
    /// Where the tokenizer stands after the token.
    pub next: int,
}

/// What the tokenizer finds at a position.
pub enum Lexed {
    /// Nothing but white space is left.
    End,
    Found(Lexeme),
    Failed(ParseError),
}

/// The byte position of character `i` of `s`, as a machine integer.
pub open spec fn offset_of(s: Seq<char>, i: int) -> usize {
    byte_offset(s, i) as usize
}

/// The token that a punctuation character is.
pub open spec fn punctuation(c: char) -> Option<Token> {
    if c == '(' {
        Some(Token::LParen)
    } else if c == ')' {
        Some(Token::RParen)
    } else if c == '[' {
        Some(Token::LBracket)
    } else if c == ']' {
        Some(Token::RBracket)
    } else if c == '{' {
        Some(Token::LCurly)
    } else if c == '}' {
        Some(Token::RCurly)
    } else if c == ':' {
        Some(Token::Colon)
    } else if c == ',' {
        Some(Token::Comma)
    } else {
        None
    }
}

/// The token for a string literal whose opening quote is at `i`.
pub open spec fn lex_string(s: Seq<char>, i: int) -> Lexed {
    let j = run_end(s, i + 1, CharClass::Quoted);
    if j >= s.len() {
        Lexed::Failed(ParseError { kind: ErrorKind::UnterminatedString, offset: offset_of(s, i) })
    } else if j == i + 1 {
        Lexed::Found(Lexeme { token: Token::Str(0, 0), start: i, lo: 0, hi: 0, next: j + 1 })
    } else {
        Lexed::Found(
            Lexeme {
                token: Token::Str(offset_of(s, i + 1), offset_of(s, j)),
                start: i,
                lo: i + 1,
                hi: j,
                next: j + 1,
            },
        )
    }
}

/// The token for a character literal whose opening quote is at `i`.
pub open spec fn lex_char(s: Seq<char>, i: int) -> Lexed {
    if i + 1 >= s.len() {
        Lexed::Failed(ParseError { kind: ErrorKind::UnterminatedChar, offset: offset_of(s, i) })
    } else if s[i + 1] == '\'' {
        Lexed::Failed(ParseError { kind: ErrorKind::EmptyChar, offset: offset_of(s, i) })
    } else if i + 2 >= s.len() {
        Lexed::Failed(ParseError { kind: ErrorKind::UnterminatedChar, offset: offset_of(s, i) })
    } else if s[i + 2] != '\'' {
        Lexed::Failed(ParseError { kind: ErrorKind::OverlongChar, offset: offset_of(s, i) })
    } else {
        Lexed::Found(Lexeme { token: Token::Char(s[i + 1]), start: i, lo: 0, hi: 0, next: i + 3 })
    }
}

/// The token for a number whose first character (a digit or `-`) is at `i`:
/// an integer where the text is one and fits, else a float where it has the
/// shape of one.
pub open spec fn lex_number(s: Seq<char>, i: int) -> Lexed {
    let j = run_end(s, i + 1, CharClass::Digits);
    let text = s.subrange(i, j);
    match int_literal(text) {
        Some(v) => Lexed::Found(
            Lexeme { token: Token::Int(v as i64), start: i, lo: 0, hi: 0, next: j },
        ),
        None => if is_float_literal(text) {
            Lexed::Found(
                Lexeme {
                    token: Token::Float(offset_of(s, i), offset_of(s, j)),
                    start: i,
                    lo: i,
                    hi: j,
                    next: j,
                },
            )
        } else {
            Lexed::Failed(ParseError { kind: ErrorKind::InvalidNumber, offset: offset_of(s, i) })
        },
    }
}

/// The token that the word `text` stands for; `start..end` is its byte range.
pub open spec fn word_token(text: Seq<char>, start: usize, end: usize) -> Token {
    if text == seq!['f', 'a', 'l', 's', 'e'] {
        Token::Bool(false)
    } else if text == seq!['t', 'r', 'u', 'e'] {
        Token::Bool(true)
    } else if text == seq!['S', 'o', 'm', 'e'] {
        Token::SomeOptValue
    } else if text == seq!['N', 'o', 'n', 'e'] {
        Token::NoneOptValue
    } else {
        Token::Ident(start, end)
    }
}

/// The token for a word whose first character is at `i`.
pub open spec fn lex_word(s: Seq<char>, i: int) -> Lexed {
    let j = run_end(s, i + 1, CharClass::Word);
    let token = word_token(s.subrange(i, j), offset_of(s, i), offset_of(s, j));
    if token is Ident {
        Lexed::Found(Lexeme { token, start: i, lo: i, hi: j, next: j })
    } else {
        Lexed::Found(Lexeme { token, start: i, lo: 0, hi: 0, next: j })
    }
}

/// The token that the tokenizer returns when it stands at position `p` of
/// `s`, and where it stands afterwards.
#[verifier::opaque]
pub open spec fn lex_at(s: Seq<char>, p: int) -> Lexed {
    let i = run_end(s, p, CharClass::Space);
    if i >= s.len() {
        Lexed::End
    } else if punctuation(s[i]) is Some {
        Lexed::Found(Lexeme { token: punctuation(s[i])->0, start: i, lo: 0, hi: 0, next: i + 1 })
    } else if s[i] == '"' {
        lex_string(s, i)
    } else if s[i] == '\'' {
        lex_char(s, i)
    } else if is_digit(s[i]) || s[i] == '-' {
        lex_number(s, i)
    } else {
        lex_word(s, i)
    }
}

/// The positions of a lexeme lie in the text, in order, and the byte
/// positions of its text fit the machine.
pub open spec fn fits(s: Seq<char>, lx: Lexeme) -> bool {
    &&& 0 <= lx.start < lx.next <= s.len()
    &&& 0 <= lx.lo <= lx.hi <= s.len()
    &&& byte_offset(s, lx.start) <= usize::MAX
    &&& byte_offset(s, lx.lo) <= usize::MAX
    &&& byte_offset(s, lx.hi) <= usize::MAX
    &&& match lx.token {
        Token::Ident(a, b) => a == byte_offset(s, lx.lo) && b == byte_offset(s, lx.hi),
        Token::Str(a, b) => a == byte_offset(s, lx.lo) && b == byte_offset(s, lx.hi),
        Token::Float(a, b) => a == byte_offset(s, lx.lo) && b == byte_offset(s, lx.hi),
        _ => true,
    }
}

/// The text that an `Ident`, `Str` or `Float` lexeme carries.
pub open spec fn text_of(s: Seq<char>, lx: Lexeme) -> Seq<char> {
    s.subrange(lx.lo, lx.hi)
}

/// A run ends inside the text, at or after its start.
pub proof fn lemma_run_end_bounds(s: Seq<char>, i: int, k: CharClass)
    requires
        0 <= i <= s.len(),
    ensures
        i <= run_end(s, i, k) <= s.len(),
        forall|n: int| i <= n < run_end(s, i, k) ==> in_class(#[trigger] s[n], k),
        run_end(s, i, k) < s.len() ==> !in_class(s[run_end(s, i, k)], k),
    decreases s.len() - i,
{
    if i < s.len() && in_class(s[i], k) {
        lemma_run_end_bounds(s, i + 1, k);
    }
}

/// A tokenizer over a borrowed source text.
pub struct Lexer<'a> {
    src: &'a str,
    iter: CharIndices<'a>,
    trailing: Option<(usize, char)>,
}

impl<'a> Lexer<'a> {
    /// The text being read.
    pub closed spec fn source(&self) -> Seq<char> {
        self.src@
    }

    /// What is still to be read: the character put back, if any, then what
    /// the iterator holds.
    pub closed spec fn rest(&self) -> Seq<(usize, char)> {
        match self.trailing {
            Some(t) => seq![t] + pending(self.iter),
            None => pending(self.iter),
        }
    }

    /// The index of the next character to be read.
    pub closed spec fn cursor(&self) -> int {
        self.src@.len() - self.rest().len()
    }

    /// No character is held back for the next read.
    pub closed spec fn nothing_put_back(&self) -> bool {
        self.trailing is None
    }

    /// What is still to be read is the text from the cursor on, each
    /// character with its byte position.
    pub closed spec fn wf(&self) -> bool {
        &&& 0 <= self.cursor() <= self.src@.len()
        &&& forall|k: int|
            0 <= k < self.rest().len() ==> (#[trigger] self.rest()[k]).1 == self.src@[self.cursor()
                + k] && self.rest()[k].0 == byte_offset(self.src@, self.cursor() + k)
    }

    /// The cursor of a well-formed tokenizer lies in the text.
    pub proof fn lemma_cursor_in_text(&self)
        requires
            self.wf(),
        ensures
            0 <= self.cursor() <= self.source().len(),
    {
    }

    /// A tokenizer at the start of `src`.
    pub fn new(src: &'a str) -> (r: Self)
        ensures
            r.wf(),
            r.source() == src@,
            r.cursor() == 0,
    {
        Self { src, iter: char_indices(src), trailing: None }
    }

    /// The text of the byte range `start..end` of the source.
    pub fn get_string(&self, start: usize, end: usize) -> (r: &'a str)
        requires
            is_span(self.source(), start, end),
        ensures
            forall|i: int, j: int|
                0 <= i <= j <= self.source().len() && start == byte_offset(self.source(), i) && end
                    == byte_offset(self.source(), j) ==> r@ == #[trigger] self.source().subrange(
                    i,
                    j,
                ),
    {
        slice_between(self.src, start, end)
    }

    /// The length of the source in bytes.
    pub(crate) fn byte_len(&self) -> (r: usize)
        ensures
            r == byte_offset(self.source(), self.source().len() as int),
    {
        proof {
            assert(self.src@.take(self.src@.len() as int) =~= self.src@);
        }
        self.src.as_bytes().len()
    }

    /// Reads one character, the one put back first.
    fn next_char(&mut self) -> (r: Option<(usize, char)>)
        requires
            old(self).wf(),
        ensures
            final(self).wf(),
            final(self).nothing_put_back(),
            final(self).source() == old(self).source(),
            old(self).cursor() >= old(self).source().len() ==> r is None && final(self).cursor()
                == old(self).cursor(),
            old(self).cursor() < old(self).source().len() ==> final(self).cursor() == old(self).cursor() + 1 && r == Some(
                (offset_of(old(self).source(), old(self).cursor()), old(self).source()[old(self).cursor()]),
            ) && byte_offset(old(self).source(), old(self).cursor()) <= usize::MAX,
    {
        let ghost before = self.rest();
        let r = match self.trailing {
            Some(t) => {
                self.trailing = None;
                Some(t)
            },
            None => indices_next(&mut self.iter),
        };
        proof {
            if before.len() > 0 {
                assert(r == Some(before[0]));
                assert(self.rest() =~= before.skip(1));
                assert forall|k: int| 0 <= k < self.rest().len() implies (
                #[trigger] self.rest()[k]).1 == self.src@[self.cursor() + k] && self.rest()[k].0
                    == byte_offset(self.src@, self.cursor() + k) by {
                    assert(self.rest()[k] == before[k + 1]);
                }
            }
        }
        r
    }

    /// Puts back the character that was read last.
    fn unread(&mut self, val: (usize, char))
        requires
            old(self).wf(),
            old(self).nothing_put_back(),
            old(self).cursor() >= 1,
            val.1 == old(self).source()[old(self).cursor() - 1],
            val.0 == byte_offset(old(self).source(), old(self).cursor() - 1),
        ensures
            final(self).wf(),
            final(self).source() == old(self).source(),
            final(self).cursor() == old(self).cursor() - 1,
    {
        let ghost before = self.rest();
        self.trailing = Some(val);
        proof {
            assert(self.rest() =~= seq![val] + before);
            assert forall|k: int| 0 <= k < self.rest().len() implies (#[trigger] self.rest()[k]).1
                == self.src@[self.cursor() + k] && self.rest()[k].0 == byte_offset(
                self.src@,
                self.cursor() + k,
            ) by {
                if k > 0 {
                    assert(self.rest()[k] == before[k - 1]);
                }
            }
        }
    }

    /// Skips white space. `None` when the text ends before a token starts.
    fn ignore_whitespaces(&mut self) -> (r: Option<()>)
        requires
            old(self).wf(),
        ensures
            final(self).wf(),
            final(self).source() == old(self).source(),
            final(self).cursor() == run_end(
                old(self).source(),
                old(self).cursor(),
                CharClass::Space,
            ),
            r is Some <==> final(self).cursor() < final(self).source().len(),
    {
        let ghost s = self.source();
        let ghost from = self.cursor();
        let mut val = match self.next_char() {
            Some(v) => v,
            None => {
                return None;
            },
        };
        while char_is_whitespace(val.1)
            invariant
                self.wf(),
                self.nothing_put_back(),
                self.source() == s,
                s == old(self).source(),
                from == old(self).cursor(),
                1 <= self.cursor() <= s.len(),
                val.1 == s[self.cursor() - 1],
                val.0 == byte_offset(s, self.cursor() - 1),
                run_end(s, from, CharClass::Space) == run_end(
                    s,
                    self.cursor() - 1,
                    CharClass::Space,
                ),
            decreases s.len() - self.cursor(),
        {
            val = match self.next_char() {
                Some(v) => v,
                None => {
                    proof {
                        assert(run_end(s, self.cursor(), CharClass::Space) == self.cursor());
                    }
                    return None;
                },
            };
        }
        self.unread(val);
        Some(())
    }

    /// Reads a string literal whose opening quote, at byte `quote_byte`, has
    /// been read.
    fn read_string(&mut self, quote_byte: usize) -> (r: Result<Token, ParseError>)
        requires
            old(self).wf(),
            1 <= old(self).cursor(),
            quote_byte == byte_offset(old(self).source(), old(self).cursor() - 1),
        ensures
            final(self).source() == old(self).source(),
            match lex_string(old(self).source(), old(self).cursor() - 1) {
                Lexed::Found(lx) => r == Ok::<Token, ParseError>(lx.token) && final(self).wf()
                    && final(self).cursor() == lx.next && fits(old(self).source(), lx),
                Lexed::Failed(e) => r == Err::<Token, ParseError>(e),
                Lexed::End => false,
            },
    {
        let ghost s = self.source();
        let ghost i = self.cursor() - 1;
        let failed = Err(ParseError { kind: ErrorKind::UnterminatedString, offset: quote_byte });
        let start = match self.next_char() {
            Some(v) => v,
            None => {
                return failed;
            },
        };
        if start.1 == '"' {
            proof {
                assert(s.take(0) =~= Seq::<char>::empty());
            }
            return Ok(Token::Str(0, 0));
        }
        let mut val = match self.next_char() {
            Some(v) => v,
            None => {
                proof {
                    assert(run_end(s, i + 2, CharClass::Quoted) == i + 2);
                }
                return failed;
            },
        };
        while val.1 != '"'
            invariant
                self.wf(),
                self.source() == s,
                s == old(self).source(),
                i == old(self).cursor() - 1,
                quote_byte == byte_offset(s, i),
                0 <= i,
                i + 3 <= self.cursor() <= s.len(),
                val.1 == s[self.cursor() - 1],
                val.0 == byte_offset(s, self.cursor() - 1),
                failed == Err::<Token, ParseError>(
                    ParseError { kind: ErrorKind::UnterminatedString, offset: quote_byte },
                ),
                run_end(s, i + 1, CharClass::Quoted) == run_end(
                    s,
                    self.cursor() - 1,
                    CharClass::Quoted,
                ),
            decreases s.len() - self.cursor(),
        {
            val = match self.next_char() {
                Some(v) => v,
                None => {
                    proof {
                        assert(run_end(s, self.cursor(), CharClass::Quoted) == self.cursor());
                    }
                    return failed;
                },
            };
        }
        Ok(Token::Str(start.0, val.0))
    }

    /// Reads a character literal whose opening quote, at byte `quote_byte`,
    /// has been read.
    fn read_char(&mut self, quote_byte: usize) -> (r: Result<char, ParseError>)
        requires
            old(self).wf(),
            1 <= old(self).cursor(),
            quote_byte == byte_offset(old(self).source(), old(self).cursor() - 1),
        ensures
            final(self).source() == old(self).source(),
            match lex_char(old(self).source(), old(self).cursor() - 1) {
                Lexed::Found(lx) => r == Ok::<char, ParseError>(old(self).source()[old(self).cursor()]) && final(self).wf() && final(self).cursor() == lx.next,
                Lexed::Failed(e) => r == Err::<char, ParseError>(e),
                Lexed::End => false,
            },
    {
        let start = match self.next_char() {
            Some(v) => v,
            None => {
                return Err(ParseError { kind: ErrorKind::UnterminatedChar, offset: quote_byte });
            },
        };
        if start.1 == '\'' {
            return Err(ParseError { kind: ErrorKind::EmptyChar, offset: quote_byte });
        }
        let end = match self.next_char() {
            Some(v) => v,
            None => {
                return Err(ParseError { kind: ErrorKind::UnterminatedChar, offset: quote_byte });
            },
        };
        if end.1 != '\'' {
            return Err(ParseError { kind: ErrorKind::OverlongChar, offset: quote_byte });
        }
        Ok(start.1)
    }

    /// Reads the rest of a number whose first character `first`, at byte
    /// `start_byte`, has been read.
    fn read_number(&mut self, start_byte: usize, first: char) -> (r: Result<Token, ParseError>)
        requires
            old(self).wf(),
            1 <= old(self).cursor(),
            start_byte == byte_offset(old(self).source(), old(self).cursor() - 1),
            first == old(self).source()[old(self).cursor() - 1],
            is_digit(first) || first == '-',
        ensures
            final(self).source() == old(self).source(),
            match lex_number(old(self).source(), old(self).cursor() - 1) {
                Lexed::Found(lx) => r == Ok::<Token, ParseError>(lx.token) && final(self).wf()
                    && final(self).cursor() == lx.next && fits(old(self).source(), lx),
                Lexed::Failed(e) => r == Err::<Token, ParseError>(e),
                Lexed::End => false,
            },
    {
        let ghost s = self.source();
        let ghost i = self.cursor() - 1;
        let negative = first == '-';
        let mut scan = NumberScan::new();
        if !negative {
            scan.absorb(first);
        }
        proof {
            assert(unsigned_part(s.subrange(i, i + 1)) =~= scan.seen());
            assert(s.take(0) =~= Seq::<char>::empty());
        }
        let mut last_byte = self.byte_len();
        let mut done = false;
        while !done
            invariant
                self.wf(),
                self.source() == s,
                i + 1 <= self.cursor() <= s.len(),
                0 <= i,
                first == s[i],
                negative == (first == '-'),
                scan.wf(),
                scan.seen() == unsigned_part(s.subrange(i, self.cursor())),
                run_end(s, i + 1, CharClass::Digits) == run_end(
                    s,
                    self.cursor(),
                    CharClass::Digits,
                ),
                done ==> run_end(s, self.cursor(), CharClass::Digits) == self.cursor(),
                done ==> last_byte == byte_offset(s, self.cursor()),
                !done ==> last_byte == byte_offset(s, s.len() as int),
            decreases s.len() - self.cursor() + (if done { 0int } else { 1int }),
        {
            let ghost c = self.cursor();
            match self.next_char() {
                None => {
                    done = true;
                },
                Some(val) => {
                    let numeric = char_is_numeric(val.1);
                    if numeric || val.1 == '.' {
                        scan.absorb(val.1);
                        proof {
                            assert(unsigned_part(s.subrange(i, c + 1)) =~= scan.seen());
                        }
                    } else {
                        self.unread(val);
                        last_byte = val.0;
                        done = true;
                    }
                },
            }
        }
        let ghost text = s.subrange(i, self.cursor());
        proof {
            assert(text.len() > 0 && text[0] == first);
        }
        match scan.integer(negative) {
            Some(x) => Ok(Token::Int(x)),
            None => {
                if scan.is_float() {
                    Ok(Token::Float(start_byte, last_byte))
                } else {
                    Err(ParseError { kind: ErrorKind::InvalidNumber, offset: start_byte })
                }
            },
        }
    }

    /// Reads the rest of a word whose first character, at byte `start_byte`,
    /// has been read. Returns the byte range of the word.
    fn read_ident(&mut self, start_byte: usize) -> (r: (usize, usize))
        requires
            old(self).wf(),
            1 <= old(self).cursor(),
            start_byte == byte_offset(old(self).source(), old(self).cursor() - 1),
        ensures
            final(self).wf(),
            final(self).source() == old(self).source(),
            final(self).cursor() == run_end(
                old(self).source(),
                old(self).cursor(),
                CharClass::Word,
            ),
            old(self).cursor() <= final(self).cursor() <= old(self).source().len(),
            r.0 == start_byte,
            r.1 == byte_offset(old(self).source(), final(self).cursor()),
    {
        let ghost s = self.source();
        let ghost from = self.cursor();
        let mut last_byte = self.byte_len();
        let mut done = false;
        while !done
            invariant
                self.wf(),
                self.source() == s,
                from <= self.cursor() <= s.len(),
                run_end(s, from, CharClass::Word) == run_end(s, self.cursor(), CharClass::Word),
                done ==> run_end(s, self.cursor(), CharClass::Word) == self.cursor(),
                done ==> last_byte == byte_offset(s, self.cursor()),
                !done ==> last_byte == byte_offset(s, s.len() as int),
            decreases s.len() - self.cursor() + (if done { 0int } else { 1int }),
        {
            match self.next_char() {
                None => {
                    done = true;
                },
                Some(val) => {
                    let alphanumeric = char_is_alphanumeric(val.1);
                    if !(alphanumeric || val.1 == '_') {
                        self.unread(val);
                        last_byte = val.0;
                        done = true;
                    }
                },
            }
        }
        (start_byte, last_byte)
    }

    /// The next token, with the byte position at which it starts; `None` when
    /// only white space is left.
    pub(crate) fn next_located(&mut self) -> (r: Result<Option<(Token, usize)>, ParseError>)
        requires
            old(self).wf(),
        ensures
            final(self).source() == old(self).source(),
            match lex_at(old(self).source(), old(self).cursor()) {
                Lexed::End => r == Ok::<Option<(Token, usize)>, ParseError>(None) && final(self).wf() && final(self).cursor() == final(self).source().len(),
                Lexed::Found(lx) => r == Ok::<Option<(Token, usize)>, ParseError>(
                    Some((lx.token, offset_of(old(self).source(), lx.start))),
                ) && fits(old(self).source(), lx) && final(self).wf() && final(self).cursor()
                    == lx.next,
                Lexed::Failed(e) => r == Err::<Option<(Token, usize)>, ParseError>(e),
            },
    {
        let ghost s = self.source();
        proof {
            reveal(lex_at);
            assert(s.take(0) =~= Seq::<char>::empty());
        }
        if self.ignore_whitespaces().is_none() {
            return Ok(None);
        }
        let ghost i = self.cursor();
        let (char_byte, c) = match self.next_char() {
            Some(v) => v,
            None => {
                return Ok(None);
            },
        };
        let token = if c == '(' {
            Token::LParen
        } else if c == ')' {
            Token::RParen
        } else if c == '[' {
            Token::LBracket
        } else if c == ']' {
            Token::RBracket
        } else if c == '{' {
            Token::LCurly
        } else if c == '}' {
            Token::RCurly
        } else if c == ':' {
            Token::Colon
        } else if c == ',' {
            Token::Comma
        } else if c == '"' {
            match self.read_string(char_byte) {
                Ok(t) => t,
                Err(e) => {
                    return Err(e);
                },
            }
        } else if c == '\'' {
            match self.read_char(char_byte) {
                Ok(x) => Token::Char(x),
                Err(e) => {
                    return Err(e);
                },
            }
        } else if ('0' <= c && c <= '9') || c == '-' {
            match self.read_number(char_byte, c) {
                Ok(t) => t,
                Err(e) => {
                    return Err(e);
                },
            }
        } else {
            let ident = self.read_ident(char_byte);
            let text = self.get_string(ident.0, ident.1);
            proof {
                assert(text@ == s.subrange(i, self.cursor()));
            }
            keyword(text, ident.0, ident.1)
        };
        Ok(Some((token, char_byte)))
    }

    /// The next token; `None` when only white space is left.
    pub fn next_token(&mut self) -> (r: Result<Option<Token>, ParseError>)
        requires
            old(self).wf(),
        ensures
            final(self).source() == old(self).source(),
            match lex_at(old(self).source(), old(self).cursor()) {
                Lexed::End => r == Ok::<Option<Token>, ParseError>(None) && final(self).wf()
                    && final(self).cursor() == final(self).source().len(),
                Lexed::Found(lx) => r == Ok::<Option<Token>, ParseError>(Some(lx.token)) && fits(
                    old(self).source(),
                    lx,
                ) && final(self).wf() && final(self).cursor() == lx.next,
                Lexed::Failed(e) => r == Err::<Option<Token>, ParseError>(e),
            },
    {
        match self.next_located() {
            Ok(Some(found)) => Ok(Some(found.0)),
            Ok(None) => Ok(None),
            Err(e) => Err(e),
        }
    }
}

/// The token that the word `text` stands for: a keyword where it is spelled
/// exactly like one, else an identifier with the byte range `start..end`.
pub fn keyword(text: &str, start: usize, end: usize) -> (r: Token)
    ensures
        r == word_token(text@, start, end),
{
    let n = text.unicode_len();
    if n == 5 {
        let a = text.get_char(0);
        let b = text.get_char(1);
        let c = text.get_char(2);
        let d = text.get_char(3);
        let e = text.get_char(4);
        proof {
            assert(text@ =~= seq![a, b, c, d, e]);
        }
        if a == 'f' && b == 'a' && c == 'l' && d == 's' && e == 'e' {
            return Token::Bool(false);
        }
    } else if n == 4 {
        let a = text.get_char(0);
        let b = text.get_char(1);
        let c = text.get_char(2);
        let d = text.get_char(3);
        proof {
            assert(text@ =~= seq![a, b, c, d]);
        }
        if a == 't' && b == 'r' && c == 'u' && d == 'e' {
            return Token::Bool(true);
        }
        if a == 'S' && b == 'o' && c == 'm' && d == 'e' {
            return Token::SomeOptValue;
        }
        if a == 'N' && b == 'o' && c == 'n' && d == 'e' {
            return Token::NoneOptValue;
        }
    }
    Token::Ident(start, end)
}

} // verus!
