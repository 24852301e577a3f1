//! The event parser: one structural event per call.
//!
//! The parser pulls tokens from the tokenizer on demand and keeps a stack of
//! the contexts that are open. Tokens read while trying one way to start a
//! value are put back before the next way is tried. Each call returns
//! exactly what [`step`] says for the position and the stack it starts from.

use crate::grammar::{
    announce, element, expect, in_container, is_container, lemma_nothing_is_no_lex_error, list_at, mandatory_value, map_at,
    optional_some_at, primitive_at, step, struct_at, tuple_at, value_at, Event, Expected, Frame,
    Scalar, Started,
};
use crate::lexer::{
    fits, lemma_run_end_bounds, lex_at, offset_of, run_end, text_of, CharClass, ErrorKind, Lexed,
    Lexeme, Lexer, ParseError, Token,
};
use std::collections::VecDeque;
use vstd::prelude::*;

verus! {

/// A scalar value. Texts are borrowed from the source; a float is given as
/// the text of its literal.
#[derive(Debug, Clone, Copy, PartialEq)]
pub enum RonPrimitive<'a> {
    NoneOptValue,
    Int(i64),
    Float(&'a str),
    Bool(bool),
    Char(char),
    Str(&'a str),
    Enum(&'a str),
}

/// A structural event. Names are borrowed from the source.
#[derive(Debug, Clone, Copy, PartialEq)]
pub enum RonEvent<'a> {
    /// The next events are the wrapped value. There is no end event.
    OptionalSomeValue,
    /// A scalar value. There is no end event.
    Primitive(RonPrimitive<'a>),
    /// A struct starts. Each value is preceded by a `NamedField`.
    StructStart { name: Option<&'a str> },
    /// The next events are the value of this field. There is no end event.
    NamedField(&'a str),
    /// The struct that started last ends.
    StructEnd { name: Option<&'a str> },
    /// A tuple starts. Its values follow in order.
    TupleStart { name: Option<&'a str> },
    /// The tuple that started last ends.
    TupleEnd { name: Option<&'a str> },
    /// A map starts. Each pair is the events of the key, then those of the
    /// value.
    MapStart,
    /// The map that started last ends.
    MapEnd,
    /// A list starts. Its values follow in order.
    ListStart,
    /// The list that started last ends.
    ListEnd,
    /// No further value exists.
    Eof,
}

/// The characters of an optional name.
pub open spec fn name_view(name: Option<&str>) -> Option<Seq<char>> {
    match name {
        Some(n) => Some(n@),
        None => None,
    }
}

impl<'a> View for RonPrimitive<'a> {
    type V = Scalar;

    open spec fn view(&self) -> Scalar {
        match *self {
            RonPrimitive::NoneOptValue => Scalar::Nothing,
            RonPrimitive::Int(x) => Scalar::Int(x),
            RonPrimitive::Float(t) => Scalar::Float(t@),
            RonPrimitive::Bool(x) => Scalar::Bool(x),
            RonPrimitive::Char(x) => Scalar::Char(x),
            RonPrimitive::Str(t) => Scalar::Str(t@),
            RonPrimitive::Enum(t) => Scalar::Enum(t@),
        }
    }
}

impl<'a> View for RonEvent<'a> {
    type V = Event;

    open spec fn view(&self) -> Event {
        match *self {
            RonEvent::OptionalSomeValue => Event::OptionalSome,
            RonEvent::Primitive(x) => Event::Primitive(x@),
            RonEvent::StructStart { name } => Event::StructStart(name_view(name)),
            RonEvent::NamedField(t) => Event::NamedField(t@),
            RonEvent::StructEnd { name } => Event::StructEnd(name_view(name)),
            RonEvent::TupleStart { name } => Event::TupleStart(name_view(name)),
            RonEvent::TupleEnd { name } => Event::TupleEnd(name_view(name)),
            RonEvent::MapStart => Event::MapStart,
            RonEvent::MapEnd => Event::MapEnd,
            RonEvent::ListStart => Event::ListStart,
            RonEvent::ListEnd => Event::ListEnd,
            RonEvent::Eof => Event::Eof,
        }
    }
}

/// An open context, as the parser holds it.
#[derive(Clone, Copy)]
enum InternalState<'a> {
    SecondValue,
    MapBody,
    Struct { name: Option<&'a str> },
    Tuple { name: Option<&'a str> },
    List,
    OptionalSomeValue,
    EndedOptionalSomeValue,
}

impl<'a> View for InternalState<'a> {
    type V = Frame;

    closed spec fn view(&self) -> Frame {
        match *self {
            InternalState::SecondValue => Frame::SecondValue,
            InternalState::MapBody => Frame::MapBody,
            InternalState::Struct { name } => Frame::Struct(name_view(name)),
            InternalState::Tuple { name } => Frame::Tuple(name_view(name)),
            InternalState::List => Frame::List,
            InternalState::OptionalSomeValue => Frame::OptionalSomeValue,
            InternalState::EndedOptionalSomeValue => Frame::EndedOptionalSomeValue,
        }
    }
}

/// The tokens `q` are those that start at `p`, one after the other, and the
/// tokenizer at `cur` goes on where they end.
pub open spec fn queued(s: Seq<char>, p: int, q: Seq<(Token, usize)>, cur: int) -> bool
    decreases q.len(),
{
    if q.len() == 0 {
        run_end(s, p, CharClass::Space) == run_end(s, cur, CharClass::Space)
    } else {
        match lex_at(s, p) {
            Lexed::Found(lx) => q[0] == (lx.token, offset_of(s, lx.start)) && fits(s, lx)
                && queued(s, lx.next, q.skip(1), cur),
            _ => false,
        }
    }
}

/// A pull parser over a borrowed source text.
pub struct RonDeserializer<'a> {
    lexer: Lexer<'a>,
    tok_queue: VecDeque<(Token, usize)>,
    stack: Vec<InternalState<'a>>,
    pos: Ghost<int>,
}

impl<'a> RonDeserializer<'a> {
    /// The text being parsed.
    pub closed spec fn source(&self) -> Seq<char> {
        self.lexer.source()
    }

    /// The character position that the parser stands at: the next token is
    /// the one that starts here.
    pub closed spec fn pos(&self) -> int {
        self.pos@
    }

    /// The contexts that are open, innermost last.
    pub closed spec fn stack_view(&self) -> Seq<Frame> {
        self.stack@.map_values(|f: InternalState<'a>| f@)
    }

    /// The tokens that were put back are those from `pos()` up to where the
    /// tokenizer stands.
    pub closed spec fn wf(&self) -> bool {
        &&& self.lexer.wf()
        &&& 0 <= self.pos@ <= self.lexer.source().len()
        &&& 0 <= self.lexer.cursor() <= self.lexer.source().len()
        &&& queued(self.lexer.source(), self.pos@, self.tok_queue@, self.lexer.cursor())
    }

    /// A parser at the start of `src`, with nothing open.
    pub fn new(src: &'a str) -> (r: Self)
        ensures
            r.wf(),
            r.source() == src@,
            r.pos() == 0,
            r.stack_view() == Seq::<Frame>::empty(),
    {
        let r = Self {
            lexer: Lexer::new(src),
            tok_queue: VecDeque::new(),
            stack: Vec::new(),
            pos: Ghost(0),
        };
        proof {
            r.lexer.lemma_cursor_in_text();
            assert(r.tok_queue@.len() == 0);
            assert(r.stack_view() =~= Seq::<Frame>::empty());
        }
        r
    }

    /// The next token: the one put back last, else the tokenizer's next.
    fn next_token(&mut self) -> (r: Result<Option<(Token, usize)>, ParseError>)
        requires
            old(self).wf(),
        ensures
            final(self).source() == old(self).source(),
            final(self).stack == old(self).stack,
            match lex_at(old(self).source(), old(self).pos()) {
                Lexed::End => r == Ok::<Option<(Token, usize)>, ParseError>(None) && final(self).wf() && final(self).pos() == old(self).pos(),
                Lexed::Found(lx) => r == Ok::<Option<(Token, usize)>, ParseError>(
                    Some((lx.token, offset_of(old(self).source(), lx.start))),
                ) && fits(old(self).source(), lx) && final(self).wf() && final(self).pos()
                    == lx.next,
                Lexed::Failed(e) => r == Err::<Option<(Token, usize)>, ParseError>(e),
            },
    {
        let ghost s = self.source();
        let ghost before = self.tok_queue@;
        match self.tok_queue.pop_front() {
            Some(tok) => {
                proof {
                    assert(self.tok_queue@ =~= before.skip(1));
                    let lx = lex_at(s, self.pos@)->Found_0;
                    self.pos = Ghost(lx.next);
                }
                return Ok(Some(tok));
            },
            None => {},
        }
        proof {
            reveal(lex_at);
            lemma_run_end_bounds(s, self.pos@, CharClass::Space);
            lemma_run_end_bounds(s, self.lexer.cursor(), CharClass::Space);
        }
        match self.lexer.next_located() {
            Ok(Some(tok)) => {
                proof {
                    self.lexer.lemma_cursor_in_text();
                    self.pos = Ghost(self.lexer.cursor());
                }
                Ok(Some(tok))
            },
            Ok(None) => {
                proof {
                    self.lexer.lemma_cursor_in_text();
                    assert(run_end(s, s.len() as int, CharClass::Space) == s.len());
                }
                Ok(None)
            },
            Err(e) => Err(e),
        }
    }

    /// Puts `tok` back, so that it is the next token again. `from` is the
    /// position that it was read at.
    fn push_back(&mut self, tok: (Token, usize), Ghost(from): Ghost<int>)
        requires
            old(self).wf(),
            0 <= from <= old(self).source().len(),
            lex_at(old(self).source(), from) matches Lexed::Found(lx) && lx.next == old(self).pos()
                && tok == (lx.token, offset_of(old(self).source(), lx.start)) && fits(
                old(self).source(),
                lx,
            ),
        ensures
            final(self).wf(),
            final(self).source() == old(self).source(),
            final(self).stack == old(self).stack,
            final(self).pos() == from,
    {
        let ghost before = self.tok_queue@;
        self.tok_queue.push_front(tok);
        proof {
            assert(self.tok_queue@.skip(1) =~= before);
            self.pos = Ghost(from);
        }
    }

    /// Opens the context `state`.
    fn open(&mut self, state: InternalState<'a>)
        requires
            old(self).wf(),
        ensures
            final(self).wf(),
            final(self).source() == old(self).source(),
            final(self).pos() == old(self).pos(),
            final(self).stack_view() == old(self).stack_view().push(state@),
    {
        self.stack.push(state);
        proof {
            assert(self.stack_view() =~= old(self).stack_view().push(state@));
        }
    }

    /// Closes the innermost context.
    fn close(&mut self)
        requires
            old(self).wf(),
            old(self).stack_view().len() > 0,
        ensures
            final(self).wf(),
            final(self).source() == old(self).source(),
            final(self).pos() == old(self).pos(),
            final(self).stack_view() == old(self).stack_view().drop_last(),
    {
        self.stack.pop();
        proof {
            assert(self.stack_view() =~= old(self).stack_view().drop_last());
        }
    }

    /// The text of a token that carries one.
    fn text(&self, start: usize, end: usize, Ghost(lx): Ghost<Lexeme>) -> (r: &'a str)
        requires
            fits(self.source(), lx),
            start == crate::text::byte_offset(self.source(), lx.lo),
            end == crate::text::byte_offset(self.source(), lx.hi),
        ensures
            r@ == text_of(self.source(), lx),
    {
        self.lexer.get_string(start, end)
    }

    fn try_struct(&mut self) -> (r: Result<Option<RonEvent<'a>>, ParseError>)
        requires
            old(self).wf(),
        ensures
            final(self).source() == old(self).source(),
            final(self).tried(*old(self), struct_at(old(self).source(), old(self).pos()), r),
    {
        let ghost s = self.source();
        let ghost here = self.pos();
        let ident_tok = match self.next_token() {
            Ok(Some(t)) => t,
            Ok(None) => {
                return Ok(None);
            },
            Err(e) => {
                return Err(e);
            },
        };
        let ghost first = lex_at(s, here)->Found_0;
        let name = match ident_tok.0 {
            Token::Ident(a, b) => Some(self.text(a, b, Ghost(first))),
            _ => {
                self.push_back(ident_tok, Ghost(here));
                None
            },
        };
        let ghost after_name = self.pos();
        let paren_tok = match self.next_token() {
            Ok(Some(t)) => t,
            Ok(None) => {
                if name.is_some() {
                    self.push_back(ident_tok, Ghost(here));
                }
                return Ok(None);
            },
            Err(e) => {
                return Err(e);
            },
        };
        let ghost after_paren = self.pos();
        if !is_token(paren_tok.0, Token::LParen) {
            self.push_back(paren_tok, Ghost(after_name));
            if name.is_some() {
                self.push_back(ident_tok, Ghost(here));
            }
            return Ok(None);
        }
        let field_tok = match self.next_token() {
            Ok(Some(t)) => t,
            Ok(None) => {
                self.push_back(paren_tok, Ghost(after_name));
                if name.is_some() {
                    self.push_back(ident_tok, Ghost(here));
                }
                return Ok(None);
            },
            Err(e) => {
                return Err(e);
            },
        };
        let ghost after_field = self.pos();
        let is_field = match field_tok.0 {
            Token::Ident(_, _) => true,
            _ => false,
        };
        if !is_field {
            self.push_back(field_tok, Ghost(after_paren));
            self.push_back(paren_tok, Ghost(after_name));
            if name.is_some() {
                self.push_back(ident_tok, Ghost(here));
            }
            return Ok(None);
        }
        let colon_tok = match self.next_token() {
            Ok(Some(t)) => t,
            Ok(None) => {
                self.push_back(field_tok, Ghost(after_paren));
                self.push_back(paren_tok, Ghost(after_name));
                if name.is_some() {
                    self.push_back(ident_tok, Ghost(here));
                }
                return Ok(None);
            },
            Err(e) => {
                return Err(e);
            },
        };
        if !is_token(colon_tok.0, Token::Colon) {
            self.push_back(colon_tok, Ghost(after_field));
            self.push_back(field_tok, Ghost(after_paren));
            self.push_back(paren_tok, Ghost(after_name));
            if name.is_some() {
                self.push_back(ident_tok, Ghost(here));
            }
            return Ok(None);
        }
        self.push_back(colon_tok, Ghost(after_field));
        self.push_back(field_tok, Ghost(after_paren));
        self.open(InternalState::Struct { name });
        Ok(Some(RonEvent::StructStart { name }))
    }

    fn try_tuple(&mut self) -> (r: Result<Option<RonEvent<'a>>, ParseError>)
        requires
            old(self).wf(),
        ensures
            final(self).source() == old(self).source(),
            final(self).tried(*old(self), tuple_at(old(self).source(), old(self).pos()), r),
    {
        let ghost s = self.source();
        let ghost here = self.pos();
        let ident_tok = match self.next_token() {
            Ok(Some(t)) => t,
            Ok(None) => {
                return Ok(None);
            },
            Err(e) => {
                return Err(e);
            },
        };
        let ghost first = lex_at(s, here)->Found_0;
        let name = match ident_tok.0 {
            Token::Ident(a, b) => Some(self.text(a, b, Ghost(first))),
            _ => {
                self.push_back(ident_tok, Ghost(here));
                None
            },
        };
        let ghost after_name = self.pos();
        match self.next_token() {
            Ok(Some(tok)) => {
                if is_token(tok.0, Token::LParen) {
                    self.open(InternalState::Tuple { name });
                    return Ok(Some(RonEvent::TupleStart { name }));
                }
                self.push_back(tok, Ghost(after_name));
                if name.is_some() {
                    self.push_back(ident_tok, Ghost(here));
                }
                Ok(None)
            },
            Ok(None) => {
                if name.is_some() {
                    self.push_back(ident_tok, Ghost(here));
                }
                Ok(None)
            },
            Err(e) => Err(e),
        }
    }

    fn try_list(&mut self) -> (r: Result<Option<RonEvent<'a>>, ParseError>)
        requires
            old(self).wf(),
        ensures
            final(self).source() == old(self).source(),
            final(self).tried(*old(self), list_at(old(self).source(), old(self).pos()), r),
    {
        let ghost here = self.pos();
        let tok = match self.next_token() {
            Ok(Some(t)) => t,
            Ok(None) => {
                return Ok(None);
            },
            Err(e) => {
                return Err(e);
            },
        };
        if is_token(tok.0, Token::LBracket) {
            self.open(InternalState::List);
            return Ok(Some(RonEvent::ListStart));
        }
        self.push_back(tok, Ghost(here));
        Ok(None)
    }

    fn try_map(&mut self) -> (r: Result<Option<RonEvent<'a>>, ParseError>)
        requires
            old(self).wf(),
        ensures
            final(self).source() == old(self).source(),
            final(self).tried(*old(self), map_at(old(self).source(), old(self).pos()), r),
    {
        let ghost here = self.pos();
        let tok = match self.next_token() {
            Ok(Some(t)) => t,
            Ok(None) => {
                return Ok(None);
            },
            Err(e) => {
                return Err(e);
            },
        };
        if is_token(tok.0, Token::LCurly) {
            self.open(InternalState::MapBody);
            return Ok(Some(RonEvent::MapStart));
        }
        self.push_back(tok, Ghost(here));
        Ok(None)
    }

    fn try_optional_some(&mut self) -> (r: Result<Option<RonEvent<'a>>, ParseError>)
        requires
            old(self).wf(),
        ensures
            final(self).source() == old(self).source(),
            final(self).tried(*old(self), optional_some_at(old(self).source(), old(self).pos()), r),
    {
        let ghost here = self.pos();
        let tok = match self.next_token() {
            Ok(Some(t)) => t,
            Ok(None) => {
                return Ok(None);
            },
            Err(e) => {
                return Err(e);
            },
        };
        if is_token(tok.0, Token::SomeOptValue) {
            match self.next_token() {
                Ok(Some(paren)) => {
                    if !is_token(paren.0, Token::LParen) {
                        return Err(
                            ParseError { kind: ErrorKind::ExpectedOpenParen, offset: paren.1 },
                        );
                    }
                },
                Ok(None) => {
                    return Err(
                        ParseError {
                            kind: ErrorKind::UnexpectedEnd,
                            offset: self.lexer.byte_len(),
                        },
                    );
                },
                Err(e) => {
                    return Err(e);
                },
            }
            self.open(InternalState::OptionalSomeValue);
            return Ok(Some(RonEvent::OptionalSomeValue));
        }
        self.push_back(tok, Ghost(here));
        Ok(None)
    }

    fn try_primitive(&mut self) -> (r: Result<Option<RonEvent<'a>>, ParseError>)
        requires
            old(self).wf(),
        ensures
            final(self).source() == old(self).source(),
            final(self).tried(*old(self), primitive_at(old(self).source(), old(self).pos()), r),
    {
        let ghost s = self.source();
        let ghost here = self.pos();
        let tok = match self.next_token() {
            Ok(Some(t)) => t,
            Ok(None) => {
                return Ok(None);
            },
            Err(e) => {
                return Err(e);
            },
        };
        let ghost lx = lex_at(s, here)->Found_0;
        let value = match tok.0 {
            Token::Ident(a, b) => RonPrimitive::Enum(self.text(a, b, Ghost(lx))),
            Token::Bool(x) => RonPrimitive::Bool(x),
            Token::Float(a, b) => RonPrimitive::Float(self.text(a, b, Ghost(lx))),
            Token::Int(x) => RonPrimitive::Int(x),
            Token::Char(x) => RonPrimitive::Char(x),
            Token::Str(a, b) => RonPrimitive::Str(self.text(a, b, Ghost(lx))),
            Token::NoneOptValue => RonPrimitive::NoneOptValue,
            _ => {
                self.push_back(tok, Ghost(here));
                return Ok(None);
            },
        };
        Ok(Some(RonEvent::Primitive(value)))
    }

    /// What an attempt to start a value leaves behind: the parser `self`
    /// after the attempt, `before` it, and the result `r`, against what the
    /// grammar says of the attempt.
    pub open spec fn tried(
        &self,
        before: Self,
        started: Started,
        r: Result<Option<RonEvent<'a>>, ParseError>,
    ) -> bool {
        match started {
            Started::Failed(e) => r == Err::<Option<RonEvent<'a>>, ParseError>(e),
            Started::Nothing => r == Ok::<Option<RonEvent<'a>>, ParseError>(None) && self.wf()
                && self.pos() == before.pos() && self.stack_view() == before.stack_view(),
            Started::Begun { event, pushed, next } => {
                &&& r matches Ok(Some(ev)) && ev@ == event
                &&& self.wf()
                &&& self.pos() == next
                &&& self.stack_view() == crate::grammar::with_pushed(before.stack_view(), pushed)
            },
        }
    }

    /// Tries each way a value can start, in the order of preference.
    fn try_value(&mut self) -> (r: Result<Option<RonEvent<'a>>, ParseError>)
        requires
            old(self).wf(),
        ensures
            final(self).source() == old(self).source(),
            final(self).tried(*old(self), value_at(old(self).source(), old(self).pos()), r),
    {
        proof {
            reveal(value_at);
        }
        match self.try_struct() {
            Ok(Some(x)) => {
                return Ok(Some(x));
            },
            Ok(None) => {},
            Err(e) => {
                return Err(e);
            },
        }
        match self.try_tuple() {
            Ok(Some(x)) => {
                return Ok(Some(x));
            },
            Ok(None) => {},
            Err(e) => {
                return Err(e);
            },
        }
        match self.try_primitive() {
            Ok(Some(x)) => {
                return Ok(Some(x));
            },
            Ok(None) => {},
            Err(e) => {
                return Err(e);
            },
        }
        match self.try_optional_some() {
            Ok(Some(x)) => {
                return Ok(Some(x));
            },
            Ok(None) => {},
            Err(e) => {
                return Err(e);
            },
        }
        match self.try_map() {
            Ok(Some(x)) => {
                return Ok(Some(x));
            },
            Ok(None) => {},
            Err(e) => {
                return Err(e);
            },
        }
        self.try_list()
    }

    /// What a call leaves behind: the parser `self` after it and the result
    /// `r`, against the outcome `want` that the grammar gives.
    pub open spec fn stepped(&self, want: crate::grammar::Step, r: Result<RonEvent<'a>, ParseError>)
        -> bool {
        match want.result {
            Err(e) => r == Err::<RonEvent<'a>, ParseError>(e),
            Ok(event) => {
                &&& r matches Ok(ev) && ev@ == event
                &&& self.wf()
                &&& self.pos() == want.pos
                &&& self.stack_view() == want.stack
            },
        }
    }

    /// The error for a token that is missing or of the wrong kind at the
    /// parser's position.
    fn unexpected(&mut self, kind: ErrorKind) -> (r: ParseError)
        requires
            old(self).wf(),
        ensures
            final(self).source() == old(self).source(),
            match lex_at(old(self).source(), old(self).pos()) {
                Lexed::End => r == (ParseError {
                    kind: ErrorKind::UnexpectedEnd,
                    offset: offset_of(old(self).source(), old(self).source().len() as int),
                }),
                Lexed::Found(lx) => r == (ParseError {
                    kind,
                    offset: offset_of(old(self).source(), lx.start),
                }),
                Lexed::Failed(e) => r == e,
            },
    {
        match self.next_token() {
            Ok(Some(tok)) => ParseError { kind, offset: tok.1 },
            Ok(None) => ParseError { kind: ErrorKind::UnexpectedEnd, offset: self.lexer.byte_len() },
            Err(e) => e,
        }
    }

    /// Reads the value that must start here.
    fn expect_value(&mut self) -> (r: Result<RonEvent<'a>, ParseError>)
        requires
            old(self).wf(),
        ensures
            final(self).source() == old(self).source(),
            final(self).stepped(
                mandatory_value(old(self).source(), old(self).pos(), old(self).stack_view()),
                r,
            ),
    {
        proof {
            lemma_nothing_is_no_lex_error(self.source(), self.pos());
        }
        match self.try_value() {
            Ok(Some(x)) => Ok(x),
            Ok(None) => Err(self.unexpected(ErrorKind::ExpectedValue)),
            Err(e) => Err(e),
        }
    }

    /// Reads the token `wanted`, if it is the next one.
    fn accept(&mut self, wanted: Token) -> (r: Result<bool, ParseError>)
        requires
            old(self).wf(),
            !(wanted is Ident) && !(wanted is Str) && !(wanted is Float) && !(wanted is Int) && !(
            wanted is Char) && !(wanted is Bool),
        ensures
            final(self).source() == old(self).source(),
            match expect(old(self).source(), old(self).pos(), wanted) {
                Expected::Failed(e) => r == Err::<bool, ParseError>(e),
                Expected::Taken(next) => r == Ok::<bool, ParseError>(true) && final(self).wf()
                    && final(self).pos() == next && final(self).stack_view() == old(self).stack_view(),
                Expected::Other => r == Ok::<bool, ParseError>(false) && final(self).wf() && final(self).pos() == old(self).pos() && final(self).stack_view() == old(self).stack_view(),
            },
    {
        let ghost here = self.pos();
        match self.next_token() {
            Ok(Some(tok)) => {
                if is_token(tok.0, wanted) {
                    Ok(true)
                } else {
                    self.push_back(tok, Ghost(here));
                    Ok(false)
                }
            },
            Ok(None) => Err(
                ParseError { kind: ErrorKind::UnexpectedEnd, offset: self.lexer.byte_len() },
            ),
            Err(e) => Err(e),
        }
    }

    /// Reads the `:` that must stand here, and notes that a value is owed.
    fn colon_then(&mut self, event: RonEvent<'a>) -> (r: Result<RonEvent<'a>, ParseError>)
        requires
            old(self).wf(),
        ensures
            final(self).source() == old(self).source(),
            final(self).stepped(
                announce(old(self).source(), old(self).pos(), old(self).stack_view(), event@),
                r,
            ),
    {
        match self.accept(Token::Colon) {
            Ok(true) => {
                self.open(InternalState::SecondValue);
                Ok(event)
            },
            Ok(false) => Err(self.unexpected(ErrorKind::ExpectedColon)),
            Err(e) => Err(e),
        }
    }

    /// The next event: a scalar, the start or end of a container, a key or
    /// field name, or `Eof` once no value is left at the top level.
    pub fn next_event(&mut self) -> (r: Result<RonEvent<'a>, ParseError>)
        requires
            old(self).wf(),
        ensures
            final(self).source() == old(self).source(),
            final(self).stepped(step(old(self).source(), old(self).pos(), old(self).stack_view()), r),
    {
        let ghost s = self.source();
        let ghost want = step(s, self.pos(), self.stack_view());
        loop
            invariant
                self.wf(),
                self.source() == s,
                s == old(self).source(),
                want == step(old(self).source(), old(self).pos(), old(self).stack_view()),
                want == step(s, self.pos(), self.stack_view()),
            decreases self.stack_view().len(),
        {
            let n = self.stack.len();
            if n == 0 {
                return self.top_level_event();
            }
            let top = self.stack[n - 1];
            proof {
                assert(self.stack_view().last() == top@);
            }
            match top {
                InternalState::EndedOptionalSomeValue => {
                    match self.accept(Token::RParen) {
                        Ok(true) => {},
                        Ok(false) => {
                            return Err(self.unexpected(ErrorKind::ExpectedCloseParen));
                        },
                        Err(e) => {
                            return Err(e);
                        },
                    }
                    self.close();
                },
                _ => {
                    return self.inner_event(top);
                },
            }
        }
    }

    /// One call with nothing open: the start of a value, or `Eof`.
    fn top_level_event(&mut self) -> (r: Result<RonEvent<'a>, ParseError>)
        requires
            old(self).wf(),
            old(self).stack_view().len() == 0,
        ensures
            final(self).source() == old(self).source(),
            final(self).stepped(
                step(old(self).source(), old(self).pos(), old(self).stack_view()),
                r,
            ),
    {
        match self.try_value() {
            Ok(Some(x)) => Ok(x),
            Ok(None) => Ok(RonEvent::Eof),
            Err(e) => Err(e),
        }
    }

    /// One call under the context `top`, the innermost open one, where a
    /// value is owed or a container is open.
    fn inner_event(&mut self, top: InternalState<'a>) -> (r: Result<RonEvent<'a>, ParseError>)
        requires
            old(self).wf(),
            old(self).stack_view().len() > 0,
            old(self).stack_view().last() == top@,
            !(top@ is EndedOptionalSomeValue),
        ensures
            final(self).source() == old(self).source(),
            final(self).stepped(
                step(old(self).source(), old(self).pos(), old(self).stack_view()),
                r,
            ),
    {
        match top {
            InternalState::SecondValue => {
                self.close();
                self.expect_value()
            },
            InternalState::OptionalSomeValue => {
                self.close();
                self.open(InternalState::EndedOptionalSomeValue);
                self.expect_value()
            },
            _ => self.container_event(top),
        }
    }

    /// One call inside the container `top`, the innermost open context: an
    /// optional `,`, then either the closing token or the next element.
    fn container_event(&mut self, top: InternalState<'a>) -> (r: Result<RonEvent<'a>, ParseError>)
        requires
            old(self).wf(),
            old(self).stack_view().len() > 0,
            old(self).stack_view().last() == top@,
            is_container(top@),
        ensures
            final(self).source() == old(self).source(),
            final(self).stepped(
                in_container(old(self).source(), old(self).pos(), old(self).stack_view()),
                r,
            ),
    {
        let closing = match top {
            InternalState::MapBody => Token::RCurly,
            InternalState::List => Token::RBracket,
            _ => Token::RParen,
        };
        match self.accept(Token::Comma) {
            Ok(_) => {},
            Err(e) => {
                return Err(e);
            },
        }
        match self.accept(closing) {
            Ok(true) => {
                self.close();
                Ok(
                    match top {
                        InternalState::MapBody => RonEvent::MapEnd,
                        InternalState::List => RonEvent::ListEnd,
                        InternalState::Struct { name } => RonEvent::StructEnd { name },
                        InternalState::Tuple { name } => RonEvent::TupleEnd { name },
                        _ => RonEvent::Eof,
                    },
                )
            },
            Ok(false) => self.next_element(top),
            Err(e) => Err(e),
        }
    }

    /// The next element of the container `top`, the innermost open context.
    fn next_element(&mut self, top: InternalState<'a>) -> (r: Result<RonEvent<'a>, ParseError>)
        requires
            old(self).wf(),
            old(self).stack_view().len() > 0,
            old(self).stack_view().last() == top@,
            is_container(top@),
        ensures
            final(self).source() == old(self).source(),
            final(self).stepped(
                element(old(self).source(), old(self).pos(), old(self).stack_view()),
                r,
            ),
    {
        let ghost s = self.source();
        proof {
            lemma_nothing_is_no_lex_error(s, self.pos());
        }
        match top {
            InternalState::MapBody => {
                let key = match self.try_value() {
                    Ok(Some(x)) => x,
                    Ok(None) => {
                        return Err(self.unexpected(ErrorKind::ExpectedValue));
                    },
                    Err(e) => {
                        return Err(e);
                    },
                };
                self.colon_then(key)
            },
            InternalState::Struct { name: _ } => {
                let ghost p = self.pos();
                let tok = match self.next_token() {
                    Ok(Some(t)) => t,
                    Ok(None) => {
                        return Err(
                            ParseError {
                                kind: ErrorKind::UnexpectedEnd,
                                offset: self.lexer.byte_len(),
                            },
                        );
                    },
                    Err(e) => {
                        return Err(e);
                    },
                };
                let ghost lx = lex_at(s, p)->Found_0;
                let ident = match tok.0 {
                    Token::Ident(a, b) => self.text(a, b, Ghost(lx)),
                    _ => {
                        return Err(
                            ParseError { kind: ErrorKind::ExpectedIdentifier, offset: tok.1 },
                        );
                    },
                };
                self.colon_then(RonEvent::NamedField(ident))
            },
            _ => self.expect_value(),
        }
    }
}

/// Whether `token` is the punctuation or marker `wanted`.
fn is_token(token: Token, wanted: Token) -> (r: bool)
    requires
        !(wanted is Ident) && !(wanted is Str) && !(wanted is Float) && !(wanted is Int) && !(
        wanted is Char) && !(wanted is Bool),
    ensures
        r == (token == wanted),
{
    match (token, wanted) {
        (Token::LParen, Token::LParen) => true,
        (Token::RParen, Token::RParen) => true,
        (Token::LBracket, Token::LBracket) => true,
        (Token::RBracket, Token::RBracket) => true,
        (Token::LCurly, Token::LCurly) => true,
        (Token::RCurly, Token::RCurly) => true,
        (Token::Colon, Token::Colon) => true,
        (Token::Comma, Token::Comma) => true,
        (Token::SomeOptValue, Token::SomeOptValue) => true,
        (Token::NoneOptValue, Token::NoneOptValue) => true,
        _ => false,
    }
}

} // verus!
