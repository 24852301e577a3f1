//! The grammar as mathematics: which event follows from a position in the
//! text and a stack of open contexts.
//!
//! [`step`] is the whole meaning of one call of the event parser. It is built
//! from [`value_at`], which tries the ways a value can start in their fixed
//! order, and from the punctuation rules of the four containers.

use crate::lexer::{lex_at, offset_of, text_of, ErrorKind, Lexed, ParseError, Token};
use vstd::prelude::*;

verus! {

/// A scalar value, with its text as characters.
pub enum Scalar {
    Nothing,
    Int(i64),
    Float(Seq<char>),
    Bool(bool),
    Char(char),
    Str(Seq<char>),
    Enum(Seq<char>),
}

/// A structural event, with names and texts as characters.
pub enum Event {
    OptionalSome,
    Primitive(Scalar),
    StructStart(Option<Seq<char>>),
    NamedField(Seq<char>),
    StructEnd(Option<Seq<char>>),
    TupleStart(Option<Seq<char>>),
    TupleEnd(Option<Seq<char>>),
    MapStart,
    MapEnd,
    ListStart,
    ListEnd,
    Eof,
}

/// An entry of the context stack.
pub enum Frame {
    /// The next event is the value of the key or field just announced.
    SecondValue,
    MapBody,
    Struct(Option<Seq<char>>),
    Tuple(Option<Seq<char>>),
    List,
    /// The next event starts the value inside `Some(`.
    OptionalSomeValue,
    /// The value inside `Some(` has started; its `)` is still to come.
    EndedOptionalSomeValue,
}

/// How an attempt to start a value ends.
pub enum Started {
    /// The text is malformed.
    Failed(ParseError),
    /// No value starts here; nothing was consumed.
    Nothing,
    /// A value starts: its first event, the context it opens, if any, and the
    /// position after what was consumed.
    Begun { event: Event, pushed: Option<Frame>, next: int },
}

/// The outcome of one call: the event or the error and, for an event, the
/// position and the stack afterwards.
pub struct Step {
    pub result: Result<Event, ParseError>,
    pub pos: int,
    pub stack: Seq<Frame>,
}

/// The outcome of a call that fails.
pub open spec fn failure(kind: ErrorKind, offset: usize) -> Step {
    Step { result: Err(ParseError { kind, offset }), pos: 0, stack: Seq::empty() }
}

/// The byte position of the token at `p`, or of the end of the text.
pub open spec fn token_offset(s: Seq<char>, p: int) -> usize {
    match lex_at(s, p) {
        Lexed::Found(lx) => offset_of(s, lx.start),
        _ => offset_of(s, s.len() as int),
    }
}

/// The name in front of a `(`, if an identifier stands at `p`, and the
/// position after it.
pub open spec fn leading_name(s: Seq<char>, p: int) -> (Option<Seq<char>>, int) {
    match lex_at(s, p) {
        Lexed::Found(lx) => if lx.token is Ident {
            (Some(text_of(s, lx)), lx.next)
        } else {
            (None, p)
        },
        _ => (None, p),
    }
}

/// A struct starts at `p`: an optional name, `(`, an identifier and `:`.
/// Only the name and the `(` are consumed.
pub open spec fn struct_at(s: Seq<char>, p: int) -> Started {
    match lex_at(s, p) {
        Lexed::End => Started::Nothing,
        Lexed::Failed(e) => Started::Failed(e),
        Lexed::Found(_) => match lex_at(s, leading_name(s, p).1) {
            Lexed::End => Started::Nothing,
            Lexed::Failed(e) => Started::Failed(e),
            Lexed::Found(paren) => if paren.token != Token::LParen {
                Started::Nothing
            } else {
                match lex_at(s, paren.next) {
                    Lexed::End => Started::Nothing,
                    Lexed::Failed(e) => Started::Failed(e),
                    Lexed::Found(field) => if !(field.token is Ident) {
                        Started::Nothing
                    } else {
                        match lex_at(s, field.next) {
                            Lexed::End => Started::Nothing,
                            Lexed::Failed(e) => Started::Failed(e),
                            Lexed::Found(colon) => if colon.token != Token::Colon {
                                Started::Nothing
                            } else {
                                Started::Begun {
                                    event: Event::StructStart(leading_name(s, p).0),
                                    pushed: Some(Frame::Struct(leading_name(s, p).0)),
                                    next: paren.next,
                                }
                            },
                        }
                    },
                }
            },
        },
    }
}

/// A tuple starts at `p`: an optional name and `(`.
pub open spec fn tuple_at(s: Seq<char>, p: int) -> Started {
    match lex_at(s, p) {
        Lexed::End => Started::Nothing,
        Lexed::Failed(e) => Started::Failed(e),
        Lexed::Found(_) => match lex_at(s, leading_name(s, p).1) {
            Lexed::End => Started::Nothing,
            Lexed::Failed(e) => Started::Failed(e),
            Lexed::Found(paren) => if paren.token != Token::LParen {
                Started::Nothing
            } else {
                Started::Begun {
                    event: Event::TupleStart(leading_name(s, p).0),
                    pushed: Some(Frame::Tuple(leading_name(s, p).0)),
                    next: paren.next,
                }
            },
        },
    }
}

/// The scalar that a single token stands for, if it stands for one.
pub open spec fn scalar_of(token: Token, text: Seq<char>) -> Option<Scalar> {
    match token {
        Token::Ident(_, _) => Some(Scalar::Enum(text)),
        Token::Bool(x) => Some(Scalar::Bool(x)),
        Token::Float(_, _) => Some(Scalar::Float(text)),
        Token::Int(x) => Some(Scalar::Int(x)),
        Token::Char(x) => Some(Scalar::Char(x)),
        Token::Str(_, _) => Some(Scalar::Str(text)),
        Token::NoneOptValue => Some(Scalar::Nothing),
        _ => None,
    }
}

/// A scalar stands at `p`.
pub open spec fn primitive_at(s: Seq<char>, p: int) -> Started {
    match lex_at(s, p) {
        Lexed::End => Started::Nothing,
        Lexed::Failed(e) => Started::Failed(e),
        Lexed::Found(lx) => match scalar_of(lx.token, text_of(s, lx)) {
            Some(v) => Started::Begun { event: Event::Primitive(v), pushed: None, next: lx.next },
            None => Started::Nothing,
        },
    }
}

/// `Some` stands at `p`; a `(` must follow.
pub open spec fn optional_some_at(s: Seq<char>, p: int) -> Started {
    match lex_at(s, p) {
        Lexed::End => Started::Nothing,
        Lexed::Failed(e) => Started::Failed(e),
        Lexed::Found(lx) => if lx.token != Token::SomeOptValue {
            Started::Nothing
        } else {
            match lex_at(s, lx.next) {
                Lexed::End => Started::Failed(
                    ParseError {
                        kind: ErrorKind::UnexpectedEnd,
                        offset: offset_of(s, s.len() as int),
                    },
                ),
                Lexed::Failed(e) => Started::Failed(e),
                Lexed::Found(paren) => if paren.token != Token::LParen {
                    Started::Failed(
                        ParseError {
                            kind: ErrorKind::ExpectedOpenParen,
                            offset: offset_of(s, paren.start),
                        },
                    )
                } else {
                    Started::Begun {
                        event: Event::OptionalSome,
                        pushed: Some(Frame::OptionalSomeValue),
                        next: paren.next,
                    }
                },
            }
        },
    }
}

/// The single token `opener` stands at `p` and opens a container.
pub open spec fn opener_at(s: Seq<char>, p: int, opener: Token, event: Event, frame: Frame)
    -> Started {
    match lex_at(s, p) {
        Lexed::End => Started::Nothing,
        Lexed::Failed(e) => Started::Failed(e),
        Lexed::Found(lx) => if lx.token != opener {
            Started::Nothing
        } else {
            Started::Begun { event, pushed: Some(frame), next: lx.next }
        },
    }
}

/// A map starts at `p`: a single `{`.
pub open spec fn map_at(s: Seq<char>, p: int) -> Started {
    opener_at(s, p, Token::LCurly, Event::MapStart, Frame::MapBody)
}

/// A list starts at `p`: a single `[`.
pub open spec fn list_at(s: Seq<char>, p: int) -> Started {
    opener_at(s, p, Token::LBracket, Event::ListStart, Frame::List)
}

/// The first of two attempts that is not `Nothing`.
pub open spec fn or_else(first: Started, second: Started) -> Started {
    if first is Nothing {
        second
    } else {
        first
    }
}

/// How a value starts at `p`: struct, tuple, scalar, `Some(`, map, list, in
/// this order of preference.
#[verifier::opaque]
pub open spec fn value_at(s: Seq<char>, p: int) -> Started {
    or_else(
        struct_at(s, p),
        or_else(
            tuple_at(s, p),
            or_else(
                primitive_at(s, p),
                or_else(optional_some_at(s, p), or_else(map_at(s, p), list_at(s, p))),
            ),
        ),
    )
}

/// Where no value starts, the token at that position is well formed or the
/// text has ended: a malformed token is reported, never passed over.
pub proof fn lemma_nothing_is_no_lex_error(s: Seq<char>, p: int)
    ensures
        value_at(s, p) is Nothing ==> !(lex_at(s, p) is Failed),
{
    reveal(value_at);
}

/// The stack `st` with the context that a value opens, if it opens one.
pub open spec fn with_pushed(st: Seq<Frame>, pushed: Option<Frame>) -> Seq<Frame> {
    match pushed {
        Some(f) => st.push(f),
        None => st,
    }
}

/// A value must start at `p`; `st` is the stack that it is read under.
pub open spec fn mandatory_value(s: Seq<char>, p: int, st: Seq<Frame>) -> Step {
    match value_at(s, p) {
        Started::Failed(e) => Step { result: Err(e), pos: 0, stack: Seq::empty() },
        Started::Nothing => if lex_at(s, p) is Found {
            failure(ErrorKind::ExpectedValue, token_offset(s, p))
        } else {
            failure(ErrorKind::UnexpectedEnd, token_offset(s, p))
        },
        Started::Begun { event, pushed, next } => Step {
            result: Ok(event),
            pos: next,
            stack: with_pushed(st, pushed),
        },
    }
}

/// What reading one mandatory token at `p` gives.
pub enum Expected {
    Failed(ParseError),
    /// The token is there; the position after it.
    Taken(int),
    /// Another token is there; nothing was consumed.
    Other,
}

/// The token `wanted` at `p`. The end of the text there is an error.
pub open spec fn expect(s: Seq<char>, p: int, wanted: Token) -> Expected {
    match lex_at(s, p) {
        Lexed::End => Expected::Failed(
            ParseError { kind: ErrorKind::UnexpectedEnd, offset: offset_of(s, s.len() as int) },
        ),
        Lexed::Failed(e) => Expected::Failed(e),
        Lexed::Found(lx) => if lx.token == wanted {
            Expected::Taken(lx.next)
        } else {
            Expected::Other
        },
    }
}

/// The token that closes the container `f`.
pub open spec fn closer(f: Frame) -> Token {
    match f {
        Frame::MapBody => Token::RCurly,
        Frame::List => Token::RBracket,
        _ => Token::RParen,
    }
}

/// The event that closes the container `f`.
pub open spec fn end_event(f: Frame) -> Event {
    match f {
        Frame::MapBody => Event::MapEnd,
        Frame::List => Event::ListEnd,
        Frame::Struct(name) => Event::StructEnd(name),
        Frame::Tuple(name) => Event::TupleEnd(name),
        _ => Event::Eof,
    }
}

/// The context is one of the four containers.
pub open spec fn is_container(f: Frame) -> bool {
    f is MapBody || f is List || f is Struct || f is Tuple
}

/// A `:` must stand at `p`; then `event` is given out and the value that
/// follows the `:` is owed.
pub open spec fn announce(s: Seq<char>, p: int, st: Seq<Frame>, event: Event) -> Step {
    match expect(s, p, Token::Colon) {
        Expected::Failed(e) => Step { result: Err(e), pos: 0, stack: Seq::empty() },
        Expected::Other => failure(ErrorKind::ExpectedColon, token_offset(s, p)),
        Expected::Taken(next) => Step {
            result: Ok(event),
            pos: next,
            stack: st.push(Frame::SecondValue),
        },
    }
}

/// The next element of the container on top of `st`, at `p`: a key and `:`
/// in a map, a field name and `:` in a struct, a value in a tuple or list.
pub open spec fn element(s: Seq<char>, p: int, st: Seq<Frame>) -> Step {
    match st.last() {
        Frame::MapBody => match value_at(s, p) {
            Started::Begun { event, pushed, next } => announce(
                s,
                next,
                with_pushed(st, pushed),
                event,
            ),
            _ => mandatory_value(s, p, st),
        },
        Frame::Struct(_) => match lex_at(s, p) {
            Lexed::End => failure(ErrorKind::UnexpectedEnd, token_offset(s, p)),
            Lexed::Failed(e) => Step { result: Err(e), pos: 0, stack: Seq::empty() },
            Lexed::Found(lx) => if lx.token is Ident {
                announce(s, lx.next, st, Event::NamedField(text_of(s, lx)))
            } else {
                failure(ErrorKind::ExpectedIdentifier, token_offset(s, p))
            },
        },
        _ => mandatory_value(s, p, st),
    }
}

/// The position after an optional `,` at `p`.
pub open spec fn after_comma(s: Seq<char>, p: int) -> int {
    match expect(s, p, Token::Comma) {
        Expected::Taken(next) => next,
        _ => p,
    }
}

/// One call inside the container on top of `st`: an optional `,`, then
/// either the closing token or the next element.
pub open spec fn in_container(s: Seq<char>, p: int, st: Seq<Frame>) -> Step {
    match expect(s, p, Token::Comma) {
        Expected::Failed(e) => Step { result: Err(e), pos: 0, stack: Seq::empty() },
        _ => match expect(s, after_comma(s, p), closer(st.last())) {
            Expected::Failed(e) => Step { result: Err(e), pos: 0, stack: Seq::empty() },
            Expected::Taken(next) => Step {
                result: Ok(end_event(st.last())),
                pos: next,
                stack: st.drop_last(),
            },
            Expected::Other => element(s, after_comma(s, p), st),
        },
    }
}

/// One call of the event parser at position `p` under the stack `st`.
pub open spec fn step(s: Seq<char>, p: int, st: Seq<Frame>) -> Step
    decreases st.len(),
{
    if st.len() == 0 {
        match value_at(s, p) {
            Started::Failed(e) => Step { result: Err(e), pos: 0, stack: Seq::empty() },
            Started::Nothing => Step { result: Ok(Event::Eof), pos: p, stack: st },
            Started::Begun { event, pushed, next } => Step {
                result: Ok(event),
                pos: next,
                stack: with_pushed(st, pushed),
            },
        }
    } else {
        match st.last() {
            Frame::EndedOptionalSomeValue => match expect(s, p, Token::RParen) {
                Expected::Failed(e) => Step { result: Err(e), pos: 0, stack: Seq::empty() },
                Expected::Other => failure(ErrorKind::ExpectedCloseParen, token_offset(s, p)),
                Expected::Taken(next) => step(s, next, st.drop_last()),
            },
            Frame::SecondValue => mandatory_value(s, p, st.drop_last()),
            Frame::OptionalSomeValue => mandatory_value(
                s,
                p,
                st.drop_last().push(Frame::EndedOptionalSomeValue),
            ),
            _ => in_container(s, p, st),
        }
    }
}

} // verus!
