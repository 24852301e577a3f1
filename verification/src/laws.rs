//! What holds of every text: laws of the tokenizer and of the grammar,
//! proved from their definitions.

use crate::grammar::{
    after_comma, closer, element, end_event, expect, in_container, is_container, leading_name,
    mandatory_value, step, struct_at, tuple_at, value_at, Event, Expected, Frame, Started,
};
use crate::lexer::{
    in_class, lemma_run_end_bounds, lex_at, run_end, text_of, CharClass, Lexed, ParseError, Token,
};
use vstd::prelude::*;

verus! {

/// The text of a string token is exactly what stands between its quotes, and
/// holds no quote. The text of an identifier is the token itself: its first
/// character and the whole run of alphanumeric characters and underscores
/// after it. The text of a float is the token itself.
pub proof fn lemma_span_fidelity(s: Seq<char>, p: int)
    requires
        0 <= p <= s.len(),
    ensures
        match lex_at(s, p) {
            Lexed::Found(lx) => match lx.token {
                Token::Str(_, _) => {
                    &&& 0 <= lx.start && lx.start + 2 <= lx.next <= s.len()
                    &&& s[lx.start] == '"'
                    &&& s[lx.next - 1] == '"'
                    &&& text_of(s, lx) == s.subrange(lx.start + 1, lx.next - 1)
                    &&& forall|k: int| lx.start < k < lx.next - 1 ==> #[trigger] s[k] != '"'
                },
                Token::Ident(_, _) => {
                    &&& 0 <= lx.start < lx.next <= s.len()
                    &&& text_of(s, lx) == s.subrange(lx.start, lx.next)
                    &&& forall|k: int|
                        lx.start < k < lx.next ==> in_class(#[trigger] s[k], CharClass::Word)
                    &&& lx.next < s.len() ==> !in_class(s[lx.next], CharClass::Word)
                },
                Token::Float(_, _) => {
                    &&& 0 <= lx.start < lx.next <= s.len()
                    &&& text_of(s, lx) == s.subrange(lx.start, lx.next)
                },
                _ => true,
            },
            _ => true,
        },
{
    reveal(lex_at);
    lemma_run_end_bounds(s, p, CharClass::Space);
    let i = run_end(s, p, CharClass::Space);
    if i < s.len() {
        lemma_run_end_bounds(s, i + 1, CharClass::Quoted);
        lemma_run_end_bounds(s, i + 1, CharClass::Word);
        lemma_run_end_bounds(s, i + 1, CharClass::Digits);
        match lex_at(s, p) {
            Lexed::Found(lx) => {
                if lx.token is Str {
                    assert(text_of(s, lx) =~= s.subrange(lx.start + 1, lx.next - 1));
                }
            },
            _ => {},
        }
    }
}

/// Tokens follow one another without overlap: a token starts at or after
/// the position that was asked, is not empty, ends inside the text, and the
/// text that it carries lies inside it. White space alone separates the
/// position asked from the start of the token.
pub proof fn lemma_tokens_advance(s: Seq<char>, p: int)
    requires
        0 <= p <= s.len(),
    ensures
        match lex_at(s, p) {
            Lexed::Found(lx) => {
                &&& p <= lx.start < lx.next <= s.len()
                &&& lx.start == run_end(s, p, CharClass::Space)
                &&& lx.lo == lx.hi || lx.start <= lx.lo <= lx.hi <= lx.next
            },
            Lexed::End => run_end(s, p, CharClass::Space) == s.len(),
            Lexed::Failed(_) => true,
        },
{
    reveal(lex_at);
    lemma_run_end_bounds(s, p, CharClass::Space);
    let i = run_end(s, p, CharClass::Space);
    if i < s.len() {
        lemma_run_end_bounds(s, i + 1, CharClass::Quoted);
        lemma_run_end_bounds(s, i + 1, CharClass::Word);
        lemma_run_end_bounds(s, i + 1, CharClass::Digits);
    }
}

/// The containers among the open contexts, innermost last.
pub open spec fn open_containers(st: Seq<Frame>) -> Seq<Frame>
    decreases st.len(),
{
    if st.len() == 0 {
        Seq::empty()
    } else if is_container(st.last()) {
        open_containers(st.drop_last()).push(st.last())
    } else {
        open_containers(st.drop_last())
    }
}

/// The container that a start event opens.
pub open spec fn opened_by(event: Event) -> Option<Frame> {
    match event {
        Event::StructStart(name) => Some(Frame::Struct(name)),
        Event::TupleStart(name) => Some(Frame::Tuple(name)),
        Event::MapStart => Some(Frame::MapBody),
        Event::ListStart => Some(Frame::List),
        _ => None,
    }
}

/// The container that an end event closes.
pub open spec fn closed_by(event: Event) -> Option<Frame> {
    match event {
        Event::StructEnd(name) => Some(Frame::Struct(name)),
        Event::TupleEnd(name) => Some(Frame::Tuple(name)),
        Event::MapEnd => Some(Frame::MapBody),
        Event::ListEnd => Some(Frame::List),
        _ => None,
    }
}

proof fn lemma_open_containers_push(st: Seq<Frame>, f: Frame)
    ensures
        open_containers(st.push(f)) == if is_container(f) {
            open_containers(st).push(f)
        } else {
            open_containers(st)
        },
{
    assert(st.push(f).drop_last() =~= st);
}

/// What a value's first event does to the open containers.
proof fn lemma_value_opens(s: Seq<char>, p: int)
    ensures
        match value_at(s, p) {
            Started::Begun { event, pushed, next } => {
                &&& closed_by(event) is None
                &&& event != Event::Eof
                &&& match opened_by(event) {
                    Some(f) => pushed == Some(f) && is_container(f),
                    None => match pushed {
                        Some(g) => !is_container(g),
                        None => true,
                    },
                }
            },
            _ => true,
        },
{
    reveal(value_at);
}

/// The event keeps the nesting in order, where `before` and `after` are the
/// containers open before and after it: a start event opens its container
/// on top; an end event closes the innermost container, which is of its
/// kind and name; any other event leaves the containers as they are.
pub open spec fn nests(before: Seq<Frame>, event: Event, after: Seq<Frame>) -> bool {
    match opened_by(event) {
        Some(f) => after == before.push(f),
        None => match closed_by(event) {
            Some(f) => before.len() > 0 && before.last() == f && after == before.drop_last(),
            None => after == before,
        },
    }
}

proof fn lemma_mandatory_value_nests(s: Seq<char>, p: int, st: Seq<Frame>)
    ensures
        mandatory_value(s, p, st).result matches Ok(event) ==> event != Event::Eof && nests(
            open_containers(st),
            event,
            open_containers(mandatory_value(s, p, st).stack),
        ),
{
    lemma_value_opens(s, p);
    match value_at(s, p) {
        Started::Begun { event, pushed, next } => {
            if pushed is Some {
                lemma_open_containers_push(st, pushed->0);
            }
        },
        _ => {},
    }
}

proof fn lemma_element_nests(s: Seq<char>, p: int, st: Seq<Frame>)
    requires
        st.len() > 0,
        is_container(st.last()),
    ensures
        element(s, p, st).result matches Ok(event) ==> event != Event::Eof && nests(
            open_containers(st),
            event,
            open_containers(element(s, p, st).stack),
        ),
{
    lemma_value_opens(s, p);
    lemma_mandatory_value_nests(s, p, st);
    lemma_open_containers_push(st, Frame::SecondValue);
    match value_at(s, p) {
        Started::Begun { event, pushed, next } => {
            if pushed is Some {
                lemma_open_containers_push(st, pushed->0);
                lemma_open_containers_push(st.push(pushed->0), Frame::SecondValue);
            }
        },
        _ => {},
    }
}

proof fn lemma_in_container_nests(s: Seq<char>, p: int, st: Seq<Frame>)
    requires
        st.len() > 0,
        is_container(st.last()),
    ensures
        in_container(s, p, st).result matches Ok(event) ==> event != Event::Eof && nests(
            open_containers(st),
            event,
            open_containers(in_container(s, p, st).stack),
        ),
{
    lemma_element_nests(s, after_comma(s, p), st);
    assert(open_containers(st) == open_containers(st.drop_last()).push(st.last()));
    assert(open_containers(st).drop_last() =~= open_containers(st.drop_last()));
}

/// Nesting is balanced: a start event opens its container on top of the
/// containers that are open; an end event is given only while a container
/// of its kind and name is the innermost open one, and closes it; no other
/// event changes which containers are open.
pub proof fn lemma_balanced_nesting(s: Seq<char>, p: int, st: Seq<Frame>)
    ensures
        step(s, p, st).result matches Ok(event) ==> nests(
            open_containers(st),
            event,
            open_containers(step(s, p, st).stack),
        ),
    decreases st.len(),
{
    if st.len() == 0 {
        lemma_value_opens(s, p);
        match value_at(s, p) {
            Started::Begun { event, pushed, next } => {
                if pushed is Some {
                    lemma_open_containers_push(st, pushed->0);
                }
            },
            _ => {},
        }
    } else {
        let below = st.drop_last();
        match st.last() {
            Frame::EndedOptionalSomeValue => {
                match expect(s, p, Token::RParen) {
                    Expected::Taken(next) => {
                        lemma_balanced_nesting(s, next, below);
                    },
                    _ => {},
                }
            },
            Frame::SecondValue => {
                lemma_mandatory_value_nests(s, p, below);
            },
            Frame::OptionalSomeValue => {
                lemma_open_containers_push(below, Frame::EndedOptionalSomeValue);
                lemma_mandatory_value_nests(s, p, below.push(Frame::EndedOptionalSomeValue));
            },
            _ => {
                lemma_in_container_nests(s, p, st);
            },
        }
    }
}

/// The containers open after `event`, given those open before it; `None`
/// where the event is an end event that does not close the innermost
/// container.
pub open spec fn after_event(before: Seq<Frame>, event: Event) -> Option<Seq<Frame>> {
    match opened_by(event) {
        Some(f) => Some(before.push(f)),
        None => match closed_by(event) {
            Some(f) => if before.len() > 0 && before.last() == f {
                Some(before.drop_last())
            } else {
                None
            },
            None => Some(before),
        },
    }
}

/// The containers open after a sequence of events; `None` where some end
/// event does not match the start event that is innermost at that point.
pub open spec fn after_events(before: Seq<Frame>, events: Seq<Event>) -> Option<Seq<Frame>>
    decreases events.len(),
{
    if events.len() == 0 {
        Some(before)
    } else {
        match after_event(before, events[0]) {
            Some(next) => after_events(next, events.drop_first()),
            None => None,
        }
    }
}

/// The events of up to `n` calls that start at `p` under `st`: they stop
/// with `Eof` and before an error.
pub open spec fn events_from(s: Seq<char>, p: int, st: Seq<Frame>, n: nat) -> Seq<Event>
    decreases n,
{
    if n == 0 {
        Seq::empty()
    } else {
        match step(s, p, st).result {
            Err(_) => Seq::empty(),
            Ok(event) => if event == Event::Eof {
                seq![event]
            } else {
                seq![event] + events_from(
                    s,
                    step(s, p, st).pos,
                    step(s, p, st).stack,
                    (n - 1) as nat,
                )
            },
        }
    }
}

/// The stack after the events of `events_from`.
pub open spec fn stack_after(s: Seq<char>, p: int, st: Seq<Frame>, n: nat) -> Seq<Frame>
    decreases n,
{
    if n == 0 {
        st
    } else {
        match step(s, p, st).result {
            Err(_) => st,
            Ok(event) => if event == Event::Eof {
                step(s, p, st).stack
            } else {
                stack_after(s, step(s, p, st).pos, step(s, p, st).stack, (n - 1) as nat)
            },
        }
    }
}

/// Every run of events is well nested: each end event matches the start
/// event that is innermost where it comes, and the containers still open
/// after the run are those on the stack. A run that reaches `Eof` has
/// closed every container; so the events of a whole text, from its start
/// to `Eof`, pair each start event with exactly one end event.
pub proof fn lemma_runs_are_balanced(s: Seq<char>, p: int, st: Seq<Frame>, n: nat)
    ensures
        after_events(open_containers(st), events_from(s, p, st, n)) == Some(
            open_containers(stack_after(s, p, st, n)),
        ),
        events_from(s, p, st, n).len() > 0 && events_from(s, p, st, n).last() == Event::Eof
            ==> stack_after(s, p, st, n).len() == 0,
    decreases n,
{
    if n > 0 {
        lemma_balanced_nesting(s, p, st);
        match step(s, p, st).result {
            Err(_) => {},
            Ok(event) => {
                let next = step(s, p, st);
                let before = open_containers(st);
                let after = open_containers(next.stack);
                assert(after_event(before, event) == Some(after));
                if event == Event::Eof {
                    lemma_eof_idempotent(s, p, st);
                    assert(seq![event].drop_first() =~= Seq::<Event>::empty());
                    assert(after_events(after, Seq::<Event>::empty()) == Some(after));
                    assert(seq![event][0] == event);
                } else {
                    let rest = events_from(s, next.pos, next.stack, (n - 1) as nat);
                    lemma_runs_are_balanced(s, next.pos, next.stack, (n - 1) as nat);
                    assert((seq![event] + rest).drop_first() =~= rest);
                    assert((seq![event] + rest)[0] == event);
                    if rest.len() > 0 {
                        assert((seq![event] + rest).last() == rest.last());
                    }
                }
            },
        }
    }
}

/// `Eof` is given only with nothing open and where no value starts.
proof fn lemma_eof_only_at_top(s: Seq<char>, p: int, st: Seq<Frame>)
    requires
        st.len() > 0,
        !(st.last() is EndedOptionalSomeValue),
    ensures
        step(s, p, st).result != Ok::<Event, ParseError>(Event::Eof),
{
    match st.last() {
        Frame::SecondValue => {
            lemma_mandatory_value_nests(s, p, st.drop_last());
        },
        Frame::OptionalSomeValue => {
            lemma_mandatory_value_nests(s, p, st.drop_last().push(Frame::EndedOptionalSomeValue));
        },
        _ => {
            lemma_in_container_nests(s, p, st);
        },
    }
}

/// Once `Eof` is given, the parser has nothing open and stands still: the
/// next call gives `Eof` again and leaves the same state.
pub proof fn lemma_eof_idempotent(s: Seq<char>, p: int, st: Seq<Frame>)
    requires
        step(s, p, st).result == Ok::<Event, ParseError>(Event::Eof),
    ensures
        step(s, p, st).stack.len() == 0,
        step(s, step(s, p, st).pos, step(s, p, st).stack) == step(s, p, st),
    decreases st.len(),
{
    if st.len() == 0 {
        lemma_value_opens(s, p);
    } else if st.last() is EndedOptionalSomeValue {
        match expect(s, p, Token::RParen) {
            Expected::Taken(next) => {
                lemma_eof_idempotent(s, next, st.drop_last());
            },
            _ => {},
        }
    } else {
        lemma_eof_only_at_top(s, p, st);
    }
}

/// `Some(` is transparent. Where `Some` and `(` stand, the event is
/// `OptionalSome` and the wrapped value is owed. The call after that reads
/// the wrapped value as any value that is owed, and what a value gives and
/// where it ends do not depend on the stack it is read under. The `)` that
/// closes the wrapper is consumed without an event: the call goes on as if
/// it had started behind it.
pub proof fn lemma_optional_transparent(s: Seq<char>, p: int, st: Seq<Frame>, other: Seq<Frame>)
    ensures
        mandatory_value(s, p, st).result == mandatory_value(s, p, other).result,
        mandatory_value(s, p, st).pos == mandatory_value(s, p, other).pos,
        match lex_at(s, p) {
            Lexed::Found(some) => match lex_at(s, some.next) {
                Lexed::Found(paren) => some.token == Token::SomeOptValue && paren.token
                    == Token::LParen ==> value_at(s, p) == (Started::Begun {
                    event: Event::OptionalSome,
                    pushed: Some(Frame::OptionalSomeValue),
                    next: paren.next,
                }),
                _ => true,
            },
            _ => true,
        },
        step(s, p, st.push(Frame::OptionalSomeValue)) == mandatory_value(
            s,
            p,
            st.push(Frame::EndedOptionalSomeValue),
        ),
        match lex_at(s, p) {
            Lexed::Found(paren) => paren.token == Token::RParen ==> step(
                s,
                p,
                st.push(Frame::EndedOptionalSomeValue),
            ) == step(s, paren.next, st),
            _ => true,
        },
{
    reveal(value_at);
    assert(st.push(Frame::OptionalSomeValue).drop_last() =~= st);
    assert(st.push(Frame::EndedOptionalSomeValue).drop_last() =~= st);
}

/// A struct is preferred to a tuple. Where an optional name, `(`, an
/// identifier and `:` stand, a struct with that name starts. Where an
/// optional name and `(` stand and no struct starts, a tuple with that name
/// starts. Both consume the name and the `(` only.
pub proof fn lemma_struct_before_tuple(s: Seq<char>, p: int)
    ensures
        struct_at(s, p) is Begun ==> value_at(s, p) == struct_at(s, p) && struct_at(s, p)->event
            == Event::StructStart(leading_name(s, p).0),
        struct_at(s, p) is Nothing && tuple_at(s, p) is Begun ==> value_at(s, p) == tuple_at(s, p)
            && tuple_at(s, p)->event == Event::TupleStart(leading_name(s, p).0),
        struct_at(s, p) is Begun ==> tuple_at(s, p) is Begun && tuple_at(s, p)->next == struct_at(
            s,
            p,
        )->next,
{
    reveal(value_at);
}

/// A comma in front of the token that closes a container changes nothing:
/// the container ends as it does without the comma.
pub proof fn lemma_trailing_comma(s: Seq<char>, p: int, st: Seq<Frame>)
    requires
        st.len() > 0,
        is_container(st.last()),
        lex_at(s, p) matches Lexed::Found(comma) && comma.token == Token::Comma && (lex_at(
            s,
            comma.next,
        ) matches Lexed::Found(end) && end.token == closer(st.last())),
    ensures
        step(s, p, st) == step(s, lex_at(s, p)->Found_0.next, st),
        step(s, p, st).result == Ok::<Event, ParseError>(end_event(st.last())),
        step(s, p, st).stack == st.drop_last(),
{
}

} // verus!
