//! What the tokenizer relies on about `str` and `char`.
//!
//! The standard library decides where each character of a text starts and
//! which characters are white space, numeric or alphanumeric. The wrappers
//! here hand those answers to verified code; their contracts are taken on
//! trust. That a byte range between two character starts holds exactly the
//! characters between them is proved, from the definition of UTF-8.

use std::str::CharIndices;
use vstd::prelude::*;
use vstd::string::StringSliceAdditionalSpecFns;
use vstd::utf8::{
    encode_scalar, encode_utf8, encode_utf8_decode_utf8, encode_utf8_first_scalar,
    encode_utf8_valid_utf8, is_char_boundary, pop_first_scalar,
};

verus! {

/// The byte position at which the character with index `i` starts in the
/// UTF-8 encoding of `s`; for `i == s.len()` the length of the encoding.
pub open spec fn byte_offset(s: Seq<char>, i: int) -> int {
    encode_utf8(s.take(i)).len() as int
}

/// `start..end` is a byte range of `s` that begins and ends where a character
/// begins (or at the end of the text).
pub open spec fn is_span(s: Seq<char>, start: usize, end: usize) -> bool {
    exists|i: int, j: int|
        0 <= i <= j <= s.len() && start == #[trigger] byte_offset(s, i) && end
            == #[trigger] byte_offset(s, j)
}

/// The standard library's iterator over the characters of a text and
/// their byte positions. The verifier sees nothing inside it.
#[verifier::external_type_specification]
#[verifier::external_body]
pub struct ExCharIndices<'a>(CharIndices<'a>);

/// The items that a `CharIndices` iterator has not handed out yet, in order.
pub uninterp spec fn pending(it: CharIndices<'_>) -> Seq<(usize, char)>;

/// What `char::is_whitespace` answers for `c`.
pub uninterp spec fn is_whitespace(c: char) -> bool;

/// What `char::is_numeric` answers for `c`.
pub uninterp spec fn is_numeric(c: char) -> bool;

/// What `char::is_alphanumeric` answers for `c`.
pub uninterp spec fn is_alphanumeric(c: char) -> bool;

/// Calls `str::char_indices`. Trusted: the iterator will hand out every
/// character of `src` in order, each paired with the byte position at which
/// it starts.
#[verifier::external_body]
pub(crate) fn char_indices<'a>(src: &'a str) -> (it: CharIndices<'a>)
    ensures
        pending(it).len() == src@.len(),
        forall|k: int|
            0 <= k < src@.len() ==> (#[trigger] pending(it)[k]).1 == src@[k] && pending(it)[k].0
                == byte_offset(src@, k),
{
    src.char_indices()
}

/// Calls `CharIndices::next`. Trusted: it hands out the first pending item
/// and leaves the others; once nothing is pending it returns `None` and
/// stays empty.
#[verifier::external_body]
pub(crate) fn indices_next<'a>(it: &mut CharIndices<'a>) -> (r: Option<(usize, char)>)
    ensures
        pending(*old(it)).len() == 0 ==> r is None && pending(*final(it)) == pending(*old(it)),
        pending(*old(it)).len() > 0 ==> r == Some(pending(*old(it))[0]) && pending(*final(it))
            == pending(*old(it)).skip(1),
{
    it.next()
}

/// Calls `char::is_whitespace`. Trusted: the answer depends on `c` alone.
#[verifier::external_body]
pub(crate) fn char_is_whitespace(c: char) -> (r: bool)
    ensures
        r == is_whitespace(c),
{
    c.is_whitespace()
}

/// Calls `char::is_numeric`. Trusted: the answer depends on `c` alone.
#[verifier::external_body]
pub(crate) fn char_is_numeric(c: char) -> (r: bool)
    ensures
        r == is_numeric(c),
{
    c.is_numeric()
}

/// Calls `char::is_alphanumeric`. Trusted: the answer depends on `c` alone.
#[verifier::external_body]
pub(crate) fn char_is_alphanumeric(c: char) -> (r: bool)
    ensures
        r == is_alphanumeric(c),
{
    c.is_alphanumeric()
}

/// Encoding a text piece by piece gives the encoding of the whole.
pub proof fn lemma_encode_concat(a: Seq<char>, b: Seq<char>)
    ensures
        encode_utf8(a + b) == encode_utf8(a) + encode_utf8(b),
    decreases a.len(),
{
    if a.len() == 0 {
        assert(a + b =~= b);
        assert(encode_utf8(a) + encode_utf8(b) =~= encode_utf8(b));
    } else {
        assert((a + b).drop_first() =~= a.drop_first() + b);
        lemma_encode_concat(a.drop_first(), b);
        assert(encode_utf8(a + b) =~= encode_utf8(a) + encode_utf8(b));
    }
}

/// Where one piece of a text ends and the next begins, a character begins.
pub proof fn lemma_boundary_between(a: Seq<char>, b: Seq<char>)
    ensures
        is_char_boundary(encode_utf8(a + b), encode_utf8(a).len() as int),
    decreases a.len(),
{
    let chars = a + b;
    let bytes = encode_utf8(chars);
    encode_utf8_valid_utf8(chars);
    lemma_encode_concat(a, b);
    if a.len() > 0 {
        let rest = a.drop_first();
        assert(chars.drop_first() =~= rest + b);
        encode_utf8_first_scalar(chars);
        assert(pop_first_scalar(bytes) =~= encode_utf8(rest + b));
        lemma_boundary_between(rest, b);
        lemma_encode_concat(rest, b);
        assert(encode_utf8(a).len() == encode_scalar(a[0] as u32).len() + encode_utf8(rest).len());
    }
}

/// A text is determined by its encoding.
pub proof fn lemma_encode_injective(a: Seq<char>, b: Seq<char>)
    requires
        encode_utf8(a) == encode_utf8(b),
    ensures
        a == b,
{
    encode_utf8_decode_utf8(a);
    encode_utf8_decode_utf8(b);
}

/// The byte range between the starts of the characters `i` and `j` holds the
/// encoding of the characters `i..j`, and both ends are places where a
/// character begins.
pub proof fn lemma_span_bytes(s: Seq<char>, i: int, j: int)
    requires
        0 <= i <= j <= s.len(),
    ensures
        0 <= byte_offset(s, i) <= byte_offset(s, j) <= encode_utf8(s).len(),
        is_char_boundary(encode_utf8(s), byte_offset(s, j)),
        encode_utf8(s).subrange(0, byte_offset(s, j)) == encode_utf8(s.take(j)),
        is_char_boundary(encode_utf8(s.take(j)), byte_offset(s, i)),
        encode_utf8(s.take(j)).subrange(byte_offset(s, i), byte_offset(s, j)) == encode_utf8(
            s.subrange(i, j),
        ),
{
    assert(s.take(j) + s.skip(j) =~= s);
    lemma_encode_concat(s.take(j), s.skip(j));
    lemma_boundary_between(s.take(j), s.skip(j));
    assert(encode_utf8(s).subrange(0, byte_offset(s, j)) =~= encode_utf8(s.take(j)));
    assert(s.take(i) + s.subrange(i, j) =~= s.take(j));
    lemma_encode_concat(s.take(i), s.subrange(i, j));
    lemma_boundary_between(s.take(i), s.subrange(i, j));
    assert(encode_utf8(s.take(j)).subrange(byte_offset(s, i), byte_offset(s, j)) =~= encode_utf8(
        s.subrange(i, j),
    ));
}

/// The text of the byte range `start..end` of `src`: the characters `i..j`
/// where the range begins at the start of character `i` and ends at the
/// start of character `j`.
pub(crate) fn slice_between<'a>(src: &'a str, start: usize, end: usize) -> (r: &'a str)
    requires
        is_span(src@, start, end),
    ensures
        forall|i: int, j: int|
            0 <= i <= j <= src@.len() && start == byte_offset(src@, i) && end == byte_offset(
                src@,
                j,
            ) ==> r@ == #[trigger] src@.subrange(i, j),
{
    let ghost s = src@;
    proof {
        let (i, j) = choose|i: int, j: int|
            0 <= i <= j <= s.len() && start == #[trigger] byte_offset(s, i) && end
                == #[trigger] byte_offset(s, j);
        lemma_span_bytes(s, i, j);
    }
    let (head, _) = src.split_at(end);
    proof {
        let (i, j) = choose|i: int, j: int|
            0 <= i <= j <= s.len() && start == #[trigger] byte_offset(s, i) && end
                == #[trigger] byte_offset(s, j);
        lemma_span_bytes(s, i, j);
        lemma_encode_injective(head@, s.take(j));
    }
    let (_, r) = head.split_at(start);
    proof {
        assert forall|i: int, j: int|
            0 <= i <= j <= s.len() && start == byte_offset(s, i) && end == byte_offset(
                s,
                j,
            ) implies r@ == #[trigger] s.subrange(i, j) by {
            lemma_span_bytes(s, i, j);
            lemma_encode_injective(head@, s.take(j));
            assert(r.spec_bytes() =~= encode_utf8(s.subrange(i, j)));
            lemma_encode_injective(r@, s.subrange(i, j));
        }
    }
    r
}

} // verus!
