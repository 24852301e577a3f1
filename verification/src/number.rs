//! Number literals: which texts are integers, which are floats, and the
//! scan that decides it one character at a time.

use vstd::prelude::*;

verus! {

/// `c` is one of the decimal digits `0` to `9`.
pub open spec fn is_digit(c: char) -> bool {
    '0' <= c <= '9'
}

/// How many characters of `t` are decimal digits.
pub open spec fn digit_count(t: Seq<char>) -> nat
    decreases t.len(),
{
    if t.len() == 0 {
        0
    } else {
        digit_count(t.drop_last()) + if is_digit(t.last()) {
            1nat
        } else {
            0nat
        }
    }
}

/// How many characters of `t` are dots.
pub open spec fn dot_count(t: Seq<char>) -> nat
    decreases t.len(),
{
    if t.len() == 0 {
        0
    } else {
        dot_count(t.drop_last()) + if t.last() == '.' {
            1nat
        } else {
            0nat
        }
    }
}

/// The number that the decimal digits `t` write.
pub open spec fn digits_value(t: Seq<char>) -> int
    decreases t.len(),
{
    if t.len() == 0 {
        0
    } else {
        10 * digits_value(t.drop_last()) + (t.last() as int - '0' as int)
    }
}

/// The text starts with a minus sign.
pub open spec fn is_negative(t: Seq<char>) -> bool {
    t.len() > 0 && t[0] == '-'
}

/// The text without its leading minus sign, if it has one.
pub open spec fn unsigned_part(t: Seq<char>) -> Seq<char> {
    if is_negative(t) {
        t.skip(1)
    } else {
        t
    }
}

/// The 64-bit signed integer that a sign and the characters `body` after it
/// write: at least one decimal digit, nothing else, and the value in range.
pub open spec fn int_of(negative: bool, body: Seq<char>) -> Option<int> {
    let v = if negative {
        -digits_value(body)
    } else {
        digits_value(body)
    };
    if body.len() > 0 && digit_count(body) == body.len() && i64::MIN <= v <= i64::MAX {
        Some(v)
    } else {
        None
    }
}

/// The value of `t` read as a 64-bit signed integer: an optional minus sign
/// and at least one decimal digit, nothing else, and the value in range.
pub open spec fn int_literal(t: Seq<char>) -> Option<int> {
    int_of(is_negative(t), unsigned_part(t))
}

/// `body` is digits with at most one dot among them, and at least one digit.
pub open spec fn is_float_body(body: Seq<char>) -> bool {
    &&& digit_count(body) >= 1
    &&& dot_count(body) <= 1
    &&& digit_count(body) + dot_count(body) == body.len()
}

/// `t` has the shape of a decimal float: an optional minus sign, then digits
/// with at most one dot among them, and at least one digit. These are the
/// texts over minus sign, digits and dots that `f64` parses.
pub open spec fn is_float_literal(t: Seq<char>) -> bool {
    is_float_body(unsigned_part(t))
}

/// The largest magnitude that a 64-bit signed integer can have.
pub const MAGNITUDE_LIMIT: u64 = 9223372036854775808;

/// A scan over the characters of a number after its sign, one at a time.
pub struct NumberScan {
    /// The value of the digits, while there are only digits and it is within
    /// the limit.
    magnitude: u64,
    /// The digits write a value over the limit.
    too_large: bool,
    has_digit: bool,
    /// The number of dots, counted up to two.
    dots: u8,
    /// Only digits and dots so far.
    plain: bool,
    seen: Ghost<Seq<char>>,
}

impl NumberScan {
    /// The characters scanned so far.
    pub closed spec fn seen(&self) -> Seq<char> {
        self.seen@
    }

    /// What the scan holds is what the characters scanned so far amount to.
    pub closed spec fn wf(&self) -> bool {
        let body = self.seen@;
        &&& self.has_digit == (digit_count(body) >= 1)
        &&& self.dots == if dot_count(body) <= 2 {
            dot_count(body)
        } else {
            2
        }
        &&& self.plain == (digit_count(body) + dot_count(body) == body.len())
        &&& digit_count(body) + dot_count(body) <= body.len()
        &&& 0 <= digits_value(body) || digit_count(body) < body.len()
        &&& digit_count(body) == body.len() ==> if self.too_large {
            digits_value(body) > MAGNITUDE_LIMIT
        } else {
            self.magnitude == digits_value(body) && self.magnitude <= MAGNITUDE_LIMIT
        }
    }

    /// A scan that has seen nothing.
    pub fn new() -> (r: Self)
        ensures
            r.wf(),
            r.seen() == Seq::<char>::empty(),
    {
        NumberScan {
            magnitude: 0,
            too_large: false,
            has_digit: false,
            dots: 0,
            plain: true,
            seen: Ghost(Seq::empty()),
        }
    }

    /// Scans one more character.
    pub fn absorb(&mut self, c: char)
        requires
            old(self).wf(),
        ensures
            final(self).wf(),
            final(self).seen() == old(self).seen().push(c),
    {
        proof {
            assert(self.seen@.push(c).drop_last() =~= self.seen@);
            self.seen = Ghost(self.seen@.push(c));
        }
        if '0' <= c && c <= '9' {
            self.has_digit = true;
            if !self.too_large {
                let digit: u64 = (c as u32 - '0' as u32) as u64;
                if self.magnitude > (MAGNITUDE_LIMIT - digit) / 10 {
                    self.too_large = true;
                } else {
                    self.magnitude = self.magnitude * 10 + digit;
                }
            }
        } else if c == '.' {
            if self.dots < 2 {
                self.dots = self.dots + 1;
            }
        } else {
            self.plain = false;
        }
    }

    /// The integer that the sign and the scanned characters write, if they
    /// write one that fits.
    pub fn integer(&self, negative: bool) -> (r: Option<i64>)
        requires
            self.wf(),
        ensures
            match int_of(negative, self.seen()) {
                Some(v) => r == Some(v as i64),
                None => r is None,
            },
    {
        if !self.plain || self.dots != 0 || !self.has_digit || self.too_large {
            return None;
        }
        if negative {
            if self.magnitude == MAGNITUDE_LIMIT {
                Some(i64::MIN)
            } else {
                Some(-(self.magnitude as i64))
            }
        } else if self.magnitude == MAGNITUDE_LIMIT {
            None
        } else {
            Some(self.magnitude as i64)
        }
    }

    /// The scanned characters have the shape of a float without its sign.
    pub fn is_float(&self) -> (r: bool)
        requires
            self.wf(),
        ensures
            r == is_float_body(self.seen()),
    {
        self.plain && self.has_digit && self.dots <= 1
    }
}

} // verus!
