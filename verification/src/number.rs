//! Decimal numbers as they are written.
//!
//! A fraction of a composition is written as a decimal number: an optional
//! sign, digits with an optional decimal point, and an optional exponent, as
//! in `0.21`, `.5`, `1.` or `7.9e-1`. This module tells whether a text writes
//! such a number, and where its parts stand. It computes no value: the text
//! is handed on as it is written, so that no digit of it is lost.

use vstd::prelude::*;
use vstd::string::*;
use crate::text::{chars_of, is_digit};

verus! {

/// The parts of a decimal number in its text: where its digits before the
/// point, after the point and of the exponent stand, and the two signs.
pub struct NumberParts {
    pub negative: bool,
    pub int_from: int,
    pub int_len: int,
    pub frac_from: int,
    pub frac_len: int,
    pub exp_negative: bool,
    pub exp_from: int,
    pub exp_len: int,
}

/// How many digits stand in a row in `s` from the place `from` on.
pub open spec fn digit_run(s: Seq<char>, from: int) -> int
    decreases s.len() - from,
{
    if 0 <= from < s.len() && is_digit(s[from]) {
        1 + digit_run(s, from + 1)
    } else {
        0
    }
}

/// A sign.
pub open spec fn is_sign(c: char) -> bool {
    c == '+' || c == '-'
}

/// The parts of the decimal number that `s` writes, if it writes one: an
/// optional sign; digits, a point, or digits around a point, with one digit
/// at least; and an optional exponent, which is `e` or `E`, an optional
/// sign, and one digit at least.
pub open spec fn number_parts(s: Seq<char>) -> Option<NumberParts> {
    let a = if s.len() > 0 && is_sign(s[0]) {
        1int
    } else {
        0int
    };
    let int_len = digit_run(s, a);
    let b = a + int_len;
    let has_point = b < s.len() && s[b] == '.';
    let c = if has_point {
        b + 1
    } else {
        b
    };
    let frac_len = if has_point {
        digit_run(s, c)
    } else {
        0
    };
    let d = c + frac_len;
    let negative = s.len() > 0 && s[0] == '-';
    if int_len + frac_len == 0 {
        None
    } else if d == s.len() {
        Some(
            NumberParts {
                negative,
                int_from: a,
                int_len,
                frac_from: c,
                frac_len,
                exp_negative: false,
                exp_from: d,
                exp_len: 0,
            },
        )
    } else if s[d] == 'e' || s[d] == 'E' {
        let f = if d + 1 < s.len() && is_sign(s[d + 1]) {
            d + 2
        } else {
            d + 1
        };
        let exp_len = digit_run(s, f);
        if exp_len >= 1 && f + exp_len == s.len() {
            Some(
                NumberParts {
                    negative,
                    int_from: a,
                    int_len,
                    frac_from: c,
                    frac_len,
                    exp_negative: s[d + 1] == '-',
                    exp_from: f,
                    exp_len,
                },
            )
        } else {
            None
        }
    } else {
        None
    }
}

proof fn lemma_digit_run(s: Seq<char>, from: int, to: int)
    requires
        0 <= from <= to <= s.len(),
        forall|i: int| from <= i < to ==> is_digit(#[trigger] s[i]),
        to == s.len() || !is_digit(s[to]),
    ensures
        digit_run(s, from) == to - from,
    decreases to - from,
{
    if from < to {
        lemma_digit_run(s, from + 1, to);
    }
}

/// Finds the end of the run of digits that starts at `from`.
fn run_end(chars: &Vec<char>, from: usize) -> (to: usize)
    requires
        from <= chars.len(),
    ensures
        from <= to <= chars.len(),
        to - from == digit_run(chars@, from as int),
        forall|i: int| from <= i < to ==> is_digit(#[trigger] chars@[i]),
{
    let n: usize = chars.len();
    let mut to: usize = from;
    while to < n
        invariant
            n == chars.len(),
            from <= to <= n,
            forall|i: int| from <= i < to ==> is_digit(#[trigger] chars@[i]),
        decreases n - to,
    {
        let u: u32 = chars[to] as u32;
        if u < 48 || u > 57 {
            proof {
                lemma_digit_run(chars@, from as int, to as int);
            }
            return to;
        }
        to = to + 1;
    }
    proof {
        lemma_digit_run(chars@, from as int, to as int);
    }
    to
}

/// The parts of a decimal number in its text, with the places as indices.
#[derive(Debug, Clone, Copy)]
pub struct NumberShape {
    pub negative: bool,
    pub int_from: usize,
    pub int_len: usize,
    pub frac_from: usize,
    pub frac_len: usize,
    pub exp_negative: bool,
    pub exp_from: usize,
    pub exp_len: usize,
}

impl View for NumberShape {
    type V = NumberParts;

    open spec fn view(&self) -> NumberParts {
        NumberParts {
            negative: self.negative,
            int_from: self.int_from as int,
            int_len: self.int_len as int,
            frac_from: self.frac_from as int,
            frac_len: self.frac_len as int,
            exp_negative: self.exp_negative,
            exp_from: self.exp_from as int,
            exp_len: self.exp_len as int,
        }
    }
}

/// Finds the parts of the decimal number that the characters write.
pub fn number_shape(chars: &Vec<char>) -> (r: Option<NumberShape>)
    ensures
        match r {
            Some(shape) => number_parts(chars@) == Some(shape@) && {
                &&& shape.int_from + shape.int_len <= shape.frac_from
                &&& shape.frac_from + shape.frac_len <= chars.len()
                &&& shape.exp_from + shape.exp_len <= chars.len()
                &&& shape.int_len + shape.frac_len >= 1
                &&& forall|i: int|
                    shape.int_from <= i < shape.int_from + shape.int_len ==> is_digit(
                        #[trigger] chars@[i],
                    )
                &&& forall|i: int|
                    shape.frac_from <= i < shape.frac_from + shape.frac_len ==> is_digit(
                        #[trigger] chars@[i],
                    )
                &&& forall|i: int|
                    shape.exp_from <= i < shape.exp_from + shape.exp_len ==> is_digit(
                        #[trigger] chars@[i],
                    )
            },
            None => number_parts(chars@) is None,
        },
{
    let n: usize = chars.len();
    let negative = n > 0 && chars[0] == '-';
    let a: usize = if n > 0 && (chars[0] == '+' || chars[0] == '-') {
        1
    } else {
        0
    };
    let b = run_end(chars, a);
    let has_point = b < n && chars[b] == '.';
    let c: usize = if has_point {
        b + 1
    } else {
        b
    };
    let d: usize = if has_point {
        run_end(chars, c)
    } else {
        c
    };
    if (b - a) + (d - c) == 0 {
        return None;
    }
    if d == n {
        return Some(
            NumberShape {
                negative,
                int_from: a,
                int_len: b - a,
                frac_from: c,
                frac_len: d - c,
                exp_negative: false,
                exp_from: d,
                exp_len: 0,
            },
        );
    }
    if chars[d] != 'e' && chars[d] != 'E' {
        return None;
    }
    let f: usize = if d + 1 < n && (chars[d + 1] == '+' || chars[d + 1] == '-') {
        d + 2
    } else {
        d + 1
    };
    let g = run_end(chars, f);
    if g - f >= 1 && g == n {
        Some(
            NumberShape {
                negative,
                int_from: a,
                int_len: b - a,
                frac_from: c,
                frac_len: d - c,
                exp_negative: chars[d + 1] == '-',
                exp_from: f,
                exp_len: g - f,
            },
        )
    } else {
        None
    }
}

/// Whether `s` writes a decimal number and nothing else.
pub open spec fn is_number(s: Seq<char>) -> bool {
    number_parts(s) is Some
}

/// Tells whether the text writes a decimal number and nothing else: an
/// optional sign, digits with an optional point and one digit at least, and
/// an optional exponent. The words for infinity and for what is no number
/// write none.
pub fn writes_number(text: &str) -> (r: bool)
    ensures
        r == is_number(text@),
{
    let chars = chars_of(text);
    number_shape(&chars).is_some()
}

} // verus!
