use vstd::prelude::*;

use crate::result::Error;
use crate::text::{lemma_run_len_between, run_len};

verus! {

/// The byte value of the ASCII digit zero.
pub const DIGIT_ZERO: u8 = 48;

/// The byte value of the ASCII digit nine.
pub const DIGIT_NINE: u8 = 57;

/// The byte value of the ASCII full stop.
pub const DOT: u8 = 46;

/// The ASCII digits, as bytes.
pub open spec fn is_digit_byte(b: u8) -> bool {
    DIGIT_ZERO <= b <= DIGIT_NINE
}

/// Whether a number starts the input: its integer part is a non-zero digit
/// followed by any run of digits, or a bare zero, so any leading ASCII digit
/// starts one.
pub open spec fn number_matches(s: Seq<u8>) -> bool {
    s.len() > 0 && is_digit_byte(s[0])
}

/// The end offset of the integer part, for an input a number starts: one for
/// a bare zero, and otherwise the non-zero digit with the digit run that
/// follows it.
pub open spec fn int_end(s: Seq<u8>) -> int
    recommends
        number_matches(s),
{
    if s[0] == DIGIT_ZERO {
        1
    } else {
        1 + run_len(s, 1, |b: u8| is_digit_byte(b))
    }
}

/// The end offset of the whole numeric literal, for an input a number
/// starts: the integer part and, when a dot with at least one digit follows
/// it, that fraction too. A dot without a digit after it is left unconsumed.
pub open spec fn number_end(s: Seq<u8>) -> int
    recommends
        number_matches(s),
{
    let i = int_end(s);
    if i < s.len() && s[i] == DOT && run_len(s, i + 1, |b: u8| is_digit_byte(b)) >= 1 {
        i + 1 + run_len(s, i + 1, |b: u8| is_digit_byte(b))
    } else {
        i
    }
}

/// The index just past the run of ASCII digit bytes that starts at `from`.
fn digit_run_end(input: &[u8], from: usize) -> (n: usize)
    requires
        from <= input@.len(),
    ensures
        n == from + run_len(input@, from as int, |b: u8| is_digit_byte(b)),
        from <= n <= input@.len(),
{
    let len = input.len();
    let mut n: usize = from;
    loop
        invariant
            from <= n <= len,
            len == input@.len(),
            forall|j: int| from <= j < n ==> is_digit_byte(input@[j]),
        decreases len - n,
    {
        if n == len {
            proof {
                lemma_run_len_between(input@, from as int, n as int, |b: u8| is_digit_byte(b));
            }
            return n;
        }
        let b = vstd::slice::slice_index_get(input, n);
        if !(DIGIT_ZERO <= *b && *b <= DIGIT_NINE) {
            proof {
                lemma_run_len_between(input@, from as int, n as int, |b: u8| is_digit_byte(b));
            }
            return n;
        }
        n = n + 1;
    }
}

/// Reads a numeric literal from the start of the input: a non-zero digit
/// followed by digits, or a bare zero, then an optional fraction of a dot and
/// one or more digits. Succeeds with the matched bytes and the end offset
/// exactly when the input starts with a digit, and fails with
/// [`Error::Incomplete`] otherwise.
pub fn number(input: &[u8]) -> (r: Result<(Vec<u8>, usize), Error>)
    ensures
        match r {
            Ok((text, end)) => {
                &&& number_matches(input@)
                &&& end as int == number_end(input@)
                &&& end <= input@.len()
                &&& text@ == input@.subrange(0, end as int)
            },
            Err(e) => !number_matches(input@) && e == Error::Incomplete,
        },
{
    let len = input.len();
    if len == 0 {
        return Err(Error::Incomplete);
    }
    let b0 = vstd::slice::slice_index_get(input, 0);
    if !(DIGIT_ZERO <= *b0 && *b0 <= DIGIT_NINE) {
        return Err(Error::Incomplete);
    }
    let i: usize = if *b0 == DIGIT_ZERO {
        1
    } else {
        digit_run_end(input, 1)
    };
    let mut end: usize = i;
    if i < len {
        let dot = vstd::slice::slice_index_get(input, i);
        if *dot == DOT {
            let j = digit_run_end(input, i + 1);
            if j > i + 1 {
                end = j;
            }
        }
    }
    let s = vstd::slice::slice_subrange(input, 0, end);
    Ok((vstd::slice::slice_to_vec(s), end))
}

} // verus!
