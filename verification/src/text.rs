use vstd::prelude::*;
use vstd::string::StrSliceExecFns;

verus! {

/// The characters an identifier may contain: ASCII letters and digits, `$`
/// and `_`.
pub open spec fn is_ident_char_spec(c: char) -> bool {
    let n = c as u32;
    (48 <= n <= 57) || (65 <= n <= 90) || (97 <= n <= 122) || n == 36 || n == 95
}

/// The ASCII digits.
pub open spec fn is_digit_spec(c: char) -> bool {
    48 <= c as u32 <= 57
}

/// The length of the longest run of elements satisfying `p` in `s` from
/// index `from` on.
pub open spec fn run_len<T>(s: Seq<T>, from: int, p: spec_fn(T) -> bool) -> int
    decreases s.len() - from,
{
    if 0 <= from < s.len() && p(s[from]) {
        1 + run_len(s, from + 1, p)
    } else {
        0
    }
}

/// A run that reaches exactly to `to` — every element before `to` satisfies
/// `p`, and `to` is the end of the sequence or fails `p` — has length
/// `to - from`.
pub proof fn lemma_run_len_between<T>(s: Seq<T>, from: int, to: int, p: spec_fn(T) -> bool)
    requires
        0 <= from <= to <= s.len(),
        forall|j: int| from <= j < to ==> p(s[j]),
        to == s.len() || !p(s[to]),
    ensures
        run_len(s, from, p) == to - from,
    decreases to - from,
{
    if from < to {
        lemma_run_len_between(s, from + 1, to, p);
    }
}

/// The length of the run of ASCII digits in `s` from index `from` on.
pub open spec fn digit_run_len(s: Seq<char>, from: int) -> int {
    run_len(s, from, |c: char| is_digit_spec(c))
}

/// The length of the run of identifier characters in `s` from index `from`
/// on.
pub open spec fn ident_run_len(s: Seq<char>, from: int) -> int {
    run_len(s, from, |c: char| is_ident_char_spec(c))
}

/// Whether `c` may appear in an identifier: an ASCII letter or digit, `$`, or
/// `_`.
pub fn is_identifier_char(c: char) -> (b: bool)
    ensures
        b == is_ident_char_spec(c),
{
    let n = c as u32;
    (48 <= n && n <= 57) || (65 <= n && n <= 90) || (97 <= n && n <= 122) || n == 36 || n == 95
}

fn is_digit_char(c: char) -> (b: bool)
    ensures
        b == is_digit_spec(c),
{
    let n = c as u32;
    48 <= n && n <= 57
}

/// The index just past the run of ASCII digits that starts at `from`.
fn digit_run_end(input: &str, from: usize) -> (n: usize)
    requires
        from <= input@.len(),
    ensures
        n == from + digit_run_len(input@, from as int),
        from <= n <= input@.len(),
{
    let len = input.unicode_len();
    let mut n: usize = from;
    loop
        invariant
            from <= n <= len,
            len == input@.len(),
            forall|j: int| from <= j < n ==> is_digit_spec(input@[j]),
        decreases len - n,
    {
        if n == len {
            proof {
                lemma_run_len_between(input@, from as int, n as int, |c: char| is_digit_spec(c));
            }
            return n;
        }
        let c = input.get_char(n);
        if !is_digit_char(c) {
            proof {
                lemma_run_len_between(input@, from as int, n as int, |c: char| is_digit_spec(c));
            }
            return n;
        }
        n = n + 1;
    }
}

/// The index just past the run of identifier characters that starts at
/// `from`.
fn ident_run_end(input: &str, from: usize) -> (n: usize)
    requires
        from <= input@.len(),
    ensures
        n == from + ident_run_len(input@, from as int),
        from <= n <= input@.len(),
{
    let len = input.unicode_len();
    let mut n: usize = from;
    loop
        invariant
            from <= n <= len,
            len == input@.len(),
            forall|j: int| from <= j < n ==> is_ident_char_spec(input@[j]),
        decreases len - n,
    {
        if n == len {
            proof {
                lemma_run_len_between(input@, from as int, n as int,
                    |c: char| is_ident_char_spec(c));
            }
            return n;
        }
        let c = input.get_char(n);
        if !is_identifier_char(c) {
            proof {
                lemma_run_len_between(input@, from as int, n as int,
                    |c: char| is_ident_char_spec(c));
            }
            return n;
        }
        n = n + 1;
    }
}

/// Consumes the first character of the text: succeeds with that character and
/// the remaining text exactly when the text is non-empty, and fails with the
/// whole input otherwise.
pub fn next_char<'a>(input: &'a str) -> (r: Result<(&'a str, char), &'a str>)
    ensures
        match r {
            Ok((rest, c)) => input@.len() > 0 && c == input@[0] && rest@ == input@.subrange(
                1,
                input@.len() as int,
            ),
            Err(e) => input@.len() == 0 && e@ == input@,
        },
{
    let len = input.unicode_len();
    if len == 0 {
        return Err(input);
    }
    let c = input.get_char(0);
    let rest = input.substring_char(1, len);
    Ok((rest, c))
}

/// A parser for one fixed piece of text.
pub struct MatchLiteral {
    pub expected: String,
}

/// Builds the parser that matches exactly the text `expected` at the start of
/// its input.
pub fn match_literal(expected: &str) -> (m: MatchLiteral)
    ensures
        m.expected@ == expected@,
{
    MatchLiteral { expected: expected.to_owned() }
}

impl MatchLiteral {
    /// Succeeds with `()` and the remaining text exactly when the input
    /// starts with the expected text, character by character; fails with the
    /// whole input otherwise.
    pub fn parse<'a>(&self, input: &'a str) -> (r: Result<(&'a str, ()), &'a str>)
        ensures
            match r {
                Ok((rest, u)) => {
                    &&& self.expected@.len() <= input@.len()
                    &&& input@.subrange(0, self.expected@.len() as int) == self.expected@
                    &&& rest@ == input@.subrange(self.expected@.len() as int, input@.len() as int)
                },
                Err(e) => {
                    &&& e@ == input@
                    &&& !(self.expected@.len() <= input@.len() && input@.subrange(
                        0,
                        self.expected@.len() as int,
                    ) == self.expected@)
                },
            },
    {
        let elen = self.expected.as_str().unicode_len();
        let ilen = input.unicode_len();
        if elen > ilen {
            return Err(input);
        }
        let mut i: usize = 0;
        while i < elen
            invariant
                0 <= i <= elen,
                elen == self.expected@.len(),
                ilen == input@.len(),
                elen <= ilen,
                forall|j: int| 0 <= j < i ==> input@[j] == self.expected@[j],
            decreases elen - i,
        {
            let a = input.get_char(i);
            let b = self.expected.as_str().get_char(i);
            if !(a == b) {
                proof {
                    assert(input@.subrange(0, elen as int) != self.expected@) by {
                        if input@.subrange(0, elen as int) == self.expected@ {
                            assert(input@.subrange(0, elen as int)[i as int] == self.expected@[
                                i as int
                            ]);
                        }
                    }
                }
                return Err(input);
            }
            i = i + 1;
        }
        let rest = input.substring_char(elen, ilen);
        proof {
            assert(input@.subrange(0, elen as int) =~= self.expected@);
        }
        Ok((rest, ()))
    }
}

/// Consumes an identifier: a first character that is an identifier character
/// but no digit, then every following identifier character. Succeeds with the
/// identifier and the remaining text exactly on such an input, and fails with
/// the whole input otherwise.
pub fn identifier<'a>(input: &'a str) -> (r: Result<(&'a str, String), &'a str>)
    ensures
        match r {
            Ok((rest, s)) => {
                &&& input@.len() > 0
                &&& is_ident_char_spec(input@[0])
                &&& !is_digit_spec(input@[0])
                &&& {
                    let n = 1 + ident_run_len(input@, 1);
                    s@ == input@.subrange(0, n) && rest@ == input@.subrange(
                        n,
                        input@.len() as int,
                    )
                }
            },
            Err(e) => {
                &&& e@ == input@
                &&& (input@.len() == 0 || !is_ident_char_spec(input@[0]) || is_digit_spec(
                    input@[0],
                ))
            },
        },
{
    let len = input.unicode_len();
    if len == 0 {
        return Err(input);
    }
    let c0 = input.get_char(0);
    if !is_identifier_char(c0) || is_digit_char(c0) {
        return Err(input);
    }
    let n = ident_run_end(input, 1);
    let name = input.substring_char(0, n).to_owned();
    let rest = input.substring_char(n, len);
    Ok((rest, name))
}

/// Consumes the run of ASCII digits at the start of the text — possibly
/// empty, so this never fails — and returns it with the remaining text.
pub fn match_integer<'a>(input: &'a str) -> (r: Result<(&'a str, String), &'a str>)
    ensures
        match r {
            Ok((rest, s)) => {
                let n = digit_run_len(input@, 0);
                s@ == input@.subrange(0, n) && rest@ == input@.subrange(n, input@.len() as int)
            },
            Err(_) => false,
        },
{
    let len = input.unicode_len();
    let n = digit_run_end(input, 0);
    let digits = input.substring_char(0, n).to_owned();
    let rest = input.substring_char(n, len);
    Ok((rest, digits))
}

/// Whether the text begins with a digit run followed by a dot: the shape a
/// floating-point literal starts with. The run before the dot may be empty,
/// as may the run after it.
pub open spec fn starts_float(s: Seq<char>) -> bool {
    let n = digit_run_len(s, 0);
    n < s.len() && s[n] == '.'
}

/// The length of the floating-point literal at the start of the text: the
/// digits, the dot, and the digits after it.
pub open spec fn float_len(s: Seq<char>) -> int {
    let n = digit_run_len(s, 0);
    n + 1 + digit_run_len(s, n + 1)
}

/// Consumes a floating-point literal: a digit run, a dot, and another digit
/// run, either run possibly empty. Succeeds with the literal and the
/// remaining text exactly when a dot follows the first digit run, and fails
/// with the whole input otherwise.
pub fn match_float<'a>(input: &'a str) -> (r: Result<(&'a str, String), &'a str>)
    ensures
        match r {
            Ok((rest, s)) => starts_float(input@) && s@ == input@.subrange(0, float_len(input@))
                && rest@ == input@.subrange(float_len(input@), input@.len() as int),
            Err(e) => e@ == input@ && !starts_float(input@),
        },
{
    let len = input.unicode_len();
    let n1 = digit_run_end(input, 0);
    if n1 == len {
        return Err(input);
    }
    let dot = input.get_char(n1);
    if !(dot == '.') {
        return Err(input);
    }
    let n2 = digit_run_end(input, n1 + 1);
    let lit = input.substring_char(0, n2).to_owned();
    let rest = input.substring_char(n2, len);
    Ok((rest, lit))
}

/// Consumes a number: a floating-point literal where one starts the text,
/// and the (possibly empty) leading digit run otherwise. Never fails.
pub fn match_number<'a>(input: &'a str) -> (r: Result<(&'a str, String), &'a str>)
    ensures
        match r {
            Ok((rest, s)) => if starts_float(input@) {
                s@ == input@.subrange(0, float_len(input@)) && rest@ == input@.subrange(
                    float_len(input@),
                    input@.len() as int,
                )
            } else {
                let n = digit_run_len(input@, 0);
                s@ == input@.subrange(0, n) && rest@ == input@.subrange(n, input@.len() as int)
            },
            Err(_) => false,
        },
{
    match match_float(input) {
        Ok(x) => Ok(x),
        Err(_) => match_integer(input),
    }
}

} // verus!
