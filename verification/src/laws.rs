use vstd::prelude::*;

use crate::parser::{
    lower_met, repeat_den, upper_reached, And, Collect, Epsilon, Or, Repeat,
};
use crate::range::Bound;
use crate::result::Error;
use crate::{den_matches, Parser};

verus! {

/// Determinism: a parser's denotation is a function of the input and the
/// start offset, and every run returns exactly the denotation. So two results
/// of the same parser on the same input and offset agree: same success or
/// failure, same end offset, same error, and outputs equal up to their
/// abstraction.
pub proof fn lemma_parse_deterministic<O: DeepView>(
    d: Result<(<O as DeepView>::V, int), Error>,
    r1: Result<(O, usize), Error>,
    r2: Result<(O, usize), Error>,
)
    requires
        den_matches::<O>(d, r1),
        den_matches::<O>(d, r2),
    ensures
        match (r1, r2) {
            (Ok((v1, e1)), Ok((v2, e2))) => v1.deep_view() == v2.deep_view() && e1 == e2,
            (Err(e1), Err(e2)) => e1 == e2,
            _ => false,
        },
{
}

/// Epsilon identity: [`Epsilon`] succeeds at every offset of every input,
/// empty or not, consuming nothing and producing the unit value.
pub proof fn lemma_epsilon_identity<I: DeepView>(
    p: Epsilon,
    input: Seq<<I as DeepView>::V>,
    start: int,
)
    ensures
        <Epsilon as Parser<I>>::den(&p, input, start) == Ok::<((), int), Error>(((), start)),
{
}

/// Alternation restart: when the first alternative fails, the alternation is
/// exactly the second alternative run from the original start offset — the
/// same success, or the very same error.
pub proof fn lemma_alternation_restarts<I: DeepView, A: Parser<I>, B: Parser<I, O = A::O>>(
    p: Or<A, B>,
    input: Seq<<I as DeepView>::V>,
    start: int,
)
    requires
        p.a.den(input, start) is Err,
    ensures
        p.den(input, start) == p.b.den(input, start),
{
}

/// Sequence offset monotonicity: when a sequence-keep-both succeeds, its end
/// offset is the second part's end offset when run from the first part's end
/// offset, which itself lies no earlier than that middle offset; offsets only
/// ever grow along a sequence.
pub proof fn lemma_pair_offsets<I: DeepView, A: Parser<I>, B: Parser<I>>(
    p: And<A, B>,
    input: Seq<<I as DeepView>::V>,
    start: int,
)
    requires
        p.wf(),
        0 <= start <= input.len(),
    ensures
        match p.den(input, start) {
            Ok((v, end)) => match p.a.den(input, start) {
                Ok((va, mid)) => {
                    &&& start <= mid <= end <= input.len()
                    &&& va == v.0
                    &&& p.b.den(input, mid) == Ok::<(<B::O as DeepView>::V, int), Error>(
                        (v.1, end),
                    )
                },
                Err(_) => false,
            },
            Err(_) => true,
        },
{
    p.a.den_bounds(input, start);
    if let Ok((va, mid)) = p.a.den(input, start) {
        p.b.den_bounds(input, mid);
    }
}

/// Under an unbounded upper bound, a repetition whose lower bound is already
/// met can only succeed: once enough matches are in hand, running out of
/// further matches is never an error.
pub proof fn lemma_repeat_den_unbounded_ok<I: DeepView, P: Parser<I>>(
    p: P,
    input: Seq<<I as DeepView>::V>,
    pos: int,
    lower: Bound<usize>,
    count: nat,
)
    requires
        p.wf(),
        0 <= pos <= input.len(),
        lower_met(lower, count),
    ensures
        repeat_den(p, input, pos, lower, Bound::Unbounded, count) is Ok,
    decreases input.len() - pos,
{
    if let Ok((v, end)) = p.den(input, pos) {
        if pos < end <= input.len() {
            lemma_repeat_den_unbounded_ok(p, input, end, lower, count + 1);
        }
    }
}

/// Repeat bounds, zero-or-more case: a repetition that asks for zero or more
/// matches with no upper limit never fails; at worst it succeeds with the
/// empty sequence at the start offset.
pub proof fn lemma_repeat_zero_or_more_never_fails<I: DeepView, P: Parser<I>>(
    p: Repeat<P>,
    input: Seq<<I as DeepView>::V>,
    start: int,
)
    requires
        p.wf(),
        0 <= start <= input.len(),
        p.lower == Bound::<usize>::Included(0),
        p.upper == Bound::<usize>::Unbounded,
    ensures
        p.den(input, start) is Ok,
{
    lemma_repeat_den_unbounded_ok(p.inner, input, start, p.lower, 0);
}

/// Repeat bounds, one-or-more case: a repetition that asks for one or more
/// matches with no upper limit fails exactly when no match occurs, that is,
/// when the inner parser fails at the start offset or matches there without
/// consuming.
pub proof fn lemma_repeat_one_or_more_fails_iff_no_match<I: DeepView, P: Parser<I>>(
    p: Repeat<P>,
    input: Seq<<I as DeepView>::V>,
    start: int,
)
    requires
        p.wf(),
        0 <= start <= input.len(),
        p.lower == Bound::<usize>::Included(1),
        p.upper == Bound::<usize>::Unbounded,
    ensures
        p.den(input, start) is Err <==> (match p.inner.den(input, start) {
            Ok((_, end)) => !(start < end <= input.len()),
            Err(_) => true,
        }),
{
    if let Ok((v, end)) = p.inner.den(input, start) {
        if start < end <= input.len() {
            lemma_repeat_den_unbounded_ok(p.inner, input, end, p.lower, 1);
        }
    }
}

/// Under an exclusive upper bound of `n`, a repetition that started with
/// `count` matches already made never collects more than `n - count` further
/// ones.
pub proof fn lemma_repeat_den_count_bounded<I: DeepView, P: Parser<I>>(
    p: P,
    input: Seq<<I as DeepView>::V>,
    pos: int,
    lower: Bound<usize>,
    n: usize,
    count: nat,
)
    requires
        count <= n,
    ensures
        repeat_den(p, input, pos, lower, Bound::Excluded(n), count) matches Ok((vs, _)) ==> count
            + vs.len() <= n,
    decreases input.len() - pos,
{
    if !upper_reached(Bound::Excluded(n), count) {
        if let Ok((v, end)) = p.den(input, pos) {
            if pos < end <= input.len() {
                lemma_repeat_den_count_bounded(p, input, end, lower, n, count + 1);
            }
        }
    }
}

/// Repeat bounds, zero-or-one case: a repetition bounded above by an
/// exclusive one — the shape `repeat(0..1)` builds — never collects more than
/// one match.
pub proof fn lemma_repeat_at_most_one<I: DeepView, P: Parser<I>>(
    p: Repeat<P>,
    input: Seq<<I as DeepView>::V>,
    start: int,
)
    requires
        p.upper == Bound::<usize>::Excluded(1),
    ensures
        p.den(input, start) matches Ok((vs, _)) ==> vs.len() <= 1,
{
    lemma_repeat_den_count_bounded(p.inner, input, start, p.lower, 1, 0);
}

/// A repetition whose lower bound permits zero matches accepts zero matches,
/// whatever its upper bound: when the inner parser makes no match at the
/// start offset — it fails there, or matches without consuming — the
/// repetition succeeds with the empty sequence at the start offset.
pub proof fn lemma_repeat_zero_matches_ok<I: DeepView, P: Parser<I>>(
    p: Repeat<P>,
    input: Seq<<I as DeepView>::V>,
    start: int,
)
    requires
        lower_met(p.lower, 0),
        match p.inner.den(input, start) {
            Ok((_, end)) => !(start < end <= input.len()),
            Err(_) => true,
        },
    ensures
        p.den(input, start) == Ok::<(Seq<<P::O as DeepView>::V>, int), Error>(
            (Seq::empty(), start),
        ),
{
}

/// Repeat bounds, zero-or-one case, the other half: the shape `repeat(0..1)`
/// builds is equivalent to [`crate::parser::Opt`] in that it never fails —
/// zero matches give the empty sequence at the start offset.
pub proof fn lemma_repeat_zero_to_one_never_fails<I: DeepView, P: Parser<I>>(
    p: Repeat<P>,
    input: Seq<<I as DeepView>::V>,
    start: int,
)
    requires
        p.lower == Bound::<usize>::Included(0),
        p.upper == Bound::<usize>::Excluded(1),
    ensures
        p.den(input, start) is Ok,
        (match p.inner.den(input, start) {
            Ok((_, end)) => !(start < end <= input.len()),
            Err(_) => true,
        }) ==> p.den(input, start) == Ok::<(Seq<<P::O as DeepView>::V>, int), Error>(
            (Seq::empty(), start),
        ),
{
    if let Ok((v, end)) = p.inner.den(input, start) {
        if start < end <= input.len() {
            assert(repeat_den(p.inner, input, end, p.lower, p.upper, 1) == Ok::<
                (Seq<<P::O as DeepView>::V>, int),
                Error,
            >((Seq::empty(), end)));
        }
    }
}

/// Collect round-trip: collecting over a parser returns exactly the
/// contiguous run of input that the parser alone consumes — the sub-sequence
/// between its start and end offsets — and fails exactly when it fails, with
/// the same error.
pub proof fn lemma_collect_spans_consumed<I: DeepView + Copy, P: Parser<I>>(
    p: Collect<P>,
    input: Seq<<I as DeepView>::V>,
    start: int,
)
    ensures
        p.inner.den(input, start) matches Ok((_, end)) ==> p.den(input, start) == Ok::<
            (Seq<<I as DeepView>::V>, int),
            Error,
        >((input.subrange(start, end), end)),
        p.inner.den(input, start) matches Err(e) ==> p.den(input, start) == Err::<
            (Seq<<I as DeepView>::V>, int),
            Error,
        >(e),
{
}

} // verus!
