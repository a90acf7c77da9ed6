use vstd::prelude::*;

use core::marker::PhantomData;

use crate::range::Bound;
use crate::result::Error;
use crate::Parser as ParserTrait;

verus! {

/// What [`crate::Parser::map`] demands of its closure: callable on every
/// output, and deterministic up to the output abstraction, so that the mapped
/// parser still has a denotation that is a function of the input alone.
pub open spec fn map_fn_wf<O: DeepView, U: DeepView, F: Fn(O) -> U>(f: F) -> bool {
    &&& forall|o: O| #[trigger] call_requires(f, (o,))
    &&& forall|o1: O, o2: O, u1: U, u2: U|
        o1.deep_view() == o2.deep_view() && #[trigger] call_ensures(f, (o1,), u1)
            && #[trigger] call_ensures(f, (o2,), u2) ==> u1.deep_view() == u2.deep_view()
}

/// `uv` is an abstraction of some value the closure `f` can return on an
/// argument abstracting to `v`.
pub open spec fn map_can_yield<O: DeepView, U: DeepView, F: Fn(O) -> U>(
    f: F,
    v: <O as DeepView>::V,
    uv: <U as DeepView>::V,
) -> bool {
    exists|o: O, u: U|
        o.deep_view() == v && #[trigger] call_ensures(f, (o,), u) && u.deep_view() == uv
}

/// The abstraction of what `f` returns on an argument abstracting to `v`.
/// Under [`map_fn_wf`] it is the one such value.
pub open spec fn map_image<O: DeepView, U: DeepView, F: Fn(O) -> U>(
    f: F,
    v: <O as DeepView>::V,
) -> <U as DeepView>::V {
    choose|uv: <U as DeepView>::V| map_can_yield(f, v, uv)
}

/// A run of a [`map_fn_wf`] closure pins [`map_image`] down.
pub proof fn lemma_map_image<O: DeepView, U: DeepView, F: Fn(O) -> U>(f: F, o: O, u: U)
    requires
        map_fn_wf(f),
        call_ensures(f, (o,), u),
    ensures
        map_image(f, o.deep_view()) == u.deep_view(),
{
    assert(map_can_yield(f, o.deep_view(), u.deep_view()));
    let uv2 = map_image(f, o.deep_view());
    assert(map_can_yield(f, o.deep_view(), uv2));
    let (o2, u2): (O, U) = choose|o2: O, u2: U|
        o2.deep_view() == o.deep_view() && #[trigger] call_ensures(f, (o2,), u2)
            && u2.deep_view() == uv2;
    assert(u2.deep_view() == u.deep_view());
}

/// What [`crate::Parser::decide`] demands of its predicate: callable on every
/// output, and a function of the output's abstraction.
pub open spec fn pred_fn_wf<O: DeepView, F: Fn(&O) -> bool>(f: F) -> bool {
    &&& forall|o: &O| #[trigger] call_requires(f, (o,))
    &&& forall|o1: &O, o2: &O, b1: bool, b2: bool|
        o1.deep_view() == o2.deep_view() && #[trigger] call_ensures(f, (o1,), b1)
            && #[trigger] call_ensures(f, (o2,), b2) ==> b1 == b2
}

/// Whether the predicate `f` accepts a value abstracting to `v`.
pub open spec fn pred_holds<O: DeepView, F: Fn(&O) -> bool>(
    f: F,
    v: <O as DeepView>::V,
) -> bool {
    exists|o: &O| o.deep_view() == v && #[trigger] call_ensures(f, (o,), true)
}

/// A run of a [`pred_fn_wf`] predicate decides [`pred_holds`].
pub proof fn lemma_pred_holds<O: DeepView, F: Fn(&O) -> bool>(f: F, o: &O, b: bool)
    requires
        pred_fn_wf(f),
        call_ensures(f, (o,), b),
    ensures
        pred_holds(f, o.deep_view()) == b,
{
    if b {
        assert(pred_holds(f, o.deep_view()));
    } else {
        if pred_holds(f, o.deep_view()) {
            let o2: &O = choose|o2: &O|
                o2.deep_view() == o.deep_view() && #[trigger] call_ensures(f, (o2,), true);
            assert(false);
        }
    }
}

/// What [`crate::Parser::convert`] demands of its conversion: callable on
/// every output, with success and the successful value a function of the
/// output's abstraction. Nothing is asked of the discarded error values.
pub open spec fn conv_fn_wf<O: DeepView, U: DeepView, E, F: Fn(O) -> Result<U, E>>(f: F) -> bool {
    &&& forall|o: O| #[trigger] call_requires(f, (o,))
    &&& forall|o1: O, o2: O, r1: Result<U, E>, r2: Result<U, E>|
        o1.deep_view() == o2.deep_view() && #[trigger] call_ensures(f, (o1,), r1)
            && #[trigger] call_ensures(f, (o2,), r2) ==> match (r1, r2) {
            (Ok(u1), Ok(u2)) => u1.deep_view() == u2.deep_view(),
            (Err(_), Err(_)) => true,
            _ => false,
        }
}

/// Whether the conversion `f` succeeds on a value abstracting to `v`.
pub open spec fn conv_succeeds<O: DeepView, U: DeepView, E, F: Fn(O) -> Result<U, E>>(
    f: F,
    v: <O as DeepView>::V,
) -> bool {
    exists|o: O, u: U| o.deep_view() == v && #[trigger] call_ensures(f, (o,), Ok::<U, E>(u))
}

/// `uv` is an abstraction of some value the conversion `f` can succeed with
/// on an argument abstracting to `v`.
pub open spec fn conv_can_yield<O: DeepView, U: DeepView, E, F: Fn(O) -> Result<U, E>>(
    f: F,
    v: <O as DeepView>::V,
    uv: <U as DeepView>::V,
) -> bool {
    exists|o: O, u: U|
        o.deep_view() == v && #[trigger] call_ensures(f, (o,), Ok::<U, E>(u)) && u.deep_view()
            == uv
}

/// The abstraction of the converted value on an argument abstracting to `v`.
/// Under [`conv_fn_wf`] and [`conv_succeeds`] it is the one such value.
pub open spec fn conv_image<O: DeepView, U: DeepView, E, F: Fn(O) -> Result<U, E>>(
    f: F,
    v: <O as DeepView>::V,
) -> <U as DeepView>::V {
    choose|uv: <U as DeepView>::V| conv_can_yield(f, v, uv)
}

/// A successful run of a [`conv_fn_wf`] conversion pins [`conv_image`] down.
pub proof fn lemma_conv_ok<O: DeepView, U: DeepView, E, F: Fn(O) -> Result<U, E>>(
    f: F,
    o: O,
    u: U,
)
    requires
        conv_fn_wf(f),
        call_ensures(f, (o,), Ok::<U, E>(u)),
    ensures
        conv_succeeds(f, o.deep_view()),
        conv_image(f, o.deep_view()) == u.deep_view(),
{
    let v = o.deep_view();
    assert(conv_can_yield(f, v, u.deep_view()));
    let uv2 = conv_image(f, v);
    assert(conv_can_yield(f, v, uv2));
    let (o2, u2): (O, U) = choose|o2: O, u2: U|
        o2.deep_view() == v && #[trigger] call_ensures(f, (o2,), Ok::<U, E>(u2)) && u2.deep_view()
            == uv2;
    assert(u2.deep_view() == u.deep_view());
}

/// A failed run of a [`conv_fn_wf`] conversion shows it fails on every value
/// with that abstraction.
pub proof fn lemma_conv_err<O: DeepView, U: DeepView, E, F: Fn(O) -> Result<U, E>>(
    f: F,
    o: O,
    e: E,
)
    requires
        conv_fn_wf(f),
        call_ensures(f, (o,), Err::<U, E>(e)),
    ensures
        !conv_succeeds(f, o.deep_view()),
{
    if conv_succeeds(f, o.deep_view()) {
        let (o2, u2): (O, U) = choose|o2: O, u2: U|
            o2.deep_view() == o.deep_view() && #[trigger] call_ensures(f, (o2,), Ok::<U, E>(u2));
        assert(false);
    }
}

/// What [`and_then`] demands of its continuation: callable on every output,
/// every parser it returns is well-formed, and outputs with the same
/// abstraction lead to parsers with the same denotation.
pub open spec fn bind_fn_wf<I: DeepView, O: DeepView, Q: ParserTrait<I>, F: Fn(O) -> Q>(
    f: F,
) -> bool {
    &&& forall|o: O| #[trigger] call_requires(f, (o,))
    &&& forall|o: O, q: Q| #[trigger] call_ensures(f, (o,), q) ==> q.wf()
    &&& forall|o1: O, o2: O, q1: Q, q2: Q, input: Seq<<I as DeepView>::V>, pos: int|
        #![trigger call_ensures(f, (o1,), q1), call_ensures(f, (o2,), q2), q1.den(input, pos)]
        o1.deep_view() == o2.deep_view() && call_ensures(f, (o1,), q1) && call_ensures(
            f,
            (o2,),
            q2,
        ) ==> q1.den(input, pos) == q2.den(input, pos)
}

/// The denotation of the parser the continuation `f` returns on an argument
/// abstracting to `v`, run on `input` from `pos`. Under [`bind_fn_wf`] it is
/// the one such denotation.
pub open spec fn bind_den<I: DeepView, O: DeepView, Q: ParserTrait<I>, F: Fn(O) -> Q>(
    f: F,
    v: <O as DeepView>::V,
    input: Seq<<I as DeepView>::V>,
    pos: int,
) -> Result<(<Q::O as DeepView>::V, int), Error> {
    if exists|o: O, q: Q| o.deep_view() == v && #[trigger] call_ensures(f, (o,), q) {
        let (o, q) = choose|o: O, q: Q| o.deep_view() == v && #[trigger] call_ensures(f, (o,), q);
        q.den(input, pos)
    } else {
        Err(Error::Incomplete)
    }
}

/// A run of a [`bind_fn_wf`] continuation pins [`bind_den`] down.
pub proof fn lemma_bind_den<I: DeepView, O: DeepView, Q: ParserTrait<I>, F: Fn(O) -> Q>(
    f: F,
    o: O,
    q: Q,
    input: Seq<<I as DeepView>::V>,
    pos: int,
)
    requires
        bind_fn_wf::<I, O, Q, F>(f),
        call_ensures(f, (o,), q),
    ensures
        bind_den::<I, O, Q, F>(f, o.deep_view(), input, pos) == q.den(input, pos),
{
    let v = o.deep_view();
    assert(exists|o2: O, q2: Q| o2.deep_view() == v && #[trigger] call_ensures(f, (o2,), q2));
    let (o2, q2) = choose|o2: O, q2: Q| o2.deep_view() == v && #[trigger] call_ensures(
        f,
        (o2,),
        q2,
    );
    assert(q2.den(input, pos) == q.den(input, pos));
}

/// Runs the inner parser, hands its output to a continuation, and runs the
/// parser the continuation returns from the inner parser's end offset.
pub struct AndThen<P, F, Q> {
    pub inner: P,
    pub f: F,
    pub marker: PhantomData<Q>,
}

impl<I: DeepView, P: ParserTrait<I>, Q: ParserTrait<I>, F: Fn(P::O) -> Q> ParserTrait<
    I,
> for AndThen<P, F, Q> {
    type O = Q::O;

    open spec fn wf(&self) -> bool {
        self.inner.wf() && bind_fn_wf::<I, P::O, Q, F>(self.f)
    }

    open spec fn den(&self, input: Seq<<I as DeepView>::V>, start: int) -> Result<
        (<Q::O as DeepView>::V, int),
        Error,
    > {
        match self.inner.den(input, start) {
            Ok((v, mid)) => bind_den::<I, P::O, Q, F>(self.f, v, input, mid),
            Err(e) => Err(e),
        }
    }

    proof fn den_bounds(&self, input: Seq<<I as DeepView>::V>, start: int) {
        self.inner.den_bounds(input, start);
        if let Ok((v, mid)) = self.inner.den(input, start) {
            if exists|o: P::O, q: Q| o.deep_view() == v && #[trigger] call_ensures(
                self.f,
                (o,),
                q,
            ) {
                let (o, q) = choose|o: P::O, q: Q|
                    o.deep_view() == v && #[trigger] call_ensures(self.f, (o,), q);
                q.den_bounds(input, mid);
            }
        }
    }

    fn apply(&self, input: &[I], start: usize) -> (r: Result<(Q::O, usize), Error>) {
        match self.inner.apply(input, start) {
            Ok((v, mid)) => {
                proof {
                    self.inner.den_bounds(input.deep_view(), start as int);
                }
                let ghost gv = v;
                let q = (self.f)(v);
                proof {
                    lemma_bind_den::<I, P::O, Q, F>(self.f, gv, q, input.deep_view(), mid as int);
                }
                q.apply(input, mid)
            },
            Err(e) => Err(e),
        }
    }
}

/// Builds the monadic composition of `parser` and the continuation `f`: the
/// parser that runs `parser`, builds a second parser from its output, and
/// runs that from the first one's end offset.
pub fn and_then<I: DeepView, P: ParserTrait<I>, Q: ParserTrait<I>, F: Fn(P::O) -> Q>(
    parser: P,
    f: F,
) -> (p: AndThen<P, F, Q>)
    ensures
        p.inner == parser,
        p.f == f,
{
    AndThen { inner: parser, f, marker: PhantomData }
}

/// The parser that consumes nothing and always succeeds with `()`.
pub struct Epsilon;

impl<I: DeepView> ParserTrait<I> for Epsilon {
    type O = ();

    open spec fn wf(&self) -> bool {
        true
    }

    open spec fn den(&self, input: Seq<<I as DeepView>::V>, start: int) -> Result<
        ((), int),
        Error,
    > {
        Ok(((), start))
    }

    proof fn den_bounds(&self, input: Seq<<I as DeepView>::V>, start: int) {
    }

    fn apply(&self, input: &[I], start: usize) -> (r: Result<((), usize), Error>) {
        Ok(((), start))
    }
}

/// Succeeds unconditionally without consuming input, producing `()`. The base
/// case of every grammar.
pub fn epsilon() -> (p: Epsilon)
    ensures
        p == Epsilon,
{
    Epsilon
}

/// The parser that consumes exactly one token, whatever it is.
pub struct Next;

impl<I: DeepView + Copy> ParserTrait<I> for Next {
    type O = I;

    open spec fn wf(&self) -> bool {
        true
    }

    open spec fn den(&self, input: Seq<<I as DeepView>::V>, start: int) -> Result<
        (<I as DeepView>::V, int),
        Error,
    > {
        if 0 <= start < input.len() {
            Ok((input[start], start + 1))
        } else {
            Err(Error::Incomplete)
        }
    }

    proof fn den_bounds(&self, input: Seq<<I as DeepView>::V>, start: int) {
    }

    fn apply(&self, input: &[I], start: usize) -> (r: Result<(I, usize), Error>) {
        if start < input.len() {
            let t: &I = vstd::slice::slice_index_get(input, start);
            Ok((*t, start + 1))
        } else {
            Err(Error::Incomplete)
        }
    }
}

/// Succeeds exactly when a token exists at the current offset; consumes it and
/// returns it. Fails with [`Error::Incomplete`] at end of input.
pub fn next() -> (p: Next)
    ensures
        p == Next,
{
    Next
}

/// The parser that consumes one token equal to a given one.
pub struct Sym<I> {
    pub t: I,
}

impl<I: DeepView + Copy + PartialEq> ParserTrait<I> for Sym<I> {
    type O = I;

    open spec fn wf(&self) -> bool {
        vstd::laws_eq::obeys_deep_eq::<I>()
    }

    open spec fn den(&self, input: Seq<<I as DeepView>::V>, start: int) -> Result<
        (<I as DeepView>::V, int),
        Error,
    > {
        if 0 <= start < input.len() && input[start] == self.t.deep_view() {
            Ok((input[start], start + 1))
        } else {
            Err(Error::Incomplete)
        }
    }

    proof fn den_bounds(&self, input: Seq<<I as DeepView>::V>, start: int) {
    }

    fn apply(&self, input: &[I], start: usize) -> (r: Result<(I, usize), Error>) {
        proof {
            reveal(vstd::laws_eq::obeys_deep_eq);
        }
        if start < input.len() {
            let t: &I = vstd::slice::slice_index_get(input, start);
            if *t == self.t {
                Ok((*t, start + 1))
            } else {
                Err(Error::Incomplete)
            }
        } else {
            Err(Error::Incomplete)
        }
    }
}

/// Succeeds exactly when the token at the current offset equals `t`; consumes
/// it and returns it. Fails with [`Error::Incomplete`] on a mismatch or at end
/// of input.
pub fn sym<I: DeepView + Copy + PartialEq>(t: I) -> (p: Sym<I>)
    ensures
        p == (Sym { t }),
{
    Sym { t }
}

/// The parser that consumes a fixed run of tokens equal to a given pattern.
pub struct SeqTok<I> {
    pub pat: Vec<I>,
}

impl<I: DeepView + Copy + PartialEq> ParserTrait<I> for SeqTok<I> {
    type O = Vec<I>;

    open spec fn wf(&self) -> bool {
        vstd::laws_eq::obeys_deep_eq::<I>()
    }

    open spec fn den(&self, input: Seq<<I as DeepView>::V>, start: int) -> Result<
        (Seq<<I as DeepView>::V>, int),
        Error,
    > {
        let n = self.pat.deep_view().len() as int;
        if 0 <= start && start + n <= input.len() && input.subrange(start, start + n)
            == self.pat.deep_view() {
            Ok((input.subrange(start, start + n), start + n))
        } else {
            Err(Error::Incomplete)
        }
    }

    proof fn den_bounds(&self, input: Seq<<I as DeepView>::V>, start: int) {
    }

    fn apply(&self, input: &[I], start: usize) -> (r: Result<(Vec<I>, usize), Error>) {
        proof {
            reveal(vstd::laws_eq::obeys_deep_eq);
        }
        let n = self.pat.len();
        let ilen = input.len();
        let ghost iv = input.deep_view();
        let ghost pv = self.pat.deep_view();
        if n > ilen - start {
            proof {
                assert(self.den(iv, start as int) is Err);
            }
            return Err(Error::Incomplete);
        }
        let mut i: usize = 0;
        while i < n
            invariant
                self.wf(),
                0 <= i <= n,
                n == pv.len(),
                ilen == input@.len(),
                start + n <= ilen,
                iv == input.deep_view(),
                pv == self.pat.deep_view(),
                forall|j: int| 0 <= j < i ==> iv[start + j] == pv[j],
            decreases n - i,
        {
            proof {
                reveal(vstd::laws_eq::obeys_deep_eq);
            }
            let a: &I = vstd::slice::slice_index_get(input, start + i);
            let b: &I = vstd::slice::slice_index_get(self.pat.as_slice(), i);
            if !(*a == *b) {
                proof {
                    assert(iv[start + i as int] != pv[i as int]);
                    assert(input.deep_view().subrange(start as int, start + n as int) != pv) by {
                        if iv.subrange(start as int, start + n as int) == pv {
                            assert(iv.subrange(start as int, start + n as int)[i as int] == pv[i as int]);
                        }
                    }
                }
                return Err(Error::Incomplete);
            }
            i = i + 1;
        }
        let s = vstd::slice::slice_subrange(input, start, start + n);
        let v = vstd::slice::slice_to_vec(s);
        proof {
            assert(v.deep_view() =~= iv.subrange(start as int, start + n as int));
            assert(iv.subrange(start as int, start + n as int) =~= pv);
        }
        Ok((v, start + n))
    }
}

/// Succeeds exactly when the next `t.len()` tokens equal `t` element by
/// element; consumes them all and returns the matched run, taken from the
/// input. Fails with [`Error::Incomplete`] on any mismatch, consuming nothing.
pub fn seq<I: DeepView + Copy + PartialEq>(t: &[I]) -> (p: SeqTok<I>)
    ensures
        p.pat.deep_view() == t.deep_view(),
{
    SeqTok { pat: vstd::slice::slice_to_vec(t) }
}

/// Sequence-keep-both: runs `a`, then `b` from `a`'s end offset, and pairs
/// their outputs.
pub struct And<A, B> {
    pub a: A,
    pub b: B,
}

/// Builds the sequence-keep-both composition of `a` and `b`: `a`, then `b`
/// from `a`'s end offset, with the outputs paired. Fails with the first
/// failing part's error.
pub fn pair<I: DeepView, A: ParserTrait<I>, B: ParserTrait<I>>(a: A, b: B) -> (p: And<A, B>)
    ensures
        p.a == a,
        p.b == b,
{
    And { a, b }
}

/// Builds the ordered alternation of `a` and `b`: `a`, or else `b` from the
/// original start offset. First match wins; there is no longest-match rule.
pub fn either<I: DeepView, A: ParserTrait<I>, B: ParserTrait<I, O = A::O>>(a: A, b: B) -> (p: Or<
    A,
    B,
>)
    ensures
        p.a == a,
        p.b == b,
{
    Or { a, b }
}

/// Builds the sequence-keep-left composition of `a` and `b`: both must match
/// in order, and `a`'s output is kept at `b`'s end offset.
pub fn keep_left<I: DeepView, A: ParserTrait<I>, B: ParserTrait<I>>(a: A, b: B) -> (p: KeepLeft<
    A,
    B,
>)
    ensures
        p.a == a,
        p.b == b,
{
    KeepLeft { a, b }
}

/// Builds the sequence-keep-right composition of `a` and `b`: both must match
/// in order, and `b`'s output is kept at `b`'s end offset.
pub fn keep_right<I: DeepView, A: ParserTrait<I>, B: ParserTrait<I>>(a: A, b: B) -> (p: KeepRight<
    A,
    B,
>)
    ensures
        p.a == a,
        p.b == b,
{
    KeepRight { a, b }
}

impl<I: DeepView, A: ParserTrait<I>, B: ParserTrait<I>> ParserTrait<I> for And<A, B> {
    type O = (A::O, B::O);

    open spec fn wf(&self) -> bool {
        self.a.wf() && self.b.wf()
    }

    open spec fn den(&self, input: Seq<<I as DeepView>::V>, start: int) -> Result<
        ((<A::O as DeepView>::V, <B::O as DeepView>::V), int),
        Error,
    > {
        match self.a.den(input, start) {
            Ok((va, mid)) => match self.b.den(input, mid) {
                Ok((vb, end)) => Ok(((va, vb), end)),
                Err(e) => Err(e),
            },
            Err(e) => Err(e),
        }
    }

    proof fn den_bounds(&self, input: Seq<<I as DeepView>::V>, start: int) {
        self.a.den_bounds(input, start);
        if let Ok((va, mid)) = self.a.den(input, start) {
            self.b.den_bounds(input, mid);
        }
    }

    fn apply(&self, input: &[I], start: usize) -> (r: Result<((A::O, B::O), usize), Error>) {
        match self.a.apply(input, start) {
            Ok((va, mid)) => {
                proof {
                    self.a.den_bounds(input.deep_view(), start as int);
                }
                match self.b.apply(input, mid) {
                    Ok((vb, end)) => Ok(((va, vb), end)),
                    Err(e) => Err(e),
                }
            },
            Err(e) => Err(e),
        }
    }
}

/// Ordered alternation: runs `a`; on failure runs `b` from the original start
/// offset. First match wins.
pub struct Or<A, B> {
    pub a: A,
    pub b: B,
}

impl<I: DeepView, A: ParserTrait<I>, B: ParserTrait<I, O = A::O>> ParserTrait<I> for Or<A, B> {
    type O = A::O;

    open spec fn wf(&self) -> bool {
        self.a.wf() && self.b.wf()
    }

    open spec fn den(&self, input: Seq<<I as DeepView>::V>, start: int) -> Result<
        (<A::O as DeepView>::V, int),
        Error,
    > {
        match self.a.den(input, start) {
            Ok((va, end)) => Ok((va, end)),
            Err(_) => self.b.den(input, start),
        }
    }

    proof fn den_bounds(&self, input: Seq<<I as DeepView>::V>, start: int) {
        self.a.den_bounds(input, start);
        self.b.den_bounds(input, start);
    }

    fn apply(&self, input: &[I], start: usize) -> (r: Result<(A::O, usize), Error>) {
        match self.a.apply(input, start) {
            Ok((va, end)) => Ok((va, end)),
            Err(_) => self.b.apply(input, start),
        }
    }
}

/// Sequence-keep-left: runs `a` then `b`, and keeps `a`'s output at `b`'s end
/// offset. Used to consume and discard a mandatory trailing token.
pub struct KeepLeft<A, B> {
    pub a: A,
    pub b: B,
}

impl<I: DeepView, A: ParserTrait<I>, B: ParserTrait<I>> ParserTrait<I> for KeepLeft<A, B> {
    type O = A::O;

    open spec fn wf(&self) -> bool {
        self.a.wf() && self.b.wf()
    }

    open spec fn den(&self, input: Seq<<I as DeepView>::V>, start: int) -> Result<
        (<A::O as DeepView>::V, int),
        Error,
    > {
        match self.a.den(input, start) {
            Ok((va, mid)) => match self.b.den(input, mid) {
                Ok((_, end)) => Ok((va, end)),
                Err(e) => Err(e),
            },
            Err(e) => Err(e),
        }
    }

    proof fn den_bounds(&self, input: Seq<<I as DeepView>::V>, start: int) {
        self.a.den_bounds(input, start);
        if let Ok((va, mid)) = self.a.den(input, start) {
            self.b.den_bounds(input, mid);
        }
    }

    fn apply(&self, input: &[I], start: usize) -> (r: Result<(A::O, usize), Error>) {
        match self.a.apply(input, start) {
            Ok((va, mid)) => {
                proof {
                    self.a.den_bounds(input.deep_view(), start as int);
                }
                match self.b.apply(input, mid) {
                    Ok((_, end)) => Ok((va, end)),
                    Err(e) => Err(e),
                }
            },
            Err(e) => Err(e),
        }
    }
}

/// Sequence-keep-right: runs `a` then `b`, and keeps `b`'s output at `b`'s end
/// offset. Used to consume and discard a mandatory prefix.
pub struct KeepRight<A, B> {
    pub a: A,
    pub b: B,
}

impl<I: DeepView, A: ParserTrait<I>, B: ParserTrait<I>> ParserTrait<I> for KeepRight<A, B> {
    type O = B::O;

    open spec fn wf(&self) -> bool {
        self.a.wf() && self.b.wf()
    }

    open spec fn den(&self, input: Seq<<I as DeepView>::V>, start: int) -> Result<
        (<B::O as DeepView>::V, int),
        Error,
    > {
        match self.a.den(input, start) {
            Ok((_, mid)) => self.b.den(input, mid),
            Err(e) => Err(e),
        }
    }

    proof fn den_bounds(&self, input: Seq<<I as DeepView>::V>, start: int) {
        self.a.den_bounds(input, start);
        if let Ok((va, mid)) = self.a.den(input, start) {
            self.b.den_bounds(input, mid);
        }
    }

    fn apply(&self, input: &[I], start: usize) -> (r: Result<(B::O, usize), Error>) {
        match self.a.apply(input, start) {
            Ok((_, mid)) => {
                proof {
                    self.a.den_bounds(input.deep_view(), start as int);
                }
                self.b.apply(input, mid)
            },
            Err(e) => Err(e),
        }
    }
}

/// Zero-or-one: success wraps the output in `Some`; failure becomes `None` at
/// the original start offset. Never fails.
pub struct Opt<P> {
    pub inner: P,
}

impl<I: DeepView, P: ParserTrait<I>> ParserTrait<I> for Opt<P> {
    type O = Option<P::O>;

    open spec fn wf(&self) -> bool {
        self.inner.wf()
    }

    open spec fn den(&self, input: Seq<<I as DeepView>::V>, start: int) -> Result<
        (Option<<P::O as DeepView>::V>, int),
        Error,
    > {
        match self.inner.den(input, start) {
            Ok((v, end)) => Ok((Some(v), end)),
            Err(_) => Ok((None, start)),
        }
    }

    proof fn den_bounds(&self, input: Seq<<I as DeepView>::V>, start: int) {
        self.inner.den_bounds(input, start);
    }

    fn apply(&self, input: &[I], start: usize) -> (r: Result<(Option<P::O>, usize), Error>) {
        match self.inner.apply(input, start) {
            Ok((v, end)) => Ok((Some(v), end)),
            Err(_) => Ok((None, start)),
        }
    }
}

/// Discards the inner parser's typed output and returns instead the run of
/// input it consumed, as an owned copy of the tokens.
pub struct Collect<P> {
    pub inner: P,
}

impl<I: DeepView + Copy, P: ParserTrait<I>> ParserTrait<I> for Collect<P> {
    type O = Vec<I>;

    open spec fn wf(&self) -> bool {
        self.inner.wf()
    }

    open spec fn den(&self, input: Seq<<I as DeepView>::V>, start: int) -> Result<
        (Seq<<I as DeepView>::V>, int),
        Error,
    > {
        match self.inner.den(input, start) {
            Ok((_, end)) => Ok((input.subrange(start, end), end)),
            Err(e) => Err(e),
        }
    }

    proof fn den_bounds(&self, input: Seq<<I as DeepView>::V>, start: int) {
        self.inner.den_bounds(input, start);
    }

    fn apply(&self, input: &[I], start: usize) -> (r: Result<(Vec<I>, usize), Error>) {
        match self.inner.apply(input, start) {
            Ok((_, end)) => {
                proof {
                    self.inner.den_bounds(input.deep_view(), start as int);
                }
                let s = vstd::slice::slice_subrange(input, start, end);
                let v = vstd::slice::slice_to_vec(s);
                proof {
                    assert(v.deep_view() =~= input.deep_view().subrange(
                        start as int,
                        end as int,
                    ));
                }
                Ok((v, end))
            },
            Err(e) => Err(e),
        }
    }
}

/// Applies a closure to the inner parser's output on success; failures pass
/// through unchanged.
pub struct Mapped<P, F, U> {
    pub inner: P,
    pub f: F,
    pub marker: PhantomData<U>,
}

impl<I: DeepView, U: DeepView, P: ParserTrait<I>, F: Fn(P::O) -> U> ParserTrait<I> for Mapped<
    P,
    F,
    U,
> {
    type O = U;

    open spec fn wf(&self) -> bool {
        self.inner.wf() && map_fn_wf(self.f)
    }

    open spec fn den(&self, input: Seq<<I as DeepView>::V>, start: int) -> Result<
        (<U as DeepView>::V, int),
        Error,
    > {
        match self.inner.den(input, start) {
            Ok((v, end)) => Ok((map_image(self.f, v), end)),
            Err(e) => Err(e),
        }
    }

    proof fn den_bounds(&self, input: Seq<<I as DeepView>::V>, start: int) {
        self.inner.den_bounds(input, start);
    }

    fn apply(&self, input: &[I], start: usize) -> (r: Result<(U, usize), Error>) {
        match self.inner.apply(input, start) {
            Ok((v, end)) => {
                let ghost gv = v;
                let u = (self.f)(v);
                proof {
                    lemma_map_image(self.f, gv, u);
                }
                Ok((u, end))
            },
            Err(e) => Err(e),
        }
    }
}

/// Re-checks the inner parser's output against a predicate; a rejected output
/// turns the success into [`Error::Incomplete`].
pub struct Decide<P, F> {
    pub inner: P,
    pub f: F,
}

impl<I: DeepView, P: ParserTrait<I>, F: Fn(&P::O) -> bool> ParserTrait<I> for Decide<P, F> {
    type O = P::O;

    open spec fn wf(&self) -> bool {
        self.inner.wf() && pred_fn_wf(self.f)
    }

    open spec fn den(&self, input: Seq<<I as DeepView>::V>, start: int) -> Result<
        (<P::O as DeepView>::V, int),
        Error,
    > {
        match self.inner.den(input, start) {
            Ok((v, end)) => if pred_holds(self.f, v) {
                Ok((v, end))
            } else {
                Err(Error::Incomplete)
            },
            Err(_) => Err(Error::Incomplete),
        }
    }

    proof fn den_bounds(&self, input: Seq<<I as DeepView>::V>, start: int) {
        self.inner.den_bounds(input, start);
    }

    fn apply(&self, input: &[I], start: usize) -> (r: Result<(P::O, usize), Error>) {
        match self.inner.apply(input, start) {
            Ok((v, end)) => {
                let b = (self.f)(&v);
                proof {
                    lemma_pred_holds(self.f, &v, b);
                }
                if b {
                    Ok((v, end))
                } else {
                    Err(Error::Incomplete)
                }
            },
            Err(_) => Err(Error::Incomplete),
        }
    }
}

/// Applies a fallible conversion to the inner parser's output; a failed
/// conversion turns the success into [`Error::Incomplete`], discarding the
/// conversion's own error.
pub struct Convert<P, F, U, E> {
    pub inner: P,
    pub f: F,
    pub marker: PhantomData<(U, E)>,
}

impl<I: DeepView, U: DeepView, E, P: ParserTrait<I>, F: Fn(P::O) -> Result<U, E>> ParserTrait<
    I,
> for Convert<P, F, U, E> {
    type O = U;

    open spec fn wf(&self) -> bool {
        self.inner.wf() && conv_fn_wf(self.f)
    }

    open spec fn den(&self, input: Seq<<I as DeepView>::V>, start: int) -> Result<
        (<U as DeepView>::V, int),
        Error,
    > {
        match self.inner.den(input, start) {
            Ok((v, end)) => if conv_succeeds(self.f, v) {
                Ok((conv_image(self.f, v), end))
            } else {
                Err(Error::Incomplete)
            },
            Err(e) => Err(e),
        }
    }

    proof fn den_bounds(&self, input: Seq<<I as DeepView>::V>, start: int) {
        self.inner.den_bounds(input, start);
    }

    fn apply(&self, input: &[I], start: usize) -> (r: Result<(U, usize), Error>) {
        match self.inner.apply(input, start) {
            Ok((v, end)) => {
                let ghost gv = v;
                match (self.f)(v) {
                    Ok(u) => {
                        proof {
                            lemma_conv_ok(self.f, gv, u);
                        }
                        Ok((u, end))
                    },
                    Err(e) => {
                        proof {
                            lemma_conv_err(self.f, gv, e);
                        }
                        Err(Error::Incomplete)
                    },
                }
            },
            Err(e) => Err(e),
        }
    }
}

/// Hands each success to an observer as a side effect, then passes the result
/// through unchanged; failures pass through unchanged. Purely observational.
pub struct Trace<P, F> {
    pub inner: P,
    pub f: F,
}

impl<I: DeepView, P: ParserTrait<I>, F: Fn((&P::O, usize, usize)) -> ()> ParserTrait<I> for Trace<
    P,
    F,
> {
    type O = P::O;

    open spec fn wf(&self) -> bool {
        &&& self.inner.wf()
        &&& forall|t: (&P::O, usize, usize)| #[trigger] call_requires(self.f, (t,))
    }

    open spec fn den(&self, input: Seq<<I as DeepView>::V>, start: int) -> Result<
        (<P::O as DeepView>::V, int),
        Error,
    > {
        self.inner.den(input, start)
    }

    proof fn den_bounds(&self, input: Seq<<I as DeepView>::V>, start: int) {
        self.inner.den_bounds(input, start);
    }

    fn apply(&self, input: &[I], start: usize) -> (r: Result<(P::O, usize), Error>) {
        match self.inner.apply(input, start) {
            Ok((v, end)) => {
                (self.f)((&v, start, end));
                Ok((v, end))
            },
            Err(e) => Err(e),
        }
    }
}

/// A parser over tokens of type `I`, wrapped as a single named value.
/// Composition consumes its operands, so wrapping a finished combinator tree
/// in `Parser` gives the grammar one owned, reusable root, and its methods
/// keep the result wrapped.
pub struct Parser<I, P> {
    pub inner: P,
    pub marker: PhantomData<I>,
}

impl<I: DeepView, P: ParserTrait<I>> Parser<I, P> {
    /// Wraps a parser.
    pub fn new(inner: P) -> (p: Parser<I, P>)
        ensures
            p.inner == inner,
    {
        Parser { inner, marker: PhantomData }
    }

    /// Builds a parser by running a construction closure once; useful to keep
    /// a grammar's helper parsers local to the closure that combines them.
    pub fn comb<F: Fn() -> Parser<I, P>>(f: F) -> (p: Parser<I, P>)
        requires
            call_requires(f, ()),
        ensures
            call_ensures(f, (), p),
    {
        f()
    }

    /// Runs the wrapped parser from offset 0 and keeps only the typed output;
    /// see [`crate::Parser::parse`].
    pub fn parse(&self, input: &[I]) -> (r: Result<P::O, Error>)
        requires
            self.inner.wf(),
        ensures
            match r {
                Ok(v) => self.inner.den(input.deep_view(), 0) matches Ok((dv, _)) && dv
                    == v.deep_view(),
                Err(e) => self.inner.den(input.deep_view(), 0) == Err::<
                    (<P::O as DeepView>::V, int),
                    Error,
                >(e),
            },
    {
        match self.inner.apply(input, 0) {
            Ok((v, _)) => Ok(v),
            Err(e) => Err(e),
        }
    }

    /// Wraps [`crate::Parser::map`], keeping the result wrapped.
    pub fn map<U: DeepView, F: Fn(P::O) -> U>(self, map_fn: F) -> (p: Parser<
        I,
        Mapped<P, F, U>,
    >)
        ensures
            p.inner.inner == self.inner,
            p.inner.f == map_fn,
    {
        Parser::new(Mapped { inner: self.inner, f: map_fn, marker: PhantomData })
    }

    /// Wraps [`crate::Parser::convert`], keeping the result wrapped.
    pub fn convert<U: DeepView, E, F: Fn(P::O) -> Result<U, E>>(self, convert_fn: F) -> (p:
        Parser<I, Convert<P, F, U, E>>)
        ensures
            p.inner.inner == self.inner,
            p.inner.f == convert_fn,
    {
        Parser::new(Convert { inner: self.inner, f: convert_fn, marker: PhantomData })
    }

    /// Wraps [`crate::Parser::decide`], keeping the result wrapped.
    pub fn decide<F: Fn(&P::O) -> bool>(self, decide_fn: F) -> (p: Parser<I, Decide<P, F>>)
        ensures
            p.inner.inner == self.inner,
            p.inner.f == decide_fn,
    {
        Parser::new(Decide { inner: self.inner, f: decide_fn })
    }

    /// Wraps [`crate::Parser::opt`], keeping the result wrapped.
    pub fn opt(self) -> (p: Parser<I, Opt<P>>)
        ensures
            p.inner.inner == self.inner,
    {
        Parser::new(Opt { inner: self.inner })
    }

    /// Wraps [`crate::Parser::trace`], keeping the result wrapped.
    pub fn trace<F: Fn((&P::O, usize, usize)) -> ()>(self, trace_fn: F) -> (p: Parser<
        I,
        Trace<P, F>,
    >)
        ensures
            p.inner.inner == self.inner,
            p.inner.f == trace_fn,
    {
        Parser::new(Trace { inner: self.inner, f: trace_fn })
    }

    /// Wraps [`crate::Parser::repeat`], keeping the result wrapped.
    pub fn repeat<R: crate::range::RangeArgument<usize>>(self, range: R) -> (p: Parser<
        I,
        Repeat<P>,
    >)
        ensures
            p.inner.inner == self.inner,
            p.inner.lower == range.start_spec(),
            p.inner.upper == range.end_spec(),
    {
        let lower = range.start();
        let upper = range.end();
        Parser::new(Repeat { inner: self.inner, lower, upper })
    }
}

impl<I: DeepView + Copy, P: ParserTrait<I>> Parser<I, P> {
    /// Wraps [`crate::Parser::collect`], keeping the result wrapped.
    pub fn collect(self) -> (p: Parser<I, Collect<P>>)
        ensures
            p.inner.inner == self.inner,
    {
        Parser::new(Collect { inner: self.inner })
    }
}

impl<I: DeepView, P: ParserTrait<I>> ParserTrait<I> for Parser<I, P> {
    type O = P::O;

    open spec fn wf(&self) -> bool {
        self.inner.wf()
    }

    open spec fn den(&self, input: Seq<<I as DeepView>::V>, start: int) -> Result<
        (<P::O as DeepView>::V, int),
        Error,
    > {
        self.inner.den(input, start)
    }

    proof fn den_bounds(&self, input: Seq<<I as DeepView>::V>, start: int) {
        self.inner.den_bounds(input, start);
    }

    fn apply(&self, input: &[I], start: usize) -> (r: Result<(P::O, usize), Error>) {
        self.inner.apply(input, start)
    }
}

/// A parser held behind a heap allocation, so that deeply nested combinator
/// trees can be broken up into parts of a fixed size.
pub struct BoxedParser<P> {
    pub parser: Box<P>,
}

impl<P> BoxedParser<P> {
    /// Boxes a parser.
    pub fn new(parser: P) -> (b: BoxedParser<P>)
        ensures
            b.parser == parser,
    {
        BoxedParser { parser: Box::new(parser) }
    }
}

impl<I: DeepView, P: ParserTrait<I>> ParserTrait<I> for BoxedParser<P> {
    type O = P::O;

    open spec fn wf(&self) -> bool {
        self.parser.wf()
    }

    open spec fn den(&self, input: Seq<<I as DeepView>::V>, start: int) -> Result<
        (<P::O as DeepView>::V, int),
        Error,
    > {
        self.parser.den(input, start)
    }

    proof fn den_bounds(&self, input: Seq<<I as DeepView>::V>, start: int) {
        self.parser.den_bounds(input, start);
    }

    fn apply(&self, input: &[I], start: usize) -> (r: Result<(P::O, usize), Error>) {
        self.parser.apply(input, start)
    }
}

/// Has the match count reached the upper bound, so that repetition stops with
/// a success? Iteration stops at count `n` for an exclusive bound `n`, which
/// therefore admits up to `n` matches, and at count `n + 1` for an inclusive
/// bound `n`, which admits up to `n + 1`.
pub open spec fn upper_reached(upper: Bound<usize>, count: nat) -> bool {
    match upper {
        Bound::Excluded(n) => count >= n,
        Bound::Included(n) => count > n,
        Bound::Unbounded => false,
    }
}

/// Does the match count satisfy the lower bound?
pub open spec fn lower_met(lower: Bound<usize>, count: nat) -> bool {
    match lower {
        Bound::Included(n) => count >= n,
        Bound::Excluded(n) => count > n,
        Bound::Unbounded => true,
    }
}

/// What a repetition returns when its inner parser stops producing matches at
/// offset `pos` after `count` of them. It succeeds, with nothing further
/// collected, when the lower bound is met and either the upper bound is
/// unbounded or no match was made at all: zero matches are acceptable
/// whenever the lower bound permits zero, whatever the upper bound. A bounded
/// repetition that stops after at least one match, short of its bound, is a
/// hard failure.
pub open spec fn repeat_stop<OV>(
    lower: Bound<usize>,
    upper: Bound<usize>,
    count: nat,
    pos: int,
) -> Result<(Seq<OV>, int), Error> {
    if lower_met(lower, count) && (upper is Unbounded || count == 0) {
        Ok((Seq::empty(), pos))
    } else {
        Err(Error::Incomplete)
    }
}

/// The denotation of repetition, from offset `pos` with `count` matches
/// already made: apply the inner parser greedily, left to right, until it
/// fails, stops consuming, or the upper bound is reached. A match that
/// consumes nothing ends the repetition like a failure; without that rule a
/// repetition of a parser such as [`Epsilon`] would never terminate.
pub open spec fn repeat_den<I: DeepView, P: ParserTrait<I>>(
    p: P,
    input: Seq<<I as DeepView>::V>,
    pos: int,
    lower: Bound<usize>,
    upper: Bound<usize>,
    count: nat,
) -> Result<(Seq<<P::O as DeepView>::V>, int), Error>
    decreases input.len() - pos,
{
    if upper_reached(upper, count) {
        Ok((Seq::empty(), pos))
    } else {
        match p.den(input, pos) {
            Ok((v, end)) => if pos < end <= input.len() {
                match repeat_den(p, input, end, lower, upper, count + 1) {
                    Ok((vs, rend)) => Ok((seq![v] + vs, rend)),
                    Err(e) => Err(e),
                }
            } else {
                repeat_stop(lower, upper, count, pos)
            },
            Err(_) => repeat_stop(lower, upper, count, pos),
        }
    }
}

/// The offsets of [`repeat_den`] never move backwards nor past the input.
pub proof fn lemma_repeat_den_bounds<I: DeepView, P: ParserTrait<I>>(
    p: P,
    input: Seq<<I as DeepView>::V>,
    pos: int,
    lower: Bound<usize>,
    upper: Bound<usize>,
    count: nat,
)
    requires
        p.wf(),
        0 <= pos <= input.len(),
    ensures
        repeat_den(p, input, pos, lower, upper, count) matches Ok((_, end)) ==> pos <= end
            <= input.len(),
    decreases input.len() - pos,
{
    if !upper_reached(upper, count) {
        if let Ok((v, end)) = p.den(input, pos) {
            if pos < end <= input.len() {
                lemma_repeat_den_bounds(p, input, end, lower, upper, count + 1);
            }
        }
    }
}

/// Greedy range-bounded repetition of a parser, collecting the outputs in
/// order.
pub struct Repeat<P> {
    pub inner: P,
    pub lower: Bound<usize>,
    pub upper: Bound<usize>,
}

/// Builds the zero-or-more repetition of `parser` — its Kleene closure: match
/// as often as possible, and succeed with whatever was collected, possibly
/// nothing.
pub fn closure<I: DeepView, P: ParserTrait<I>>(parser: P) -> (p: Repeat<P>)
    ensures
        p.inner == parser,
        p.lower == Bound::<usize>::Included(0),
        p.upper == Bound::<usize>::Unbounded,
{
    Repeat { inner: parser, lower: Bound::Included(0), upper: Bound::Unbounded }
}

impl<I: DeepView, P: ParserTrait<I>> ParserTrait<I> for Repeat<P> {
    type O = Vec<P::O>;

    open spec fn wf(&self) -> bool {
        self.inner.wf()
    }

    open spec fn den(&self, input: Seq<<I as DeepView>::V>, start: int) -> Result<
        (Seq<<P::O as DeepView>::V>, int),
        Error,
    > {
        repeat_den(self.inner, input, start, self.lower, self.upper, 0)
    }

    proof fn den_bounds(&self, input: Seq<<I as DeepView>::V>, start: int) {
        lemma_repeat_den_bounds(self.inner, input, start, self.lower, self.upper, 0);
    }

    fn apply(&self, input: &[I], start: usize) -> (r: Result<(Vec<P::O>, usize), Error>) {
        let ghost iv = input.deep_view();
        let ghost whole = repeat_den(self.inner, iv, start as int, self.lower, self.upper, 0);
        let ilen = input.len();
        let mut pos: usize = start;
        let mut count: usize = 0;
        let mut acc: Vec<P::O> = Vec::new();
        proof {
            assert(acc.deep_view() =~= Seq::<<P::O as DeepView>::V>::empty());
        }
        loop
            invariant
                self.inner.wf(),
                iv == input.deep_view(),
                ilen == input@.len(),
                start <= pos <= ilen,
                count <= pos - start,
                whole == self.den(iv, start as int),
                ({
                    let rest = repeat_den(self.inner, iv, pos as int, self.lower, self.upper,
                        count as nat);
                    match rest {
                        Ok((vs, e)) => whole == Ok::<(Seq<<P::O as DeepView>::V>, int), Error>(
                            (acc.deep_view() + vs, e),
                        ),
                        Err(er) => whole == Err::<(Seq<<P::O as DeepView>::V>, int), Error>(er),
                    }
                }),
            decreases ilen - pos,
        {
            let reached = match self.upper {
                Bound::Excluded(n) => count >= n,
                Bound::Included(n) => count > n,
                Bound::Unbounded => false,
            };
            if reached {
                proof {
                    assert(acc.deep_view() + Seq::<<P::O as DeepView>::V>::empty()
                        =~= acc.deep_view());
                }
                return Ok((acc, pos));
            }
            let step = self.inner.apply(input, pos);
            proof {
                self.inner.den_bounds(iv, pos as int);
            }
            match step {
                Ok((v, end)) => {
                    if pos < end {
                        let ghost old_acc = acc.deep_view();
                        let ghost vv = v.deep_view();
                        acc.push(v);
                        proof {
                            assert(acc.deep_view() =~= old_acc + seq![vv]);
                            if let Ok((vs, _)) = repeat_den(self.inner, iv, end as int, self.lower,
                                self.upper, count as nat + 1) {
                                assert((old_acc + seq![vv]) + vs =~= old_acc + (seq![vv] + vs));
                            }
                        }
                        pos = end;
                        count = count + 1;
                    } else {
                        let met = match self.lower {
                            Bound::Included(n) => count >= n,
                            Bound::Excluded(n) => count > n,
                            Bound::Unbounded => true,
                        };
                        let open_ended = match self.upper {
                            Bound::Unbounded => true,
                            _ => false,
                        };
                        if met && (open_ended || count == 0) {
                            proof {
                                assert(acc.deep_view() + Seq::<<P::O as DeepView>::V>::empty()
                                    =~= acc.deep_view());
                            }
                            return Ok((acc, pos));
                        } else {
                            return Err(Error::Incomplete);
                        }
                    }
                },
                Err(_) => {
                    let met = match self.lower {
                        Bound::Included(n) => count >= n,
                        Bound::Excluded(n) => count > n,
                        Bound::Unbounded => true,
                    };
                    let open_ended = match self.upper {
                        Bound::Unbounded => true,
                        _ => false,
                    };
                    if met && (open_ended || count == 0) {
                        proof {
                            assert(acc.deep_view() + Seq::<<P::O as DeepView>::V>::empty()
                                =~= acc.deep_view());
                        }
                        return Ok((acc, pos));
                    } else {
                        return Err(Error::Incomplete);
                    }
                },
            }
        }
    }
}

} // verus!
