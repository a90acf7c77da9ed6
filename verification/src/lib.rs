pub mod laws;
pub mod number;
pub mod parser;
pub mod range;
pub mod result;
pub mod text;

use vstd::prelude::*;

pub use result::Error;

verus! {

/// Relates a spec-level parse outcome to the outcome an executable parser
/// returned: on success the output's abstraction and the end offset agree, on
/// failure the errors agree.
pub open spec fn den_matches<O: DeepView>(
    d: Result<(<O as DeepView>::V, int), Error>,
    r: Result<(O, usize), Error>,
) -> bool {
    match r {
        Ok((v, end)) => d == Ok::<(<O as DeepView>::V, int), Error>((v.deep_view(), end as int)),
        Err(e) => d == Err::<(<O as DeepView>::V, int), Error>(e),
    }
}

/// A parser over a random-access sequence of tokens of type `I`.
///
/// A parser reads the input from a start offset and either succeeds with a
/// typed output and an end offset, or fails with an [`Error`]. Its whole
/// behaviour is captured by the specification function [`Parser::den`], a
/// total function of the input and the start offset alone; the executable
/// entry points [`Parser::apply`] and [`Parser::parse`] are proved to return
/// exactly what `den` says (outputs compared through their `DeepView`
/// abstraction). Combinators build new parsers from old ones; each states its
/// own `den` in terms of the denotations of its parts.
pub trait Parser<I: DeepView>: Sized {
    /// The type of the value a successful parse produces.
    type O: DeepView;

    /// Well-formedness of this parser value; combinators that carry closures
    /// use it to demand that the closure is total and deterministic up to the
    /// output abstraction.
    spec fn wf(&self) -> bool;

    /// The denotation: what this parser returns on `input` from offset
    /// `start`, at the specification level.
    spec fn den(&self, input: Seq<<I as DeepView>::V>, start: int) -> Result<
        (<Self::O as DeepView>::V, int),
        Error,
    >;

    /// A successful denotation never moves the offset backwards nor past the
    /// end of the input.
    proof fn den_bounds(&self, input: Seq<<I as DeepView>::V>, start: int)
        requires
            self.wf(),
            0 <= start <= input.len(),
        ensures
            self.den(input, start) matches Ok((v, end)) ==> start <= end <= input.len(),
    ;

    /// Runs the parser on `input` from offset `start`. This is the low-level
    /// invocation the combinators operate on.
    fn apply(&self, input: &[I], start: usize) -> (r: Result<(Self::O, usize), Error>)
        requires
            self.wf(),
            start <= input@.len(),
        ensures
            den_matches::<Self::O>(self.den(input.deep_view(), start as int), r),
    ;

    /// Runs the parser from offset 0 and keeps only the typed output,
    /// discarding the end offset.
    fn parse(&self, input: &[I]) -> (r: Result<Self::O, Error>)
        requires
            self.wf(),
        ensures
            match r {
                Ok(v) => self.den(input.deep_view(), 0) matches Ok((dv, _)) && dv == v.deep_view(),
                Err(e) => self.den(input.deep_view(), 0) == Err::<
                    (<Self::O as DeepView>::V, int),
                    Error,
                >(e),
            },
    {
        match self.apply(input, 0) {
            Ok((v, _)) => Ok(v),
            Err(e) => Err(e),
        }
    }

    /// On success, applies `map_fn` to the output, preserving the offset;
    /// never itself fails, and errors of the wrapped parser pass through
    /// unchanged.
    fn map<U: DeepView, F: Fn(Self::O) -> U>(self, map_fn: F) -> (p: parser::Mapped<Self, F, U>)
        ensures
            p.inner == self,
            p.f == map_fn,
    {
        parser::Mapped { inner: self, f: map_fn, marker: core::marker::PhantomData }
    }

    /// On success, applies the fallible conversion `convert_fn` to the output;
    /// a failed conversion turns the success into [`Error::Incomplete`],
    /// discarding the conversion's own error.
    fn convert<U: DeepView, E, F: Fn(Self::O) -> Result<U, E>>(self, convert_fn: F) -> (p:
        parser::Convert<Self, F, U, E>)
        ensures
            p.inner == self,
            p.f == convert_fn,
    {
        parser::Convert { inner: self, f: convert_fn, marker: core::marker::PhantomData }
    }

    /// On success, re-checks the output against `decide_fn`; a rejected output
    /// turns the success into [`Error::Incomplete`]. This filters after a
    /// successful match, it is no pre-check.
    fn decide<F: Fn(&Self::O) -> bool>(self, decide_fn: F) -> (p: parser::Decide<Self, F>)
        ensures
            p.inner == self,
            p.f == decide_fn,
    {
        parser::Decide { inner: self, f: decide_fn }
    }

    /// On success, discards the typed output and returns instead the run of
    /// input that was consumed, copied out of the input.
    fn collect(self) -> (p: parser::Collect<Self>)
        ensures
            p.inner == self,
    {
        parser::Collect { inner: self }
    }

    /// Zero-or-one: success wraps the output in `Some`; failure becomes `None`
    /// at the original start offset. The resulting parser never fails.
    fn opt(self) -> (p: parser::Opt<Self>)
        ensures
            p.inner == self,
    {
        parser::Opt { inner: self }
    }

    /// On success, hands `(output, start, end)` to `trace_fn` as a side
    /// effect, then passes the result through unchanged; failures pass through
    /// unchanged.
    fn trace<F: Fn((&Self::O, usize, usize)) -> ()>(self, trace_fn: F) -> (p: parser::Trace<
        Self,
        F,
    >)
        ensures
            p.inner == self,
            p.f == trace_fn,
    {
        parser::Trace { inner: self, f: trace_fn }
    }

    /// Greedy repetition, bounded by `range`: applies this parser left to
    /// right, accumulating the outputs in order, until it fails, stops
    /// consuming, or the upper bound is reached. Zero matches succeed with the
    /// empty sequence whenever the lower bound permits zero. Otherwise a
    /// repetition that stops early succeeds exactly when the upper bound is
    /// unbounded and the lower bound is met; stopping after at least one
    /// match short of a bounded upper bound is a failure.
    fn repeat<R: range::RangeArgument<usize>>(self, range: R) -> (p: parser::Repeat<Self>)
        ensures
            p.inner == self,
            p.lower == range.start_spec(),
            p.upper == range.end_spec(),
    {
        let lower = range.start();
        let upper = range.end();
        parser::Repeat { inner: self, lower, upper }
    }
}

} // verus!
