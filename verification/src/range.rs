use vstd::prelude::*;

verus! {

/// One end of a repetition-count constraint: an inclusive limit, an exclusive
/// limit, or no limit at all.
#[derive(Debug, Clone, Copy)]
pub enum Bound<T> {
    Excluded(T),
    Included(T),
    Unbounded,
}

/// Anything that can serve as the count constraint of
/// [`crate::Parser::repeat`]: it names a lower and an upper [`Bound`].
/// Implementations are provided for the ordinary range expressions, so a call
/// site can write `repeat(0..)`, `repeat(1..)`, or `repeat(2..5)`.
pub trait RangeArgument<T> {
    /// The lower bound, at the specification level.
    spec fn start_spec(&self) -> Bound<T>;

    /// The upper bound, at the specification level.
    spec fn end_spec(&self) -> Bound<T>;

    /// The lower bound.
    fn start(&self) -> (b: Bound<T>)
        ensures
            b == self.start_spec(),
    ;

    /// The upper bound.
    fn end(&self) -> (b: Bound<T>)
        ensures
            b == self.end_spec(),
    ;
}

/// Relies on `core::ops::RangeFrom` being the plain record `{ start }` that
/// the expression `a..` builds; no behaviour of the standard library is
/// assumed beyond its shape.
#[verifier::external_type_specification]
#[verifier::reject_recursive_types(Idx)]
pub struct ExRangeFrom<Idx>(core::ops::RangeFrom<Idx>);

/// Relies on `core::ops::RangeTo` being the plain record `{ end }` that the
/// expression `..b` builds; no behaviour of the standard library is assumed
/// beyond its shape.
#[verifier::external_type_specification]
#[verifier::reject_recursive_types(Idx)]
pub struct ExRangeTo<Idx>(core::ops::RangeTo<Idx>);

/// Relies on `core::ops::RangeFull` being the empty record that the
/// expression `..` builds; no behaviour of the standard library is assumed
/// beyond its shape.
#[verifier::external_type_specification]
pub struct ExRangeFull(core::ops::RangeFull);

impl<T: Copy> RangeArgument<T> for core::ops::Range<T> {
    open spec fn start_spec(&self) -> Bound<T> {
        Bound::Included(self.start)
    }

    open spec fn end_spec(&self) -> Bound<T> {
        Bound::Excluded(self.end)
    }

    fn start(&self) -> (b: Bound<T>) {
        Bound::Included(self.start)
    }

    fn end(&self) -> (b: Bound<T>) {
        Bound::Excluded(self.end)
    }
}

impl<T: Copy> RangeArgument<T> for core::ops::RangeFrom<T> {
    open spec fn start_spec(&self) -> Bound<T> {
        Bound::Included(self.start)
    }

    open spec fn end_spec(&self) -> Bound<T> {
        Bound::Unbounded
    }

    fn start(&self) -> (b: Bound<T>) {
        Bound::Included(self.start)
    }

    fn end(&self) -> (b: Bound<T>) {
        Bound::Unbounded
    }
}

impl<T: Copy> RangeArgument<T> for core::ops::RangeTo<T> {
    open spec fn start_spec(&self) -> Bound<T> {
        Bound::Unbounded
    }

    open spec fn end_spec(&self) -> Bound<T> {
        Bound::Excluded(self.end)
    }

    fn start(&self) -> (b: Bound<T>) {
        Bound::Unbounded
    }

    fn end(&self) -> (b: Bound<T>) {
        Bound::Excluded(self.end)
    }
}

impl<T: Copy> RangeArgument<T> for core::ops::RangeFull {
    open spec fn start_spec(&self) -> Bound<T> {
        Bound::Unbounded
    }

    open spec fn end_spec(&self) -> Bound<T> {
        Bound::Unbounded
    }

    fn start(&self) -> (b: Bound<T>) {
        Bound::Unbounded
    }

    fn end(&self) -> (b: Bound<T>) {
        Bound::Unbounded
    }
}

} // verus!
