use vstd::prelude::*;

verus! {

/// The error a parse attempt returns.
///
/// `Incomplete` carries no context: the input simply did not match at the
/// current offset. `Expect` records that a named construct was required but
/// not found, wrapping the failure that caused it. `Custom` is a
/// caller-supplied diagnostic, optionally wrapping a cause. The engine's own
/// primitives and combinators only ever produce `Incomplete` or propagate an
/// inner error unchanged; the richer variants exist for grammar authors
/// layering diagnostics on top.
#[derive(Debug, PartialEq)]
pub enum Error {
    Incomplete,
    Expect { message: String, position: usize, inner: Box<Error> },
    Custom { message: String, position: usize, inner: Option<Box<Error>> },
}

} // verus!
