//! Calls of functions that are passed as values.
//!
//! The caller learns that the result is one that the function can give for the arguments. Of a
//! function without a contract, such as those of an atomic, that is all there is to learn.

use vstd::prelude::*;

verus! {

/// Calls `f` with two arguments.
pub(crate) fn call_with_two<A, B, R, F: Fn(A, B) -> R>(f: F, a: A, b: B) -> (result: R)
    requires
        call_requires(f, (a, b)),
    ensures
        call_ensures(f, (a, b), result),
{
    f(a, b)
}

/// Calls `f` with three arguments.
pub(crate) fn call_with_three<A, B, C, R, F: Fn(A, B, C) -> R>(
    f: F,
    a: A,
    b: B,
    c: C,
) -> (result: R)
    requires
        call_requires(f, (a, b, c)),
    ensures
        call_ensures(f, (a, b, c), result),
{
    f(a, b, c)
}

} // verus!
