//! A generic wrapper.

use vstd::prelude::*;

verus! {

/// A value of any type together with a flag.
pub struct Foo<T> {
    pub a: T,
    pub b: bool,
}

/// Wraps a value and sets the flag.
pub fn test<T>(a: T) -> (r: Foo<T>)
    ensures
        r.a == a,
        r.b == true,
{
    Foo::<T> { a: a, b: true }
}

} // verus!
