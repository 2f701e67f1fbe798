//! Predicates about the value types carried through a context.
//!
//! Context values are only required to support duplication (`Clone`) and
//! value equality (`PartialEq`). Neither operation carries a specification
//! for an arbitrary type, so the contracts of this crate are stated in two
//! layers: unconditional clauses in terms of [`cloned`] and `eq_spec`, and
//! exact clauses that hold whenever the value type's `Clone` and `==` behave
//! like mathematical identity and equality.

use vstd::prelude::*;

verus! {

/// Holds when `T`'s `Clone` implementation can only hand back a value equal
/// to the one it was given. True of integers, `String`, and any type whose
/// `clone` ensures `res == *self`.
pub open spec fn clone_is_exact<T: Clone>() -> bool {
    forall|x: T, y: T| #[trigger] call_ensures(T::clone, (&x,), y) ==> y == x
}

/// Duplicates a value through its `Clone` implementation.
pub fn duplicate<T: Clone>(x: &T) -> (r: T)
    ensures
        cloned::<T>(*x, r),
        clone_is_exact::<T>() ==> r == *x,
{
    x.clone()
}

/// Duplicates an optional value through `T`'s `Clone` implementation.
pub fn duplicate_option<T: Clone>(x: &Option<T>) -> (r: Option<T>)
    ensures
        r is Some <==> *x is Some,
        *x matches Some(v) ==> (r matches Some(c) && cloned::<T>(v, c)),
        clone_is_exact::<T>() ==> r == *x,
{
    match x {
        Some(v) => Some(duplicate(v)),
        None => None,
    }
}

} // verus!
