use core::marker::PhantomData;
use vstd::prelude::*;
use vstd::std_specs::cmp::PartialEqSpec;

verus! {

/// A trait which takes two instances of something and returns true if they are equal.
pub trait Equals<T> {
    /// Whether `equals` answers by `equal`.
    spec fn obeys_equals_spec() -> bool;

    /// The two instances count as equal.
    spec fn equal(lhs: &T, rhs: &T) -> bool;

    /// Returns true if both instances are equal.
    fn equals(lhs: &T, rhs: &T) -> (same: bool)
        ensures
            Self::obeys_equals_spec() ==> same == Self::equal(lhs, rhs),
    ;
}

/// A struct which takes two instances of something and returns true if they are equal.
pub struct EqualTo<T> {
    _marker: PhantomData<T>,
}

impl<T: PartialEq> Equals<T> for EqualTo<T> {
    open spec fn obeys_equals_spec() -> bool {
        T::obeys_eq_spec()
    }

    open spec fn equal(lhs: &T, rhs: &T) -> bool {
        lhs.eq_spec(rhs)
    }

    fn equals(lhs: &T, rhs: &T) -> (same: bool) {
        lhs == rhs
    }
}

} // verus!
