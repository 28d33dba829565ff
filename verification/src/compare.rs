use core::cmp::Ordering;
use core::marker::PhantomData;
use vstd::laws_cmp::{obeys_cmp, obeys_cmp_ord, obeys_cmp_partial_ord, obeys_partial_cmp_spec_properties};
use vstd::laws_eq::obeys_concrete_eq;
use vstd::prelude::*;
use vstd::std_specs::cmp::{OrdSpec, PartialEqSpec, PartialOrdSpec};

verus! {

/// A comparator trait which compares two values.
pub trait Compare<T> {
    /// Whether `compare` answers by `less`.
    spec fn obeys_compare_spec() -> bool;

    /// The order of the comparator: `left` comes before `right`.
    spec fn less(left: &T, right: &T) -> bool;

    /// Compare two values, and return true if `left` comes before `right`.
    fn compare(left: &T, right: &T) -> (before: bool)
        ensures
            Self::obeys_compare_spec() ==> before == Self::less(left, right),
    ;
}

/// A struct that implements `Compare` for `T`, and
/// returns true if `left` > `right`.
pub struct Greater<T> {
    _pad: u8,
    _marker: PhantomData<T>,
}

impl<T: PartialOrd> Compare<T> for Greater<T> {
    open spec fn obeys_compare_spec() -> bool {
        T::obeys_partial_cmp_spec()
    }

    open spec fn less(left: &T, right: &T) -> bool {
        left.partial_cmp_spec(right) == Some(Ordering::Greater)
    }

    fn compare(left: &T, right: &T) -> (before: bool) {
        left > right
    }
}

impl<T> Default for Greater<T> {
    fn default() -> (greater: Self) {
        Self { _pad: 0, _marker: PhantomData }
    }
}

/// A struct that implements `Compare` for `T`, and
/// returns true if `left` < `right`.
pub struct Less<T> {
    _pad: u8,
    _marker: PhantomData<T>,
}

impl<T: PartialOrd> Less<T> {
    /// Makes the comparator.
    pub fn new() -> (less: Self) {
        Self { _pad: 0, _marker: PhantomData }
    }
}

impl<T: PartialOrd> Compare<T> for Less<T> {
    open spec fn obeys_compare_spec() -> bool {
        T::obeys_partial_cmp_spec()
    }

    open spec fn less(left: &T, right: &T) -> bool {
        left.partial_cmp_spec(right) == Some(Ordering::Less)
    }

    fn compare(left: &T, right: &T) -> (before: bool) {
        left < right
    }
}

impl<T: PartialOrd> Default for Less<T> {
    fn default() -> (less: Self) {
        Self::new()
    }
}

/// The comparator `C` puts the values of `T` in a row: none comes before itself, of two
/// different ones one comes before the other, and what comes before a value comes before
/// all that the value comes before.
pub open spec fn strict_total_order<T, C: Compare<T>>() -> bool {
    &&& C::obeys_compare_spec()
    &&& forall|a: T| !#[trigger] C::less(&a, &a)
    &&& forall|a: T, b: T| a != b ==> #[trigger] C::less(&a, &b) || C::less(&b, &a)
    &&& forall|a: T, b: T, c: T|
        #[trigger] C::less(&a, &b) && #[trigger] C::less(&b, &c) ==> C::less(&a, &c)
}

/// What comes before a value comes before all that the value comes before.
pub proof fn lemma_order_transitive<T, C: Compare<T>>(a: T, b: T, c: T)
    requires
        strict_total_order::<T, C>(),
        C::less(&a, &b),
        C::less(&b, &c),
    ensures
        C::less(&a, &c),
{
}

/// No value comes before itself.
pub proof fn lemma_order_irreflexive<T, C: Compare<T>>(a: T)
    requires
        strict_total_order::<T, C>(),
    ensures
        !C::less(&a, &a),
{
}

/// Of two different values one comes before the other.
pub proof fn lemma_order_total<T, C: Compare<T>>(a: T, b: T)
    requires
        strict_total_order::<T, C>(),
        a != b,
    ensures
        C::less(&a, &b) || C::less(&b, &a),
{
}

/// `Less` puts the values of a type in a row where the type's own order does.
pub proof fn lemma_less_is_strict_total_order<T: Ord>()
    requires
        obeys_cmp::<T>(),
        obeys_concrete_eq::<T>(),
    ensures
        strict_total_order::<T, Less<T>>(),
{
    reveal(obeys_partial_cmp_spec_properties);
    reveal(obeys_cmp_partial_ord);
    reveal(obeys_cmp_ord);
    reveal(obeys_concrete_eq);
    assert forall|a: T| !#[trigger] Less::<T>::less(&a, &a) by {
        assert(a.eq_spec(&a));
        assert(a.partial_cmp_spec(&a) == Some(Ordering::Equal));
    }
    assert forall|a: T, b: T| a != b implies #[trigger] Less::<T>::less(&a, &b) || Less::<T>::less(
        &b,
        &a,
    ) by {
        assert(a.partial_cmp_spec(&b) == Some(a.cmp_spec(&b)));
        assert(!a.eq_spec(&b));
    }
}

/// `Greater` puts the values of a type in a row where the type's own order does.
pub proof fn lemma_greater_is_strict_total_order<T: Ord>()
    requires
        obeys_cmp::<T>(),
        obeys_concrete_eq::<T>(),
    ensures
        strict_total_order::<T, Greater<T>>(),
{
    reveal(obeys_partial_cmp_spec_properties);
    reveal(obeys_cmp_partial_ord);
    reveal(obeys_cmp_ord);
    reveal(obeys_concrete_eq);
    assert forall|a: T| !#[trigger] Greater::<T>::less(&a, &a) by {
        assert(a.eq_spec(&a));
        assert(a.partial_cmp_spec(&a) == Some(Ordering::Equal));
    }
    assert forall|a: T, b: T| a != b implies #[trigger] Greater::<T>::less(&a, &b)
        || Greater::<T>::less(&b, &a) by {
        assert(a.partial_cmp_spec(&b) == Some(a.cmp_spec(&b)));
        assert(b.partial_cmp_spec(&a) == Some(b.cmp_spec(&a)));
        assert(!a.eq_spec(&b));
    }
}

} // verus!
