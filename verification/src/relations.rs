//! What it means for the equality and the order of a type to be lawful.
use std::cmp::Ordering;
use vstd::prelude::*;
use vstd::std_specs::cmp::{OrdSpec, PartialEqSpec, PartialOrdSpec};

verus! {

/// Whether two values are equal in the sense of the type's `==`.
pub open spec fn same<T: ?Sized + PartialEq>(a: &T, b: &T) -> bool {
    a.eq_spec(b)
}

/// Whether the type's `==` may give the given answer for two values. Where `==`
/// is specified, that is whether they are the [`same`]; otherwise it is all that
/// is known.
pub open spec fn answered<T: ?Sized + PartialEq>(a: &T, b: &T, answer: bool) -> bool {
    call_ensures(T::eq, (a, b), answer)
}

/// Whether `==` computes [`same`].
pub open spec fn specified_eq<T: ?Sized + PartialEq>() -> bool {
    T::obeys_eq_spec()
}

/// Whether `==` computes [`same`] and that is an equivalence, as `Eq` demands.
pub open spec fn lawful_eq<T: ?Sized + Eq>() -> bool {
    &&& specified_eq::<T>()
    &&& forall|a: &T| #[trigger] same(a, a)
    &&& forall|a: &T, b: &T| #[trigger] same(a, b) ==> same(b, a)
    &&& forall|a: &T, b: &T, c: &T| #[trigger]
        same(a, b) && #[trigger] same(b, c) ==> same(a, c)
}

/// Where a value stands relative to another one.
#[derive(Clone, Copy, PartialEq, Eq, Structural)]
pub enum Place {
    /// Before it.
    Before,
    /// At the same place.
    Level,
    /// After it.
    After,
}

/// Where a value stands relative to another one in the order of their type.
pub open spec fn place<T: ?Sized + Ord>(a: &T, b: &T) -> Place {
    match a.cmp_spec(b) {
        Ordering::Less => Place::Before,
        Ordering::Equal => Place::Level,
        Ordering::Greater => Place::After,
    }
}

/// Whether the type's comparison may place a value as given relative to another
/// one. Where the comparison is specified, that is its [`place`]; otherwise it is
/// all that is known.
pub open spec fn ranked<T: ?Sized + Ord>(a: &T, b: &T, at: Place) -> bool {
    call_ensures(
        T::cmp,
        (a, b),
        match at {
            Place::Before => Ordering::Less,
            Place::Level => Ordering::Equal,
            Place::After => Ordering::Greater,
        },
    )
}

/// Whether the type's comparison computes [`place`].
pub open spec fn specified_ord<T: ?Sized + Ord>() -> bool {
    T::obeys_cmp_spec()
}

/// Whether the type's comparison computes [`place`] and that is a total order,
/// as `Ord` demands.
pub open spec fn lawful_ord<T: ?Sized + Ord>() -> bool {
    &&& specified_ord::<T>()
    &&& forall|a: &T| #[trigger] place(a, a) == Place::Level
    &&& forall|a: &T, b: &T| #[trigger] place(a, b) == Place::Before ==> place(b, a) == Place::After
    &&& forall|a: &T, b: &T| #[trigger] place(a, b) == Place::After ==> place(b, a) == Place::Before
    &&& forall|a: &T, b: &T| #[trigger] place(a, b) == Place::Level ==> place(b, a) == Place::Level
    &&& forall|a: &T, b: &T, c: &T| #[trigger]
        place(a, b) == Place::Before && #[trigger] place(b, c) == Place::Before ==> place(a, c)
            == Place::Before
    &&& forall|a: &T, b: &T, c: &T| #[trigger]
        place(a, b) == Place::Level && #[trigger] place(b, c) == Place::Level ==> place(a, c)
            == Place::Level
}

/// Whether the type's partial comparison is specified and finds every value
/// equal to itself.
pub open spec fn reflexive_partial_ord<T: ?Sized + PartialOrd>() -> bool {
    &&& T::obeys_partial_cmp_spec()
    &&& forall|a: &T| #[trigger] a.partial_cmp_spec(a) == Some(Ordering::Equal)
}

/// Compares two values.
pub fn compare<T: ?Sized + Ord>(a: &T, b: &T) -> (r: Place)
    ensures
        ranked(a, b, r),
        specified_ord::<T>() ==> r == place(a, b),
{
    match a.cmp(b) {
        Ordering::Less => Place::Before,
        Ordering::Equal => Place::Level,
        Ordering::Greater => Place::After,
    }
}

} // verus!
