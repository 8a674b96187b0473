//! What the types of interned values bring along.
//!
//! How a value is hashed and how it is copied is up to its type. Nothing is
//! assumed of these implementations, which need not even give the same result
//! twice. The predicates of this module say of a result that it is one which
//! the type's implementation may give for the value at hand; what follows for
//! types whose implementations are lawful is stated on top of that.
use crate::relations::same;
use std::hash::{BuildHasher, Hash, Hasher, RandomState};
use vstd::prelude::*;

verus! {

/// Calls a function, and says that it gave the result.
fn call<A, R, F: Fn(A) -> R>(f: F, a: A) -> (r: R)
    requires
        f.requires((a,)),
    ensures
        f.ensures((a,), r),
{
    f(a)
}

/// Calls a function of two arguments, and says that it gave the result.
fn call_with<A, B, R, F: Fn(A, B) -> R>(f: F, a: A, b: B) -> (r: R)
    requires
        f.requires((a, b)),
    ensures
        f.ensures((a, b), r),
{
    f(a, b)
}

/// Calls a function that works on a state, and says that it made the new state
/// out of the old one.
fn call_on<A, B, F: Fn(A, &mut B)>(f: F, a: A, b: &mut B)
    requires
        forall|state: &mut B| #[trigger] f.requires((a, state)),
    ensures
        exists|state: &mut B|
            *state == *old(b) && *final(state) == *final(b) && #[trigger] f.ensures((a, state), ()),
{
    f(a, b)
}

/// Calls `RandomState::new`: keys for hashing, drawn at random.
#[verifier::external_body]
pub(crate) fn random_state() -> (r: RandomState) {
    RandomState::new()
}

/// Calls `BuildHasher::hash_one` of `RandomState`: the hash code of a value
/// under the given keys. Which code that is follows the type's own
/// implementation of `Hash` and is not said here; [`hashed`] refers to it.
#[verifier::external_body]
fn hash_one<T: ?Sized + Hash>(keys: &RandomState, value: &T) -> (r: u64) {
    keys.hash_one(value)
}

/// Whether hashing a value under the given keys may give the given code.
pub closed spec fn hashed<T: ?Sized + Hash>(keys: &RandomState, value: &T, code: u64) -> bool {
    call_ensures(hash_one::<T>, (keys, value), code)
}

/// Whether equal values have equal hash codes, as `Hash` demands.
pub open spec fn lawful_hash<T: ?Sized + Eq + Hash>() -> bool {
    forall|keys: &RandomState, a: &T, b: &T, code_a: u64, code_b: u64|
        same(a, b) && #[trigger] hashed(keys, a, code_a) && #[trigger] hashed(keys, b, code_b)
            ==> code_a == code_b
}

/// The hash code of a value under the given keys.
pub fn hash_code<T: ?Sized + Hash>(keys: &RandomState, value: &T) -> (r: u64)
    ensures
        hashed(keys, value, r),
{
    call_with(hash_one::<T>, keys, value)
}

/// Calls `ToOwned::to_owned`: an owned copy of a value. What the copy is follows
/// the type's own implementation and is not said here; [`copied`] refers to it.
#[verifier::external_body]
fn to_owned<T: ?Sized + ToOwned>(value: &T) -> (r: T::Owned) {
    value.to_owned()
}

/// Whether copying a value into a box may give the given copy.
pub closed spec fn copied<T: ?Sized + ToOwned>(value: &T, copy: Box<T>) -> bool where
    T::Owned: Into<Box<T>>,
 {
    exists|owned: T::Owned| #[trigger]
        call_ensures(to_owned::<T>, (value,), owned) && call_ensures(
            <T::Owned as Into<Box<T>>>::into,
            (owned,),
            copy,
        )
}

/// A copy of a value in a box.
pub fn boxed_copy<T: ?Sized + ToOwned>(value: &T) -> (r: Box<T>) where T::Owned: Into<Box<T>>
    ensures
        copied(value, r),
{
    let owned = call(to_owned::<T>, value);
    call(<T::Owned as Into<Box<T>>>::into, owned)
}

/// Calls `Hash::hash`: feeds a value into a hasher. What the hasher makes of it
/// follows the type's own implementation and is not said here; [`fed`] refers
/// to it.
#[verifier::external_body]
fn hash<T: ?Sized + Hash, H: Hasher>(value: &T, state: &mut H) {
    value.hash(state)
}

/// Whether feeding a value into a hasher may turn the hasher into what becomes
/// of it here.
pub closed spec fn fed<T: ?Sized + Hash, H: Hasher>(value: &T, state: &mut H) -> bool {
    call_ensures(hash::<T, H>, (value, state), ())
}

/// Feeds a value into a hasher.
pub fn feed<T: ?Sized + Hash, H: Hasher>(value: &T, state: &mut H)
    ensures
        exists|s: &mut H|
            *s == *old(state) && *final(s) == *final(state) && #[trigger] fed(value, s),
{
    call_on(hash::<T, H>, value, state);
    proof {
        let s = choose|s: &mut H|
            *s == *old(state) && *final(s) == *state && #[trigger] call_ensures(
                hash::<T, H>,
                (value, s),
                (),
            );
        assert(fed(value, s));
    }
}

} // verus!
