//! Interning of values with a total order.
mod home;

use crate::foreign::{boxed_copy, copied, fed, feed};
use crate::ord_table::{holds, interned, lacks, OrdTable};
use crate::ref_count::{discarded, Count, Counted, Interned, Interner, RefCounted, Share};
use crate::relations::{
    lawful_eq, lawful_ord, place, ranked, reflexive_partial_ord, same, specified_ord, Place,
};
use crate::sync::Closing;
use std::borrow::Borrow;
use std::cmp::Ordering;
use std::hash::Hasher;
use std::ops::Deref;
use std::sync::Arc;
use vstd::prelude::*;
use vstd::std_specs::cmp::{OrdSpec, PartialOrdSpec};

verus! {

/// The values of an interner, behind a lock.
pub type Ord<T> = home::Ord<T>;

/// Whether the reference of a table to each of its values was counted off.
pub open spec fn all_discarded<T: ?Sized + std::cmp::Ord>(table: &OrdTable<T>) -> bool {
    forall|i: int|
        0 <= i < table.entries().len() ==> discarded(#[trigger] table.entries()[i])
}

/// What the clones of an interner share. When the last of them is dropped, the
/// values are released.
#[verifier::reject_recursive_types(T)]
pub struct Owner<T: ?Sized + std::cmp::Ord> {
    home: Arc<Ord<T>>,
    spare: Option<(OrdTable<T>, Closing<OrdTable<T>>)>,
}

impl<T: ?Sized + std::cmp::Ord> Owner<T> {
    #[verifier::type_invariant]
    spec fn sound(self) -> bool {
        self.spare matches Some((spare, closing)) ==> {
            &&& spare.entries() == Seq::<Arc<RefCounted<T>>>::empty()
            &&& self.home.closed_by(closing)
        }
    }

    /// The collection that holds the values.
    pub closed spec fn home(&self) -> &Ord<T> {
        &*self.home
    }

    /// Whether there is an empty table to put in the place of the values.
    pub closed spec fn ready(&self) -> bool {
        self.spare is Some
    }
}

impl<T: ?Sized + std::cmp::Ord> Drop for Owner<T> {
    /// Empties the collection, then gives up its references to the values. The
    /// collection's lock is not held meanwhile, for freeing a value may involve
    /// the collection.
    fn drop(&mut self)
        ensures
            old(self).ready() ==> exists|table: &mut OrdTable<T>|
                {
                    &&& #[trigger] old(self).home().exchanged(table)
                    &&& (*table).entries() == Seq::<Arc<RefCounted<T>>>::empty()
                    &&& (*final(table)).valid() && all_discarded(&*final(table))
                },
        opens_invariants none
        no_unwind
    {
        proof {
            use_type_invariant(&*self);
        }
        let mut spare: Option<(OrdTable<T>, Closing<OrdTable<T>>)> = None;
        core::mem::swap(&mut self.spare, &mut spare);
        if let Some((mut values, closing)) = spare {
            let ghost left = values;
            self.home.exchange(closing, &mut values);
            let ghost found = values;
            values.release_all();
            proof {
                let table = choose|table: &mut OrdTable<T>| #[trigger]
                    self.home.exchanged(table) && *table == left && *final(table) == found;
                assert(old(self).home().exchanged(table));
            }
        }
    }
}

/// Whether an entry is what asking a collection for a value comes
/// to, whatever the collection held at that time: its table was asked for the
/// value, under its lock.
pub open spec fn asked<T: ?Sized + std::cmp::Ord>(
    home: &Ord<T>,
    value: Box<T>,
    entry: Arc<RefCounted<T>>,
) -> bool {
    exists|
        slot: &mut OrdTable<T>,
        table: &mut OrdTable<T>,
        left: &OrdTable<T>,
        counted: Counted<T>,
        surplus: Option<Box<T>>,
    |
        {
            &&& #[trigger] home.opens(slot)
            &&& (*slot).valid() && left.valid()
            &&& #[trigger] interned(&*slot, left, value, entry, surplus)
            &&& *table == *slot && counted.entry() == entry
            &&& #[trigger] call_ensures(
                OrdTable::<T>::intern,
                (table, value),
                (counted, surplus),
            )
        }
}

/// Whether an entry is that of a value in a collection, whatever else it held
/// at that time: its table was searched for the value, and one more reference
/// was counted, under its lock.
pub open spec fn known<T: ?Sized + std::cmp::Ord>(
    home: &Ord<T>,
    value: &T,
    entry: Arc<RefCounted<T>>,
) -> bool {
    exists|table: &OrdTable<T>, counted: Counted<T>|
        {
            &&& #[trigger] home.shows(table)
            &&& table.valid() && holds(table.entries(), entry, value)
            &&& counted.entry() == entry && entry.retained()
            &&& #[trigger] call_ensures(
                OrdTable::<T>::lookup,
                (table, value),
                Some(counted),
            )
        }
}

/// Whether a collection was found without a value.
pub open spec fn missed<T: ?Sized + std::cmp::Ord>(
    home: &Ord<T>,
    value: &T,
) -> bool {
    exists|table: &OrdTable<T>|
        {
            &&& #[trigger] home.shows(table)
            &&& table.valid() && lacks(table.entries(), value)
            &&& call_ensures(OrdTable::<T>::lookup, (table, value), None)
        }
}

/// Whether an entry is what a collection gives for a value: it was found, or the
/// collection was asked to find or add it.
pub open spec fn obtained<T: ?Sized + std::cmp::Ord>(
    home: &Ord<T>,
    value: Box<T>,
    entry: Arc<RefCounted<T>>,
) -> bool {
    known(home, &*value, entry) || asked(home, value, entry)
}

/// Interner for values with a total order
///
/// The interner is cheaply cloneable by virtue of keeping the underlying storage
/// in an [`Arc`](https://doc.rust-lang.org/std/sync/struct.Arc.html). Once the last
/// reference to this interner is dropped, it will clear its backing storage and
/// release all references to the interned values it has created that are still live.
/// Those values remain fully operational until dropped. Memory for the values
/// themselves is freed for each value individually once its last reference is dropped.
#[verifier::reject_recursive_types(T)]
pub struct OrdInterner<T: ?Sized + std::cmp::Ord> {
    inner: Arc<Owner<T>>,
}

impl<T: ?Sized + std::cmp::Ord> Clone for OrdInterner<T> {
    /// Another handle to the same interner.
    fn clone(&self) -> (r: Self)
        ensures
            r.shares(self),
    {
        proof {
            use_type_invariant(self);
        }
        OrdInterner { inner: self.inner.clone() }
    }
}

impl<T: ?Sized + std::cmp::Ord> Default for OrdInterner<T> {
    fn default() -> (r: Self)
        ensures
            r.fresh(),
            r.owner().ready(),
    {
        Self::new()
    }
}

/// Whether an interned value can stand for a given one: it is that value, or
/// one that is level with it in the order of their type, where that is
/// specified.
pub open spec fn stands_for<T: ?Sized + std::cmp::Ord>(interned: &T, given: &T) -> bool {
    interned == given || (ranked(interned, given, Place::Level) && (specified_ord::<T>() ==> place(
        interned,
        given,
    ) == Place::Level))
}

/// Whether copying a value into a box gives one that is level with it, as
/// `ToOwned` demands.
pub open spec fn faithful<T: ?Sized + std::cmp::Ord + ToOwned>() -> bool where
    T::Owned: Into<Box<T>>,
 {
    forall|value: &T, copy: Box<T>| #[trigger]
        copied(value, copy) ==> place::<T>(&*copy, value) == Place::Level
}

impl<T: ?Sized + std::cmp::Ord> OrdInterner<T> {
    #[verifier::type_invariant]
    spec fn sound(self) -> bool {
        self.inner.ready()
    }

    /// What the interner shares with its clones. The values are released when
    /// it is dropped.
    pub closed spec fn owner(&self) -> &Owner<T> {
        &*self.inner
    }

    /// The collection that holds the values.
    pub open spec fn home(&self) -> &Ord<T> {
        self.owner().home()
    }

    /// Whether two interners are clones of each other.
    pub open spec fn shares(&self, other: &Self) -> bool {
        self.owner() == other.owner()
    }

    /// Whether the interner was made without values.
    pub open spec fn fresh(&self) -> bool {
        self.home().initial().entries() == Seq::<Arc<RefCounted<T>>>::empty()
    }

    /// Makes an interner without values.
    pub fn new() -> (r: Self)
        ensures
            r.fresh(),
            r.owner().ready(),
    {
        let (home, closing) = Ord::new();
        let owner = Owner { home: Arc::new(home), spare: Some((OrdTable::new(), closing)) };
        OrdInterner { inner: Arc::new(owner) }
    }

    /// Returns the number of objects currently kept in this interner.
    pub fn len(&self) -> (r: usize)
        ensures
            exists|table: &OrdTable<T>| #[trigger]
                self.home().shows(table) && table.valid() && r == table.entries().len(),
    {
        let len: usize = self.inner.home.len();
        let ghost table = choose|table: &OrdTable<T>| #[trigger]
            self.inner.home.shows(table) && table.valid() && len == table.entries().len();
        assert(self.home().shows(table));
        len
    }

    /// Returns `true` when this interner doesn't hold any values.
    pub fn is_empty(&self) -> (r: bool)
        ensures
            exists|table: &OrdTable<T>| #[trigger]
                self.home().shows(table) && table.valid() && r == (table.entries().len()
                    == 0),
    {
        let len: usize = self.inner.home.len();
        let ghost table = choose|table: &OrdTable<T>| #[trigger]
            self.inner.home.shows(table) && table.valid() && len == table.entries().len();
        assert(self.home().shows(table));
        len == 0
    }

    /// Finds a value, if the interner has it.
    fn find(&self, value: &T) -> (r: Option<InternedOrd<T>>)
        ensures
            match r {
                Some(found) => found.home() == self.home() && found.live() && known(
                    self.home(),
                    value,
                    found.entry(),
                ),
                None => missed(self.home(), value),
            },
    {
        match Ord::find(&self.inner.home, value) {
            Some(found) => Some(InternedOrd(found)),
            None => None,
        }
    }

    /// Finds a value, or adds it. A value that was not needed is dropped after
    /// the lock was released.
    fn store(&self, value: Box<T>) -> (r: InternedOrd<T>)
        ensures
            r.home() == self.home(),
            r.live(),
            asked(self.home(), value, r.entry()),
            exists|slot: &mut OrdTable<T>, surplus: Option<Box<T>>|
                {
                    &&& #[trigger] self.home().opens(slot)
                    &&& (*slot).valid() && (*final(slot)).valid()
                    &&& #[trigger] interned(&*slot, &*final(slot), value, r.entry(), surplus)
                },
    {
        InternedOrd(Ord::store(&self.inner.home, value))
    }

    /// Intern a value from a shared reference by allocating new memory for it.
    ///
    /// ```
    /// use intern_arc::{OrdInterner, InternedOrd};
    ///
    /// let strings = OrdInterner::<str>::new();
    /// let i: InternedOrd<str> = strings.intern_ref("hello world!");
    /// ```
    pub fn intern_ref(&self, value: &T) -> (r: InternedOrd<T>) where
        T: ToOwned,
        T::Owned: Into<Box<T>>,

        ensures
            r.home() == self.home(),
            r.live(),
            known(self.home(), value, r.entry()) || (exists|copy: Box<T>|
                copied(value, copy) && #[trigger] asked(self.home(), copy, r.entry())),
            known(self.home(), value, r.entry()) || (exists|
                copy: Box<T>,
                slot: &mut OrdTable<T>,
                surplus: Option<Box<T>>,
            |
                {
                    &&& copied(value, copy)
                    &&& #[trigger] self.home().opens(slot)
                    &&& (*slot).valid() && (*final(slot)).valid()
                    &&& #[trigger] interned(&*slot, &*final(slot), copy, r.entry(), surplus)
                }),
            lawful_ord::<T>() && faithful::<T>() ==> place(r.value(), value) == Place::Level,
    {
        match self.find(value) {
            Some(found) => found,
            None => {
                let copy: Box<T> = boxed_copy(value);
                let ghost given = copy;
                let stored = self.store(copy);
                proof {
                    if lawful_ord::<T>() && faithful::<T>() {
                        assert(copied(value, given));
                        assert(place::<T>(&*given, value) == Place::Level);
                        assert(stands_for(stored.value(), &*given));
                    }
                }
                stored
            },
        }
    }

    /// Intern a value from an owned reference without allocating new memory for it.
    ///
    /// ```
    /// use intern_arc::{OrdInterner, InternedOrd};
    ///
    /// let strings = OrdInterner::<str>::new();
    /// let hello: Box<str> = "hello world!".into();
    /// let i: InternedOrd<str> = strings.intern_box(hello);
    /// ```
    /// (This also works nicely with a `String` that can be turned `.into()` a `Box`.)
    pub fn intern_box(&self, value: Box<T>) -> (r: InternedOrd<T>)
        ensures
            r.home() == self.home(),
            r.live(),
            obtained(self.home(), value, r.entry()),
            known(self.home(), &*value, r.entry()) || (exists|
                slot: &mut OrdTable<T>,
                surplus: Option<Box<T>>,
            |
                {
                    &&& #[trigger] self.home().opens(slot)
                    &&& (*slot).valid() && (*final(slot)).valid()
                    &&& #[trigger] interned(&*slot, &*final(slot), value, r.entry(), surplus)
                }),
            stands_for(r.value(), &*value),
    {
        match self.find(&*value) {
            Some(found) => found,
            None => self.store(value),
        }
    }

    /// Intern a sized value, allocating heap memory for it.
    ///
    /// ```
    /// use intern_arc::{OrdInterner, InternedOrd};
    ///
    /// let arrays = OrdInterner::<[u8; 1000]>::new();
    /// let i: InternedOrd<[u8; 1000]> = arrays.intern_sized([0; 1000]);
    /// ```
    pub fn intern_sized(&self, value: T) -> (r: InternedOrd<T>) where T: Sized
        ensures
            r.home() == self.home(),
            r.live(),
            obtained(self.home(), Box::new(value), r.entry()),
            stands_for(r.value(), &value),
            call_ensures(OrdInterner::<T>::intern_box, (self, Box::new(value)), r),
    {
        self.intern_box(Box::new(value))
    }
}

/// Interning values that are level with each other gives references to one and
/// the same entry: once a value was interned, and as long as its entry is in the
/// interner's table, whoever interns one that is level with it gets that entry,
/// and nothing is added.
pub proof fn law_interned_once<T: ?Sized + std::cmp::Ord>(
    first: &OrdTable<T>,
    second: &OrdTable<T>,
    later: &OrdTable<T>,
    last: &OrdTable<T>,
    a: Box<T>,
    b: Box<T>,
    entry_a: Arc<RefCounted<T>>,
    entry_b: Arc<RefCounted<T>>,
    surplus_a: Option<Box<T>>,
    surplus_b: Option<Box<T>>,
)
    requires
        lawful_ord::<T>(),
        interned(first, second, a, entry_a, surplus_a),
        interned(later, last, b, entry_b, surplus_b),
        later.valid(),
        later.entries().contains(entry_a),
        place::<T>(&*a, &*b) == Place::Level,
    ensures
        entry_a == entry_b,
        surplus_b == Some(b),
        last.entries() == later.entries(),
{
    let entries = later.entries();
    assert(place(entry_a.value(), entry_a.value()) == Place::Level);
    assert(place::<T>(entry_a.value(), &*a) == Place::Level);
    assert(place::<T>(entry_a.value(), &*b) == Place::Level);
    let i = choose|i: int| 0 <= i < entries.len() && entries[i] == entry_a;
    assert(place(entries[i].value(), &*b) == Place::Level);
    assert(holds(entries, entry_b, &*b));
    let j = choose|j: int| 0 <= j < entries.len() && entries[j] == entry_b;
    assert(place::<T>(&*b, entry_b.value()) == Place::Level);
    assert(place::<T>(entries[i].value(), entries[j].value()) == Place::Level);
    assert(place::<T>(entries[j].value(), entries[i].value()) == Place::Level);
    assert(i == j);
}

/// A value interned by an [`OrdInterner`].
#[verifier::reject_recursive_types(T)]
pub struct InternedOrd<T: ?Sized + std::cmp::Ord>(Interned<Ord<T>>);

impl<T: ?Sized + std::cmp::Ord> InternedOrd<T> {
    /// The value and its count, which all references to it share.
    pub closed spec fn entry(&self) -> Arc<RefCounted<T>> {
        self.0.entry()
    }

    /// The collection that the value came from.
    pub closed spec fn home(&self) -> &Ord<T> {
        self.0.home()
    }

    /// The value.
    pub open spec fn value(&self) -> &T {
        self.entry().value()
    }

    /// Whether the reference was not given up yet.
    pub closed spec fn live(&self) -> bool {
        self.0.live()
    }

    /// The right to the reference.
    pub closed spec fn share(&self) -> Share<T> {
        self.0.share()
    }

    /// Obtain current number of references, including this one.
    ///
    /// The value will always be at least 1. If the value is 1, this means that
    /// the interner which produced this reference has been dropped; in this
    /// case you are still free to use this reference in any way you like.
    pub fn ref_count(&self) -> (r: u32)
        ensures
            exists|count: Count|
                count.valid() && #[trigger] self.entry().counted(count, count) && r == count.refs,
        opens_invariants none
        no_unwind
    {
        assert(self.entry() == self.0.entry());
        self.0.ref_count()
    }
}

impl<T: ?Sized + std::cmp::Ord> Clone for InternedOrd<T> {
    /// Another reference to the same value.
    fn clone(&self) -> (r: Self)
        ensures
            r.entry() == self.entry(),
            r.home() == self.home(),
            r.live(),
            self.entry().counted(r.share().found(), r.share().found().retained()),
            self.entry().retained(),
    {
        InternedOrd(self.0.clone())
    }
}

impl<T: ?Sized + std::cmp::Ord> Deref for InternedOrd<T> {
    type Target = T;

    /// The value.
    fn deref(&self) -> (r: &T)
        ensures
            r == self.value(),
    {
        self.0.deref()
    }
}

impl<T: ?Sized + std::cmp::Ord> AsRef<T> for InternedOrd<T> {
    /// The value.
    fn as_ref(&self) -> (r: &T)
        ensures
            r == self.value(),
    {
        self.deref()
    }
}

impl<T: ?Sized + std::cmp::Ord> Borrow<T> for InternedOrd<T> {
    /// The value.
    fn borrow(&self) -> &T
        returns
            self.value(),
    {
        self.deref()
    }
}

impl<T: ?Sized + std::cmp::Ord + std::hash::Hash> std::hash::Hash for InternedOrd<T> {
    /// Hashes the value.
    fn hash<H: Hasher>(&self, state: &mut H)
        ensures
            exists|s: &mut H|
                *s == *old(state) && *final(s) == *final(state) && #[trigger] fed(self.value(), s),
    {
        feed(self.deref(), state)
    }
}

impl<T: ?Sized + std::cmp::Ord> PartialEq for InternedOrd<T> {
    /// Compares the values, unless both are references to one and the same.
    fn eq(&self, other: &Self) -> (r: bool) {
        self.0.is(&other.0) || self.deref() == other.deref()
    }
}

impl<T: ?Sized + std::cmp::Ord> vstd::std_specs::cmp::PartialEqSpecImpl for InternedOrd<T> {
    open spec fn obeys_eq_spec() -> bool {
        lawful_eq::<T>()
    }

    open spec fn eq_spec(&self, other: &Self) -> bool {
        same(self.value(), other.value())
    }
}

impl<T: ?Sized + std::cmp::Ord> Eq for InternedOrd<T> {

}

impl<T: ?Sized + std::cmp::Ord> PartialOrd for InternedOrd<T> {
    /// Compares the values, unless both are references to one and the same.
    fn partial_cmp(&self, other: &Self) -> (r: Option<Ordering>) {
        if self.0.is(&other.0) {
            return Some(Ordering::Equal);
        }
        self.deref().partial_cmp(other.deref())
    }
}

impl<T: ?Sized + std::cmp::Ord> vstd::std_specs::cmp::PartialOrdSpecImpl for InternedOrd<T> {
    open spec fn obeys_partial_cmp_spec() -> bool {
        reflexive_partial_ord::<T>()
    }

    open spec fn partial_cmp_spec(&self, other: &Self) -> Option<Ordering> {
        self.value().partial_cmp_spec(other.value())
    }
}

impl<T: ?Sized + std::cmp::Ord> InternedOrd<T> {
    /// Compares the values, unless both are references to one and the same.
    pub fn cmp(&self, other: &Self) -> (r: Ordering)
        ensures
            lawful_ord::<T>() ==> r == self.value().cmp_spec(other.value()),
    {
        if self.0.is(&other.0) {
            assert(lawful_ord::<T>() ==> place(self.value(), self.value()) == Place::Level);
            return Ordering::Equal;
        }
        self.deref().cmp(other.deref())
    }
}

} // verus!
