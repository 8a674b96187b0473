//! Interning of values that can be hashed.
mod home;

use crate::foreign::{boxed_copy, copied, fed, feed, hashed, lawful_hash};
use crate::hash_table::{holds, interned, lacks, matching, HashTable};
use crate::ref_count::{discarded, Count, Counted, Interned, Interner, RefCounted, Share};
use crate::relations::{answered, lawful_eq, same, specified_eq};
use crate::sync::Closing;
use std::borrow::Borrow;
use std::cmp::Ordering;
use std::hash::Hasher;
use std::ops::Deref;
use std::sync::Arc;
use vstd::prelude::*;
use vstd::std_specs::cmp::{OrdSpec, PartialOrdSpec};

verus! {

/// The values of an interner, behind a lock.
pub type Hash<T> = home::Hash<T>;

/// Whether the reference of a table to each of its values was counted off.
pub open spec fn all_discarded<T: ?Sized + Eq + std::hash::Hash>(table: &HashTable<T>) -> bool {
    forall|id: u64| #[trigger]
        table.entries().contains_key(id) ==> discarded(table.entries()[id])
}

/// What the clones of an interner share. When the last of them is dropped, the
/// values are released.
#[verifier::reject_recursive_types(T)]
pub struct Owner<T: ?Sized + Eq + std::hash::Hash> {
    home: Arc<Hash<T>>,
    spare: Option<(HashTable<T>, Closing<HashTable<T>>)>,
}

impl<T: ?Sized + Eq + std::hash::Hash> Owner<T> {
    #[verifier::type_invariant]
    spec fn sound(self) -> bool {
        self.spare matches Some((spare, closing)) ==> {
            &&& spare.entries() == Map::<u64, Arc<RefCounted<T>>>::empty()
            &&& self.home.closed_by(closing)
        }
    }

    /// The collection that holds the values.
    pub closed spec fn home(&self) -> &Hash<T> {
        &*self.home
    }

    /// Whether there is an empty table to put in the place of the values.
    pub closed spec fn ready(&self) -> bool {
        self.spare is Some
    }
}

impl<T: ?Sized + Eq + std::hash::Hash> Drop for Owner<T> {
    /// Empties the collection, then gives up its references to the values. The
    /// collection's lock is not held meanwhile, for freeing a value may involve
    /// the collection.
    fn drop(&mut self)
        ensures
            old(self).ready() ==> exists|table: &mut HashTable<T>|
                {
                    &&& #[trigger] old(self).home().exchanged(table)
                    &&& (*table).entries() == Map::<u64, Arc<RefCounted<T>>>::empty()
                    &&& (*final(table)).valid() && all_discarded(&*final(table))
                },
        opens_invariants none
        no_unwind
    {
        proof {
            use_type_invariant(&*self);
        }
        let mut spare: Option<(HashTable<T>, Closing<HashTable<T>>)> = None;
        core::mem::swap(&mut self.spare, &mut spare);
        if let Some((mut values, closing)) = spare {
            let ghost left = values;
            self.home.exchange(closing, &mut values);
            let ghost found = values;
            values.release_all();
            proof {
                let table = choose|table: &mut HashTable<T>| #[trigger]
                    self.home.exchanged(table) && *table == left && *final(table) == found;
                assert(old(self).home().exchanged(table));
            }
        }
    }
}

/// Whether an entry is what asking a collection for a value under a hash code
/// comes to, whatever the collection held at that time: its table was asked for
/// the value, under its lock.
pub open spec fn asked<T: ?Sized + Eq + std::hash::Hash>(
    home: &Hash<T>,
    code: u64,
    value: Box<T>,
    entry: Arc<RefCounted<T>>,
) -> bool {
    exists|
        slot: &mut HashTable<T>,
        table: &mut HashTable<T>,
        left: &HashTable<T>,
        counted: Counted<T>,
        surplus: Option<Box<T>>,
    |
        {
            &&& #[trigger] home.opens(slot)
            &&& (*slot).valid() && left.valid()
            &&& #[trigger] interned(&*slot, left, code, value, entry, surplus)
            &&& *table == *slot && counted.entry() == entry
            &&& #[trigger] call_ensures(
                HashTable::<T>::intern,
                (table, code, value),
                (counted, surplus),
            )
        }
}

/// Whether an entry is that of a value in a collection, whatever else it held
/// at that time: its table was searched for the value, and one more reference
/// was counted, under its lock.
pub open spec fn known<T: ?Sized + Eq + std::hash::Hash>(
    home: &Hash<T>,
    code: u64,
    value: &T,
    entry: Arc<RefCounted<T>>,
) -> bool {
    exists|table: &HashTable<T>, counted: Counted<T>|
        {
            &&& #[trigger] home.shows(table)
            &&& table.valid() && holds(table.entries(), entry, code, value)
            &&& counted.entry() == entry && entry.retained()
            &&& #[trigger] call_ensures(
                HashTable::<T>::lookup,
                (table, code, value),
                Some(counted),
            )
        }
}

/// Whether a collection was found without a value.
pub open spec fn missed<T: ?Sized + Eq + std::hash::Hash>(
    home: &Hash<T>,
    code: u64,
    value: &T,
) -> bool {
    exists|table: &HashTable<T>|
        {
            &&& #[trigger] home.shows(table)
            &&& table.valid() && lacks(table.entries(), code, value)
            &&& call_ensures(HashTable::<T>::lookup, (table, code, value), None)
        }
}

/// Whether an entry is what a collection gives for a value: it was found, or the
/// collection was asked to find or add it.
pub open spec fn obtained<T: ?Sized + Eq + std::hash::Hash>(
    home: &Hash<T>,
    code: u64,
    value: Box<T>,
    entry: Arc<RefCounted<T>>,
) -> bool {
    known(home, code, &*value, entry) || asked(home, code, value, entry)
}

/// Interner for hashable values
///
/// The interner is cheaply cloneable by virtue of keeping the underlying storage
/// in an [`Arc`](https://doc.rust-lang.org/std/sync/struct.Arc.html). Once the last
/// reference to this interner is dropped, it will clear its backing storage and
/// release all references to the interned values it has created that are still live.
/// Those values remain fully operational until dropped. Memory for the values
/// themselves is freed for each value individually once its last reference is dropped.
#[verifier::reject_recursive_types(T)]
pub struct HashInterner<T: ?Sized + Eq + std::hash::Hash> {
    inner: Arc<Owner<T>>,
}

impl<T: ?Sized + Eq + std::hash::Hash> Clone for HashInterner<T> {
    /// Another handle to the same interner.
    fn clone(&self) -> (r: Self)
        ensures
            r.shares(self),
    {
        proof {
            use_type_invariant(self);
        }
        HashInterner { inner: self.inner.clone() }
    }
}

impl<T: ?Sized + Eq + std::hash::Hash> Default for HashInterner<T> {
    fn default() -> (r: Self)
        ensures
            r.fresh(),
            r.owner().ready(),
    {
        Self::new()
    }
}

/// Whether an interned value can stand for a given one: it is that value, or
/// one that is equal to it in the sense of `==`, where that is specified.
pub open spec fn stands_for<T: ?Sized + Eq>(interned: &T, given: &T) -> bool {
    interned == given || (answered(interned, given, true) && (specified_eq::<T>() ==> same(
        interned,
        given,
    )))
}

/// Whether copying a value into a box gives one that is equal to it, as
/// `ToOwned` demands.
pub open spec fn faithful<T: ?Sized + Eq + ToOwned>() -> bool where T::Owned: Into<Box<T>> {
    forall|value: &T, copy: Box<T>| #[trigger] copied(value, copy) ==> same::<T>(&*copy, value)
}

impl<T: ?Sized + Eq + std::hash::Hash> HashInterner<T> {
    #[verifier::type_invariant]
    spec fn sound(self) -> bool {
        self.inner.ready()
    }

    /// What the interner shares with its clones. The values are released when
    /// it is dropped.
    pub closed spec fn owner(&self) -> &Owner<T> {
        &*self.inner
    }

    /// The collection that holds the values.
    pub open spec fn home(&self) -> &Hash<T> {
        self.owner().home()
    }

    /// Whether two interners are clones of each other.
    pub open spec fn shares(&self, other: &Self) -> bool {
        self.owner() == other.owner()
    }

    /// Whether the interner was made without values.
    pub open spec fn fresh(&self) -> bool {
        self.home().initial().entries() == Map::<u64, Arc<RefCounted<T>>>::empty()
    }

    /// Makes an interner without values.
    pub fn new() -> (r: Self)
        ensures
            r.fresh(),
            r.owner().ready(),
    {
        let (home, closing) = Hash::new();
        let owner = Owner { home: Arc::new(home), spare: Some((HashTable::new(), closing)) };
        HashInterner { inner: Arc::new(owner) }
    }

    /// Returns the number of objects currently kept in this interner.
    pub fn len(&self) -> (r: usize)
        ensures
            exists|table: &HashTable<T>| #[trigger]
                self.home().shows(table) && table.valid() && r == table.entries().len(),
    {
        let len: usize = self.inner.home.len();
        let ghost table = choose|table: &HashTable<T>| #[trigger]
            self.inner.home.shows(table) && table.valid() && len == table.entries().len();
        assert(self.home().shows(table));
        len
    }

    /// Returns `true` when this interner doesn't hold any values.
    pub fn is_empty(&self) -> (r: bool)
        ensures
            exists|table: &HashTable<T>| #[trigger]
                self.home().shows(table) && table.valid() && r == (table.entries().len()
                    == 0),
    {
        let len: usize = self.inner.home.len();
        let ghost table = choose|table: &HashTable<T>| #[trigger]
            self.inner.home.shows(table) && table.valid() && len == table.entries().len();
        assert(self.home().shows(table));
        len == 0
    }

    /// Finds a value, if the interner has it.
    fn find(&self, code: u64, value: &T) -> (r: Option<InternedHash<T>>)
        ensures
            match r {
                Some(found) => found.home() == self.home() && found.live() && known(
                    self.home(),
                    code,
                    value,
                    found.entry(),
                ),
                None => missed(self.home(), code, value),
            },
    {
        match Hash::find(&self.inner.home, code, value) {
            Some(found) => Some(InternedHash(found)),
            None => None,
        }
    }

    /// Finds a value, or adds it. A value that was not needed is dropped after
    /// the lock was released.
    fn store(&self, code: u64, value: Box<T>) -> (r: InternedHash<T>)
        ensures
            r.home() == self.home(),
            r.live(),
            asked(self.home(), code, value, r.entry()),
            exists|slot: &mut HashTable<T>, surplus: Option<Box<T>>|
                {
                    &&& #[trigger] self.home().opens(slot)
                    &&& (*slot).valid() && (*final(slot)).valid()
                    &&& #[trigger] interned(
                        &*slot,
                        &*final(slot),
                        code,
                        value,
                        r.entry(),
                        surplus,
                    )
                },
    {
        InternedHash(Hash::store(&self.inner.home, code, value))
    }

    /// Intern a value from a shared reference by allocating new memory for it.
    ///
    /// ```
    /// use intern_arc::{HashInterner, InternedHash};
    ///
    /// let strings = HashInterner::<str>::new();
    /// let i: InternedHash<str> = strings.intern_ref("hello world!");
    /// ```
    pub fn intern_ref(&self, value: &T) -> (r: InternedHash<T>) where
        T: ToOwned,
        T::Owned: Into<Box<T>>,

        ensures
            r.home() == self.home(),
            r.live(),
            (exists|code: u64|
                hashed(self.home().keys(), value, code) && #[trigger] known(
                    self.home(),
                    code,
                    value,
                    r.entry(),
                )) || (exists|code: u64, copy: Box<T>|
                hashed(self.home().keys(), value, code) && copied(value, copy)
                    && #[trigger] asked(self.home(), code, copy, r.entry())),
            (exists|code: u64|
                hashed(self.home().keys(), value, code) && #[trigger] known(
                    self.home(),
                    code,
                    value,
                    r.entry(),
                )) || (exists|
                code: u64,
                copy: Box<T>,
                slot: &mut HashTable<T>,
                surplus: Option<Box<T>>,
            |
                {
                    &&& hashed(self.home().keys(), value, code)
                    &&& copied(value, copy)
                    &&& #[trigger] self.home().opens(slot)
                    &&& (*slot).valid() && (*final(slot)).valid()
                    &&& #[trigger] interned(&*slot, &*final(slot), code, copy, r.entry(), surplus)
                }),
            lawful_eq::<T>() && faithful::<T>() ==> same(r.value(), value),
    {
        let code: u64 = self.inner.home.code(value);
        match self.find(code, value) {
            Some(found) => found,
            None => {
                let copy: Box<T> = boxed_copy(value);
                let ghost given = copy;
                let stored = self.store(code, copy);
                proof {
                    if lawful_eq::<T>() && faithful::<T>() {
                        assert(copied(value, given));
                        assert(same::<T>(&*given, value));
                        assert(stands_for(stored.value(), &*given));
                    }
                }
                stored
            },
        }
    }

    /// Intern a value from an owned reference without allocating new memory for it.
    ///
    /// ```
    /// use intern_arc::{HashInterner, InternedHash};
    ///
    /// let strings = HashInterner::<str>::new();
    /// let hello: Box<str> = "hello world!".into();
    /// let i: InternedHash<str> = strings.intern_box(hello);
    /// ```
    /// (This also works nicely with a `String` that can be turned `.into()` a `Box`.)
    pub fn intern_box(&self, value: Box<T>) -> (r: InternedHash<T>)
        ensures
            r.home() == self.home(),
            r.live(),
            exists|code: u64|
                hashed(self.home().keys(), &*value, code) && #[trigger] obtained(
                    self.home(),
                    code,
                    value,
                    r.entry(),
                ),
            (exists|code: u64|
                hashed(self.home().keys(), &*value, code) && #[trigger] known(
                    self.home(),
                    code,
                    &*value,
                    r.entry(),
                )) || (exists|
                code: u64,
                slot: &mut HashTable<T>,
                surplus: Option<Box<T>>,
            |
                {
                    &&& hashed(self.home().keys(), &*value, code)
                    &&& #[trigger] self.home().opens(slot)
                    &&& (*slot).valid() && (*final(slot)).valid()
                    &&& #[trigger] interned(&*slot, &*final(slot), code, value, r.entry(), surplus)
                }),
            stands_for(r.value(), &*value),
    {
        let code: u64 = self.inner.home.code(&*value);
        let ghost given = value;
        let r = match self.find(code, &*value) {
            Some(found) => found,
            None => self.store(code, value),
        };
        assert(obtained(self.home(), code, given, r.entry()));
        r
    }

    /// Intern a sized value, allocating heap memory for it.
    ///
    /// ```
    /// use intern_arc::{HashInterner, InternedHash};
    ///
    /// let arrays = HashInterner::<[u8; 1000]>::new();
    /// let i: InternedHash<[u8; 1000]> = arrays.intern_sized([0; 1000]);
    /// ```
    pub fn intern_sized(&self, value: T) -> (r: InternedHash<T>) where T: Sized
        ensures
            r.home() == self.home(),
            r.live(),
            exists|code: u64|
                hashed(self.home().keys(), &value, code) && #[trigger] obtained(
                    self.home(),
                    code,
                    Box::new(value),
                    r.entry(),
                ),
            stands_for(r.value(), &value),
            call_ensures(HashInterner::<T>::intern_box, (self, Box::new(value)), r),
    {
        self.intern_box(Box::new(value))
    }
}

/// Interning equal values gives references to one and the same entry: once a
/// value was interned, and as long as its entry is in the interner's table,
/// whoever interns an equal one gets that entry, and nothing is added. The one
/// exception is a value that was not there and that an exhausted table could not
/// take.
pub proof fn law_interned_once<T: ?Sized + Eq + std::hash::Hash>(
    home: &Hash<T>,
    first: &HashTable<T>,
    second: &HashTable<T>,
    later: &HashTable<T>,
    last: &HashTable<T>,
    code_a: u64,
    code_b: u64,
    a: Box<T>,
    b: Box<T>,
    entry_a: Arc<RefCounted<T>>,
    entry_b: Arc<RefCounted<T>>,
    surplus_a: Option<Box<T>>,
    surplus_b: Option<Box<T>>,
)
    requires
        lawful_eq::<T>(),
        lawful_hash::<T>(),
        hashed(home.keys(), &*a, code_a),
        hashed(home.keys(), &*b, code_b),
        interned(first, second, code_a, a, entry_a, surplus_a),
        interned(later, last, code_b, b, entry_b, surplus_b),
        later.valid(),
        later.entries().contains_key(entry_a.id()),
        later.entries()[entry_a.id()] == entry_a,
        same::<T>(&*a, &*b),
        first.exhausted() ==> !lacks(first.entries(), code_a, &*a),
    ensures
        entry_a == entry_b,
        surplus_b == Some(b),
        last.entries() == later.entries(),
{
    let entries = later.entries();
    assert(same(entry_a.value(), entry_a.value()));
    assert(same::<T>(entry_a.value(), &*a));
    assert(same::<T>(entry_a.value(), &*b));
    assert(matching(&*entries[entry_a.id()], code_b, &*b));
    assert(holds(entries, entry_b, code_b, &*b));
    assert(same::<T>(&*b, entry_b.value()));
    assert(same::<T>(entry_a.value(), entry_b.value()));
    if entry_a.id() != entry_b.id() {
        assert(matching(
            &*entries[entry_a.id()],
            entries[entry_b.id()].code(),
            entries[entry_b.id()].value(),
        ));
    }
}

/// A value interned by a [`HashInterner`].
#[verifier::reject_recursive_types(T)]
pub struct InternedHash<T: ?Sized + Eq + std::hash::Hash>(Interned<Hash<T>>);

impl<T: ?Sized + Eq + std::hash::Hash> InternedHash<T> {
    /// The value and its count, which all references to it share.
    pub closed spec fn entry(&self) -> Arc<RefCounted<T>> {
        self.0.entry()
    }

    /// The collection that the value came from.
    pub closed spec fn home(&self) -> &Hash<T> {
        self.0.home()
    }

    /// The value.
    pub open spec fn value(&self) -> &T {
        self.entry().value()
    }

    /// Whether the reference was not given up yet.
    pub closed spec fn live(&self) -> bool {
        self.0.live()
    }

    /// The right to the reference.
    pub closed spec fn share(&self) -> Share<T> {
        self.0.share()
    }

    /// Obtain current number of references, including this one.
    ///
    /// The value will always be at least 1. If the value is 1, this means that
    /// the interner which produced this reference has been dropped; in this
    /// case you are still free to use this reference in any way you like.
    pub fn ref_count(&self) -> (r: u32)
        ensures
            exists|count: Count|
                count.valid() && #[trigger] self.entry().counted(count, count) && r == count.refs,
        opens_invariants none
        no_unwind
    {
        assert(self.entry() == self.0.entry());
        self.0.ref_count()
    }
}

impl<T: ?Sized + Eq + std::hash::Hash> Clone for InternedHash<T> {
    /// Another reference to the same value.
    fn clone(&self) -> (r: Self)
        ensures
            r.entry() == self.entry(),
            r.home() == self.home(),
            r.live(),
            self.entry().counted(r.share().found(), r.share().found().retained()),
            self.entry().retained(),
    {
        InternedHash(self.0.clone())
    }
}

impl<T: ?Sized + Eq + std::hash::Hash> Deref for InternedHash<T> {
    type Target = T;

    /// The value.
    fn deref(&self) -> (r: &T)
        ensures
            r == self.value(),
    {
        self.0.deref()
    }
}

impl<T: ?Sized + Eq + std::hash::Hash> AsRef<T> for InternedHash<T> {
    /// The value.
    fn as_ref(&self) -> (r: &T)
        ensures
            r == self.value(),
    {
        self.deref()
    }
}

impl<T: ?Sized + Eq + std::hash::Hash> Borrow<T> for InternedHash<T> {
    /// The value.
    fn borrow(&self) -> &T
        returns
            self.value(),
    {
        self.deref()
    }
}

impl<T: ?Sized + Eq + std::hash::Hash> std::hash::Hash for InternedHash<T> {
    /// Hashes the value.
    fn hash<H: Hasher>(&self, state: &mut H)
        ensures
            exists|s: &mut H|
                *s == *old(state) && *final(s) == *final(state) && #[trigger] fed(self.value(), s),
    {
        feed(self.deref(), state)
    }
}

impl<T: ?Sized + Eq + std::hash::Hash> PartialEq for InternedHash<T> {
    /// Compares the values.
    fn eq(&self, other: &Self) -> (r: bool) {
        self.deref() == other.deref()
    }
}

impl<T: ?Sized + Eq + std::hash::Hash> vstd::std_specs::cmp::PartialEqSpecImpl for InternedHash<T> {
    open spec fn obeys_eq_spec() -> bool {
        specified_eq::<T>()
    }

    open spec fn eq_spec(&self, other: &Self) -> bool {
        same(self.value(), other.value())
    }
}

impl<T: ?Sized + Eq + std::hash::Hash> Eq for InternedHash<T> {

}

impl<T: ?Sized + Eq + std::hash::Hash + PartialOrd> PartialOrd for InternedHash<T> {
    /// Compares the values.
    fn partial_cmp(&self, other: &Self) -> (r: Option<Ordering>) {
        self.deref().partial_cmp(other.deref())
    }
}

impl<T: ?Sized + Eq + std::hash::Hash + PartialOrd> vstd::std_specs::cmp::PartialOrdSpecImpl for InternedHash<T> {
    open spec fn obeys_partial_cmp_spec() -> bool {
        T::obeys_partial_cmp_spec()
    }

    open spec fn partial_cmp_spec(&self, other: &Self) -> Option<Ordering> {
        self.value().partial_cmp_spec(other.value())
    }
}

impl<T: ?Sized + Eq + std::hash::Hash + Ord> InternedHash<T> {
    /// Compares the values.
    pub fn cmp(&self, other: &Self) -> (r: Ordering)
        ensures
            T::obeys_cmp_spec() ==> r == self.value().cmp_spec(other.value()),
    {
        self.deref().cmp(other.deref())
    }
}

} // verus!
