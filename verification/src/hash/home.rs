//! The collection behind an interner of values that can be hashed.
//!
//! The lock of a collection is out of reach elsewhere: a collection is searched,
//! asked for a value, asked to give one up and, once, emptied, and each of these
//! is a single access to its table.
use super::{asked, known, missed};
use crate::foreign::{hash_code, hashed, random_state};
use crate::hash_table::{interned, taken_out, HashTable};
use crate::ref_count::{Count, Counted, Interned, Interner, RefCounted};
use crate::sync::{Change, Closing, Look, RwLock, Tidy};
use std::hash::RandomState;
use std::sync::Arc;
use vstd::prelude::*;

verus! {

/// The values of an interner, behind a lock.
#[verifier::reject_recursive_types(T)]
pub struct Hash<T: ?Sized + Eq + std::hash::Hash> {
    set: RwLock<HashTable<T>>,
    keys: RandomState,
}

/// The question how many entries a table has.
struct Counting;

impl<T: ?Sized + Eq> Look<HashTable<T>> for Counting {
    type Out = usize;

    fn look(self, table: &HashTable<T>) -> (r: usize)
        ensures
            r == table.entries().len(),
            table.valid(),
    {
        table.len()
    }
}

/// The question for the entry of a value.
struct Finding<'a, T: ?Sized> {
    code: u64,
    value: &'a T,
}

impl<'a, T: ?Sized> Finding<'a, T> {
    /// The hash code.
    pub closed spec fn code(&self) -> u64 {
        self.code
    }

    /// The value.
    pub closed spec fn value(&self) -> &'a T {
        self.value
    }
}

impl<'a, T: ?Sized + Eq> Look<HashTable<T>> for Finding<'a, T> {
    type Out = Option<Counted<T>>;

    fn look(self, table: &HashTable<T>) -> (r: Option<Counted<T>>)
        ensures
            call_ensures(HashTable::<T>::lookup, (table, self.code(), self.value()), r),
    {
        table.lookup(self.code, self.value)
    }
}

/// The demand for a value, which finds or adds it.
struct Asking<T: ?Sized> {
    code: u64,
    value: Box<T>,
}

impl<T: ?Sized> Asking<T> {
    /// The hash code.
    pub closed spec fn code(&self) -> u64 {
        self.code
    }

    /// The value.
    pub closed spec fn value(&self) -> Box<T> {
        self.value
    }
}

impl<T: ?Sized + Eq> Change<HashTable<T>> for Asking<T> {
    type Out = (Counted<T>, Option<Box<T>>);

    fn change(self, slot: &mut HashTable<T>) -> (r: (Counted<T>, Option<Box<T>>))
        ensures
            exists|table: &mut HashTable<T>|
                {
                    &&& *table == *old(slot) && *final(table) == *final(slot)
                    &&& #[trigger] call_ensures(
                        HashTable::<T>::intern,
                        (table, self.code(), self.value()),
                        r,
                    )
                },
    {
        let ghost asked = (self.code(), self.value());
        let r = slot.intern(self.code, self.value);
        proof {
            let table = choose|table: &mut HashTable<T>|
                {
                    &&& *table == *old(slot) && *final(table) == *slot
                    &&& #[trigger] call_ensures(HashTable::<T>::intern, (table, asked.0, asked.1), r)
                };
            assert(call_ensures(HashTable::<T>::intern, (table, self.code(), self.value()), r));
        }
        r
    }
}

/// The demand that a value leave, with the answer to it.
struct Taking<'a, T: ?Sized> {
    value: &'a Arc<RefCounted<T>>,
    answer: (bool, Option<Arc<RefCounted<T>>>),
}

impl<'a, T: ?Sized> Taking<'a, T> {
    /// The value.
    pub closed spec fn value(&self) -> &'a Arc<RefCounted<T>> {
        self.value
    }

    /// The answer.
    pub closed spec fn answer(&self) -> (bool, Option<Arc<RefCounted<T>>>) {
        self.answer
    }
}

impl<'a, T: ?Sized + Eq> Tidy<HashTable<T>> for Taking<'a, T> {
    fn tidy(self, slot: &mut HashTable<T>) -> (r: Self)
        ensures
            exists|table: &mut HashTable<T>|
                {
                    &&& *table == *old(slot) && *final(table) == *final(slot)
                    &&& #[trigger] call_ensures(
                        HashTable::<T>::take_out,
                        (table, self.value()),
                        r.answer(),
                    )
                },
    {
        let answer = slot.take_out(self.value);
        let r = Taking { value: self.value, answer };
        proof {
            let table = choose|table: &mut HashTable<T>|
                {
                    &&& *table == *old(slot) && *final(table) == *slot
                    &&& #[trigger] call_ensures(HashTable::<T>::take_out, (table, self.value), answer)
                };
            assert(call_ensures(HashTable::<T>::take_out, (table, self.value()), r.answer()));
        }
        r
    }
}

impl<T: ?Sized + Eq + std::hash::Hash> Interner for Hash<T> {
    type T = T;

    /// Takes a value out by asking the table, under its lock, to give it up.
    fn remove(&self, value: &Arc<RefCounted<T>>) -> (r: (bool, Option<Arc<RefCounted<T>>>))
        ensures
            exists|slot: &mut HashTable<T>, table: &mut HashTable<T>|
                {
                    &&& #[trigger] self.opens(slot)
                    &&& *table == *slot && *final(table) == *final(slot)
                    &&& #[trigger] call_ensures(HashTable::<T>::take_out, (table, value), r)
                },
            exists|slot: &mut HashTable<T>, own: bool, count: Count|
                {
                    &&& #[trigger] self.opens(slot)
                    &&& (*slot).valid() && (*final(slot)).valid()
                    &&& #[trigger] taken_out(&*slot, &*final(slot), *value, own, count, r)
                },
    {
        let taking = Taking { value, answer: (false, None) };
        let ghost asking = taking;
        let taken = self.set.tidy(taking);
        let answer = taken.answer;
        proof {
            let (slot, access) = choose|slot: &mut HashTable<T>, access: &mut HashTable<T>|
                {
                    &&& #[trigger] self.set.opens(slot)
                    &&& *access == *slot && *final(access) == *final(slot)
                    &&& #[trigger] call_ensures(
                        <Taking<T> as Tidy<HashTable<T>>>::tidy,
                        (asking, access),
                        taken,
                    )
                };
            assert(self.opens(slot));
            let table = choose|table: &mut HashTable<T>|
                {
                    &&& *table == *access && *final(table) == *final(access)
                    &&& #[trigger] call_ensures(
                        HashTable::<T>::take_out,
                        (table, value),
                        answer,
                    )
                };
            let (own, count) = choose|own: bool, count: Count| #[trigger]
                taken_out(&*table, &*final(table), *value, own, count, answer);
            assert(taken_out(&*slot, &*final(slot), *value, own, count, answer));
        }
        answer
    }
}

impl<T: ?Sized + Eq + std::hash::Hash> Hash<T> {
    /// The values that the collection was made with.
    pub closed spec fn initial(&self) -> HashTable<T> {
        self.set.initial()
    }

    /// The keys under which the collection hashes values.
    pub closed spec fn keys(&self) -> &RandomState {
        &self.keys
    }

    /// Whether a reader of the collection may find the given values.
    pub closed spec fn shows(&self, table: &HashTable<T>) -> bool {
        self.set.shows(table)
    }

    /// Whether a writer of the collection may find the values at the given
    /// place, and so leave there what becomes of them.
    pub closed spec fn opens(&self, slot: &mut HashTable<T>) -> bool {
        self.set.opens(slot)
    }

    /// Whether the values were exchanged with those of a table, which used up
    /// the right to do so.
    pub closed spec fn exchanged(&self, table: &mut HashTable<T>) -> bool {
        exists|closing: Closing<HashTable<T>>| #[trigger]
            call_ensures(Hash::<T>::replace, (self, closing, table), ()) && self.closed_by(closing)
    }

    /// Whether a right is that to exchange the values.
    pub closed spec fn closed_by(&self, closing: Closing<HashTable<T>>) -> bool {
        closing.lock() == self.set
    }

    /// A collection without values, and the right to exchange them.
    pub(super) fn new() -> (r: (Self, Closing<HashTable<T>>))
        ensures
            r.0.initial().entries() == Map::<u64, Arc<RefCounted<T>>>::empty(),
            r.0.closed_by(r.1),
    {
        let table: HashTable<T> = HashTable::new();
        let (set, closing) = RwLock::closable(table);
        (Hash { set, keys: random_state() }, closing)
    }

    /// The hash code of a value.
    pub(super) fn code(&self, value: &T) -> (r: u64)
        ensures
            hashed(self.keys(), value, r),
    {
        hash_code(&self.keys, value)
    }

    /// The number of values.
    pub(super) fn len(&self) -> (r: usize)
        ensures
            exists|table: &HashTable<T>| #[trigger]
                self.shows(table) && table.valid() && r == table.entries().len(),
    {
        let len: usize = self.set.look(Counting);
        proof {
            let table = choose|table: &HashTable<T>| #[trigger]
                self.set.shows(table) && call_ensures(
                    <Counting as Look<HashTable<T>>>::look,
                    (Counting, table),
                    len,
                );
            assert(self.shows(table));
        }
        len
    }

    /// Finds a value, if the collection has it.
    pub(super) fn find(home: &Arc<Self>, code: u64, value: &T) -> (r: Option<Interned<Self>>)
        ensures
            match r {
                Some(found) => found.home() == &**home && found.live() && known(
                    &**home,
                    code,
                    value,
                    found.entry(),
                ),
                None => missed(&**home, code, value),
            },
    {
        let finding = Finding { code, value };
        let ghost asking = finding;
        let found = home.set.look(finding);
        let ghost table = choose|table: &HashTable<T>| #[trigger]
            home.set.shows(table) && call_ensures(
                <Finding<T> as Look<HashTable<T>>>::look,
                (asking, table),
                found,
            );
        assert(home.shows(table));
        assert(call_ensures(HashTable::<T>::lookup, (table, code, value), found));
        match found {
            Some(counted) => {
                assert(known(&**home, code, value, counted.entry()));
                Some(Interned::adopt(counted, home.clone()))
            },
            None => None,
        }
    }

    /// Finds a value, or adds it. A value that was not needed is dropped after
    /// the lock was released.
    pub(super) fn store(home: &Arc<Self>, code: u64, value: Box<T>) -> (r: Interned<Self>)
        ensures
            r.home() == &**home,
            r.live(),
            asked(&**home, code, value, r.entry()),
            exists|slot: &mut HashTable<T>, surplus: Option<Box<T>>|
                {
                    &&& #[trigger] home.opens(slot)
                    &&& (*slot).valid() && (*final(slot)).valid()
                    &&& #[trigger] interned(
                        &*slot,
                        &*final(slot),
                        code,
                        value,
                        r.entry(),
                        surplus,
                    )
                },
    {
        let asking = Asking { code, value };
        let ghost demand = asking;
        let outcome = home.set.change(asking);
        proof {
            let (slot, access) = choose|slot: &mut HashTable<T>, access: &mut HashTable<T>|
                {
                    &&& #[trigger] home.set.opens(slot)
                    &&& *access == *slot && *final(access) == *final(slot)
                    &&& #[trigger] call_ensures(
                        <Asking<T> as Change<HashTable<T>>>::change,
                        (demand, access),
                        outcome,
                    )
                };
            assert(home.opens(slot));
            let table = choose|table: &mut HashTable<T>|
                {
                    &&& *table == *access && *final(table) == *final(access)
                    &&& #[trigger] call_ensures(
                        HashTable::<T>::intern,
                        (table, code, value),
                        outcome,
                    )
                };
            let entry = outcome.0.entry();
            assert(interned(&*slot, &*final(slot), code, value, entry, outcome.1));
            assert(asked(&**home, code, value, entry));
        }
        let (counted, _surplus) = outcome;
        Interned::adopt(counted, home.clone())
    }

    /// Exchanges the values with those of another table, which uses up the right
    /// to do so.
    pub(super) fn exchange(&self, closing: Closing<HashTable<T>>, table: &mut HashTable<T>)
        requires
            self.closed_by(closing),
        ensures
            exists|slot: &mut HashTable<T>| #[trigger]
                self.opens(slot) && *slot == *final(table) && *final(slot) == *old(table),
            exists|own: &mut HashTable<T>| #[trigger]
                self.exchanged(own) && *own == *old(table) && *final(own) == *final(table),
        opens_invariants none
        no_unwind
    {
        let ghost right = closing;
        self.replace(closing, table);
        proof {
            let own = choose|own: &mut HashTable<T>|
                {
                    &&& *own == *old(table) && *final(own) == *table
                    &&& #[trigger] call_ensures(Hash::<T>::replace, (self, right, own), ())
                };
            assert(self.exchanged(own));
        }
    }

    /// Puts the values of a table in the place of those that are there.
    fn replace(&self, closing: Closing<HashTable<T>>, table: &mut HashTable<T>)
        requires
            self.closed_by(closing),
        ensures
            exists|slot: &mut HashTable<T>| #[trigger]
                self.opens(slot) && *slot == *final(table) && *final(slot) == *old(table),
        opens_invariants none
        no_unwind
    {
        self.set.exchange(closing, table);
        proof {
            let slot = choose|slot: &mut HashTable<T>| #[trigger]
                self.set.opens(slot) && *slot == *table && *final(slot) == *old(table);
            assert(self.opens(slot));
        }
    }
}

} // verus!
