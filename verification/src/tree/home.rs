//! The collection behind an interner of values with a total order.
//!
//! The lock of a collection is out of reach elsewhere: a collection is searched,
//! asked for a value, asked to give one up and, once, emptied, and each of these
//! is a single access to its table.
use super::{asked, known, missed};
use crate::ord_table::{interned, taken_out, OrdTable};
use crate::ref_count::{Count, Counted, Interned, Interner, RefCounted};
use crate::sync::{Change, Closing, Look, RwLock, Tidy};
use std::sync::Arc;
use vstd::prelude::*;

verus! {

/// The values of an interner, behind a lock.
#[verifier::reject_recursive_types(T)]
pub struct Ord<T: ?Sized + std::cmp::Ord> {
    set: RwLock<OrdTable<T>>,
}

/// The question how many entries a table has.
struct Counting;

impl<T: ?Sized + std::cmp::Ord> Look<OrdTable<T>> for Counting {
    type Out = usize;

    fn look(self, table: &OrdTable<T>) -> (r: usize)
        ensures
            r == table.entries().len(),
            table.valid(),
    {
        table.len()
    }
}

/// The question for the entry of a value.
struct Finding<'a, T: ?Sized> {
    value: &'a T,
}

impl<'a, T: ?Sized> Finding<'a, T> {
    /// The value.
    pub closed spec fn value(&self) -> &'a T {
        self.value
    }
}

impl<'a, T: ?Sized + std::cmp::Ord> Look<OrdTable<T>> for Finding<'a, T> {
    type Out = Option<Counted<T>>;

    fn look(self, table: &OrdTable<T>) -> (r: Option<Counted<T>>)
        ensures
            call_ensures(OrdTable::<T>::lookup, (table, self.value()), r),
    {
        table.lookup(self.value)
    }
}

/// The demand for a value, which finds or adds it.
struct Asking<T: ?Sized> {
    value: Box<T>,
}

impl<T: ?Sized> Asking<T> {
    /// The value.
    pub closed spec fn value(&self) -> Box<T> {
        self.value
    }
}

impl<T: ?Sized + std::cmp::Ord> Change<OrdTable<T>> for Asking<T> {
    type Out = (Counted<T>, Option<Box<T>>);

    fn change(self, slot: &mut OrdTable<T>) -> (r: (Counted<T>, Option<Box<T>>))
        ensures
            exists|table: &mut OrdTable<T>|
                {
                    &&& *table == *old(slot) && *final(table) == *final(slot)
                    &&& #[trigger] call_ensures(
                        OrdTable::<T>::intern,
                        (table, self.value()),
                        r,
                    )
                },
    {
        let ghost asked = (self.value());
        let r = slot.intern(self.value);
        proof {
            let table = choose|table: &mut OrdTable<T>|
                {
                    &&& *table == *old(slot) && *final(table) == *slot
                    &&& #[trigger] call_ensures(OrdTable::<T>::intern, (table, asked), r)
                };
            assert(call_ensures(OrdTable::<T>::intern, (table, self.value()), r));
        }
        r
    }
}

/// The demand that a value leave, with the answer to it.
struct Taking<'a, T: ?Sized> {
    value: &'a Arc<RefCounted<T>>,
    answer: (bool, Option<Arc<RefCounted<T>>>),
}

impl<'a, T: ?Sized> Taking<'a, T> {
    /// The value.
    pub closed spec fn value(&self) -> &'a Arc<RefCounted<T>> {
        self.value
    }

    /// The answer.
    pub closed spec fn answer(&self) -> (bool, Option<Arc<RefCounted<T>>>) {
        self.answer
    }
}

impl<'a, T: ?Sized + std::cmp::Ord> Tidy<OrdTable<T>> for Taking<'a, T> {
    fn tidy(self, slot: &mut OrdTable<T>) -> (r: Self)
        ensures
            exists|table: &mut OrdTable<T>|
                {
                    &&& *table == *old(slot) && *final(table) == *final(slot)
                    &&& #[trigger] call_ensures(
                        OrdTable::<T>::take_out,
                        (table, self.value()),
                        r.answer(),
                    )
                },
    {
        let answer = slot.take_out(self.value);
        let r = Taking { value: self.value, answer };
        proof {
            let table = choose|table: &mut OrdTable<T>|
                {
                    &&& *table == *old(slot) && *final(table) == *slot
                    &&& #[trigger] call_ensures(OrdTable::<T>::take_out, (table, self.value), answer)
                };
            assert(call_ensures(OrdTable::<T>::take_out, (table, self.value()), r.answer()));
        }
        r
    }
}

impl<T: ?Sized + std::cmp::Ord> Interner for Ord<T> {
    type T = T;

    /// Takes a value out by asking the table, under its lock, to give it up.
    fn remove(&self, value: &Arc<RefCounted<T>>) -> (r: (bool, Option<Arc<RefCounted<T>>>))
        ensures
            exists|slot: &mut OrdTable<T>, table: &mut OrdTable<T>|
                {
                    &&& #[trigger] self.opens(slot)
                    &&& *table == *slot && *final(table) == *final(slot)
                    &&& #[trigger] call_ensures(OrdTable::<T>::take_out, (table, value), r)
                },
            exists|slot: &mut OrdTable<T>, own: bool, count: Count|
                {
                    &&& #[trigger] self.opens(slot)
                    &&& (*slot).valid() && (*final(slot)).valid()
                    &&& #[trigger] taken_out(&*slot, &*final(slot), *value, own, count, r)
                },
    {
        let taking = Taking { value, answer: (false, None) };
        let ghost asking = taking;
        let taken = self.set.tidy(taking);
        let answer = taken.answer;
        proof {
            let (slot, access) = choose|slot: &mut OrdTable<T>, access: &mut OrdTable<T>|
                {
                    &&& #[trigger] self.set.opens(slot)
                    &&& *access == *slot && *final(access) == *final(slot)
                    &&& #[trigger] call_ensures(
                        <Taking<T> as Tidy<OrdTable<T>>>::tidy,
                        (asking, access),
                        taken,
                    )
                };
            assert(self.opens(slot));
            let table = choose|table: &mut OrdTable<T>|
                {
                    &&& *table == *access && *final(table) == *final(access)
                    &&& #[trigger] call_ensures(
                        OrdTable::<T>::take_out,
                        (table, value),
                        answer,
                    )
                };
            let (own, count) = choose|own: bool, count: Count| #[trigger]
                taken_out(&*table, &*final(table), *value, own, count, answer);
            assert(taken_out(&*slot, &*final(slot), *value, own, count, answer));
        }
        answer
    }
}

impl<T: ?Sized + std::cmp::Ord> Ord<T> {
    /// The values that the collection was made with.
    pub closed spec fn initial(&self) -> OrdTable<T> {
        self.set.initial()
    }

    /// Whether a reader of the collection may find the given values.
    pub closed spec fn shows(&self, table: &OrdTable<T>) -> bool {
        self.set.shows(table)
    }

    /// Whether a writer of the collection may find the values at the given
    /// place, and so leave there what becomes of them.
    pub closed spec fn opens(&self, slot: &mut OrdTable<T>) -> bool {
        self.set.opens(slot)
    }

    /// Whether the values were exchanged with those of a table, which used up
    /// the right to do so.
    pub closed spec fn exchanged(&self, table: &mut OrdTable<T>) -> bool {
        exists|closing: Closing<OrdTable<T>>| #[trigger]
            call_ensures(Ord::<T>::replace, (self, closing, table), ()) && self.closed_by(closing)
    }

    /// Whether a right is that to exchange the values.
    pub closed spec fn closed_by(&self, closing: Closing<OrdTable<T>>) -> bool {
        closing.lock() == self.set
    }

    /// A collection without values, and the right to exchange them.
    pub(super) fn new() -> (r: (Self, Closing<OrdTable<T>>))
        ensures
            r.0.initial().entries() == Seq::<Arc<RefCounted<T>>>::empty(),
            r.0.closed_by(r.1),
    {
        let table: OrdTable<T> = OrdTable::new();
        let (set, closing) = RwLock::closable(table);
        (Ord { set }, closing)
    }

    /// The number of values.
    pub(super) fn len(&self) -> (r: usize)
        ensures
            exists|table: &OrdTable<T>| #[trigger]
                self.shows(table) && table.valid() && r == table.entries().len(),
    {
        let len: usize = self.set.look(Counting);
        proof {
            let table = choose|table: &OrdTable<T>| #[trigger]
                self.set.shows(table) && call_ensures(
                    <Counting as Look<OrdTable<T>>>::look,
                    (Counting, table),
                    len,
                );
            assert(self.shows(table));
        }
        len
    }

    /// Finds a value, if the collection has it.
    pub(super) fn find(home: &Arc<Self>, value: &T) -> (r: Option<Interned<Self>>)
        ensures
            match r {
                Some(found) => found.home() == &**home && found.live() && known(
                    &**home,
                    value,
                    found.entry(),
                ),
                None => missed(&**home, value),
            },
    {
        let finding = Finding { value };
        let ghost asking = finding;
        let found = home.set.look(finding);
        let ghost table = choose|table: &OrdTable<T>| #[trigger]
            home.set.shows(table) && call_ensures(
                <Finding<T> as Look<OrdTable<T>>>::look,
                (asking, table),
                found,
            );
        assert(home.shows(table));
        assert(call_ensures(OrdTable::<T>::lookup, (table, value), found));
        match found {
            Some(counted) => {
                assert(known(&**home, value, counted.entry()));
                Some(Interned::adopt(counted, home.clone()))
            },
            None => None,
        }
    }

    /// Finds a value, or adds it. A value that was not needed is dropped after
    /// the lock was released.
    pub(super) fn store(home: &Arc<Self>, value: Box<T>) -> (r: Interned<Self>)
        ensures
            r.home() == &**home,
            r.live(),
            asked(&**home, value, r.entry()),
            exists|slot: &mut OrdTable<T>, surplus: Option<Box<T>>|
                {
                    &&& #[trigger] home.opens(slot)
                    &&& (*slot).valid() && (*final(slot)).valid()
                    &&& #[trigger] interned(
                        &*slot,
                        &*final(slot),
                        value,
                        r.entry(),
                        surplus,
                    )
                },
    {
        let asking = Asking { value };
        let ghost demand = asking;
        let outcome = home.set.change(asking);
        proof {
            let (slot, access) = choose|slot: &mut OrdTable<T>, access: &mut OrdTable<T>|
                {
                    &&& #[trigger] home.set.opens(slot)
                    &&& *access == *slot && *final(access) == *final(slot)
                    &&& #[trigger] call_ensures(
                        <Asking<T> as Change<OrdTable<T>>>::change,
                        (demand, access),
                        outcome,
                    )
                };
            assert(home.opens(slot));
            let table = choose|table: &mut OrdTable<T>|
                {
                    &&& *table == *access && *final(table) == *final(access)
                    &&& #[trigger] call_ensures(
                        OrdTable::<T>::intern,
                        (table, value),
                        outcome,
                    )
                };
            let entry = outcome.0.entry();
            assert(interned(&*slot, &*final(slot), value, entry, outcome.1));
            assert(asked(&**home, value, entry));
        }
        let (counted, _surplus) = outcome;
        Interned::adopt(counted, home.clone())
    }

    /// Exchanges the values with those of another table, which uses up the right
    /// to do so.
    pub(super) fn exchange(&self, closing: Closing<OrdTable<T>>, table: &mut OrdTable<T>)
        requires
            self.closed_by(closing),
        ensures
            exists|slot: &mut OrdTable<T>| #[trigger]
                self.opens(slot) && *slot == *final(table) && *final(slot) == *old(table),
            exists|own: &mut OrdTable<T>| #[trigger]
                self.exchanged(own) && *own == *old(table) && *final(own) == *final(table),
        opens_invariants none
        no_unwind
    {
        let ghost right = closing;
        self.replace(closing, table);
        proof {
            let own = choose|own: &mut OrdTable<T>|
                {
                    &&& *own == *old(table) && *final(own) == *table
                    &&& #[trigger] call_ensures(Ord::<T>::replace, (self, right, own), ())
                };
            assert(self.exchanged(own));
        }
    }

    /// Puts the values of a table in the place of those that are there.
    fn replace(&self, closing: Closing<OrdTable<T>>, table: &mut OrdTable<T>)
        requires
            self.closed_by(closing),
        ensures
            exists|slot: &mut OrdTable<T>| #[trigger]
                self.opens(slot) && *slot == *final(table) && *final(slot) == *old(table),
        opens_invariants none
        no_unwind
    {
        self.set.exchange(closing, table);
        proof {
            let slot = choose|slot: &mut OrdTable<T>| #[trigger]
                self.set.opens(slot) && *slot == *table && *final(slot) == *old(table);
            assert(self.opens(slot));
        }
    }
}

} // verus!
