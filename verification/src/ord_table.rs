//! A sorted table of counted values.
//!
//! Values are found by bisection. They leave the table by number, without
//! comparing anything.
use crate::hash_table::{lemma_low_numbers, slot_mut, MAX_LEN};
use crate::ref_count::{discard, discarded, is_at, placed, Count, Counted, Hold, RefCounted};
use crate::relations::{compare, lawful_ord, place, ranked, specified_ord, Place};
use std::sync::Arc;
use vstd::prelude::*;

verus! {

/// The slots of a table, of which the first ones are in use, together with
/// what they hold.
struct Slots<T: ?Sized> {
    slots: Vec<Option<(Arc<RefCounted<T>>, Hold<T>)>>,
    cap: usize,
    len: usize,
    next_id: u64,
    entries: Ghost<Seq<Arc<RefCounted<T>>>>,
}

/// Whether a slot has a given entry and the right to the table's reference to
/// it.
spec fn kept_as<T: ?Sized>(
    slot: Option<(Arc<RefCounted<T>>, Hold<T>)>,
    entry: Arc<RefCounted<T>>,
) -> bool {
    slot matches Some((own, hold)) && own == entry && hold.entry() == entry
}

/// Whether the entries of a table go by different numbers.
pub open spec fn numbered<T: ?Sized>(entries: Seq<Arc<RefCounted<T>>>) -> bool {
    forall|i: int, j: int|
        0 <= i < j < entries.len() ==> (#[trigger] entries[i]).id() != (#[trigger] entries[j]).id()
}

/// Whether the entries of a table stand in strictly ascending order.
pub open spec fn ascending<T: ?Sized + Ord>(entries: Seq<Arc<RefCounted<T>>>) -> bool {
    lawful_ord::<T>() ==> forall|i: int, j: int|
        0 <= i < j < entries.len() ==> place(
            (#[trigger] entries[i]).value(),
            (#[trigger] entries[j]).value(),
        ) == Place::Before
}

/// Whether the entry at a given place is level with a value.
pub open spec fn level_at<T: ?Sized + Ord>(
    entries: Seq<Arc<RefCounted<T>>>,
    at: usize,
    value: &T,
) -> bool {
    place(entries[at as int].value(), value) == Place::Level
}

/// Whether a value belongs at a given place: all entries up to there stand
/// before it, all others after it.
pub open spec fn parted<T: ?Sized + Ord>(
    entries: Seq<Arc<RefCounted<T>>>,
    at: usize,
    value: &T,
) -> bool {
    &&& forall|i: int|
        0 <= i < at ==> place((#[trigger] entries[i]).value(), value) == Place::Before
    &&& forall|i: int|
        at <= i < entries.len() ==> place((#[trigger] entries[i]).value(), value) == Place::After
}

/// Whether the type's comparison has found a value to stand between the entries
/// on both sides of a given place.
pub open spec fn fits<T: ?Sized + Ord>(
    entries: Seq<Arc<RefCounted<T>>>,
    at: usize,
    value: &T,
) -> bool {
    &&& at <= entries.len()
    &&& 0 < at ==> ranked(entries[at - 1].value(), value, Place::Before)
    &&& at < entries.len() ==> ranked(entries[at as int].value(), value, Place::After)
}

impl<T: ?Sized> Slots<T> {
    /// Whether the slots and what is recorded of them agree.
    spec fn shaped(&self) -> bool {
        &&& self.cap == self.slots@.len()
        &&& self.len == self.entries@.len()
        &&& self.len <= self.cap
        &&& forall|i: int| 0 <= i < self.len ==> kept_as(#[trigger] self.slots@[i], self.entries@[i])
        &&& forall|i: int| self.len <= i < self.cap ==> #[trigger] self.slots@[i] is None
    }

    /// Whether the numbers of the entries are below the next one, unless all
    /// were given out.
    spec fn counted(&self) -> bool {
        self.next_id == u64::MAX || forall|i: int|
            0 <= i < self.entries@.len() ==> (#[trigger] self.entries@[i]).id() < self.next_id
    }

    /// A table without slots.
    fn empty() -> (r: Self)
        ensures
            r.shaped(),
            r.entries@ == Seq::<Arc<RefCounted<T>>>::empty(),
            r.next_id == 0,
    {
        Slots { slots: Vec::new(), cap: 0, len: 0, next_id: 0, entries: Ghost(Seq::empty()) }
    }

    /// Finds the place of the entry with a given number.
    fn position(&mut self, id: u64) -> (r: Option<usize>)
        requires
            old(self).shaped(),
        ensures
            final(self).shaped(),
            final(self).entries@ == old(self).entries@,
            final(self).next_id == old(self).next_id,
            match r {
                Some(at) => at < old(self).entries@.len() && old(self).entries@[at as int].id()
                    == id,
                None => forall|i: int|
                    0 <= i < old(self).entries@.len() ==> (#[trigger] old(self).entries@[i]).id()
                        != id,
            },
        opens_invariants none
        no_unwind
    {
        let mut at: usize = 0;
        while at < self.len
            invariant
                self.shaped(),
                self.entries@ == old(self).entries@,
                self.next_id == old(self).next_id,
                at <= self.len,
                forall|i: int| 0 <= i < at ==> (#[trigger] self.entries@[i]).id() != id,
            decreases self.len - at,
        {
            let ghost before = self.slots@;
            let hit = match slot_mut(&mut self.slots, at) {
                Some(Some((entry, _))) => entry.get_id() == id,
                _ => false,
            };
            assert(self.slots@ =~= before);
            if hit {
                return Some(at);
            }
            at = at + 1;
        }
        None
    }

    /// Tells whether the entry at a given place is a given one.
    fn is_own(&mut self, at: usize, value: &Arc<RefCounted<T>>) -> (r: bool)
        requires
            old(self).shaped(),
            at < old(self).entries@.len(),
        ensures
            final(self).shaped(),
            final(self).entries@ == old(self).entries@,
            final(self).next_id == old(self).next_id,
            r ==> old(self).entries@[at as int] == *value,
            placed(old(self).entries@[at as int], *value, r),
        opens_invariants none
        no_unwind
    {
        let own = match slot_mut(&mut self.slots, at) {
            Some(Some((entry, _))) => is_at(entry, value),
            _ => false,
        };
        assert(self.slots@ =~= old(self).slots@);
        own
    }

    /// Tells whether the table's reference to an entry is the only one; where it
    /// is not, hands the clean-up duty on to those who have the others.
    fn reclaim(&mut self, id: u64, Ghost(entry): Ghost<Arc<RefCounted<T>>>) -> (r: bool)
        requires
            old(self).shaped(),
            numbered(old(self).entries@),
            old(self).entries@.contains(entry),
            entry.id() == id,
        ensures
            final(self).shaped(),
            final(self).entries@ == old(self).entries@,
            final(self).next_id == old(self).next_id,
            exists|count: Count|
                count.valid() && #[trigger] entry.counted(count, count.reclaimed()) && r
                    == count.sole(),
        opens_invariants none
        no_unwind
    {
        let ghost place = choose|i: int|
            0 <= i < self.entries@.len() && #[trigger] self.entries@[i] == entry;
        match self.position(id) {
            Some(at) => {
                let ghost before = self.slots@;
                assert(self.entries@[at as int] == entry);
                let sole = match slot_mut(&mut self.slots, at) {
                    Some(Some((own, hold))) => own.reclaim(hold),
                    _ => false,
                };
                assert(self.slots@ =~= before);
                sole
            },
            None => false,
        }
    }

    /// Takes the entry at a given place out and moves those behind it up.
    fn take(&mut self, at: usize) -> (r: Option<(Arc<RefCounted<T>>, Hold<T>)>)
        requires
            old(self).shaped(),
            at < old(self).entries@.len(),
        ensures
            final(self).shaped(),
            final(self).next_id == old(self).next_id,
            kept_as(r, old(self).entries@[at as int]),
            final(self).entries@ == old(self).entries@.remove(at as int),
        opens_invariants none
        no_unwind
    {
        let mut carried: Option<(Arc<RefCounted<T>>, Hold<T>)> = None;
        let mut to: usize = self.len;
        while to > at
            invariant
                old(self).shaped(),
                self.cap == old(self).cap,
                self.len == old(self).len,
                self.next_id == old(self).next_id,
                self.entries@ == old(self).entries@,
                self.slots@.len() == old(self).slots@.len(),
                at <= to <= self.len,
                at < old(self).len,
                carried == (if to < self.len {
                    old(self).slots@[to as int]
                } else {
                    None
                }),
                forall|i: int| 0 <= i < to ==> #[trigger] self.slots@[i] == old(self).slots@[i],
                forall|i: int|
                    to <= i < self.len ==> #[trigger] self.slots@[i] == (if i + 1 < self.len {
                        old(self).slots@[i + 1]
                    } else {
                        None
                    }),
                forall|i: int| self.len <= i < self.cap ==> #[trigger] self.slots@[i] is None,
            decreases to,
        {
            to = to - 1;
            match slot_mut(&mut self.slots, to) {
                Some(slot) => {
                    core::mem::swap(slot, &mut carried);
                },
                None => {},
            }
        }
        self.len = self.len - 1;
        self.entries = Ghost(self.entries@.remove(at as int));
        carried
    }

    /// Puts an entry at a given place and moves those behind it down.
    fn insert(&mut self, at: usize, entry: Arc<RefCounted<T>>, hold: Hold<T>)
        requires
            hold.entry() == entry,
            old(self).shaped(),
            at <= old(self).entries@.len(),
        ensures
            final(self).shaped(),
            final(self).next_id == old(self).next_id,
            final(self).entries@ == old(self).entries@.insert(at as int, entry),
    {
        if self.len == self.cap {
            self.slots.push(None);
            self.cap = self.slots.len();
        }
        let ghost whole = self.slots@;
        let ghost inserted = (entry, hold);
        let mut carried: Option<(Arc<RefCounted<T>>, Hold<T>)> = Some((entry, hold));
        let mut to: usize = at;
        while to < self.len
            invariant
                old(self).shaped(),
                whole.len() == self.cap,
                self.slots@.len() == self.cap,
                self.len == old(self).len,
                self.len < self.cap,
                self.entries@ == old(self).entries@,
                self.next_id == old(self).next_id,
                at <= to <= self.len,
                forall|i: int|
                    0 <= i < self.len ==> kept_as(#[trigger] whole[i], self.entries@[i]),
                forall|i: int| self.len <= i < self.cap ==> #[trigger] whole[i] is None,
                carried == (if to == at {
                    Some(inserted)
                } else {
                    whole[to - 1]
                }),
                forall|i: int| 0 <= i < at ==> #[trigger] self.slots@[i] == whole[i],
                forall|i: int|
                    at <= i < to ==> #[trigger] self.slots@[i] == (if i == at {
                        Some(inserted)
                    } else {
                        whole[i - 1]
                    }),
                forall|i: int| to <= i < self.cap ==> #[trigger] self.slots@[i] == whole[i],
            decreases self.len - to,
        {
            core::mem::swap(&mut self.slots[to], &mut carried);
            to = to + 1;
        }
        self.slots[to] = carried;
        self.len = self.len + 1;
        self.entries = Ghost(self.entries@.insert(at as int, inserted.0));
    }

    /// Tells whether a number is that of an entry.
    fn uses(&self, id: u64) -> (r: bool)
        requires
            self.shaped(),
        ensures
            r == exists|at: int| stands_at(self.entries@, id, at),
    {
        let mut at: usize = 0;
        while at < self.len
            invariant
                self.shaped(),
                at <= self.len,
                forall|i: int| 0 <= i < at ==> (#[trigger] self.entries@[i]).id() != id,
            decreases self.len - at,
        {
            if let Some((entry, _)) = &self.slots[at] {
                if entry.get_id() == id {
                    assert(stands_at(self.entries@, id, at as int));
                    return true;
                }
            }
            at = at + 1;
        }
        false
    }

    /// A number for a new entry: the next one, or, once all were given out, the
    /// first one that is free.
    fn number(&mut self) -> (r: u64)
        requires
            old(self).shaped(),
            old(self).counted(),
            old(self).len < MAX_LEN,
        ensures
            final(self).shaped(),
            final(self).counted(),
            final(self).entries@ == old(self).entries@,
            forall|at: int| !stands_at(old(self).entries@, r, at),
            r < final(self).next_id || final(self).next_id == u64::MAX,
    {
        if self.next_id < u64::MAX {
            let id: u64 = self.next_id;
            self.next_id = id + 1;
            return id;
        }
        let mut id: u64 = 0;
        let ghost ids = self.entries@.map_values(|entry: Arc<RefCounted<T>>| entry.id());
        proof {
            vstd::seq_lib::seq_to_set_is_finite(ids);
            ids.lemma_cardinality_of_set();
        }
        while self.uses(id)
            invariant
                self.shaped(),
                self.counted(),
                *self == *old(self),
                self.next_id == u64::MAX,
                self.len < MAX_LEN,
                ids == self.entries@.map_values(|entry: Arc<RefCounted<T>>| entry.id()),
                ids.to_set().finite(),
                ids.to_set().len() <= ids.len(),
                forall|other: u64| other < id ==> #[trigger] ids.to_set().contains(other),
            decreases self.len - id,
        {
            proof {
                let at = choose|at: int| stands_at(self.entries@, id, at);
                assert(ids[at] == id);
                lemma_low_numbers(ids.to_set(), id);
            }
            id = id + 1;
        }
        id
    }

    /// Takes all entries out and counts the table's reference to each one less.
    fn drain(&mut self)
        requires
            old(self).shaped(),
        ensures
            final(self).shaped(),
            final(self).next_id == old(self).next_id,
            final(self).entries@ == Seq::<Arc<RefCounted<T>>>::empty(),
            forall|i: int|
                0 <= i < old(self).entries@.len() ==> discarded(
                    #[trigger] old(self).entries@[i],
                ),
        opens_invariants none
        no_unwind
    {
        while self.len > 0
            invariant
                self.shaped(),
                self.len <= old(self).entries@.len(),
                forall|i: int|
                    0 <= i < self.len ==> #[trigger] self.entries@[i] == old(self).entries@[i],
                forall|i: int|
                    self.len <= i < old(self).entries@.len() ==> discarded(
                        #[trigger] old(self).entries@[i],
                    ),
                self.next_id == old(self).next_id,
            decreases self.len,
        {
            let last: usize = self.len - 1;
            if let Some((entry, hold)) = self.take(last) {
                discard(&entry, hold);
            }
        }
        assert(self.entries@ =~= Seq::<Arc<RefCounted<T>>>::empty());
    }
}

impl<T: ?Sized + Ord> Slots<T> {
    /// Finds the place of the entry that is level with a value, or the place
    /// where such an entry would go.
    fn search(&self, value: &T) -> (r: Result<usize, usize>)
        requires
            self.shaped(),
            ascending(self.entries@),
        ensures
            match r {
                Ok(at) => {
                    &&& at < self.entries@.len()
                    &&& ranked(self.entries@[at as int].value(), value, Place::Level)
                    &&& specified_ord::<T>() ==> level_at(self.entries@, at, value)
                },
                Err(at) => {
                    &&& fits(self.entries@, at, value)
                    &&& lawful_ord::<T>() ==> parted(self.entries@, at, value)
                },
            },
    {
        let mut low: usize = 0;
        let mut high: usize = self.len;
        while low < high
            invariant
                self.shaped(),
                ascending(self.entries@),
                low <= high <= self.len,
                0 < low ==> ranked(self.entries@[low - 1].value(), value, Place::Before),
                high < self.len ==> ranked(
                    self.entries@[high as int].value(),
                    value,
                    Place::After,
                ),
                lawful_ord::<T>() ==> forall|i: int|
                    0 <= i < low ==> place((#[trigger] self.entries@[i]).value(), value)
                        == Place::Before,
                lawful_ord::<T>() ==> forall|i: int|
                    high <= i < self.len ==> place((#[trigger] self.entries@[i]).value(), value)
                        == Place::After,
            decreases high - low,
        {
            let middle: usize = low + (high - low) / 2;
            match &self.slots[middle] {
                Some((entry, _)) => {
                    let found = compare(entry.get_value(), value);
                    match found {
                        Place::Before => {
                            low = middle + 1;
                        },
                        Place::Level => {
                            return Ok(middle);
                        },
                        Place::After => {
                            high = middle;
                        },
                    }
                },
                None => {},
            }
        }
        Err(low)
    }
}

/// Whether an entry is among those of a table, and the type's comparison has
/// found it level with a given value.
pub open spec fn holds<T: ?Sized + Ord>(
    entries: Seq<Arc<RefCounted<T>>>,
    entry: Arc<RefCounted<T>>,
    value: &T,
) -> bool {
    &&& entries.contains(entry)
    &&& ranked(entry.value(), value, Place::Level)
    &&& specified_ord::<T>() ==> place(entry.value(), value) == Place::Level
}

/// Whether a given value was found to stand between two entries of a table, or
/// before or after all of them. Where the order is lawful, no entry is level
/// with it.
pub open spec fn lacks<T: ?Sized + Ord>(entries: Seq<Arc<RefCounted<T>>>, value: &T) -> bool {
    &&& exists|at: usize| #[trigger] fits(entries, at, value)
    &&& lawful_ord::<T>() ==> forall|i: int|
        0 <= i < entries.len() ==> place((#[trigger] entries[i]).value(), value) != Place::Level
}

/// What asking a table for a value comes to: the entry that it has for the
/// value, with one more reference counted, or a new entry, which goes by a number
/// that no other entry has and stands at its place in the order. A table that has
/// run out of room gives out an entry that it does not keep. A value that was not
/// needed is handed back.
pub open spec fn interned<T: ?Sized + Ord>(
    before: &OrdTable<T>,
    after: &OrdTable<T>,
    value: Box<T>,
    entry: Arc<RefCounted<T>>,
    surplus: Option<Box<T>>,
) -> bool {
    ||| {
        &&& holds(before.entries(), entry, &*value)
        &&& entry.retained()
        &&& surplus == Some(value)
        &&& after.entries() == before.entries()
    }
    ||| {
        &&& lacks(before.entries(), &*value)
        &&& entry.value() == &*value
        &&& surplus is None
        &&& if before.exhausted() {
            &&& entry.initial() == Count::fresh()
            &&& after.entries() == before.entries()
        } else {
            &&& !before.has(entry.id())
            &&& entry.initial() == Count::fresh().heated().retained()
            &&& added(before.entries(), after.entries(), &*value, entry)
        }
    }
}

/// Whether an entry was added to a table at the place where its value belongs.
pub open spec fn added<T: ?Sized + Ord>(
    before: Seq<Arc<RefCounted<T>>>,
    after: Seq<Arc<RefCounted<T>>>,
    value: &T,
    entry: Arc<RefCounted<T>>,
) -> bool {
    exists|at: usize| #[trigger] added_at(before, after, at, value, entry)
}

/// Whether an entry was added to a table at a given place, where its value
/// belongs.
pub open spec fn added_at<T: ?Sized + Ord>(
    before: Seq<Arc<RefCounted<T>>>,
    after: Seq<Arc<RefCounted<T>>>,
    at: usize,
    value: &T,
    entry: Arc<RefCounted<T>>,
) -> bool {
    &&& fits(before, at, value)
    &&& lawful_ord::<T>() ==> parted(before, at, value)
    &&& after == before.insert(at as int, entry)
}

/// Whether the entry with a given number stands at a given place.
pub open spec fn stands_at<T: ?Sized>(
    entries: Seq<Arc<RefCounted<T>>>,
    id: u64,
    at: int,
) -> bool {
    0 <= at < entries.len() && entries[at].id() == id
}

/// What asking a table to give an entry up comes to, where `sole` tells whether
/// only the table refers to it.
pub open spec fn removed<T: ?Sized + Ord>(
    before: &OrdTable<T>,
    after: &OrdTable<T>,
    id: u64,
    sole: bool,
    r: (bool, Option<Arc<RefCounted<T>>>),
) -> bool {
    if !before.has(id) {
        r == (true, None::<Arc<RefCounted<T>>>) && after.entries() == before.entries()
    } else if sole {
        exists|at: int|
            {
                &&& #[trigger] stands_at(before.entries(), id, at)
                &&& r == (true, Some(before.entries()[at]))
                &&& after.entries() == before.entries().remove(at)
            }
    } else {
        r == (false, None::<Arc<RefCounted<T>>>) && after.entries() == before.entries()
    }
}

/// Whether a table may be found to have a given entry, or not to have it. An
/// entry that stands under the same number is taken for another one only where
/// `Arc::ptr_eq` tells the two apart.
pub open spec fn owned<T: ?Sized + Ord>(
    table: &OrdTable<T>,
    value: Arc<RefCounted<T>>,
    answer: bool,
) -> bool {
    if answer {
        table.entries().contains(value)
    } else {
        table.has(value.id()) ==> exists|at: int| #[trigger]
            stands_at(table.entries(), value.id(), at) && placed(
                table.entries()[at],
                value,
                false,
            )
    }
}

/// What asking a table to give up a given entry comes to, where `own` tells
/// whether the entry was found in the table, and its count was found as given.
pub open spec fn taken_out<T: ?Sized + Ord>(
    before: &OrdTable<T>,
    after: &OrdTable<T>,
    value: Arc<RefCounted<T>>,
    own: bool,
    count: Count,
    r: (bool, Option<Arc<RefCounted<T>>>),
) -> bool {
    &&& owned(before, value, own)
    &&& if own {
        &&& count.valid()
        &&& value.counted(count, count.reclaimed())
        &&& removed(before, after, value.id(), count.sole(), r)
        &&& r.1 matches Some(entry) ==> entry == value
    } else {
        &&& r == (true, None::<Arc<RefCounted<T>>>)
        &&& after.entries() == before.entries()
    }
}

/// A sorted table of counted values.
pub struct OrdTable<T: ?Sized + Ord> {
    slots: Slots<T>,
}

impl<T: ?Sized + Ord> OrdTable<T> {
    #[verifier::type_invariant]
    spec fn sound(self) -> bool {
        &&& self.slots.shaped()
        &&& numbered(self.slots.entries@)
        &&& self.slots.counted()
        &&& ascending(self.slots.entries@)
    }

    /// The entries, in order.
    pub closed spec fn entries(&self) -> Seq<Arc<RefCounted<T>>> {
        self.slots.entries@
    }

    /// What holds of every table: the entries go by different numbers and stand
    /// in strictly ascending order.
    pub open spec fn valid(&self) -> bool {
        &&& numbered(self.entries())
        &&& ascending(self.entries())
    }

    /// Whether the table cannot take another entry.
    pub open spec fn exhausted(&self) -> bool {
        self.entries().len() >= MAX_LEN
    }

    /// Whether there is an entry with a given number.
    pub open spec fn has(&self, id: u64) -> bool {
        exists|at: int| stands_at(self.entries(), id, at)
    }

    /// A table without entries.
    pub fn new() -> (r: Self)
        ensures
            r.entries() == Seq::<Arc<RefCounted<T>>>::empty(),
            r.valid(),
    {
        OrdTable { slots: Slots::empty() }
    }

    /// The number of entries.
    pub fn len(&self) -> (r: usize)
        ensures
            r == self.entries().len(),
            self.valid(),
    {
        proof {
            use_type_invariant(self);
        }
        self.slots.len
    }

    /// Finds the entry that is level with a given value.
    pub fn get(&self, value: &T) -> (r: Option<&Arc<RefCounted<T>>>)
        ensures
            match r {
                Some(entry) => holds(self.entries(), *entry, value),
                None => lacks(self.entries(), value),
            },
            self.valid(),
    {
        proof {
            use_type_invariant(self);
        }
        match self.slots.search(value) {
            Ok(at) => match &self.slots.slots[at] {
                Some((entry, _)) => Some(entry),
                None => None,
            },
            Err(_) => None,
        }
    }

    /// Finds the entry that is level with a given value, and counts the
    /// caller's reference to it.
    pub fn lookup(&self, value: &T) -> (r: Option<Counted<T>>)
        ensures
            match r {
                Some(found) => holds(self.entries(), found.entry(), value)
                    && found.entry().retained(),
                None => lacks(self.entries(), value),
            },
            self.valid(),
    {
        proof {
            use_type_invariant(self);
        }
        match self.slots.search(value) {
            Ok(at) => match &self.slots.slots[at] {
                Some((entry, hold)) => Some(hold.lend(entry)),
                None => None,
            },
            Err(_) => None,
        }
    }

    /// Finds the entry that is level with a given value, or adds one. Either
    /// way the caller's reference to the result is counted.
    pub fn intern(&mut self, value: Box<T>) -> (r: (Counted<T>, Option<Box<T>>))
        ensures
            interned(old(self), final(self), value, r.0.entry(), r.1),
            old(self).valid(),
            final(self).valid(),
    {
        let mut slots: Slots<T> = Slots::empty();
        proof {
            use_type_invariant(&*self);
        }
        let at: usize = match self.slots.search(&*value) {
            Ok(at) => {
                if let Some((entry, hold)) = &self.slots.slots[at] {
                    let found = hold.lend(entry);
                    return (found, Some(value));
                }
                at
            },
            Err(at) => at,
        };
        if self.slots.len >= MAX_LEN {
            return (RefCounted::loose(value), None);
        }
        core::mem::swap(&mut slots, &mut self.slots);
        let id: u64 = slots.number();
        proof {
            assert forall|i: int| 0 <= i < slots.entries@.len() implies (
            #[trigger] slots.entries@[i]).id() != id by {
                assert(!stands_at(slots.entries@, id, i));
            }
        }
        let (counted, hold) = RefCounted::kept(id, 0, value);
        slots.insert(at, counted.get().clone(), hold);
        core::mem::swap(&mut slots, &mut self.slots);
        let ghost entry = counted.entry();
        assert(added_at(old(self).entries(), self.entries(), at, entry.value(), entry));
        (counted, None)
    }

    /// Gives an entry up if only the table refers to it, and counts the table's
    /// reference to it less.
    pub fn remove(&mut self, id: u64, sole: bool) -> (r: (bool, Option<Arc<RefCounted<T>>>))
        ensures
            removed(old(self), final(self), id, sole, r),
            r.1 matches Some(entry) ==> discarded(entry),
            old(self).valid(),
            final(self).valid(),
        opens_invariants none
        no_unwind
    {
        proof {
            use_type_invariant(&*self);
        }
        match self.slots.position(id) {
            Some(at) => {
                assert(stands_at(old(self).entries(), id, at as int));
                if sole {
                    match self.slots.take(at) {
                        Some((entry, hold)) => {
                            discard(&entry, hold);
                            (true, Some(entry))
                        },
                        None => (true, None),
                    }
                } else {
                    (false, None)
                }
            },
            None => (true, None),
        }
    }

    /// Tells whether a given entry is in the table.
    pub fn owns(&mut self, value: &Arc<RefCounted<T>>) -> (r: bool)
        ensures
            owned(old(self), *value, r),
            old(self).valid(),
            final(self).entries() == old(self).entries(),
        opens_invariants none
        no_unwind
    {
        proof {
            use_type_invariant(&*self);
        }
        let id: u64 = value.get_id();
        match self.slots.position(id) {
            Some(at) => {
                assert(stands_at(old(self).entries(), id, at as int));
                self.slots.is_own(at, value)
            },
            None => false,
        }
    }

    /// Gives a given entry up if only the table refers to it; where others do,
    /// one of them gets the clean-up duty.
    pub fn take_out(&mut self, value: &Arc<RefCounted<T>>) -> (r: (
        bool,
        Option<Arc<RefCounted<T>>>,
    ))
        ensures
            exists|own: bool, count: Count| #[trigger]
                taken_out(old(self), final(self), *value, own, count, r),
            r.1 matches Some(entry) ==> discarded(entry),
            old(self).valid(),
            final(self).valid(),
        opens_invariants none
        no_unwind
    {
        proof {
            use_type_invariant(&*self);
        }
        if !self.owns(value) {
            proof {
                use_type_invariant(&*self);
            }
            assert(taken_out(old(self), &*self, *value, false, Count::fresh(), (true, None)));
            return (true, None);
        }
        proof {
            use_type_invariant(&*self);
        }
        let id: u64 = value.get_id();
        let sole = self.slots.reclaim(id, Ghost(*value));
        let ghost count = choose|count: Count|
            count.valid() && #[trigger] value.counted(count, count.reclaimed()) && sole
                == count.sole();
        let r = self.remove(id, sole);
        assert(taken_out(old(self), &*self, *value, true, count, r));
        r
    }

    /// Takes all entries out and counts the table's reference to each one less.
    pub fn release_all(&mut self)
        ensures
            final(self).entries() == Seq::<Arc<RefCounted<T>>>::empty(),
            old(self).valid(),
            forall|i: int|
                0 <= i < old(self).entries().len() ==> discarded(
                    #[trigger] old(self).entries()[i],
                ),
        opens_invariants none
        no_unwind
    {
        proof {
            use_type_invariant(&*self);
        }
        self.slots.drain();
    }
}

/// Asking for values that are level with each other, one after the other, gives
/// the same entry, and adds nothing the second time. The one exception is a
/// value that was not there and that an exhausted table could not take.
pub proof fn law_same_entry<T: ?Sized + Ord>(
    first: &OrdTable<T>,
    second: &OrdTable<T>,
    third: &OrdTable<T>,
    a: Box<T>,
    b: Box<T>,
    entry_a: Arc<RefCounted<T>>,
    entry_b: Arc<RefCounted<T>>,
    surplus_a: Option<Box<T>>,
    surplus_b: Option<Box<T>>,
)
    requires
        lawful_ord::<T>(),
        second.valid(),
        interned(first, second, a, entry_a, surplus_a),
        interned(second, third, b, entry_b, surplus_b),
        place::<T>(&*a, &*b) == Place::Level,
        first.exhausted() ==> !lacks(first.entries(), &*a),
    ensures
        entry_a == entry_b,
        surplus_b == Some(b),
        third.entries() == second.entries(),
{
    let entries = second.entries();
    assert(place(entry_a.value(), entry_a.value()) == Place::Level);
    if !holds(first.entries(), entry_a, &*a) {
        let at = choose|at: usize|
            added_at(first.entries(), second.entries(), at, entry_a.value(), entry_a);
        assert(second.entries()[at as int] == entry_a);
    }
    assert(entries.contains(entry_a));
    assert(place::<T>(entry_a.value(), &*a) == Place::Level);
    assert(place::<T>(entry_a.value(), &*b) == Place::Level);
    let i = choose|i: int| 0 <= i < entries.len() && entries[i] == entry_a;
    assert(entries[i].value() == entry_a.value());
    assert(holds(entries, entry_b, &*b));
    let j = choose|j: int| 0 <= j < entries.len() && entries[j] == entry_b;
    assert(place::<T>(&*b, entry_b.value()) == Place::Level);
    assert(place::<T>(entry_a.value(), entry_b.value()) == Place::Level);
    assert(place::<T>(entries[i].value(), entries[j].value()) == Place::Level);
    assert(place::<T>(entries[j].value(), entries[i].value()) == Place::Level);
    assert(i == j);
}

/// Whether the asking with the given number, of those that follow one another,
/// came to what it should.
pub open spec fn interned_at<T: ?Sized + Ord>(
    tables: Seq<OrdTable<T>>,
    values: Seq<Box<T>>,
    entries: Seq<Arc<RefCounted<T>>>,
    surplus: Seq<Option<Box<T>>>,
    n: int,
) -> bool {
    interned(&tables[n], &tables[n + 1], values[n], entries[n], surplus[n])
}

/// However many ask for values that are level with each other, one after the
/// other, they all get the same entry, and at most one entry is added.
pub proof fn law_interned_by_all<T: ?Sized + Ord>(
    tables: Seq<OrdTable<T>>,
    values: Seq<Box<T>>,
    entries: Seq<Arc<RefCounted<T>>>,
    surplus: Seq<Option<Box<T>>>,
    n: int,
)
    requires
        lawful_ord::<T>(),
        0 <= n < values.len(),
        forall|k: int| 0 <= k <= n + 1 ==> (#[trigger] tables[k]).valid(),
        forall|k: int|
            0 <= k <= n ==> #[trigger] interned_at(tables, values, entries, surplus, k),
        forall|i: int, j: int|
            0 <= i <= n && 0 <= j <= n ==> place::<T>(
                &*#[trigger] values[i],
                &*#[trigger] values[j],
            ) == Place::Level,
        !tables[0].exhausted(),
    ensures
        forall|k: int| 0 <= k <= n ==> #[trigger] entries[k] == entries[0],
        tables[n + 1].entries() == tables[1].entries(),
        tables[n + 1].entries().len() <= tables[0].entries().len() + 1,
    decreases n,
{
    assert(interned_at(tables, values, entries, surplus, 0));
    if n > 0 {
        law_interned_by_all(tables, values, entries, surplus, n - 1);
        assert(interned_at(tables, values, entries, surplus, n));
        assert(tables[n].valid());
        assert(interned(&tables[0], &tables[n], values[0], entries[0], surplus[0]));
        law_same_entry(
            &tables[0],
            &tables[n],
            &tables[n + 1],
            values[0],
            values[n],
            entries[0],
            entries[n],
            surplus[0],
            surplus[n],
        );
    }
}

/// Finding a value is what asking for it comes to where it is there: it does not
/// matter by which of the two an entry was obtained.
pub proof fn law_lookup_is_intern<T: ?Sized + Ord>(
    table: &OrdTable<T>,
    value: Box<T>,
    entry: Arc<RefCounted<T>>,
)
    requires
        holds(table.entries(), entry, &*value),
        entry.retained(),
    ensures
        interned(table, table, value, entry, Some(value)),
{
}

/// An entry that was added for a value and is given up again leaves the table
/// with what it had before.
pub proof fn law_remove_undoes_intern<T: ?Sized + Ord>(
    first: &OrdTable<T>,
    second: &OrdTable<T>,
    third: &OrdTable<T>,
    value: Box<T>,
    entry: Arc<RefCounted<T>>,
    r: (bool, Option<Arc<RefCounted<T>>>),
)
    requires
        first.valid(),
        !first.exhausted(),
        interned(first, second, value, entry, None),
        removed(second, third, entry.id(), true, r),
    ensures
        r == (true, Some(entry)),
        third.entries() == first.entries(),
{
    let at = choose|at: usize|
        added_at(first.entries(), second.entries(), at, entry.value(), entry);
    assert(stands_at(second.entries(), entry.id(), at as int));
    let gone = choose|gone: int|
        {
            &&& #[trigger] stands_at(second.entries(), entry.id(), gone)
            &&& r == (true, Some(second.entries()[gone]))
            &&& third.entries() == second.entries().remove(gone)
        };
    if gone < at {
        assert(stands_at(first.entries(), entry.id(), gone));
    } else if gone > at {
        assert(stands_at(first.entries(), entry.id(), gone - 1));
    }
    assert(third.entries() =~= first.entries());
}

/// A value whose entry was given up is no longer in the table.
pub proof fn law_removed_is_gone<T: ?Sized + Ord>(
    first: &OrdTable<T>,
    second: &OrdTable<T>,
    id: u64,
    at: int,
    r: (bool, Option<Arc<RefCounted<T>>>),
)
    requires
        lawful_ord::<T>(),
        first.valid(),
        stands_at(first.entries(), id, at),
        removed(first, second, id, true, r),
    ensures
        r == (true, Some(first.entries()[at])),
        second.entries() == first.entries().remove(at),
        forall|i: int|
            0 <= i < second.entries().len() ==> place(
                (#[trigger] second.entries()[i]).value(),
                first.entries()[at].value(),
            ) != Place::Level,
{
    let gone = choose|gone: int|
        {
            &&& #[trigger] stands_at(first.entries(), id, gone)
            &&& r == (true, Some(first.entries()[gone]))
            &&& second.entries() == first.entries().remove(gone)
        };
    assert(first.entries()[gone].id() == first.entries()[at].id());
    assert(gone == at);
    assert forall|i: int| 0 <= i < second.entries().len() implies place(
        (#[trigger] second.entries()[i]).value(),
        first.entries()[at].value(),
    ) != Place::Level by {
        if i < at {
            assert(second.entries()[i] == first.entries()[i]);
        } else {
            assert(second.entries()[i] == first.entries()[i + 1]);
            assert(place(first.entries()[at].value(), first.entries()[i + 1].value())
                == Place::Before);
        }
    }
}

/// Asking for values that are not level with each other gives different
/// entries.
pub proof fn law_different_entries<T: ?Sized + Ord>(
    first: &OrdTable<T>,
    second: &OrdTable<T>,
    third: &OrdTable<T>,
    fourth: &OrdTable<T>,
    a: Box<T>,
    b: Box<T>,
    entry_a: Arc<RefCounted<T>>,
    entry_b: Arc<RefCounted<T>>,
    surplus_a: Option<Box<T>>,
    surplus_b: Option<Box<T>>,
)
    requires
        lawful_ord::<T>(),
        interned(first, second, a, entry_a, surplus_a),
        interned(third, fourth, b, entry_b, surplus_b),
        place::<T>(&*a, &*b) != Place::Level,
    ensures
        entry_a != entry_b,
        place::<T>(entry_a.value(), entry_b.value()) != Place::Level,
{
    assert(place(entry_a.value(), entry_a.value()) == Place::Level);
    assert(place(entry_b.value(), entry_b.value()) == Place::Level);
    assert(place::<T>(entry_a.value(), &*a) == Place::Level);
    assert(place::<T>(entry_b.value(), &*b) == Place::Level);
    assert(place::<T>(&*a, entry_a.value()) == Place::Level);
    if place::<T>(entry_a.value(), entry_b.value()) == Place::Level {
        assert(place::<T>(&*a, entry_b.value()) == Place::Level);
        assert(place::<T>(&*a, &*b) == Place::Level);
    }
}

/// Entries come and go without an effect on the others.
pub proof fn law_others_stay<T: ?Sized + Ord>(
    first: &OrdTable<T>,
    second: &OrdTable<T>,
    third: &OrdTable<T>,
    value: Box<T>,
    entry: Arc<RefCounted<T>>,
    surplus: Option<Box<T>>,
    id: u64,
    sole: bool,
    r: (bool, Option<Arc<RefCounted<T>>>),
)
    requires
        first.valid(),
        interned(first, second, value, entry, surplus),
        removed(second, third, id, sole, r),
    ensures
        forall|other: Arc<RefCounted<T>>| #[trigger]
            first.entries().contains(other) ==> second.entries().contains(other),
        forall|other: Arc<RefCounted<T>>| #[trigger]
            second.entries().contains(other) && other.id() != id ==> third.entries().contains(
                other,
            ),
        forall|other: Arc<RefCounted<T>>| #[trigger]
            second.entries().contains(other) && !first.entries().contains(other) ==> other == entry,
{
    if second.entries() != first.entries() {
        let at = choose|at: usize|
            added_at(first.entries(), second.entries(), at, entry.value(), entry);
        assert forall|other: Arc<RefCounted<T>>| #[trigger]
            first.entries().contains(other) implies second.entries().contains(other) by {
            let i = choose|i: int| 0 <= i < first.entries().len() && first.entries()[i] == other;
            if i < at {
                assert(second.entries()[i] == other);
            } else {
                assert(second.entries()[i + 1] == other);
            }
        }
        assert forall|other: Arc<RefCounted<T>>| #[trigger]
            second.entries().contains(other) && !first.entries().contains(other) implies other
            == entry by {
            let i = choose|i: int| 0 <= i < second.entries().len() && second.entries()[i] == other;
            if i < at {
                assert(first.entries()[i] == other);
            } else if i > at {
                assert(first.entries()[i - 1] == other);
            }
        }
    }
    if third.entries() != second.entries() {
        let gone = choose|gone: int|
            {
                &&& #[trigger] stands_at(second.entries(), id, gone)
                &&& r == (true, Some(second.entries()[gone]))
                &&& third.entries() == second.entries().remove(gone)
            };
        assert forall|other: Arc<RefCounted<T>>| #[trigger]
            second.entries().contains(other) && other.id() != id implies third.entries().contains(
            other,
        ) by {
            let i = choose|i: int| 0 <= i < second.entries().len() && second.entries()[i] == other;
            if i < gone {
                assert(third.entries()[i] == other);
            } else {
                assert(third.entries()[i - 1] == other);
            }
        }
    }
}

/// Asking a table for a value leaves everything in it that was there, in the same
/// order. It has at most one entry more, the one that was handed out, and that
/// only where no entry was found and there was room; the entry that was handed
/// out is in it then, as it is where it was found.
pub proof fn law_intern_adds_one<T: ?Sized + Ord>(
    before: &OrdTable<T>,
    after: &OrdTable<T>,
    value: Box<T>,
    entry: Arc<RefCounted<T>>,
    surplus: Option<Box<T>>,
)
    requires
        before.valid(),
        interned(before, after, value, entry, surplus),
    ensures
        after.entries() == before.entries() || exists|at: int|
            0 <= at < after.entries().len() && #[trigger] after.entries()[at] == entry
                && after.entries().remove(at) == before.entries(),
        after.entries().len() == before.entries().len() + if surplus is None && !before.exhausted() {
            1int
        } else {
            0int
        },
        surplus is None && before.exhausted() || after.entries().contains(entry),
        surplus is None ==> lacks(before.entries(), &*value),
{
    if surplus is None && !before.exhausted() {
        let at = choose|at: usize|
            added_at(before.entries(), after.entries(), at, entry.value(), entry);
        assert(after.entries()[at as int] == entry);
        assert(after.entries().remove(at as int) =~= before.entries());
    }
}

/// A table has no two entries for values that are level with each other.
pub proof fn law_unique_values<T: ?Sized + Ord>(table: &OrdTable<T>)
    requires
        lawful_ord::<T>(),
        table.valid(),
    ensures
        forall|i: int, j: int|
            0 <= i < table.entries().len() && 0 <= j < table.entries().len() && i != j ==> place(
                (#[trigger] table.entries()[i]).value(),
                (#[trigger] table.entries()[j]).value(),
            ) != Place::Level,
{
    assert forall|i: int, j: int|
        0 <= i < table.entries().len() && 0 <= j < table.entries().len() && i != j implies place(
        (#[trigger] table.entries()[i]).value(),
        (#[trigger] table.entries()[j]).value(),
    ) != Place::Level by {
        if i > j {
            assert(place(table.entries()[j].value(), table.entries()[i].value())
                == Place::Before);
        }
    }
}

} // verus!
