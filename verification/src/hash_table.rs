//! A hash table of counted values.
//!
//! The table probes linearly from the slot that a value's hash code points to.
//! Values leave it by number, without comparing or hashing anything, and leave
//! a mark behind so that what was stored beyond them is still found. The
//! marks go when the table is rebuilt.
use crate::ref_count::{discard, discarded, is_at, placed, Count, Counted, Hold, RefCounted};
use crate::relations::{answered, lawful_eq, same, specified_eq};
use std::sync::Arc;
use vstd::prelude::*;

verus! {

/// A place in the table.
pub enum Slot<T: ?Sized> {
    /// Never filled since the table was built.
    Empty,
    /// Filled once.
    Deleted,
    /// Filled.
    Full(Arc<RefCounted<T>>, Hold<T>),
}

/// What a search meets at a slot.
enum Probe {
    /// The end of the search.
    Gap,
    /// Something else than what is sought.
    Miss,
    /// What is sought.
    Hit,
}

/// The slot at which the search for a hash code starts.
pub open spec fn home_of(code: u64, cap: int) -> int {
    (code as int) % cap
}

/// The slot that lies a number of steps behind another one, going round.
pub open spec fn stepped(home: int, steps: int, cap: int) -> int {
    if home + steps < cap {
        home + steps
    } else {
        home + steps - cap
    }
}

/// The number of steps from one slot to another, going round.
pub open spec fn steps_to(home: int, at: int, cap: int) -> int {
    if at >= home {
        at - home
    } else {
        at - home + cap
    }
}

/// Whether the search for a code passes only filled slots on its way to a
/// given slot.
pub open spec fn reachable<T: ?Sized>(slots: Seq<Slot<T>>, code: u64, at: int) -> bool {
    let cap = slots.len() as int;
    let home = home_of(code, cap);
    forall|j: int|
        0 <= j < steps_to(home, at, cap) ==> !(#[trigger] slots[stepped(home, j, cap)] is Empty)
}

/// Whether an entry has a given code and, in the sense of `==`, value.
pub open spec fn matching<T: ?Sized + Eq>(entry: &RefCounted<T>, code: u64, value: &T) -> bool {
    entry.code() == code && same(entry.value(), value)
}

/// Whether an entry is among those of a table, with a given code, and `==` has
/// found its value equal to a given one.
pub open spec fn holds<T: ?Sized + Eq>(
    entries: Map<u64, Arc<RefCounted<T>>>,
    entry: Arc<RefCounted<T>>,
    code: u64,
    value: &T,
) -> bool {
    &&& entries.contains_key(entry.id())
    &&& entries[entry.id()] == entry
    &&& entry.code() == code
    &&& answered(entry.value(), value, true)
    &&& specified_eq::<T>() ==> matching(&*entry, code, value)
}

/// Whether no entry of a table has a given code and a value that `==` has found
/// equal to a given one.
pub open spec fn lacks<T: ?Sized + Eq>(
    entries: Map<u64, Arc<RefCounted<T>>>,
    code: u64,
    value: &T,
) -> bool {
    &&& forall|id: u64| #[trigger]
        entries.contains_key(id) && entries[id].code() == code ==> answered(
            entries[id].value(),
            value,
            false,
        )
    &&& specified_eq::<T>() ==> forall|id: u64| #[trigger]
        entries.contains_key(id) ==> !matching(&*entries[id], code, value)
}

/// Whether no two entries of a table have the same code and value.
pub open spec fn distinct<T: ?Sized + Eq>(entries: Map<u64, Arc<RefCounted<T>>>) -> bool {
    lawful_eq::<T>() ==> forall|a: u64, b: u64|
        #![trigger entries[a], entries[b]]
        entries.contains_key(a) && entries.contains_key(b) && a != b ==> !matching(
            &*entries[a],
            entries[b].code(),
            entries[b].value(),
        )
}

/// Whether the entries of a table go by their numbers.
pub open spec fn numbered<T: ?Sized>(entries: Map<u64, Arc<RefCounted<T>>>) -> bool {
    forall|id: u64| #[trigger] entries.contains_key(id) ==> entries[id].id() == id
}

/// Calls `<[_]>::get_mut` with an index: access to the item at the index, or
/// nothing where the index is out of bounds. It does not panic.
#[verifier::external_body]
pub(crate) fn slot_mut<S>(items: &mut Vec<S>, at: usize) -> (r: Option<&mut S>)
    ensures
        match r {
            Some(item) => {
                &&& at < old(items)@.len()
                &&& *item == old(items)@[at as int]
                &&& final(items)@ == old(items)@.update(at as int, *final(item))
            },
            None => at >= old(items)@.len() && final(items)@ == old(items)@,
        },
    opens_invariants none
    no_unwind
{
    items.get_mut(at)
}

/// A set that has a number and all that are less has more members than the
/// number says.
pub(crate) proof fn lemma_low_numbers(ids: Set<u64>, id: u64)
    requires
        ids.finite(),
        ids.contains(id),
        forall|other: u64| other < id ==> #[trigger] ids.contains(other),
    ensures
        id < ids.len(),
{
    let low = Seq::new((id + 1) as nat, |k: int| k as u64);
    assert(low.no_duplicates());
    low.unique_seq_to_set();
    assert forall|other: u64| low.to_set().contains(other) implies ids.contains(other) by {
        let k = choose|k: int| 0 <= k < low.len() && low[k] == other;
        assert(other == k as u64);
    }
    vstd::set_lib::lemma_len_subset(low.to_set(), ids);
}

/// The slots of a table, together with what they hold, by number.
struct Slots<T: ?Sized> {
    slots: Vec<Slot<T>>,
    cap: usize,
    len: usize,
    used: usize,
    next_id: u64,
    entries: Ghost<Map<u64, Arc<RefCounted<T>>>>,
    places: Ghost<Map<u64, int>>,
}

impl<T: ?Sized> Slots<T> {
    /// Whether a slot is the recorded place of what it holds, which can be
    /// found there.
    spec fn settled(&self, p: int) -> bool {
        self.slots@[p] matches Slot::Full(e, hold) ==> {
            &&& hold.entry() == e
            &&& self.entries@.contains_key(e.id())
            &&& self.entries@[e.id()] == e
            &&& self.places@[e.id()] == p
            &&& reachable(self.slots@, e.code(), p)
        }
    }

    /// Whether an entry is in its place.
    spec fn located(&self, id: u64) -> bool {
        let p = self.places@[id];
        &&& 0 <= p < self.slots@.len()
        &&& self.slots@[p] is Full
        &&& self.slots@[p]->Full_0 == self.entries@[id]
        &&& self.entries@[id].id() == id
        &&& id < self.next_id || self.next_id == u64::MAX
    }

    /// Whether two tables are the same.
    spec fn unchanged(&self, other: &Self) -> bool {
        &&& self.slots@ == other.slots@
        &&& self.cap == other.cap
        &&& self.len == other.len
        &&& self.used == other.used
        &&& self.next_id == other.next_id
        &&& self.entries@ == other.entries@
        &&& self.places@ == other.places@
    }

    /// The shape of a table does not hang on how far its numbers have come.
    proof fn lemma_shaped(&self, other: &Self)
        requires
            other.shaped(),
            self.slots@ == other.slots@,
            self.cap == other.cap,
            self.len == other.len,
            self.used == other.used,
            self.entries@ == other.entries@,
            self.places@ == other.places@,
            self.next_id >= other.next_id,
        ensures
            self.shaped(),
    {
        assert forall|p: int| 0 <= p < self.slots@.len() implies #[trigger] self.settled(p) by {
            assert(other.settled(p));
        }
        assert forall|id: u64| #[trigger] self.entries@.contains_key(id) implies self.located(
            id,
        ) by {
            assert(other.located(id));
        }
    }

    /// Whether the slots and what is recorded of them agree.
    spec fn shaped(&self) -> bool {
        &&& self.entries@.dom().finite()
        &&& self.len == self.entries@.len()
        &&& self.cap == self.slots@.len()
        &&& self.used <= self.cap
        &&& forall|p: int| 0 <= p < self.slots@.len() ==> #[trigger] self.settled(p)
        &&& forall|id: u64| #[trigger] self.entries@.contains_key(id) ==> self.located(id)
    }

    /// Looks for an entry at one slot.
    fn probe(&mut self, at: usize, id: u64, code: u64) -> (r: Probe)
        requires
            at < old(self).slots@.len(),
        ensures
            final(self).unchanged(old(self)),
            r == match old(self).slots@[at as int] {
                Slot::Empty => Probe::Gap,
                Slot::Deleted => Probe::Miss,
                Slot::Full(e, _) => if e.id() == id && e.code() == code {
                    Probe::Hit
                } else {
                    Probe::Miss
                },
            },
        opens_invariants none
        no_unwind
    {
        let seen = match slot_mut(&mut self.slots, at) {
            Some(Slot::Full(e, _)) => {
                if e.get_id() == id && e.get_code() == code {
                    Probe::Hit
                } else {
                    Probe::Miss
                }
            },
            Some(Slot::Deleted) => Probe::Miss,
            Some(Slot::Empty) => Probe::Gap,
            None => Probe::Gap,
        };
        assert(self.slots@ =~= old(self).slots@);
        seen
    }

    /// Finds the slot of an entry, if it is in the table.
    fn position(&mut self, id: u64, code: u64) -> (r: Option<usize>)
        requires
            old(self).shaped(),
        ensures
            final(self).shaped(),
            final(self).unchanged(old(self)),
            match r {
                Some(p) => {
                    &&& p < old(self).slots@.len()
                    &&& old(self).entries@.contains_key(id)
                    &&& old(self).entries@[id].code() == code
                    &&& old(self).slots@[p as int] is Full
                    &&& old(self).slots@[p as int]->Full_0 == old(self).entries@[id]
                },
                None => !(old(self).entries@.contains_key(id) && old(self).entries@[id].code()
                    == code),
            },
        opens_invariants none
        no_unwind
    {
        let cap: usize = self.cap;
        if cap == 0 {
            proof {
                if self.entries@.contains_key(id) {
                    assert(self.located(id));
                }
            }
            return None;
        }
        let home: usize = (code % cap as u64) as usize;
        let mut pos: usize = home;
        let mut step: usize = 0;
        while step < cap
            invariant
                self.shaped(),
                self.unchanged(old(self)),
                old(self).shaped(),
                cap == old(self).slots@.len(),
                0 < cap,
                home < cap,
                home == home_of(code, cap as int),
                step <= cap,
                step < cap ==> pos == stepped(home as int, step as int, cap as int),
                forall|j: int|
                    0 <= j < step ==> !((#[trigger] old(self).slots@[stepped(
                        home as int,
                        j,
                        cap as int,
                    )]) matches Slot::Full(e, _) && e.id() == id && e.code() == code),
            decreases cap - step,
        {
            let seen = self.probe(pos, id, code);
            proof {
                self.lemma_shaped(old(self));
            }
            match seen {
                Probe::Gap => {
                    proof {
                        if old(self).entries@.contains_key(id) && old(self).entries@[id].code()
                            == code {
                            old(self).lemma_passed(id, step as int);
                        }
                    }
                    return None;
                },
                Probe::Hit => {
                    assert(old(self).settled(pos as int));
                    return Some(pos);
                },
                Probe::Miss => {},
            }
            step = step + 1;
            pos = if pos + 1 < cap {
                pos + 1
            } else {
                0
            };
        }
        proof {
            if old(self).entries@.contains_key(id) && old(self).entries@[id].code() == code {
                old(self).lemma_passed(id, cap as int);
            }
        }
        None
    }

    /// Tells whether the entry at a slot is a given one.
    fn is_own(&mut self, at: usize, value: &Arc<RefCounted<T>>) -> (r: bool)
        requires
            old(self).shaped(),
            at < old(self).slots@.len(),
            old(self).slots@[at as int] is Full,
        ensures
            final(self).shaped(),
            final(self).unchanged(old(self)),
            r ==> old(self).slots@[at as int]->Full_0 == *value,
            placed(old(self).slots@[at as int]->Full_0, *value, r),
        opens_invariants none
        no_unwind
    {
        let own = match slot_mut(&mut self.slots, at) {
            Some(Slot::Full(entry, _)) => is_at(entry, value),
            _ => false,
        };
        proof {
            assert(self.slots@ =~= old(self).slots@);
            self.lemma_shaped(old(self));
        }
        own
    }

    /// Tells whether the table's reference to an entry is the only one; where it
    /// is not, hands the clean-up duty on to those who have the others.
    fn reclaim(&mut self, id: u64, code: u64) -> (r: bool)
        requires
            old(self).shaped(),
            old(self).entries@.contains_key(id),
            old(self).entries@[id].code() == code,
        ensures
            final(self).shaped(),
            final(self).unchanged(old(self)),
            exists|count: Count|
                count.valid() && #[trigger] old(self).entries@[id].counted(
                    count,
                    count.reclaimed(),
                ) && r == count.sole(),
        opens_invariants none
        no_unwind
    {
        let sole = match self.position(id, code) {
            Some(at) => {
                assert(self.settled(at as int));
                match slot_mut(&mut self.slots, at) {
                    Some(Slot::Full(entry, hold)) => entry.reclaim(hold),
                    _ => false,
                }
            },
            None => false,
        };
        proof {
            assert(self.slots@ =~= old(self).slots@);
            self.lemma_shaped(old(self));
        }
        sole
    }

    /// Empties the slot of an entry.
    fn take(&mut self, at: usize) -> (r: Option<(Arc<RefCounted<T>>, Hold<T>)>)
        requires
            old(self).shaped(),
            at < old(self).slots@.len(),
            old(self).slots@[at as int] is Full,
        ensures
            final(self).shaped(),
            final(self).next_id == old(self).next_id,
            final(self).cap == old(self).cap,
            final(self).slots@ == old(self).slots@.update(at as int, Slot::Deleted),
            r matches Some((entry, hold)) && entry == old(self).slots@[at as int]->Full_0
                && hold.entry() == entry,
            final(self).entries@ == old(self).entries@.remove(
                old(self).slots@[at as int]->Full_0.id(),
            ),
        opens_invariants none
        no_unwind
    {
        let ghost gone: Arc<RefCounted<T>> = self.slots@[at as int]->Full_0;
        assert(self.settled(at as int));
        assert(self.located(gone.id()));
        let mut slot: Slot<T> = Slot::Deleted;
        match slot_mut(&mut self.slots, at) {
            Some(place) => {
                core::mem::swap(place, &mut slot);
            },
            None => {},
        }
        self.len = self.len - 1;
        self.entries = Ghost(self.entries@.remove(gone.id()));
        self.places = Ghost(self.places@.remove(gone.id()));
        proof {
            assert forall|p: int| 0 <= p < self.slots@.len() implies #[trigger] self.settled(
                p,
            ) by {
                assert(old(self).settled(p));
            }
            assert forall|id: u64| #[trigger]
                self.entries@.contains_key(id) implies self.located(id) by {
                assert(old(self).located(id));
            }
        }
        match slot {
            Slot::Full(e, hold) => Some((e, hold)),
            _ => None,
        }
    }

    /// Puts an entry into a slot that is not in use.
    fn place(&mut self, entry: Arc<RefCounted<T>>, hold: Hold<T>)
        requires
            hold.entry() == entry,
            old(self).shaped(),
            old(self).len < old(self).cap,
            !old(self).entries@.contains_key(entry.id()),
            entry.id() < old(self).next_id || old(self).next_id == u64::MAX,
        ensures
            final(self).shaped(),
            final(self).cap == old(self).cap,
            final(self).next_id == old(self).next_id,
            final(self).entries@ == old(self).entries@.insert(entry.id(), entry),
    {
        let cap: usize = self.cap;
        let ghost code = entry.code();
        let home: usize = (entry.get_code() % cap as u64) as usize;
        let mut pos: usize = home;
        let mut step: usize = 0;
        while step < cap
            invariant
                step < cap,
                pos == stepped(home as int, step as int, cap as int),
                self.unchanged(old(self)),
                self.shaped(),
                cap == self.slots@.len(),
                self.len < cap,
                home < cap,
                home == home_of(code, cap as int),
                forall|j: int|
                    0 <= j < step ==> (#[trigger] self.slots@[stepped(
                        home as int,
                        j,
                        cap as int,
                    )]) is Full,
            ensures
                !(self.slots@[pos as int] is Full),
            decreases cap - step,
        {
            match &self.slots[pos] {
                Slot::Full(_, _) => {},
                _ => {
                    break;
                },
            }
            step = step + 1;
            pos = if pos + 1 < cap {
                pos + 1
            } else {
                0
            };
            proof {
                if step == cap {
                    assert forall|p: int| 0 <= p < cap implies #[trigger] self.slots@[p] is Full by {
                        let d = steps_to(home as int, p, cap as int);
                        assert(stepped(home as int, d, cap as int) == p);
                    }
                    self.lemma_crowded();
                }
            }
        }
        if let Slot::Empty = &self.slots[pos] {
            if self.used < cap {
                self.used = self.used + 1;
            }
        }
        assert(steps_to(home as int, pos as int, cap as int) == step);
        let ghost before = self.slots@;
        let ghost id = entry.id();
        self.entries = Ghost(self.entries@.insert(id, entry));
        self.places = Ghost(self.places@.insert(id, pos as int));
        self.slots[pos] = Slot::Full(entry, hold);
        self.len = self.len + 1;
        proof {
            let after = self.slots@;
            assert(reachable(after, code, pos as int)) by {
                assert forall|j: int| 0 <= j < step implies !(#[trigger] after[stepped(
                    home as int,
                    j,
                    cap as int,
                )] is Empty) by {
                    assert(before[stepped(home as int, j, cap as int)] is Full);
                }
            }
            assert forall|p: int| 0 <= p < after.len() implies #[trigger] self.settled(p) by {
                assert(old(self).settled(p));
                if p != pos && after[p] is Full {
                    let e = after[p]->Full_0;
                    let h = home_of(e.code(), cap as int);
                    assert forall|j: int|
                        0 <= j < steps_to(h, p, cap as int) implies !(#[trigger] after[stepped(
                        h,
                        j,
                        cap as int,
                    )] is Empty) by {
                        assert(!(before[stepped(h, j, cap as int)] is Empty));
                    }
                }
            }
            assert forall|i: u64| #[trigger] self.entries@.contains_key(i) implies self.located(
                i,
            ) by {
                if i != id {
                    assert(old(self).located(i));
                }
            }
        }
    }

    /// Takes all entries out and counts the table's reference to each one less.
    fn drain(&mut self)
        requires
            old(self).shaped(),
        ensures
            final(self).shaped(),
            final(self).next_id == old(self).next_id,
            final(self).entries@ == Map::<u64, Arc<RefCounted<T>>>::empty(),
            forall|id: u64| #[trigger]
                old(self).entries@.contains_key(id) ==> discarded(old(self).entries@[id]),
        opens_invariants none
        no_unwind
    {
        let cap: usize = self.cap;
        let mut at: usize = 0;
        while at < cap
            invariant
                self.shaped(),
                forall|id: u64| #[trigger]
                    old(self).entries@.contains_key(id) ==> (self.entries@.contains_key(id)
                        && self.entries@[id] == old(self).entries@[id])
                        || discarded(old(self).entries@[id]),
                self.cap == cap,
                self.next_id == old(self).next_id,
                at <= cap,
                forall|p: int| 0 <= p < at ==> !(#[trigger] self.slots@[p] is Full),
            decreases cap - at,
        {
            let ghost before = *self;
            let full = match slot_mut(&mut self.slots, at) {
                Some(Slot::Full(_, _)) => true,
                _ => false,
            };
            proof {
                assert(self.slots@ =~= before.slots@);
                self.lemma_shaped(&before);
            }
            if full {
                assert(before.settled(at as int));
                if let Some((entry, hold)) = self.take(at) {
                    discard(&entry, hold);
                }
            }
            at = at + 1;
        }
        proof {
            assert forall|id: u64| #[trigger] self.entries@.contains_key(id) implies false by {
                assert(self.located(id));
            }
            assert(self.entries@ =~= Map::<u64, Arc<RefCounted<T>>>::empty());
        }
    }

    /// A table without a free slot holds as many entries as it has slots.
    proof fn lemma_crowded(&self)
        requires
            self.shaped(),
            forall|p: int| 0 <= p < self.slots@.len() ==> #[trigger] self.slots@[p] is Full,
        ensures
            self.len >= self.cap,
    {
        let ids = Seq::new(self.slots@.len(), |p: int| self.slots@[p]->Full_0.id());
        assert(ids.no_duplicates()) by {
            assert forall|p: int, q: int|
                0 <= p < ids.len() && 0 <= q < ids.len() && p != q implies ids[p] != ids[q] by {
                assert(self.settled(p) && self.settled(q));
            }
        }
        ids.unique_seq_to_set();
        assert(ids.to_set().subset_of(self.entries@.dom())) by {
            assert forall|id: u64| ids.to_set().contains(id) implies self.entries@.dom().contains(
                id,
            ) by {
                let p = choose|p: int| 0 <= p < ids.len() && ids[p] == id;
                assert(self.settled(p));
            }
        }
        vstd::set_lib::lemma_len_subset(ids.to_set(), self.entries@.dom());
    }

    /// A search that has met an empty slot, or has seen all, has passed every
    /// entry with the code that it is after.
    proof fn lemma_passed(&self, id: u64, step: int)
        requires
            self.shaped(),
            self.entries@.contains_key(id),
            0 <= step <= self.slots@.len(),
            step < self.slots@.len() ==> self.slots@[stepped(
                home_of(self.entries@[id].code(), self.slots@.len() as int),
                step,
                self.slots@.len() as int,
            )] is Empty,
        ensures
            ({
                let cap = self.slots@.len() as int;
                let home = home_of(self.entries@[id].code(), cap);
                let d = steps_to(home, self.places@[id], cap);
                &&& 0 <= d < step
                &&& self.slots@[stepped(home, d, cap)] is Full
                &&& self.slots@[stepped(home, d, cap)]->Full_0 == self.entries@[id]
            }),
    {
        let cap = self.slots@.len() as int;
        assert(self.located(id));
        let p = self.places@[id];
        assert(self.settled(p));
        let home = home_of(self.entries@[id].code(), cap);
        let d = steps_to(home, p, cap);
        assert(stepped(home, d, cap) == p);
        if d > step {
            assert(!(self.slots@[stepped(home, step, cap)] is Empty));
        }
    }
}

impl<T: ?Sized> Slots<T> {
    /// A table without slots.
    fn empty() -> (r: Self)
        ensures
            r.shaped(),
            r.entries@ == Map::<u64, Arc<RefCounted<T>>>::empty(),
            r.next_id == 0,
    {
        Slots {
            slots: Vec::new(),
            cap: 0,
            len: 0,
            used: 0,
            next_id: 0,
            entries: Ghost(Map::empty()),
            places: Ghost(Map::empty()),
        }
    }

    /// Tells whether a number is that of an entry.
    fn uses(&self, id: u64) -> (r: bool)
        requires
            self.shaped(),
        ensures
            r == self.entries@.contains_key(id),
    {
        let mut at: usize = 0;
        while at < self.slots.len()
            invariant
                self.shaped(),
                at <= self.slots@.len(),
                forall|p: int|
                    0 <= p < at ==> !((#[trigger] self.slots@[p]) matches Slot::Full(e, _) && e.id()
                        == id),
            decreases self.slots@.len() - at,
        {
            if let Slot::Full(entry, _) = &self.slots[at] {
                if entry.get_id() == id {
                    assert(self.settled(at as int));
                    return true;
                }
            }
            at = at + 1;
        }
        proof {
            if self.entries@.contains_key(id) {
                assert(self.located(id));
            }
        }
        false
    }

    /// A number for a new entry: the next one, or, once all were given out, the
    /// first one that is free.
    fn number(&mut self) -> (r: u64)
        requires
            old(self).shaped(),
            old(self).len < MAX_LEN,
        ensures
            final(self).shaped(),
            final(self).cap == old(self).cap,
            final(self).len == old(self).len,
            final(self).entries@ == old(self).entries@,
            !old(self).entries@.contains_key(r),
            r < final(self).next_id || final(self).next_id == u64::MAX,
    {
        if self.next_id < u64::MAX {
            let id: u64 = self.next_id;
            proof {
                if self.entries@.contains_key(id) {
                    assert(self.located(id));
                }
            }
            let ghost before = *self;
            self.next_id = id + 1;
            proof {
                self.lemma_shaped(&before);
            }
            return id;
        }
        let mut id: u64 = 0;
        while self.uses(id)
            invariant
                self.shaped(),
                *self == *old(self),
                self.len < MAX_LEN,
                forall|other: u64| other < id ==> #[trigger] self.entries@.contains_key(other),
            decreases self.len - id,
        {
            proof {
                lemma_low_numbers(self.entries@.dom(), id);
            }
            id = id + 1;
        }
        id
    }

    /// Moves all entries into a new set of slots.
    fn rebuild(&mut self, cap: usize)
        requires
            old(self).shaped(),
            old(self).len < cap,
        ensures
            final(self).shaped(),
            final(self).cap == cap,
            final(self).len == old(self).len,
            final(self).next_id == old(self).next_id,
            final(self).entries@ == old(self).entries@,
    {
        let mut slots: Vec<Slot<T>> = Vec::with_capacity(cap);
        let mut filled: usize = 0;
        while filled < cap
            invariant
                filled <= cap,
                slots@.len() == filled,
                forall|p: int| 0 <= p < filled ==> #[trigger] slots@[p] is Empty,
            decreases cap - filled,
        {
            slots.push(Slot::Empty);
            filled = filled + 1;
        }
        core::mem::swap(&mut slots, &mut self.slots);
        self.cap = cap;
        self.len = 0;
        self.used = 0;
        self.entries = Ghost(Map::empty());
        self.places = Ghost(Map::empty());
        assert(self.shaped());
        proof {
            assert forall|id: u64| #[trigger] old(self).entries@.contains_key(id) implies old(
                self,
            ).places@[id] < slots@.len() by {
                assert(old(self).located(id));
            }
        }
        let mut left: usize = slots.len();
        while left > 0
            invariant
                self.shaped(),
                self.cap == cap,
                self.next_id == old(self).next_id,
                old(self).shaped(),
                old(self).len < cap,
                left == slots@.len(),
                left <= old(self).slots@.len(),
                forall|p: int| 0 <= p < left ==> #[trigger] slots@[p] == old(self).slots@[p],
                forall|id: u64| #[trigger]
                    self.entries@.contains_key(id) ==> old(self).entries@.contains_key(id)
                        && self.entries@[id] == old(self).entries@[id] && old(self).places@[id]
                        >= left,
                forall|id: u64| #[trigger]
                    old(self).entries@.contains_key(id) && old(self).places@[id] >= left
                        ==> self.entries@.contains_key(id),
            decreases left,
        {
            left = left - 1;
            let ghost p = left as int;
            assert(slots@[p] == old(self).slots@[p]);
            assert(old(self).settled(p));
            match slots.pop() {
                Some(Slot::Full(entry, hold)) => {
                    proof {
                        assert(old(self).located(entry.id()));
                        assert(!self.entries@.contains_key(entry.id()));
                        assert(self.entries@.dom().subset_of(old(self).entries@.dom()));
                        vstd::set_lib::lemma_len_subset(
                            self.entries@.dom(),
                            old(self).entries@.dom(),
                        );
                    }
                    self.place(entry, hold);
                },
                _ => {},
            }
            proof {
                assert forall|id: u64| #[trigger]
                    old(self).entries@.contains_key(id) && old(self).places@[id]
                        >= left implies self.entries@.contains_key(id) by {
                    assert(old(self).located(id));
                }
            }
        }
        proof {
            assert forall|id: u64| #[trigger]
                old(self).entries@.contains_key(id) implies self.entries@.contains_key(id) by {
                assert(old(self).located(id));
            }
            assert(self.entries@ =~= old(self).entries@);
        }
    }
}

impl<T: ?Sized + Eq> Slots<T> {
    /// Finds the slot of the entry with a given code and value.
    fn find(&self, code: u64, value: &T) -> (r: Option<usize>)
        requires
            self.shaped(),
        ensures
            match r {
                Some(p) => {
                    &&& p < self.slots@.len()
                    &&& self.slots@[p as int] matches Slot::Full(e, _) && holds(
                        self.entries@,
                        e,
                        code,
                        value,
                    )
                },
                None => lacks(self.entries@, code, value),
            },
    {
        let cap: usize = self.slots.len();
        if cap == 0 {
            assert forall|id: u64| #[trigger] self.entries@.contains_key(id) implies false by {
                assert(self.located(id));
            }
            return None;
        }
        let home: usize = (code % cap as u64) as usize;
        let mut pos: usize = home;
        let mut step: usize = 0;
        while step < cap
            invariant
                self.shaped(),
                cap == self.slots@.len(),
                0 < cap,
                home < cap,
                home == home_of(code, cap as int),
                step <= cap,
                step < cap ==> pos == stepped(home as int, step as int, cap as int),
                forall|j: int|
                    0 <= j < step ==> ((#[trigger] self.slots@[stepped(
                        home as int,
                        j,
                        cap as int,
                    )]) matches Slot::Full(e, _) ==> {
                        &&& e.code() == code ==> answered(e.value(), value, false)
                        &&& specified_eq::<T>() ==> !matching(&*e, code, value)
                    }),
            decreases cap - step,
        {
            match &self.slots[pos] {
                Slot::Empty => {
                    proof {
                        self.lemma_lacks(code, value, step as int);
                    }
                    return None;
                },
                Slot::Full(e, _) => {
                    if e.get_code() == code && e.get_value().eq(value) {
                        assert(self.settled(pos as int));
                        return Some(pos);
                    }
                },
                Slot::Deleted => {},
            }
            step = step + 1;
            pos = if pos + 1 < cap {
                pos + 1
            } else {
                0
            };
        }
        proof {
            self.lemma_lacks(code, value, cap as int);
        }
        None
    }

    /// A search that has met an empty slot, or has seen all, and has not found a
    /// value, shows that the table lacks it.
    proof fn lemma_lacks(&self, code: u64, value: &T, step: int)
        requires
            self.shaped(),
            0 <= step <= self.slots@.len(),
            step < self.slots@.len() ==> self.slots@[stepped(
                home_of(code, self.slots@.len() as int),
                step,
                self.slots@.len() as int,
            )] is Empty,
            forall|j: int|
                0 <= j < step ==> ((#[trigger] self.slots@[stepped(
                    home_of(code, self.slots@.len() as int),
                    j,
                    self.slots@.len() as int,
                )]) matches Slot::Full(e, _) ==> {
                    &&& e.code() == code ==> answered(e.value(), value, false)
                    &&& specified_eq::<T>() ==> !matching(&*e, code, value)
                }),
        ensures
            lacks(self.entries@, code, value),
    {
        assert forall|id: u64| #[trigger]
            self.entries@.contains_key(id) && self.entries@[id].code() == code implies answered(
            self.entries@[id].value(),
            value,
            false,
        ) && (specified_eq::<T>() ==> !matching(&*self.entries@[id], code, value)) by {
            if self.entries@[id].code() == code {
                self.lemma_passed(id, step);
            }
        }
    }
}

/// The largest number of entries of a table, which is more than fit into the
/// memory of a machine.
pub const MAX_LEN: usize = usize::MAX / 4;

/// What asking a table for a value comes to: the entry that it has for the
/// value, with one more reference counted, or a new entry, which goes by a number
/// that no other entry has. A table that has run out of room gives out an entry
/// that it does not keep. A value that was not needed is handed back.
pub open spec fn interned<T: ?Sized + Eq>(
    before: &HashTable<T>,
    after: &HashTable<T>,
    code: u64,
    value: Box<T>,
    entry: Arc<RefCounted<T>>,
    surplus: Option<Box<T>>,
) -> bool {
    ||| {
        &&& holds(before.entries(), entry, code, &*value)
        &&& entry.retained()
        &&& surplus == Some(value)
        &&& after.entries() == before.entries()
    }
    ||| {
        &&& lacks(before.entries(), code, &*value)
        &&& entry.value() == &*value
        &&& surplus is None
        &&& if before.exhausted() {
            &&& entry.initial() == Count::fresh()
            &&& after.entries() == before.entries()
        } else {
            &&& !before.entries().contains_key(entry.id())
            &&& entry.code() == code
            &&& entry.initial() == Count::fresh().heated().retained()
            &&& after.entries() == before.entries().insert(entry.id(), entry)
        }
    }
}

/// What asking a table to give an entry up comes to, where `sole` tells whether
/// only the table refers to it.
pub open spec fn removed<T: ?Sized + Eq>(
    before: &HashTable<T>,
    after: &HashTable<T>,
    id: u64,
    code: u64,
    sole: bool,
    r: (bool, Option<Arc<RefCounted<T>>>),
) -> bool {
    if !before.has(id, code) {
        r == (true, None::<Arc<RefCounted<T>>>) && after.entries() == before.entries()
    } else if sole {
        r == (true, Some(before.entries()[id])) && after.entries() == before.entries().remove(id)
    } else {
        r == (false, None::<Arc<RefCounted<T>>>) && after.entries() == before.entries()
    }
}

/// Whether a table may be found to have a given entry, or not to have it. An
/// entry that stands under the same number and code is taken for another one
/// only where `Arc::ptr_eq` tells the two apart.
pub open spec fn owned<T: ?Sized + Eq>(
    table: &HashTable<T>,
    value: Arc<RefCounted<T>>,
    answer: bool,
) -> bool {
    if answer {
        table.has(value.id(), value.code()) && table.entries()[value.id()] == value
    } else {
        table.has(value.id(), value.code()) ==> placed(
            table.entries()[value.id()],
            value,
            false,
        )
    }
}

/// What asking a table to give up a given entry comes to, where `own` tells
/// whether the entry was found in the table, and its count was found as given.
pub open spec fn taken_out<T: ?Sized + Eq>(
    before: &HashTable<T>,
    after: &HashTable<T>,
    value: Arc<RefCounted<T>>,
    own: bool,
    count: Count,
    r: (bool, Option<Arc<RefCounted<T>>>),
) -> bool {
    &&& owned(before, value, own)
    &&& if own {
        &&& count.valid()
        &&& value.counted(count, count.reclaimed())
        &&& removed(before, after, value.id(), value.code(), count.sole(), r)
        &&& r.1 matches Some(entry) ==> entry == value
    } else {
        &&& r == (true, None::<Arc<RefCounted<T>>>)
        &&& after.entries() == before.entries()
    }
}

/// A hash table of counted values.
pub struct HashTable<T: ?Sized + Eq> {
    slots: Slots<T>,
}

impl<T: ?Sized + Eq> HashTable<T> {
    #[verifier::type_invariant]
    spec fn sound(self) -> bool {
        &&& self.slots.shaped()
        &&& distinct(self.slots.entries@)
    }

    /// The entries, by number.
    pub closed spec fn entries(&self) -> Map<u64, Arc<RefCounted<T>>> {
        self.slots.entries@
    }

    /// What holds of every table: there are finitely many entries, they go by
    /// their numbers, and no two have the same code and value.
    pub open spec fn valid(&self) -> bool {
        &&& self.entries().dom().finite()
        &&& numbered(self.entries())
        &&& distinct(self.entries())
    }

    /// Whether the table cannot take another entry.
    pub open spec fn exhausted(&self) -> bool {
        self.entries().len() >= MAX_LEN
    }

    /// Whether there is an entry with a given number and code.
    pub open spec fn has(&self, id: u64, code: u64) -> bool {
        self.entries().contains_key(id) && self.entries()[id].code() == code
    }

    /// A table without entries.
    pub fn new() -> (r: Self)
        ensures
            r.entries() == Map::<u64, Arc<RefCounted<T>>>::empty(),
            r.valid(),
    {
        HashTable { slots: Slots::empty() }
    }

    /// The number of entries.
    pub fn len(&self) -> (r: usize)
        ensures
            r == self.entries().len(),
            self.valid(),
    {
        proof {
            use_type_invariant(self);
        }
        self.slots.len
    }

    /// Finds the entry with a given code and value.
    pub fn get(&self, code: u64, value: &T) -> (r: Option<&Arc<RefCounted<T>>>)
        ensures
            match r {
                Some(entry) => holds(self.entries(), *entry, code, value),
                None => lacks(self.entries(), code, value),
            },
            self.valid(),
    {
        proof {
            use_type_invariant(self);
        }
        match self.slots.find(code, value) {
            Some(at) => match &self.slots.slots[at] {
                Slot::Full(entry, _) => Some(entry),
                _ => None,
            },
            None => None,
        }
    }

    /// Finds the entry with a given code and value, and counts the caller's
    /// reference to it.
    pub fn lookup(&self, code: u64, value: &T) -> (r: Option<Counted<T>>)
        ensures
            match r {
                Some(found) => holds(self.entries(), found.entry(), code, value)
                    && found.entry().retained(),
                None => lacks(self.entries(), code, value),
            },
            self.valid(),
    {
        proof {
            use_type_invariant(self);
        }
        match self.slots.find(code, value) {
            Some(at) => match &self.slots.slots[at] {
                Slot::Full(entry, hold) => {
                    assert(self.slots.settled(at as int));
                    Some(hold.lend(entry))
                },
                _ => None,
            },
            None => None,
        }
    }

    /// Finds the entry with a given code and value, or adds one. Either way the
    /// caller's reference to the result is counted.
    pub fn intern(&mut self, code: u64, value: Box<T>) -> (r: (Counted<T>, Option<Box<T>>))
        ensures
            interned(old(self), final(self), code, value, r.0.entry(), r.1),
            old(self).valid(),
            final(self).valid(),
    {
        if let Some(found) = self.lookup(code, &value) {
            return (found, Some(value));
        }
        let mut slots: Slots<T> = Slots::empty();
        proof {
            use_type_invariant(&*self);
        }
        if self.slots.len >= MAX_LEN {
            return (RefCounted::loose(value), None);
        }
        core::mem::swap(&mut slots, &mut self.slots);
        if slots.len >= slots.cap || slots.used / 3 >= slots.cap / 4 {
            let cap: usize = slots.len * 2 + 8;
            slots.rebuild(cap);
        }
        let id: u64 = slots.number();
        let (counted, hold) = RefCounted::kept(id, code, value);
        slots.place(counted.get().clone(), hold);
        core::mem::swap(&mut slots, &mut self.slots);
        (counted, None)
    }

    /// Gives an entry up if only the table refers to it, and counts the table's
    /// reference to it less.
    pub fn remove(&mut self, id: u64, code: u64, sole: bool) -> (r: (
        bool,
        Option<Arc<RefCounted<T>>>,
    ))
        ensures
            removed(old(self), final(self), id, code, sole, r),
            r.1 matches Some(entry) ==> discarded(entry),
            old(self).valid(),
            final(self).valid(),
        opens_invariants none
        no_unwind
    {
        proof {
            use_type_invariant(&*self);
        }
        match self.slots.position(id, code) {
            Some(at) => {
                if sole {
                    match self.slots.take(at) {
                        Some((entry, hold)) => {
                            discard(&entry, hold);
                            (true, Some(entry))
                        },
                        None => (true, None),
                    }
                } else {
                    (false, None)
                }
            },
            None => (true, None),
        }
    }

    /// Tells whether a given entry is in the table.
    pub fn owns(&mut self, value: &Arc<RefCounted<T>>) -> (r: bool)
        ensures
            owned(old(self), *value, r),
            old(self).valid(),
            final(self).entries() == old(self).entries(),
        opens_invariants none
        no_unwind
    {
        proof {
            use_type_invariant(&*self);
        }
        let id: u64 = value.get_id();
        let code: u64 = value.get_code();
        match self.slots.position(id, code) {
            Some(at) => self.slots.is_own(at, value),
            None => false,
        }
    }

    /// Gives a given entry up if only the table refers to it; where others do,
    /// one of them gets the clean-up duty.
    pub fn take_out(&mut self, value: &Arc<RefCounted<T>>) -> (r: (
        bool,
        Option<Arc<RefCounted<T>>>,
    ))
        ensures
            exists|own: bool, count: Count| #[trigger]
                taken_out(old(self), final(self), *value, own, count, r),
            r.1 matches Some(entry) ==> discarded(entry),
            old(self).valid(),
            final(self).valid(),
        opens_invariants none
        no_unwind
    {
        proof {
            use_type_invariant(&*self);
        }
        if !self.owns(value) {
            proof {
                use_type_invariant(&*self);
            }
            assert(taken_out(old(self), &*self, *value, false, Count::fresh(), (true, None)));
            return (true, None);
        }
        proof {
            use_type_invariant(&*self);
        }
        let id: u64 = value.get_id();
        let code: u64 = value.get_code();
        let sole = self.slots.reclaim(id, code);
        let ghost count = choose|count: Count|
            count.valid() && #[trigger] value.counted(count, count.reclaimed()) && sole
                == count.sole();
        let r = self.remove(id, code, sole);
        assert(taken_out(old(self), &*self, *value, true, count, r));
        r
    }

    /// Takes all entries out and counts the table's reference to each one less.
    pub fn release_all(&mut self)
        ensures
            final(self).entries() == Map::<u64, Arc<RefCounted<T>>>::empty(),
            old(self).valid(),
            forall|id: u64| #[trigger]
                old(self).entries().contains_key(id) ==> discarded(old(self).entries()[id]),
        opens_invariants none
        no_unwind
    {
        proof {
            use_type_invariant(&*self);
        }
        self.slots.drain();
    }
}

/// Asking for equal values, one after the other, gives the same entry, and adds
/// nothing the second time. The one exception is a value that was not there and
/// that an exhausted table could not take.
pub proof fn law_same_entry<T: ?Sized + Eq>(
    first: &HashTable<T>,
    second: &HashTable<T>,
    third: &HashTable<T>,
    code: u64,
    a: Box<T>,
    b: Box<T>,
    entry_a: Arc<RefCounted<T>>,
    entry_b: Arc<RefCounted<T>>,
    surplus_a: Option<Box<T>>,
    surplus_b: Option<Box<T>>,
)
    requires
        lawful_eq::<T>(),
        second.valid(),
        interned(first, second, code, a, entry_a, surplus_a),
        interned(second, third, code, b, entry_b, surplus_b),
        same::<T>(&*a, &*b),
        first.exhausted() ==> !lacks(first.entries(), code, &*a),
    ensures
        entry_a == entry_b,
        surplus_b == Some(b),
        third.entries() == second.entries(),
{
    let entries = second.entries();
    assert(same(entry_a.value(), entry_a.value()));
    assert(same::<T>(entry_a.value(), &*a));
    assert(entries.contains_key(entry_a.id()) && entries[entry_a.id()] == entry_a);
    assert(same::<T>(entry_a.value(), &*b));
    if holds(entries, entry_b, code, &*b) {
        assert(same::<T>(&*b, entry_b.value()));
        assert(same::<T>(entry_a.value(), entry_b.value()));
        if entry_a.id() != entry_b.id() {
            assert(matching(
                &*entries[entry_a.id()],
                entries[entry_b.id()].code(),
                entries[entry_b.id()].value(),
            ));
        }
    } else {
        assert(matching(&*entries[entry_a.id()], code, &*b));
    }
}

/// Whether the asking with the given number, of those that follow one another,
/// came to what it should.
pub open spec fn interned_at<T: ?Sized + Eq>(
    tables: Seq<HashTable<T>>,
    code: u64,
    values: Seq<Box<T>>,
    entries: Seq<Arc<RefCounted<T>>>,
    surplus: Seq<Option<Box<T>>>,
    n: int,
) -> bool {
    interned(&tables[n], &tables[n + 1], code, values[n], entries[n], surplus[n])
}

/// However many ask for equal values, one after the other, they all get the same
/// entry, and at most one entry is added.
pub proof fn law_interned_by_all<T: ?Sized + Eq>(
    tables: Seq<HashTable<T>>,
    code: u64,
    values: Seq<Box<T>>,
    entries: Seq<Arc<RefCounted<T>>>,
    surplus: Seq<Option<Box<T>>>,
    n: int,
)
    requires
        lawful_eq::<T>(),
        0 <= n < values.len(),
        forall|k: int| 0 <= k <= n + 1 ==> (#[trigger] tables[k]).valid(),
        forall|k: int|
            0 <= k <= n ==> #[trigger] interned_at(tables, code, values, entries, surplus, k),
        forall|i: int, j: int|
            0 <= i <= n && 0 <= j <= n ==> same::<T>(&*#[trigger] values[i], &*#[trigger] values[j]),
        !tables[0].exhausted(),
    ensures
        forall|k: int| 0 <= k <= n ==> #[trigger] entries[k] == entries[0],
        tables[n + 1].entries() == tables[1].entries(),
        tables[n + 1].entries().len() <= tables[0].entries().len() + 1,
    decreases n,
{
    assert(interned_at(tables, code, values, entries, surplus, 0));
    if n > 0 {
        law_interned_by_all(tables, code, values, entries, surplus, n - 1);
        assert(interned_at(tables, code, values, entries, surplus, n));
        assert(tables[n].valid());
        assert(interned(&tables[0], &tables[n], code, values[0], entries[0], surplus[0]));
        law_same_entry(
            &tables[0],
            &tables[n],
            &tables[n + 1],
            code,
            values[0],
            values[n],
            entries[0],
            entries[n],
            surplus[0],
            surplus[n],
        );
    }
}

/// Finding a value is what asking for it comes to where it is there: it does not
/// matter by which of the two an entry was obtained.
pub proof fn law_lookup_is_intern<T: ?Sized + Eq>(
    table: &HashTable<T>,
    code: u64,
    value: Box<T>,
    entry: Arc<RefCounted<T>>,
)
    requires
        holds(table.entries(), entry, code, &*value),
        entry.retained(),
    ensures
        interned(table, table, code, value, entry, Some(value)),
{
}

/// Asking for values that are not equal gives different entries.
pub proof fn law_different_entries<T: ?Sized + Eq>(
    first: &HashTable<T>,
    second: &HashTable<T>,
    third: &HashTable<T>,
    fourth: &HashTable<T>,
    code_a: u64,
    code_b: u64,
    a: Box<T>,
    b: Box<T>,
    entry_a: Arc<RefCounted<T>>,
    entry_b: Arc<RefCounted<T>>,
    surplus_a: Option<Box<T>>,
    surplus_b: Option<Box<T>>,
)
    requires
        lawful_eq::<T>(),
        interned(first, second, code_a, a, entry_a, surplus_a),
        interned(third, fourth, code_b, b, entry_b, surplus_b),
        !same::<T>(&*a, &*b),
    ensures
        entry_a != entry_b,
        !same::<T>(entry_a.value(), entry_b.value()),
{
    assert(same(entry_a.value(), entry_a.value()));
    assert(same(entry_b.value(), entry_b.value()));
    assert(same::<T>(entry_a.value(), &*a));
    assert(same::<T>(entry_b.value(), &*b));
    assert(same::<T>(&*a, entry_a.value()));
    if same::<T>(entry_a.value(), entry_b.value()) {
        assert(same::<T>(&*a, entry_b.value()));
        assert(same::<T>(&*a, &*b));
    }
}

/// An entry that was added for a value and is given up again leaves the table
/// with what it had before.
pub proof fn law_remove_undoes_intern<T: ?Sized + Eq>(
    first: &HashTable<T>,
    second: &HashTable<T>,
    third: &HashTable<T>,
    code: u64,
    value: Box<T>,
    entry: Arc<RefCounted<T>>,
    r: (bool, Option<Arc<RefCounted<T>>>),
)
    requires
        first.valid(),
        !first.exhausted(),
        interned(first, second, code, value, entry, None),
        removed(second, third, entry.id(), code, true, r),
    ensures
        r == (true, Some(entry)),
        third.entries() == first.entries(),
{
    assert(!first.entries().contains_key(entry.id()));
    assert(third.entries() =~= first.entries());
}

/// A value whose entry was given up is no longer in the table.
pub proof fn law_removed_is_gone<T: ?Sized + Eq>(
    first: &HashTable<T>,
    second: &HashTable<T>,
    id: u64,
    code: u64,
    r: (bool, Option<Arc<RefCounted<T>>>),
)
    requires
        lawful_eq::<T>(),
        first.valid(),
        first.has(id, code),
        removed(first, second, id, code, true, r),
    ensures
        forall|other: u64| #[trigger]
            second.entries().contains_key(other) ==> !matching(
                &*second.entries()[other],
                code,
                first.entries()[id].value(),
            ),
        second.entries().len() == first.entries().len() - 1,
{
    assert forall|other: u64| #[trigger] second.entries().contains_key(other) implies !matching(
        &*second.entries()[other],
        code,
        first.entries()[id].value(),
    ) by {
        assert(first.entries()[other] == second.entries()[other]);
        assert(first.entries()[id].code() == code);
    }
}

/// Entries come and go without an effect on the others.
pub proof fn law_others_stay<T: ?Sized + Eq>(
    first: &HashTable<T>,
    second: &HashTable<T>,
    third: &HashTable<T>,
    code: u64,
    value: Box<T>,
    entry: Arc<RefCounted<T>>,
    surplus: Option<Box<T>>,
    id: u64,
    gone_code: u64,
    sole: bool,
    r: (bool, Option<Arc<RefCounted<T>>>),
)
    requires
        first.valid(),
        interned(first, second, code, value, entry, surplus),
        removed(second, third, id, gone_code, sole, r),
    ensures
        forall|other: u64| #[trigger]
            first.entries().contains_key(other) ==> second.entries().contains_key(other)
                && second.entries()[other] == first.entries()[other],
        forall|other: u64| #[trigger]
            second.entries().contains_key(other) && other != id ==> third.entries().contains_key(
                other,
            ) && third.entries()[other] == second.entries()[other],
        forall|other: u64| #[trigger]
            second.entries().contains_key(other) && !first.entries().contains_key(other) ==> other
                == entry.id(),
{
}

/// Asking a table for a value leaves everything in it that was there. It has at
/// most one entry more, the one that was handed out, and that only where no entry
/// was found and there was room; the entry that was handed out is in it then, as
/// it is where it was found.
pub proof fn law_intern_adds_one<T: ?Sized + Eq>(
    before: &HashTable<T>,
    after: &HashTable<T>,
    code: u64,
    value: Box<T>,
    entry: Arc<RefCounted<T>>,
    surplus: Option<Box<T>>,
)
    requires
        before.valid(),
        interned(before, after, code, value, entry, surplus),
    ensures
        forall|id: u64| #[trigger]
            before.entries().contains_key(id) ==> after.entries().contains_key(id)
                && after.entries()[id] == before.entries()[id],
        after.entries().len() == before.entries().len() + if surplus is None && !before.exhausted() {
            1int
        } else {
            0int
        },
        surplus is None && before.exhausted() || after.entries().contains_key(entry.id())
            && after.entries()[entry.id()] == entry,
        surplus is None ==> lacks(before.entries(), code, &*value),
{
}

/// Where equal values have equal codes, a table has no two entries for equal
/// values, and one that lacks a value under its code lacks it altogether.
pub proof fn law_unique_values<T: ?Sized + Eq>(table: &HashTable<T>, code_of: spec_fn(&T) -> u64)
    requires
        lawful_eq::<T>(),
        table.valid(),
        forall|a: &T, b: &T| #[trigger] same(a, b) ==> code_of(a) == code_of(b),
        forall|id: u64| #[trigger]
            table.entries().contains_key(id) ==> table.entries()[id].code() == code_of(
                table.entries()[id].value(),
            ),
    ensures
        forall|a: u64, b: u64|
            #![trigger table.entries()[a], table.entries()[b]]
            table.entries().contains_key(a) && table.entries().contains_key(b) && a != b ==> !same(
                table.entries()[a].value(),
                table.entries()[b].value(),
            ),
        forall|value: &T, id: u64|
            #![trigger same(table.entries()[id].value(), value)]
            lacks(table.entries(), code_of(value), value) && table.entries().contains_key(id)
                ==> !same(table.entries()[id].value(), value),
{
    assert forall|value: &T, id: u64|
        #![trigger same(table.entries()[id].value(), value)]
        lacks(table.entries(), code_of(value), value) && table.entries().contains_key(
            id,
        ) implies !same(table.entries()[id].value(), value) by {
        assert(!matching(&*table.entries()[id], code_of(value), value));
    }
    assert forall|a: u64, b: u64|
        #![trigger table.entries()[a], table.entries()[b]]
        table.entries().contains_key(a) && table.entries().contains_key(b) && a != b implies !same(
        table.entries()[a].value(),
        table.entries()[b].value(),
    ) by {
        assert(!matching(
            &*table.entries()[a],
            table.entries()[b].code(),
            table.entries()[b].value(),
        ));
    }
}

} // verus!
