//! The life of an interned value.
//!
//! Any number of threads make and drop references to a value, ask for the same
//! value again, and may drop the interner, all at the same time. Each of them
//! works in steps that take a lock:
//!
//!  - [`Step::Ask`]: the value is found in the interner's table, and the
//!    reference that is handed out is counted, all under the table's lock
//!  - [`Step::Copy`]: a reference is copied, under the count's lock
//!  - [`Step::Drop`]: a reference is given up, under the count's lock
//!  - [`Step::Cleanup`]: whoever got the clean-up duty from a drop asks the
//!    interner to take the value out, under the table's lock and the count's
//!  - [`Step::Close`]: the interner is dropped and its table emptied, under the
//!    table's lock
//!  - [`Step::Discard`]: a reference that was taken out of the table is given
//!    up, under the count's lock
//!
//! A value's life is a sequence of such steps, in any order. The laws of this
//! module hold at every point of every such life.
//!
//! The steps are those of the code by three arguments. That each access to a
//! count or to a table has the effect of its step is proved: the contracts of the
//! functions that make it say which access they make, and the last laws of this
//! module say that it is the step's. That a count goes up with each reference and
//! down with each reference only, and that a table is changed by nothing but
//! these steps, is a matter of types: a count can be changed only with a right to
//! a reference, which cannot be copied and is used up by it, and the locks offer
//! no access but the steps (see [`sync`](crate::sync)). That the accesses to one
//! lock come one after the other, each finding what the one before has left, is
//! what a lock is for; it is not proved.
//!
//! Each counted reference, that of the interner included, goes along with an
//! `Arc` to the value, in the handle or in the table's slot. So it is the `Arc`
//! that frees the value, together with the last of them. [`Life::freed`] says
//! when the count has come to that point; that the `Arc` agrees is not proved,
//! for how many there are of it is not part of its value.
use crate::hash_table::{self, HashTable};
use crate::ord_table::{self, OrdTable};
use crate::ref_count::{
    cleaned_up, discarded, given_up, Count, Interner, RefCounted, Release, Share, MAX_REFCOUNT,
};
use std::sync::Arc;
use vstd::prelude::*;

verus! {

/// A point in the life of a value that was interned.
pub struct Life {
    /// The count of its references.
    pub count: Count,
    /// Whether the interner still exists.
    pub open: bool,
    /// Whether the value is in the interner's table.
    pub kept: bool,
    /// How many references are in the hands of users.
    pub handles: nat,
    /// How many users have the clean-up duty and have yet to see to it.
    pub duties: nat,
    /// How many references were taken out of the table and not yet given up.
    pub detached: nat,
    /// Whether the value was freed.
    pub freed: bool,
}

/// What can happen to a value.
pub enum Step {
    /// The interner is asked for it.
    Ask,
    /// A reference to it is copied.
    Copy,
    /// A reference to it is dropped.
    Drop,
    /// The clean-up duty is seen to.
    Cleanup,
    /// The interner is dropped.
    Close,
    /// The interner's former reference to it is dropped.
    Discard,
}

impl Life {
    /// The life of a value that was added to an interner just now and handed to
    /// whoever asked for it.
    pub open spec fn start() -> Life {
        Life {
            count: Count::fresh().heated().retained(),
            open: true,
            kept: true,
            handles: 1,
            duties: 0,
            detached: 0,
            freed: false,
        }
    }

    /// Whether a step can happen. References can be copied and dropped by those
    /// who have one, the clean-up duty can be seen to by those who have it; an
    /// interner can be asked, and dropped, as long as there is one.
    pub open spec fn can(self, step: Step) -> bool {
        match step {
            Step::Ask => self.open && self.kept,
            Step::Copy => self.handles > 0,
            Step::Drop => self.handles > 0,
            Step::Cleanup => self.duties > 0,
            Step::Close => self.open,
            Step::Discard => self.detached > 0,
        }
    }

    /// The life after a step.
    pub open spec fn after(self, step: Step) -> Life {
        match step {
            Step::Ask | Step::Copy => Life {
                count: self.count.retained(),
                handles: self.handles + 1,
                ..self
            },
            Step::Drop => Life {
                count: self.count.released(),
                handles: (self.handles - 1) as nat,
                duties: if self.count.release() == Release::Cleanup {
                    self.duties + 1
                } else {
                    self.duties
                },
                freed: self.freed || self.count.release() == Release::Last,
                ..self
            },
            Step::Cleanup => {
                let rid = Life { duties: (self.duties - 1) as nat, ..self };
                if !self.kept {
                    rid
                } else if self.count.sole() {
                    Life { kept: false, detached: self.detached + 1, ..rid }
                } else {
                    Life { count: self.count.reclaimed(), ..rid }
                }
            },
            Step::Close => Life {
                open: false,
                kept: false,
                detached: if self.kept {
                    self.detached + 1
                } else {
                    self.detached
                },
                ..self
            },
            Step::Discard => Life {
                count: self.count.released(),
                detached: (self.detached - 1) as nat,
                freed: self.freed || self.count.release() == Release::Last,
                ..self
            },
        }
    }

    /// How many references there are, the one of the interner included.
    pub open spec fn references(self) -> nat {
        self.handles + self.detached + if self.kept {
            1nat
        } else {
            0nat
        }
    }

    /// What holds at every point of every life.
    pub open spec fn sound(self) -> bool {
        &&& self.count.valid()
        &&& !self.freed && !self.count.pinned() ==> self.count.refs == self.references()
        &&& self.freed ==> self.references() == 0
        &&& self.kept ==> self.open && self.detached == 0
        &&& self.duties + (if self.count.hot {
            1nat
        } else {
            0nat
        }) <= 1
        &&& self.kept ==> self.count.hot || self.duties == 1
        &&& self.open && self.handles > 0 ==> self.kept
        &&& self.count.refs == 1 ==> !self.count.hot
    }
}

/// The life after a sequence of steps.
pub open spec fn lived(life: Life, steps: Seq<Step>) -> Life
    decreases steps.len(),
{
    if steps.len() == 0 {
        life
    } else {
        lived(life, steps.drop_last()).after(steps.last())
    }
}

/// Whether a sequence of steps can happen one after the other.
pub open spec fn possible(life: Life, steps: Seq<Step>) -> bool
    decreases steps.len(),
{
    steps.len() > 0 ==> possible(life, steps.drop_last()) && lived(life, steps.drop_last()).can(
        steps.last(),
    )
}

/// A step keeps a life sound.
pub proof fn law_step(life: Life, step: Step)
    requires
        life.sound(),
        life.can(step),
    ensures
        life.after(step).sound(),
{
}

/// Whatever happens to an interned value, in whatever order, its life is sound.
pub proof fn law_life(steps: Seq<Step>)
    requires
        possible(Life::start(), steps),
    ensures
        lived(Life::start(), steps).sound(),
    decreases steps.len(),
{
    if steps.len() > 0 {
        law_life(steps.drop_last());
        law_step(lived(Life::start(), steps.drop_last()), steps.last());
    }
}

/// The count of a value that was not freed is the number of its references, the
/// one of the interner included, unless there were more at once than can be
/// counted.
pub proof fn law_counted(steps: Seq<Step>)
    requires
        possible(Life::start(), steps),
    ensures
        ({
            let life = lived(Life::start(), steps);
            !life.freed && !life.count.pinned() ==> life.count.refs == life.references()
        }),
{
    law_life(steps);
}

/// A count is exceeded only if there were more references at once than can be
/// counted.
pub proof fn law_not_pinned(steps: Seq<Step>)
    requires
        possible(Life::start(), steps),
        forall|n: int|
            0 <= n <= steps.len() ==> (#[trigger] lived(
                Life::start(),
                steps.take(n),
            )).references() <= MAX_REFCOUNT,
    ensures
        !lived(Life::start(), steps).count.pinned(),
    decreases steps.len(),
{
    if steps.len() > 0 {
        let earlier = steps.drop_last();
        assert forall|n: int| 0 <= n <= earlier.len() implies (#[trigger] lived(
            Life::start(),
            earlier.take(n),
        )).references() <= MAX_REFCOUNT by {
            assert(earlier.take(n) =~= steps.take(n));
        }
        law_not_pinned(earlier);
        law_life(earlier);
        assert(steps.take(steps.len() as int) =~= steps);
    }
}

/// A value is freed when the last reference to it is gone, and not before.
pub proof fn law_freed(steps: Seq<Step>)
    requires
        possible(Life::start(), steps),
    ensures
        ({
            let life = lived(Life::start(), steps);
            &&& life.freed ==> life.references() == 0
            &&& life.references() == 0 && !life.count.pinned() ==> life.freed
        }),
{
    law_life(steps);
}

/// As long as an interner exists and somebody refers to a value, the interner
/// has it and hands it out when asked for it.
pub proof fn law_shared(steps: Seq<Step>)
    requires
        possible(Life::start(), steps),
        lived(Life::start(), steps).open,
        lived(Life::start(), steps).handles > 0,
    ensures
        lived(Life::start(), steps).kept,
        lived(Life::start(), steps).can(Step::Ask),
{
    law_life(steps);
}

/// When nobody refers to a value any more and whoever had the clean-up duty has
/// seen to it, the value is out of the interner.
pub proof fn law_cleaned_up(steps: Seq<Step>)
    requires
        possible(Life::start(), steps),
        lived(Life::start(), steps).handles == 0,
        lived(Life::start(), steps).duties == 0,
        !lived(Life::start(), steps).count.pinned(),
    ensures
        !lived(Life::start(), steps).kept,
{
    law_life(steps);
}

/// The clean-up duty is at no time in the hands of two, and as long as the
/// interner has the value, it is in somebody's hands or up for assignment.
pub proof fn law_single_duty(steps: Seq<Step>)
    requires
        possible(Life::start(), steps),
    ensures
        ({
            let life = lived(Life::start(), steps);
            &&& life.duties <= 1
            &&& life.duties == 1 ==> !life.count.hot
            &&& life.kept ==> life.duties == 1 || life.count.hot
        }),
{
    law_life(steps);
}

/// Whoever has a reference and finds that it is the only one knows that the
/// interner has been dropped.
pub proof fn law_only_reference(steps: Seq<Step>)
    requires
        possible(Life::start(), steps),
        lived(Life::start(), steps).handles > 0,
        lived(Life::start(), steps).count.refs == 1,
    ensures
        !lived(Life::start(), steps).open,
{
    law_life(steps);
}

/// Seeing to the clean-up duty takes the value out of the interner only where
/// nobody refers to it. Otherwise the duty is up for assignment again.
pub proof fn law_cleanup(steps: Seq<Step>)
    requires
        possible(Life::start(), steps),
        lived(Life::start(), steps).can(Step::Cleanup),
        lived(Life::start(), steps).kept,
        !lived(Life::start(), steps).count.pinned(),
    ensures
        ({
            let life = lived(Life::start(), steps);
            let next = life.after(Step::Cleanup);
            &&& next.kept <==> life.handles > 0
            &&& next.kept ==> next.count.hot
        }),
{
    law_life(steps);
}

/// Dropping the interner does not affect those who refer to a value: it is not
/// freed, and once the interner has given up its own reference, the count is
/// that of theirs.
pub proof fn law_close(steps: Seq<Step>)
    requires
        possible(Life::start(), steps),
        lived(Life::start(), steps).open,
        lived(Life::start(), steps).handles > 0,
    ensures
        ({
            let life = lived(Life::start(), steps);
            let closed = life.after(Step::Close);
            let next = closed.after(Step::Discard);
            &&& closed.can(Step::Discard)
            &&& next.handles == life.handles
            &&& !next.freed
            &&& !next.open && !next.kept
            &&& !next.count.pinned() ==> next.count.refs == life.handles
        }),
{
    law_life(steps);
}

/// A copy of a reference that is dropped again leaves everything as it was, as
/// long as the copy could be counted.
pub proof fn law_copy_and_drop(life: Life)
    requires
        life.sound(),
        life.handles > 0,
        life.references() < MAX_REFCOUNT,
        !life.count.pinned(),
    ensures
        life.after(Step::Copy).after(Step::Drop) == life,
{
}

/// The count of a value that its interner has is one more than the number of
/// references in the hands of users.
pub proof fn law_one_more(steps: Seq<Step>)
    requires
        possible(Life::start(), steps),
        lived(Life::start(), steps).kept,
        !lived(Life::start(), steps).count.pinned(),
    ensures
        lived(Life::start(), steps).count.refs == lived(Life::start(), steps).handles + 1,
{
    law_life(steps);
}

/// Once the interner was dropped and has given up its own reference, the count
/// of a value that somebody refers to is the number of references in the hands
/// of users.
pub proof fn law_on_its_own(steps: Seq<Step>)
    requires
        possible(Life::start(), steps),
        !lived(Life::start(), steps).open,
        lived(Life::start(), steps).detached == 0,
        lived(Life::start(), steps).handles > 0,
        !lived(Life::start(), steps).count.pinned(),
    ensures
        lived(Life::start(), steps).count.refs == lived(Life::start(), steps).handles,
{
    law_life(steps);
}

/// While nobody is about to clean up, an interner has exactly the values that
/// somebody refers to, so that their number is its length.
pub proof fn law_settled(steps: Seq<Step>)
    requires
        possible(Life::start(), steps),
        lived(Life::start(), steps).open,
        lived(Life::start(), steps).duties == 0,
        !lived(Life::start(), steps).count.pinned(),
    ensures
        lived(Life::start(), steps).kept <==> lived(Life::start(), steps).handles > 0,
{
    law_life(steps);
}

/// Dropping a reference where at least two others are left lowers the count by
/// one and does nothing else.
pub proof fn law_others_left(life: Life)
    requires
        life.sound(),
        life.can(Step::Drop),
        life.count.refs >= 3,
        !life.count.pinned(),
    ensures
        life.after(Step::Drop) == (Life {
            count: Count { refs: life.count.refs - 1, ..life.count },
            handles: (life.handles - 1) as nat,
            ..life
        }),
{
}

/// Dropping the last reference in the hands of users, and seeing to what that
/// asks for, takes the value out of its interner and frees it.
pub proof fn law_last_handle(life: Life)
    requires
        life.sound(),
        life.open,
        life.handles == 1,
        life.duties == 0,
        !life.count.pinned(),
        !life.freed,
    ensures
        ({
            let dropped = life.after(Step::Drop);
            let cleaned = dropped.after(Step::Cleanup);
            let gone = cleaned.after(Step::Discard);
            &&& dropped.kept && dropped.can(Step::Cleanup) && !dropped.freed
            &&& !cleaned.kept && cleaned.can(Step::Discard) && !cleaned.freed
            &&& gone.freed && gone.references() == 0 && gone.duties == 0
        }),
{
}

/// Where a value is asked for before the one who has the clean-up duty has seen
/// to it, the value stays and the duty is handed on: whoever drops the reference
/// that was handed out gets it, and takes the value out.
pub proof fn law_handed_on(life: Life)
    requires
        life.sound(),
        life.open,
        life.kept,
        life.handles == 0,
        life.can(Step::Cleanup),
        !life.count.pinned(),
        !life.freed,
    ensures
        ({
            let asked = life.after(Step::Ask);
            let stayed = asked.after(Step::Cleanup);
            let dropped = stayed.after(Step::Drop);
            let cleaned = dropped.after(Step::Cleanup);
            &&& life.can(Step::Ask) && asked.can(Step::Cleanup)
            &&& stayed.kept && stayed.count.refs == 2 && stayed.count.hot && stayed.duties == 0
            &&& dropped.duties == 1 && dropped.kept
            &&& !cleaned.kept
        }),
{
}

/// A value is freed once: it stays freed, and nobody has a reference whose drop
/// could free it again.
pub proof fn law_freed_once(life: Life, step: Step)
    requires
        life.sound(),
        life.can(step),
        life.freed,
    ensures
        life.after(step).freed,
        step !is Drop,
        step !is Discard,
        step !is Copy,
        step !is Ask,
{
}

/// A value is freed by the step that takes its count from one to none.
pub proof fn law_freed_by_last(life: Life, step: Step)
    requires
        life.sound(),
        life.can(step),
        !life.freed,
        life.after(step).freed,
    ensures
        life.count.refs == 1,
        life.references() == 1,
        step is Drop || step is Discard,
        life.after(step).references() == 0,
{
}

/// The access that a clone makes to a count is that of [`Step::Copy`].
pub proof fn law_copy_step<T: ?Sized>(entry: Arc<RefCounted<T>>, life: Life)
    requires
        entry.counted(life.count, life.count.retained()),
        life.can(Step::Copy),
    ensures
        entry.counted(life.count, life.after(Step::Copy).count),
        life.after(Step::Copy).handles == life.handles + 1,
{
}

/// What dropping a reference comes to is [`Step::Drop`]: the access to the count
/// is the step's, and where the step gives out the clean-up duty, the interner
/// was asked to take the value out.
pub proof fn law_drop_step<I: Interner>(
    home: &I,
    entry: Arc<RefCounted<I::T>>,
    share: Share<I::T>,
    life: Life,
)
    requires
        given_up(home, entry, share, life.count),
        life.can(Step::Drop),
    ensures
        entry.counted(life.count, life.after(Step::Drop).count),
        life.after(Step::Drop).duties > life.duties ==> cleaned_up(home, entry),
        life.after(Step::Drop).freed && !life.freed ==> life.count.refs == 1,
{
}

/// Dropping a reference lowers the count by one, no more and no less, as long as
/// it could be counted and others are left. The duty to clean up falls to the one
/// who drops the reference only if it is up for assignment and a single reference
/// is left; who drops any other one leaves the duty alone.
pub proof fn law_drop_lowers_by_one<I: Interner>(
    home: &I,
    entry: Arc<RefCounted<I::T>>,
    share: Share<I::T>,
    count: Count,
)
    requires
        given_up(home, entry, share, count),
        2 <= count.refs <= MAX_REFCOUNT,
    ensures
        exists|left: Count|
            {
                &&& #[trigger] entry.counted(count, left)
                &&& left.refs == count.refs - 1
                &&& left.refs >= 2 ==> left.hot == count.hot
                &&& left.refs == 1 ==> !left.hot
                &&& left.refs == 1 && count.hot ==> cleaned_up(home, entry)
            },
{
    assert(entry.counted(count, count.released()));
}

/// Dropping references one after the other, each drop finding the count that the
/// one before has left, lowers the count by their number. The duty to clean up
/// falls to one of them at most, and to the last one where it is up for
/// assignment and a single reference is left.
pub proof fn law_drops<I: Interner>(
    home: &I,
    entry: Arc<RefCounted<I::T>>,
    shares: Seq<Share<I::T>>,
    counts: Seq<Count>,
)
    requires
        counts.len() == shares.len() + 1,
        shares.len() < counts[0].refs <= MAX_REFCOUNT,
        forall|i: int|
            0 <= i < shares.len() ==> given_up(home, entry, #[trigger] shares[i], counts[i])
                && counts[i + 1] == counts[i].released(),
    ensures
        counts.last().refs == counts[0].refs - shares.len(),
        forall|i: int|
            0 <= i < shares.len() && (#[trigger] counts[i]).release() == Release::Cleanup ==> i + 1
                == shares.len() && counts.last().refs == 1,
        shares.len() > 0 && counts.last().refs == 1 && counts[0].hot ==> cleaned_up(home, entry),
    decreases shares.len(),
{
    if shares.len() > 0 {
        let n = shares.len() - 1;
        let earlier = counts.drop_last();
        assert forall|i: int| 0 <= i < n implies given_up(
            home,
            entry,
            #[trigger] shares.drop_last()[i],
            earlier[i],
        ) && earlier[i + 1] == earlier[i].released() by {
            assert(given_up(home, entry, shares[i], counts[i]));
        }
        law_drops(home, entry, shares.drop_last(), earlier);
        assert forall|i: int| 0 <= i < counts.len() - 1 implies counts[i + 1]
            == (#[trigger] counts[i]).released() by {
            assert(given_up(home, entry, shares[i], counts[i]));
        }
        lemma_stays_hot(counts, n);
        assert(given_up(home, entry, shares[n], counts[n]));
        assert(earlier.last() == counts[n]);
        assert forall|i: int|
            0 <= i < shares.len() && (#[trigger] counts[i]).release() == Release::Cleanup implies i
            + 1 == shares.len() && counts.last().refs == 1 by {
            if i < n {
                assert(earlier[i].release() == Release::Cleanup);
                assert(earlier.last().refs == 1);
            }
        }
    }
}

/// A count from which one reference after the other is given up keeps the
/// clean-up duty up for assignment until a single one is left.
proof fn lemma_stays_hot(counts: Seq<Count>, n: int)
    requires
        0 <= n < counts.len(),
        n < counts[0].refs <= MAX_REFCOUNT,
        forall|i: int|
            0 <= i < counts.len() - 1 ==> counts[i + 1] == (#[trigger] counts[i]).released(),
    ensures
        counts[n].refs == counts[0].refs - n,
        counts[n].refs >= 2 ==> counts[n].hot == counts[0].hot,
    decreases n,
{
    if n > 0 {
        lemma_stays_hot(counts, n - 1);
        assert(counts[n - 1 + 1] == counts[n - 1].released());
    }
}

/// The number of references that somebody who has one is told is that of the
/// references that there are: those in the hands of users, and the one of the
/// interner as long as it has the value. It is one only once the interner was
/// dropped, and asking has left the count alone, so that it is told again as long
/// as nothing else happens.
pub proof fn law_told<T: ?Sized>(entry: Arc<RefCounted<T>>, steps: Seq<Step>, told: u32)
    requires
        possible(Life::start(), steps),
        entry.counted(lived(Life::start(), steps).count, lived(Life::start(), steps).count),
        told == lived(Life::start(), steps).count.refs,
        lived(Life::start(), steps).handles > 0,
        !lived(Life::start(), steps).count.pinned(),
    ensures
        ({
            let life = lived(Life::start(), steps);
            &&& told == life.handles + life.detached + if life.kept {
                1int
            } else {
                0int
            }
            &&& life.open ==> told == life.handles + 1
            &&& told >= 1
            &&& told == 1 ==> !life.open
        }),
{
    law_life(steps);
}

/// The access that an interner makes to a count when it gives up a value that it
/// took out of its table is that of [`Step::Discard`].
pub proof fn law_discard_step<T: ?Sized>(entry: Arc<RefCounted<T>>, life: Life)
    requires
        entry.counted(life.count, life.count.released()),
        life.can(Step::Discard),
    ensures
        entry.counted(life.count, life.after(Step::Discard).count),
        life.after(Step::Discard).freed && !life.freed ==> life.count.refs == 1,
{
}

/// A value that a hash table takes up begins its life: it is in the table, with
/// the count that every life begins with.
pub proof fn law_hash_start<T: ?Sized + Eq>(
    before: &HashTable<T>,
    after: &HashTable<T>,
    code: u64,
    value: Box<T>,
    entry: Arc<RefCounted<T>>,
)
    requires
        hash_table::interned(before, after, code, value, entry, None),
        !before.exhausted(),
    ensures
        entry.initial() == Life::start().count,
        after.has(entry.id(), code) == Life::start().kept,
        after.entries()[entry.id()] == entry,
{
}

/// Seeing to the clean-up duty is [`Step::Cleanup`]: it does to a hash table
/// and to the count what it does to the value's life. The value leaves the
/// table, is handed over, and frees the one who asks of the duty, all just as
/// the life has it.
pub proof fn law_hash_cleanup<T: ?Sized + Eq>(
    before: &HashTable<T>,
    after: &HashTable<T>,
    entry: Arc<RefCounted<T>>,
    life: Life,
    r: (bool, Option<Arc<RefCounted<T>>>),
)
    requires
        hash_table::taken_out(before, after, entry, life.kept, life.count, r),
        life.can(Step::Cleanup),
    ensures
        life.kept ==> entry.counted(life.count, life.after(Step::Cleanup).count),
        life.kept ==> after.has(entry.id(), entry.code()) == life.after(Step::Cleanup).kept,
        r.0 == !life.after(Step::Cleanup).kept,
        r.1 is Some <==> life.after(Step::Cleanup).detached == life.detached + 1,
        r.1 matches Some(own) ==> own == entry,
{
}

/// Finding a value in a hash table and counting the reference that is handed
/// out is [`Step::Ask`].
pub proof fn law_hash_ask<T: ?Sized + Eq>(
    table: &HashTable<T>,
    code: u64,
    value: &T,
    entry: Arc<RefCounted<T>>,
    life: Life,
)
    requires
        hash_table::holds(table.entries(), entry, code, value),
        entry.counted(life.count, life.count.retained()),
        table.has(entry.id(), code) == life.kept,
        life.open,
    ensures
        life.can(Step::Ask),
        entry.counted(life.count, life.after(Step::Ask).count),
        table.has(entry.id(), code) == life.after(Step::Ask).kept,
{
}

/// Emptying a hash table is [`Step::Close`] for each of its values, and each of
/// them is given up.
pub proof fn law_hash_close<T: ?Sized + Eq>(
    found: &HashTable<T>,
    left: &HashTable<T>,
    id: u64,
    code: u64,
    life: Life,
)
    requires
        left.entries() == Map::<u64, Arc<RefCounted<T>>>::empty(),
        forall|id: u64| #[trigger]
            found.entries().contains_key(id) ==> discarded(found.entries()[id]),
        found.has(id, code) == life.kept,
        life.can(Step::Close),
    ensures
        left.has(id, code) == life.after(Step::Close).kept,
        life.kept ==> life.after(Step::Close).can(Step::Discard) && discarded(found.entries()[id]),
{
}

/// While nobody is about to clean up, a hash table has the values that somebody
/// refers to and no others; it is empty where nobody refers to any.
pub proof fn law_hash_settled<T: ?Sized + Eq>(table: &HashTable<T>, lives: Map<u64, Life>)
    requires
        forall|id: u64| #[trigger]
            table.entries().contains_key(id) <==> lives.contains_key(id) && lives[id].kept,
        forall|id: u64| #[trigger]
            lives.contains_key(id) ==> {
                &&& lives[id].sound()
                &&& lives[id].open
                &&& lives[id].duties == 0
                &&& !lives[id].count.pinned()
            },
    ensures
        table.entries().dom() == lives.dom().filter(|id: u64| lives[id].handles > 0),
        (forall|id: u64| #[trigger] lives.contains_key(id) ==> lives[id].handles == 0)
            ==> table.entries().len() == 0,
{
    let dom = table.entries().dom();
    assert forall|id: u64| dom.contains(id) <==> lives.dom().filter(
        |id: u64| lives[id].handles > 0,
    ).contains(id) by {
        if lives.contains_key(id) {
            assert(table.entries().contains_key(id) <==> lives[id].kept);
        } else {
            assert(!table.entries().contains_key(id));
        }
    }
    assert(dom =~= lives.dom().filter(|id: u64| lives[id].handles > 0));
    if forall|id: u64| #[trigger] lives.contains_key(id) ==> lives[id].handles == 0 {
        assert forall|id: u64| !dom.contains(id) by {
            if dom.contains(id) {
                assert(table.entries().contains_key(id));
                assert(lives.contains_key(id));
            }
        }
        assert(dom =~= Set::<u64>::empty());
    }
}

/// An interner is not found to be empty as long as somebody refers to one of its
/// values, whoever else is about to clean up: a hash table that has not yet been
/// closed then has an entry.
pub proof fn law_hash_not_empty<T: ?Sized + Eq>(
    table: &HashTable<T>,
    id: u64,
    steps: Seq<Step>,
    len: usize,
    empty: bool,
)
    requires
        table.valid(),
        possible(Life::start(), steps),
        table.entries().contains_key(id) == lived(Life::start(), steps).kept,
        lived(Life::start(), steps).open,
        lived(Life::start(), steps).handles > 0,
        len == table.entries().len(),
        empty == (table.entries().len() == 0),
    ensures
        !empty,
        len > 0,
{
    law_life(steps);
    if table.entries().len() == 0 {
        assert(table.entries().dom() =~= Set::<u64>::empty());
        assert(table.entries().dom().contains(id));
    }
}

/// A value that a sorted table takes up begins its life: it is in the table,
/// with the count that every life begins with.
pub proof fn law_ord_start<T: ?Sized + Ord>(
    before: &OrdTable<T>,
    after: &OrdTable<T>,
    value: Box<T>,
    entry: Arc<RefCounted<T>>,
)
    requires
        ord_table::interned(before, after, value, entry, None),
        !before.exhausted(),
    ensures
        entry.initial() == Life::start().count,
        after.has(entry.id()) == Life::start().kept,
        after.entries().contains(entry),
{
    let at = choose|at: usize|
        ord_table::added_at(before.entries(), after.entries(), at, entry.value(), entry);
    assert(after.entries()[at as int] == entry);
    assert(ord_table::stands_at(after.entries(), entry.id(), at as int));
}

/// Seeing to the clean-up duty is [`Step::Cleanup`]: it does to a sorted table
/// and to the count what it does to the value's life. The value leaves the
/// table, is handed over, and frees the one who asks of the duty, all just as
/// the life has it.
pub proof fn law_ord_cleanup<T: ?Sized + Ord>(
    before: &OrdTable<T>,
    after: &OrdTable<T>,
    entry: Arc<RefCounted<T>>,
    life: Life,
    r: (bool, Option<Arc<RefCounted<T>>>),
)
    requires
        before.valid(),
        ord_table::taken_out(before, after, entry, life.kept, life.count, r),
        life.can(Step::Cleanup),
    ensures
        life.kept ==> entry.counted(life.count, life.after(Step::Cleanup).count),
        life.kept ==> after.has(entry.id()) == life.after(Step::Cleanup).kept,
        r.0 == !life.after(Step::Cleanup).kept,
        r.1 is Some <==> life.after(Step::Cleanup).detached == life.detached + 1,
        r.1 matches Some(own) ==> own == entry,
{
    let id = entry.id();
    if life.kept {
        let own = choose|own: int| 0 <= own < before.entries().len() && before.entries()[own]
            == entry;
        assert(ord_table::stands_at(before.entries(), id, own));
    }
    if life.kept && life.count.sole() {
        let gone = choose|gone: int|
            {
                &&& #[trigger] ord_table::stands_at(before.entries(), id, gone)
                &&& r == (true, Some(before.entries()[gone]))
                &&& after.entries() == before.entries().remove(gone)
            };
        assert forall|at: int| !ord_table::stands_at(after.entries(), id, at) by {
            if ord_table::stands_at(after.entries(), id, at) {
                if at < gone {
                    assert(before.entries()[at].id() == before.entries()[gone].id());
                } else {
                    assert(before.entries()[at + 1].id() == before.entries()[gone].id());
                }
            }
        }
    }
}

/// Finding a value in a sorted table and counting the reference that is handed
/// out is [`Step::Ask`].
pub proof fn law_ord_ask<T: ?Sized + Ord>(
    table: &OrdTable<T>,
    value: &T,
    entry: Arc<RefCounted<T>>,
    life: Life,
)
    requires
        ord_table::holds(table.entries(), entry, value),
        entry.counted(life.count, life.count.retained()),
        table.has(entry.id()) == life.kept,
        life.open,
    ensures
        life.can(Step::Ask),
        entry.counted(life.count, life.after(Step::Ask).count),
        table.has(entry.id()) == life.after(Step::Ask).kept,
{
    let at = choose|at: int| 0 <= at < table.entries().len() && table.entries()[at] == entry;
    assert(ord_table::stands_at(table.entries(), entry.id(), at));
}

/// Emptying a sorted table is [`Step::Close`] for each of its values, and each
/// of them is given up.
pub proof fn law_ord_close<T: ?Sized + Ord>(
    found: &OrdTable<T>,
    left: &OrdTable<T>,
    at: int,
    id: u64,
    life: Life,
)
    requires
        left.entries() == Seq::<Arc<RefCounted<T>>>::empty(),
        forall|i: int|
            0 <= i < found.entries().len() ==> discarded(#[trigger] found.entries()[i]),
        found.has(id) == life.kept,
        life.kept ==> ord_table::stands_at(found.entries(), id, at),
        life.can(Step::Close),
    ensures
        left.has(id) == life.after(Step::Close).kept,
        life.kept ==> life.after(Step::Close).can(Step::Discard) && discarded(found.entries()[at]),
{
}

/// While nobody is about to clean up, a sorted table has the values that
/// somebody refers to and no others; it is empty where nobody refers to any.
pub proof fn law_ord_settled<T: ?Sized + Ord>(table: &OrdTable<T>, lives: Map<u64, Life>)
    requires
        forall|id: u64| #[trigger]
            table.has(id) <==> lives.contains_key(id) && lives[id].kept,
        forall|id: u64| #[trigger]
            lives.contains_key(id) ==> {
                &&& lives[id].sound()
                &&& lives[id].open
                &&& lives[id].duties == 0
                &&& !lives[id].count.pinned()
            },
    ensures
        forall|id: u64| #[trigger]
            table.has(id) <==> lives.contains_key(id) && lives[id].handles > 0,
        (forall|id: u64| #[trigger] lives.contains_key(id) ==> lives[id].handles == 0)
            ==> table.entries().len() == 0,
{
    assert forall|id: u64| #[trigger]
        table.has(id) <==> lives.contains_key(id) && lives[id].handles > 0 by {
        assert(table.has(id) <==> lives.contains_key(id) && lives[id].kept);
    }
    if table.entries().len() > 0 {
        let id = table.entries()[0].id();
        assert(ord_table::stands_at(table.entries(), id, 0));
        assert(table.has(id));
        assert(lives.contains_key(id) && lives[id].handles > 0);
    }
}

/// An interner is not found to be empty as long as somebody refers to one of its
/// values, whoever else is about to clean up: a sorted table that has not yet been
/// closed then has an entry.
pub proof fn law_ord_not_empty<T: ?Sized + Ord>(
    table: &OrdTable<T>,
    id: u64,
    steps: Seq<Step>,
    len: usize,
    empty: bool,
)
    requires
        table.valid(),
        possible(Life::start(), steps),
        table.has(id) == lived(Life::start(), steps).kept,
        lived(Life::start(), steps).open,
        lived(Life::start(), steps).handles > 0,
        len == table.entries().len(),
        empty == (table.entries().len() == 0),
    ensures
        !empty,
        len > 0,
{
    law_life(steps);
}

} // verus!
