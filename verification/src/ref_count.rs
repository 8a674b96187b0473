//! Counted references to interned values.
mod counter;
mod token;

pub use token::Account;

use counter::{Counter, Tally};
use std::ops::Deref;
use std::sync::Arc;
use vstd::prelude::*;

verus! {

/// The largest number of references that are counted. A count that would
/// exceed it is pinned: the value then stays where it is for good.
pub const MAX_REFCOUNT: u32 = u32::MAX - 2;

/// What is known of a value's references: how many there are, and whether the
/// duty to take the value out of its interner is still to be assigned.
pub struct Count {
    /// Number of references, the one of the interner included.
    pub refs: int,
    /// Whether the clean-up duty has yet to be handed to somebody.
    pub hot: bool,
}

/// What the holder of a reference still has to do after giving it up.
#[derive(Clone, Copy, PartialEq, Eq, Structural)]
pub enum Release {
    /// Nothing: others refer to the value, or the clean-up is in other hands.
    Shared,
    /// Take the value out of its interner, which holds the other reference.
    Cleanup,
    /// Nothing refers to the value any more, it can be freed.
    Last,
}

impl Count {
    /// The counts that can occur.
    pub open spec fn valid(self) -> bool {
        1 <= self.refs <= MAX_REFCOUNT + 1
    }

    /// Whether the count was exceeded, so that it no longer follows the
    /// references that come and go.
    pub open spec fn pinned(self) -> bool {
        self.refs > MAX_REFCOUNT
    }

    /// The count of a value that only its creator refers to.
    pub open spec fn fresh() -> Count {
        Count { refs: 1, hot: false }
    }

    /// The count after the clean-up duty was put up for assignment.
    pub open spec fn heated(self) -> Count {
        Count { hot: true, ..self }
    }

    /// The count after one more reference was made.
    pub open spec fn retained(self) -> Count {
        if self.pinned() {
            self
        } else {
            Count { refs: self.refs + 1, ..self }
        }
    }

    /// What giving up one reference asks for. The clean-up duty falls to
    /// whoever leaves a single reference behind, once.
    pub open spec fn release(self) -> Release {
        if self.refs == 1 {
            Release::Last
        } else if self.refs == 2 && self.hot {
            Release::Cleanup
        } else {
            Release::Shared
        }
    }

    /// The count after one reference was given up. The last reference takes
    /// the count with it, which then stands at one for nobody to see.
    pub open spec fn released(self) -> Count {
        if self.pinned() || self.refs == 1 {
            self
        } else {
            Count { refs: self.refs - 1, hot: self.hot && self.refs != 2 }
        }
    }

    /// The count after one reference was counted off that nobody has given up:
    /// the clean-up duty falls to nobody for it.
    pub open spec fn cancelled(self) -> Count {
        if self.release() == Release::Cleanup {
            self.released().heated()
        } else {
            self.released()
        }
    }

    /// Whether the interner, which holds one reference, holds the only one.
    pub open spec fn sole(self) -> bool {
        self.refs == 1
    }

    /// The count after an attempt to take the value out of its interner: where
    /// others refer to the value, one of them gets the clean-up duty.
    pub open spec fn reclaimed(self) -> Count {
        if self.sole() {
            self
        } else {
            self.heated()
        }
    }
}

/// The references of one value, as counted.
pub struct State {
    refs: u32,
    hot: bool,
}

impl View for State {
    type V = Count;

    closed spec fn view(&self) -> Count {
        Count { refs: self.refs as int, hot: self.hot }
    }
}

impl State {
    #[verifier::type_invariant]
    spec fn counted(self) -> bool {
        1 <= self.refs <= MAX_REFCOUNT + 1
    }

    /// The state of a value that only its creator refers to.
    pub fn new() -> (r: Self)
        ensures
            r@ == Count::fresh(),
    {
        State { refs: 1, hot: false }
    }

    /// The number of references, which is at least one.
    pub fn refs(&self) -> (r: u32)
        ensures
            r == self@.refs,
            self@.valid(),
            r >= 1,
        opens_invariants none
        no_unwind
    {
        proof {
            use_type_invariant(self);
        }
        self.refs
    }

    /// Puts the clean-up duty up for assignment.
    pub fn make_hot(&mut self)
        ensures
            final(self)@ == old(self)@.heated(),
        opens_invariants none
        no_unwind
    {
        proof {
            use_type_invariant(&*self);
        }
        self.hot = true;
    }

    /// Counts one more reference.
    pub fn retain(&mut self)
        ensures
            final(self)@ == old(self)@.retained(),
            old(self)@.valid(),
    {
        proof {
            use_type_invariant(&*self);
        }
        if self.refs <= MAX_REFCOUNT {
            self.refs = self.refs + 1;
        }
    }

    /// Counts one reference less, and says what that asks for.
    pub fn release(&mut self) -> (r: Release)
        ensures
            r == old(self)@.release(),
            final(self)@ == old(self)@.released(),
            old(self)@.valid(),
        opens_invariants none
        no_unwind
    {
        proof {
            use_type_invariant(&*self);
        }
        if self.refs > MAX_REFCOUNT {
            return Release::Shared;
        }
        if self.refs == 1 {
            return Release::Last;
        }
        self.refs = self.refs - 1;
        if self.refs == 1 && self.hot {
            self.hot = false;
            return Release::Cleanup;
        }
        Release::Shared
    }

    /// Tells whether the interner holds the only reference, so that the value
    /// can be taken out of it; where it does not, hands the clean-up duty on to
    /// those who hold the others.
    pub fn reclaim(&mut self) -> (r: bool)
        ensures
            r == old(self)@.sole(),
            final(self)@ == old(self)@.reclaimed(),
            old(self)@.valid(),
        opens_invariants none
        no_unwind
    {
        proof {
            use_type_invariant(&*self);
        }
        if self.refs == 1 {
            true
        } else {
            self.hot = true;
            false
        }
    }
}

/// A value together with the count of its references.
///
/// The value never changes; the count is shared by all who refer to it and
/// changes under its lock.
pub struct RefCounted<T: ?Sized> {
    id: u64,
    code: u64,
    counter: Arc<Counter>,
    value: Box<T>,
}

impl<T: ?Sized> RefCounted<T> {
    /// The number under which the interner keeps the value, its own among all
    /// values that the interner has at the same time.
    pub closed spec fn id(&self) -> u64 {
        self.id
    }

    /// The hash code under which the interner keeps the value.
    pub closed spec fn code(&self) -> u64 {
        self.code
    }

    /// The value.
    pub closed spec fn value(&self) -> &T {
        &*self.value
    }

    /// The count that the value started out with.
    pub closed spec fn initial(&self) -> Count {
        self.counter.initial()
    }

    /// Whether somebody has found the count as the first one given and has left
    /// it as the second.
    pub closed spec fn counted(&self, found: Count, left: Count) -> bool {
        self.counter.counted(found, left)
    }

    /// Whether one more reference was counted.
    pub open spec fn retained(&self) -> bool {
        exists|count: Count| count.valid() && #[trigger] self.counted(count, count.retained())
    }

    /// Whether one reference less was counted, with the given outcome.
    pub open spec fn released(&self, due: Release) -> bool {
        exists|count: Count|
            count.valid() && #[trigger] self.counted(count, count.released()) && due
                == count.release()
    }

    /// A value that an interner is about to keep. It starts out with two
    /// references, one for the interner and one for whoever asked for the
    /// value, and with the clean-up duty yet to be assigned.
    pub(crate) fn kept(id: u64, code: u64, value: Box<T>) -> (r: (Counted<T>, Hold<T>))
        ensures
            r.0.entry().id() == id,
            r.0.entry().code() == code,
            r.0.entry().value() == &*value,
            r.0.entry().initial() == Count::fresh().heated().retained(),
            r.1.entry() == r.0.entry(),
    {
        let (counter, own, tally) = Counter::of_two();
        let entry = Arc::new(RefCounted { id, code, counter, value });
        let hold = Hold { entry: Ghost(entry), tally: own };
        (Counted::first(entry, tally), hold)
    }

    /// A value that no interner keeps. It starts out with one reference, the
    /// one of whoever asked for it.
    pub(crate) fn loose(value: Box<T>) -> (r: Counted<T>)
        ensures
            r.entry().value() == &*value,
            r.entry().initial() == Count::fresh(),
    {
        let (counter, tally) = Counter::of_one();
        Counted::first(Arc::new(RefCounted { id: 0, code: 0, counter, value }), tally)
    }

    /// The number under which the interner keeps the value.
    pub fn get_id(&self) -> (r: u64)
        ensures
            r == self.id(),
        opens_invariants none
        no_unwind
    {
        self.id
    }

    /// The hash code under which the interner keeps the value.
    pub fn get_code(&self) -> (r: u64)
        ensures
            r == self.code(),
        opens_invariants none
        no_unwind
    {
        self.code
    }

    /// The value.
    pub fn get_value(&self) -> (r: &T)
        ensures
            r == self.value(),
        opens_invariants none
        no_unwind
    {
        &self.value
    }

    /// The number of references at this moment.
    pub(crate) fn ref_count(&self) -> (r: u32)
        ensures
            exists|count: Count|
                count.valid() && #[trigger] self.counted(count, count) && r == count.refs,
        opens_invariants none
        no_unwind
    {
        let refs: u32 = self.counter.refs();
        let ghost count = choose|count: Count|
            count.valid() && #[trigger] self.counter.counted(count, count) && refs == count.refs;
        assert(self.counted(count, count));
        refs
    }

    /// Counts one more reference, and says which count it found.
    fn count_up(&self) -> (r: (Tally, Ghost<Count>))
        ensures
            r.0.counter() == self.counter && r.0.live(),
            r.1@.valid(),
            self.counted(r.1@, r.1@.retained()),
    {
        Tally::up(&self.counter)
    }

    /// Counts one reference less, and says what that asks for.
    fn count_down(&self, tally: Tally) -> (r: Release)
        requires
            tally.counter() == self.counter && tally.live(),
        ensures
            self.released(r),
        opens_invariants none
        no_unwind
    {
        let due = tally.down();
        let ghost count = choose|count: Count|
            count.valid() && #[trigger] self.counter.counted(count, count.released()) && due
                == count.release();
        assert(self.counted(count, count.released()));
        due
    }

    /// Tells whether the interner holds the only reference; where it does not,
    /// hands the clean-up duty on to those who hold the others.
    pub(crate) fn reclaim(&self, hold: &Hold<T>) -> (r: bool)
        requires
            *hold.entry() == *self,
        ensures
            exists|count: Count|
                count.valid() && #[trigger] self.counted(count, count.reclaimed()) && r
                    == count.sole(),
        opens_invariants none
        no_unwind
    {
        proof {
            use_type_invariant(hold);
        }
        let sole = hold.tally.reclaim();
        let ghost count = choose|count: Count|
            count.valid() && #[trigger] self.counter.counted(count, count.reclaimed()) && sole
                == count.sole();
        assert(self.counted(count, count.reclaimed()));
        sole
    }
}

/// The right to one of the references to a value that are in the hands of
/// users. There is one for each such reference that was counted, and giving the
/// reference up uses it up.
#[verifier::reject_recursive_types(T)]
pub struct Share<T: ?Sized> {
    entry: Ghost<Arc<RefCounted<T>>>,
    found: Ghost<Count>,
    tally: Tally,
}

impl<T: ?Sized> Share<T> {
    #[verifier::type_invariant]
    spec fn sound(self) -> bool {
        self.tally.counter() == self.entry@.counter && self.tally.live()
    }

    /// The value and its count.
    pub closed spec fn entry(&self) -> Arc<RefCounted<T>> {
        self.entry@
    }

    /// The count that was found when the reference was counted.
    pub closed spec fn found(&self) -> Count {
        self.found@
    }

    /// Gives the reference up: counts one reference less, and says what that
    /// asks for.
    pub fn release(self, entry: &Arc<RefCounted<T>>) -> (r: Release)
        requires
            self.entry() == *entry,
        ensures
            entry.released(r),
        opens_invariants none
        no_unwind
    {
        proof {
            use_type_invariant(&self);
        }
        entry.count_down(self.tally)
    }
}

/// The right of a collection to its reference to a value. There is one for each
/// value that a collection has.
pub struct Hold<T: ?Sized> {
    entry: Ghost<Arc<RefCounted<T>>>,
    tally: Tally,
}

impl<T: ?Sized> Hold<T> {
    #[verifier::type_invariant]
    spec fn sound(self) -> bool {
        self.tally.counter() == self.entry@.counter && self.tally.live()
    }

    /// The value and its count.
    pub closed spec fn entry(&self) -> Arc<RefCounted<T>> {
        self.entry@
    }

    /// One more reference to the value.
    pub(crate) fn lend(&self, entry: &Arc<RefCounted<T>>) -> (r: Counted<T>)
        requires
            self.entry() == *entry,
        ensures
            r.entry() == *entry,
            entry.counted(r.share().found(), r.share().found().retained()),
            entry.retained(),
    {
        Counted::another(entry)
    }
}

/// A counted reference to a value.
#[verifier::reject_recursive_types(T)]
pub struct Counted<T: ?Sized> {
    entry: Arc<RefCounted<T>>,
    share: Share<T>,
}

impl<T: ?Sized> Counted<T> {
    #[verifier::type_invariant]
    spec fn sound(self) -> bool {
        self.share.entry() == self.entry
    }

    /// The value and its count.
    pub closed spec fn entry(&self) -> Arc<RefCounted<T>> {
        self.entry
    }

    /// The right to the reference.
    pub closed spec fn share(&self) -> Share<T> {
        self.share
    }

    /// The reference with which the count of a new value starts out.
    fn first(entry: Arc<RefCounted<T>>, tally: Tally) -> (r: Self)
        requires
            tally.counter() == entry.counter && tally.live(),
        ensures
            r.entry() == entry,
    {
        let share = Share { entry: Ghost(entry), found: Ghost(entry.initial()), tally };
        Counted { entry, share }
    }

    /// One more reference to a value.
    fn another(entry: &Arc<RefCounted<T>>) -> (r: Self)
        ensures
            r.entry() == *entry,
            entry.counted(r.share().found(), r.share().found().retained()),
            entry.retained(),
    {
        let (tally, found) = entry.count_up();
        let share = Share { entry: Ghost(*entry), found, tally };
        Counted { entry: entry.clone(), share }
    }

    /// One more reference to a value, for whoever has one.
    pub(crate) fn retain(entry: &Arc<RefCounted<T>>, share: &Share<T>) -> (r: Self)
        requires
            share.entry() == *entry,
        ensures
            r.entry() == *entry,
            entry.counted(r.share().found(), r.share().found().retained()),
            entry.retained(),
    {
        Counted::another(entry)
    }

    /// The value and its count.
    pub fn get(&self) -> (r: &Arc<RefCounted<T>>)
        ensures
            *r == self.entry(),
    {
        &self.entry
    }
}

/// Gives up the reference of a collection to a value that it no longer has:
/// counts one reference less, and says what that asks for.
pub(crate) fn discard<T: ?Sized>(entry: &Arc<RefCounted<T>>, hold: Hold<T>) -> (r: Release)
    requires
        hold.entry() == *entry,
    ensures
        discarded(*entry),
        entry.released(r),
    opens_invariants none
    no_unwind
{
    let ghost right = hold;
    let due = take_off(entry, hold);
    assert(call_ensures(take_off::<T>, (entry, right), due));
    due
}

/// Counts off the reference of a collection.
fn take_off<T: ?Sized>(entry: &Arc<RefCounted<T>>, hold: Hold<T>) -> (r: Release)
    requires
        hold.entry() == *entry,
    ensures
        entry.released(r),
    opens_invariants none
    no_unwind
{
    proof {
        use_type_invariant(&hold);
    }
    entry.count_down(hold.tally)
}

/// Whether the reference of a collection to a value was counted off: the right
/// to it was used up.
pub closed spec fn discarded<T: ?Sized>(entry: Arc<RefCounted<T>>) -> bool {
    exists|hold: Hold<T>, due: Release| #[trigger]
        call_ensures(take_off::<T>, (&entry, hold), due) && hold.entry() == entry
            && entry.released(due)
}

/// Calls `Arc::ptr_eq`: whether two references lead to the same place in
/// memory, where then they lead to the same value. Of references that lead to
/// different places nothing is said. It does not panic.
#[verifier::external_body]
fn same_place<T: ?Sized>(a: &Arc<RefCounted<T>>, b: &Arc<RefCounted<T>>) -> (r: bool)
    ensures
        r ==> *a == *b,
    opens_invariants none
    no_unwind
{
    Arc::ptr_eq(a, b)
}

/// Whether `Arc::ptr_eq` may give the given answer for two references, that
/// they lead to the same place or that they do not.
pub closed spec fn placed<T: ?Sized>(
    a: Arc<RefCounted<T>>,
    b: Arc<RefCounted<T>>,
    answer: bool,
) -> bool {
    call_ensures(same_place::<T>, (&a, &b), answer)
}

/// Tells whether two references lead to the same place. If so, they are
/// references to the same value.
pub(crate) fn is_at<T: ?Sized>(a: &Arc<RefCounted<T>>, b: &Arc<RefCounted<T>>) -> (r: bool)
    ensures
        r ==> *a == *b,
        placed(*a, *b, r),
    opens_invariants none
    no_unwind
{
    same_place(a, b)
}

/// A collection of values that others refer to.
pub trait Interner: Sized {
    /// The type of the values.
    type T: ?Sized;

    /// Takes a value out of the collection unless somebody else refers to it.
    ///
    /// The first result says that the caller is rid of the clean-up duty: the
    /// value is not in the collection, or no longer. The second is the value,
    /// where it was taken out just now; the collection's reference to it was
    /// counted off then.
    /// Where the value has to stay, the duty went to those who refer to it.
    ///
    /// The value is sought by its place in memory, not by what it is equal to: a
    /// value is taken out when a reference to it is dropped, and a comparison
    /// might unwind there. Of the values that the collection handed out it has
    /// no two that are equal, so that for these it makes no difference.
    ///
    /// A collection that keeps nothing need not define it.
    fn remove(&self, value: &Arc<RefCounted<Self::T>>) -> (r: (
        bool,
        Option<Arc<RefCounted<Self::T>>>,
    ))
        ensures
            r.1 matches Some(entry) ==> r.0 && entry == *value && discarded(entry),
        default_ensures
            r == (true, None::<Arc<RefCounted<Self::T>>>),
        opens_invariants none
        no_unwind
    {
        (true, None)
    }
}

/// Whether a collection was asked to take a value out, and its reference to the
/// value, where it gave that up, was counted off.
pub open spec fn cleaned_up<I: Interner>(home: &I, entry: Arc<RefCounted<I::T>>) -> bool {
    exists|r: (bool, Option<Arc<RefCounted<I::T>>>)|
        {
            &&& #[trigger] call_ensures(I::remove, (home, &entry), r)
            &&& r.1 matches Some(own) ==> own == entry && discarded(own)
        }
}

/// What giving up a reference to a value comes to, where its count was found as
/// given: the right to this very reference is used up, one reference less is
/// counted, and where the clean-up duty falls to the one who gave the reference
/// up, the collection is asked to take the value out.
pub open spec fn given_up<I: Interner>(
    home: &I,
    entry: Arc<RefCounted<I::T>>,
    share: Share<I::T>,
    count: Count,
) -> bool {
    &&& count.valid()
    &&& entry.counted(count, count.released())
    &&& call_ensures(Share::<I::T>::release, (share, &entry), count.release())
    &&& count.release() == Release::Cleanup ==> cleaned_up(home, entry)
}

/// An interned value
///
/// This type works very similar to an [`Arc`] with the difference that it has
/// no concept of weak references. They are not needed because **interned
/// values must not be modified**, so reference cycles cannot be constructed.
/// One reference is held by the interner that created this value as long as
/// that interner lives.
///
/// Keeping interned values around does not keep the interner alive: once the
/// last reference to the interner is dropped, it will release its references
/// to interned values. Only the memory of the emptied collection remains
/// allocated until the last interned value is dropped.
#[verifier::reject_recursive_types(I)]
pub struct Interned<I: Interner> {
    inner: Arc<RefCounted<I::T>>,
    share: Option<Share<I::T>>,
    home: Arc<I>,
}

impl<I: Interner> Interned<I> {
    #[verifier::type_invariant]
    spec fn sound(self) -> bool {
        self.share matches Some(share) ==> share.entry() == self.inner
    }

    /// The value and its count, which all references to it share.
    pub closed spec fn entry(&self) -> Arc<RefCounted<I::T>> {
        self.inner
    }

    /// The collection that the value came from.
    pub closed spec fn home(&self) -> &I {
        &*self.home
    }

    /// Whether the reference was not given up yet.
    pub closed spec fn live(&self) -> bool {
        self.share is Some
    }

    /// The right to the reference.
    pub closed spec fn share(&self) -> Share<I::T> {
        self.share->0
    }

    /// Wraps a counted reference.
    pub(crate) fn adopt(counted: Counted<I::T>, home: Arc<I>) -> (r: Self)
        ensures
            r.entry() == counted.entry(),
            r.share() == counted.share(),
            r.home() == &*home,
            r.live(),
    {
        proof {
            use_type_invariant(&counted);
        }
        Interned { inner: counted.entry, share: Some(counted.share), home }
    }

    /// Tells whether two references to one and the same place were given. If so,
    /// they are references to the same value.
    pub(crate) fn is(&self, other: &Self) -> (r: bool)
        ensures
            r ==> self.entry() == other.entry(),
            placed(self.entry(), other.entry(), r),
    {
        is_at(&self.inner, &other.inner)
    }

    /// Obtain current number of references, including this one.
    ///
    /// The value will always be at least 1. If the value is 1, this means that
    /// the interner which produced this reference has been dropped; in this
    /// case you are still free to use this reference in any way you like.
    pub fn ref_count(&self) -> (r: u32)
        ensures
            exists|count: Count|
                count.valid() && #[trigger] self.entry().counted(count, count) && r == count.refs,
        opens_invariants none
        no_unwind
    {
        let refs: u32 = self.inner.ref_count();
        let ghost count = choose|count: Count|
            count.valid() && #[trigger] self.inner.counted(count, count) && refs == count.refs;
        assert(self.entry().counted(count, count));
        refs
    }
}

impl<I: Interner> Clone for Interned<I> {
    /// Makes one more reference to the same value.
    fn clone(&self) -> (r: Self)
        ensures
            r.entry() == self.entry(),
            r.home() == self.home(),
            r.live(),
            self.entry().counted(r.share().found(), r.share().found().retained()),
            self.entry().retained(),
    {
        proof {
            use_type_invariant(self);
        }
        let counted = match &self.share {
            Some(share) => Counted::retain(&self.inner, share),
            None => Counted::another(&self.inner),
        };
        Interned::adopt(counted, self.home.clone())
    }
}

impl<I: Interner> Drop for Interned<I> {
    /// Gives the reference up. Whoever leaves the interner's reference as the
    /// only one takes the value out of the interner. The count's lock is not
    /// held while the interner works, for the interner takes it in turn.
    fn drop(&mut self)
        ensures
            old(self).live() ==> exists|count: Count| #[trigger]
                given_up(old(self).home(), old(self).entry(), old(self).share(), count),
        opens_invariants none
        no_unwind
    {
        proof {
            use_type_invariant(&*self);
        }
        let mut own: Option<Share<I::T>> = None;
        core::mem::swap(&mut self.share, &mut own);
        if let Some(share) = own {
            let ghost right = share;
            let due = share.release(&self.inner);
            let ghost count = choose|count: Count|
                count.valid() && #[trigger] self.inner.counted(count, count.released()) && due
                    == count.release();
            assert(call_ensures(Share::<I::T>::release, (right, &self.inner), due));
            match due {
                Release::Cleanup => {
                    let r = self.home.remove(&self.inner);
                    assert(call_ensures(I::remove, (self.home(), &self.entry()), r));
                    assert(cleaned_up(self.home(), self.entry()));
                },
                Release::Shared => {},
                Release::Last => {},
            }
            assert(self.home() == old(self).home() && self.entry() == old(self).entry());
            assert(right == old(self).share());
            assert(given_up(old(self).home(), old(self).entry(), right, count));
        }
    }
}

impl<I: Interner> Deref for Interned<I> {
    type Target = I::T;

    /// The value.
    fn deref(&self) -> (r: &I::T)
        ensures
            r == self.entry().value(),
    {
        self.inner.get_value()
    }
}

} // verus!
