//! The locks that make interned values shareable.
//!
//! What a lock protects is shared with other threads, so two looks at it may
//! see two different values, and code that holds a guard is verified for every
//! value that it may find. What is known of such a value is the invariant of its
//! type, and which lock it was found behind.
//!
//! No guard leaves this module. What a lock protects is accessed by handing the
//! lock a question or a change, which is used up by it. The functions that take
//! it know nothing of the change but that it can be made, and have nothing else
//! to make one with: so every access is a single change, with exactly the effect
//! that the change has by its own contract. Which changes there are is decided
//! by the types that stand for them.
//!
//! The mutex of a count has a record of all accesses to the count, those to come
//! included: each is the state that was found and the state that was left. The
//! record exists in specifications only. A contract over it says that among the
//! accesses to this count there is one with the given effect. Only a count has
//! such a record: its states are plain numbers, which no specification can have
//! an influence on.
use crate::ref_count::Account;
use parking_lot::lock_api::{Mutex as ApiMutex, RwLock as ApiRwLock};
use parking_lot::{RawMutex, RawRwLock};
use std::ops::{Deref, DerefMut};
use vstd::prelude::*;

verus! {

/// The mutex of `lock_api`, which `parking_lot::Mutex` is an instance of.
#[verifier::external_type_specification]
#[verifier::external_body]
#[verifier::reject_recursive_types(R)]
#[verifier::reject_recursive_types(T)]
pub struct ExApiMutex<R, T: ?Sized>(ApiMutex<R, T>);

/// The reader-writer lock of `lock_api`, which `parking_lot::RwLock` is an
/// instance of.
#[verifier::external_type_specification]
#[verifier::external_body]
#[verifier::reject_recursive_types(R)]
#[verifier::reject_recursive_types(T)]
pub struct ExApiRwLock<R, T: ?Sized>(ApiRwLock<R, T>);

/// The raw mutex of `parking_lot`.
#[verifier::external_type_specification]
#[verifier::external_body]
pub struct ExRawMutex(RawMutex);

/// The raw reader-writer lock of `parking_lot`.
#[verifier::external_type_specification]
#[verifier::external_body]
pub struct ExRawRwLock(RawRwLock);

/// Access to what a mutex protects; the mutex is released when the guard is
/// dropped. Only [`Mutex::lock`] makes one, from a guard of `parking_lot`.
#[verifier::reject_recursive_types(T)]
pub struct MutexGuard<T, G> {
    raw: G,
    accesses: Ghost<Set<(T, T)>>,
}

impl<T, G> MutexGuard<T, G> {
    /// The record of the mutex.
    pub closed spec fn accesses(&self) -> Set<(T, T)> {
        self.accesses@
    }
}

impl<G: Deref<Target = Account>> MutexGuard<Account, G> {
    /// Calls `Deref::deref` of a `parking_lot` guard: a reference to the state,
    /// which is an access that leaves what it finds. It does not panic. Which
    /// state it finds is not said, for other threads may have changed it since
    /// this one saw it last.
    #[verifier::external_body]
    fn look(&self) -> (r: &Account)
        ensures
            self.accesses().contains((*r, *r)),
        opens_invariants none
        no_unwind
    {
        self.raw.deref()
    }
}

impl<G: DerefMut<Target = Account>> MutexGuard<Account, G> {
    /// Calls `DerefMut::deref_mut` of a `parking_lot` guard: exclusive access
    /// to the state, which finds what is there and leaves what the caller makes
    /// of it. It does not panic. Which state it finds is not said, for other
    /// threads may have changed it since this one saw it last.
    #[verifier::external_body]
    fn change(&mut self) -> (r: &mut Account)
        ensures
            old(self).accesses().contains((*r, *final(r))),
        opens_invariants none
        no_unwind
    {
        self.raw.deref_mut()
    }
}

/// A mutual exclusion lock.
#[verifier::reject_recursive_types(T)]
pub struct Mutex<T> {
    raw: ApiMutex<RawMutex, T>,
    initial: Ghost<T>,
    accesses: Ghost<Set<(T, T)>>,
}

impl<T> Mutex<T> {
    /// The value that the mutex was made with.
    pub closed spec fn initial(&self) -> T {
        self.initial@
    }

    /// The record of accesses, of which something is known for a count only.
    pub closed spec fn accesses(&self) -> Set<(T, T)> {
        self.accesses@
    }

    /// Makes an unlocked mutex around a value.
    pub fn new(t: T) -> (r: Self)
        ensures
            r.initial() == t,
    {
        let initial: Ghost<T> = Ghost(t);
        let (raw, accesses) = raw_mutex(t);
        Mutex { raw, initial, accesses }
    }

    /// Calls `parking_lot::Mutex::lock`: waits until no other guard of this
    /// mutex is left and returns one. It does not panic.
    #[verifier::external_body]
    pub fn lock(&self) -> (r: MutexGuard<T, impl DerefMut<Target = T> + '_>)
        ensures
            r.accesses() == self.accesses(),
        opens_invariants none
        no_unwind
    {
        MutexGuard { raw: self.raw.lock(), accesses: self.accesses }
    }
}

/// Evidence of an access to a mutex, or of its making, which nobody else can
/// come by.
#[verifier::reject_recursive_types(T)]
pub struct Permit<T> {
    lock: Ghost<Mutex<T>>,
}

impl<T> Permit<T> {
    /// The mutex.
    pub closed spec fn lock(&self) -> Mutex<T> {
        self.lock@
    }
}

/// A question about a count.
pub trait Glance: Sized {
    /// Hands the answer back in the place of the question.
    fn glance(self, account: &Account) -> (r: Self)
        default_ensures
            r == self,
        opens_invariants none
        no_unwind
    {
        self
    }
}

/// A change to a count.
pub trait Step: Sized {
    /// What the change is answered with.
    type Out;

    /// Whether the change is meant for the count behind a mutex.
    spec fn fits(&self, lock: &Mutex<Account>) -> bool;

    /// Makes the change.
    fn step(self, permit: &Permit<Account>, account: &mut Account) -> Self::Out
        requires
            self.fits(&permit.lock()),
    ;
}

/// A change to a count that does not unwind.
pub trait Settle: Sized {
    /// Whether the change is meant for the count behind a mutex.
    spec fn fits(&self, lock: &Mutex<Account>) -> bool;

    /// Makes the change, if any, and hands the answer back in the place of what
    /// was asked.
    fn settle(self, permit: &Permit<Account>, account: &mut Account) -> (r: Self)
        requires
            self.fits(&permit.lock()),
        default_ensures
            r == self,
            *final(account) == *old(account),
        opens_invariants none
        no_unwind
    {
        self
    }
}

impl Mutex<Account> {
    /// Makes an unlocked mutex around a count, and the evidence of that.
    pub(crate) fn fresh(account: Account) -> (r: (Self, Permit<Account>))
        ensures
            r.0.initial() == account,
            r.1.lock() == r.0,
    {
        let lock = Mutex::new(account);
        let permit = Permit { lock: Ghost(lock) };
        (lock, permit)
    }

    /// Puts a question to the count.
    pub(crate) fn glance<L: Glance>(&self, question: L) -> (r: L)
        ensures
            exists|account: &Account| #[trigger]
                self.accesses().contains((*account, *account)) && call_ensures(
                    L::glance,
                    (question, account),
                    r,
                ),
        opens_invariants none
        no_unwind
    {
        let guard = self.lock();
        let account = guard.look();
        question.glance(account)
    }

    /// Makes a change to the count. The change is used up by it, and there is
    /// nothing else here that the count could be changed with, so that it is made
    /// once and is all that is made.
    pub(crate) fn step<C: Step>(&self, change: C) -> (r: C::Out)
        requires
            change.fits(self),
        ensures
            exists|permit: Permit<Account>, slot: &mut Account|
                {
                    &&& permit.lock() == *self
                    &&& self.accesses().contains((*slot, *final(slot)))
                    &&& #[trigger] call_ensures(C::step, (change, &permit, slot), r)
                },
    {
        let permit = Permit { lock: Ghost(*self) };
        let mut guard = self.lock();
        let slot = guard.change();
        change.step(&permit, slot)
    }

    /// Makes a change that does not unwind to the count. The change is used up by
    /// it, and there is nothing else here that the count could be changed with,
    /// so that it is made once and is all that is made.
    pub(crate) fn settle<C: Settle>(&self, change: C) -> (r: C)
        requires
            change.fits(self),
        ensures
            exists|permit: Permit<Account>, slot: &mut Account|
                {
                    &&& permit.lock() == *self
                    &&& self.accesses().contains((*slot, *final(slot)))
                    &&& #[trigger] call_ensures(C::settle, (change, &permit, slot), r)
                },
        opens_invariants none
        no_unwind
    {
        let permit = Permit { lock: Ghost(*self) };
        let mut guard = self.lock();
        let slot = guard.change();
        change.settle(&permit, slot)
    }
}

/// Calls `parking_lot::Mutex::new`: an unlocked mutex that holds the value, with
/// its record. That it holds the value cannot be said here, for what it holds is
/// not part of the mutex as a value.
#[verifier::external_body]
fn raw_mutex<T>(t: T) -> (r: (ApiMutex<RawMutex, T>, Ghost<Set<(T, T)>>)) {
    (ApiMutex::new(t), Ghost(arbitrary()))
}

/// Access to what a reader-writer lock protects; the lock is released when the
/// guard is dropped. Only the functions of [`RwLock`] make one, each from a guard
/// of `parking_lot`.
pub struct Guard<G>(G);

impl<T, G: Deref<Target = T>> Guard<G> {
    /// Calls `Deref::deref` of a `parking_lot` guard: a reference to what the
    /// lock protects. It does not panic. Nothing is said of the value, which
    /// other threads may have changed since this one saw it last.
    #[verifier::external_body]
    fn get(&self) -> (r: &T)
        opens_invariants none
        no_unwind
    {
        self.0.deref()
    }
}

impl<T, G: DerefMut<Target = T>> Guard<G> {
    /// Calls `DerefMut::deref_mut` of a `parking_lot` guard: exclusive access
    /// to what the lock protects. It does not panic. Nothing is said of the
    /// value, which other threads may have changed since this one saw it last.
    #[verifier::external_body]
    fn get_mut(&mut self) -> (r: &mut T)
        opens_invariants none
        no_unwind
    {
        self.0.deref_mut()
    }
}

/// A question about what a lock protects.
pub trait Look<T>: Sized {
    /// The answer.
    type Out;

    /// Answers the question.
    fn look(self, value: &T) -> Self::Out;
}

/// A change to what a lock protects.
pub trait Change<T>: Sized {
    /// What the change is answered with.
    type Out;

    /// Makes the change.
    fn change(self, slot: &mut T) -> Self::Out;
}

/// A change to what a lock protects that does not unwind.
pub trait Tidy<T>: Sized {
    /// Makes the change, if any, and hands the answer back in the place of what
    /// was asked.
    fn tidy(self, slot: &mut T) -> (r: Self)
        default_ensures
            r == self,
            *final(slot) == *old(slot),
        opens_invariants none
        no_unwind
    {
        self
    }
}

/// Whether a guard may give access to what is at the given place.
spec fn reaches<V, G: DerefMut<Target = V>>(guard: Guard<G>, slot: &mut V) -> bool {
    exists|access: &mut Guard<G>|
        *access == guard && #[trigger] call_ensures(Guard::<G>::get_mut, (access,), slot)
}

/// The right to exchange, once, what a lock protects. There is at most one for a
/// lock, which is made with it.
#[verifier::reject_recursive_types(T)]
pub struct Closing<T> {
    lock: Ghost<RwLock<T>>,
}

impl<T> Closing<T> {
    /// The lock.
    pub closed spec fn lock(&self) -> RwLock<T> {
        self.lock@
    }
}

/// A reader-writer lock.
///
/// There is no way to what it protects but by a question ([`look`](RwLock::look)),
/// a change ([`change`](RwLock::change), [`tidy`](RwLock::tidy)) and an exchange
/// ([`exchange`](RwLock::exchange)), each of which is made once, under the lock.
#[verifier::reject_recursive_types(T)]
pub struct RwLock<T> {
    raw: ApiRwLock<RawRwLock, T>,
    initial: Ghost<T>,
}

impl<T> RwLock<T> {
    /// The value that the lock was made with.
    pub closed spec fn initial(&self) -> T {
        self.initial@
    }

    /// Makes an unlocked reader-writer lock around a value.
    pub fn new(t: T) -> (r: Self)
        ensures
            r.initial() == t,
    {
        let initial: Ghost<T> = Ghost(t);
        RwLock { raw: raw_rw_lock(t), initial }
    }

    /// Makes an unlocked reader-writer lock around a value, and the right to
    /// exchange what it protects.
    pub(crate) fn closable(t: T) -> (r: (Self, Closing<T>))
        ensures
            r.0.initial() == t,
            r.1.lock() == r.0,
    {
        let lock = RwLock::new(t);
        let closing = Closing { lock: Ghost(lock) };
        (lock, closing)
    }

    /// Whether a reader of the lock may find the given value.
    pub closed spec fn shows(&self, value: &T) -> bool {
        exists|guard| #[trigger]
            call_ensures(RwLock::<T>::read, (self,), guard) && call_ensures(
                Guard::get,
                (&guard,),
                value,
            )
    }

    /// Whether a writer of the lock may find the value at the given place, and so
    /// leave there what becomes of it.
    pub closed spec fn opens(&self, slot: &mut T) -> bool {
        exists|guard| #[trigger]
            call_ensures(RwLock::<T>::write, (self,), guard) && reaches(guard, slot)
    }

    /// Puts a question to what the lock protects. The value is what it is, with
    /// nothing to make another one of, so that it is not changed.
    pub(crate) fn look<L: Look<T>>(&self, question: L) -> (r: L::Out)
        ensures
            exists|value: &T| #[trigger]
                self.shows(value) && call_ensures(L::look, (question, value), r),
    {
        let guard = self.read();
        let value = guard.get();
        assert(self.shows(value));
        question.look(value)
    }

    /// Makes a change to what the lock protects. The change is used up by it, and
    /// there is nothing else here that the value could be changed with, so that
    /// it is made once and is all that is made.
    pub(crate) fn change<C: Change<T>>(&self, change: C) -> (r: C::Out)
        ensures
            exists|slot: &mut T, access: &mut T|
                {
                    &&& #[trigger] self.opens(slot)
                    &&& *access == *slot && *final(access) == *final(slot)
                    &&& #[trigger] call_ensures(C::change, (change, access), r)
                },
    {
        let mut guard = self.write();
        let ghost held = guard;
        let slot = guard.get_mut();
        assert(reaches(held, slot));
        assert(self.opens(slot));
        change.change(slot)
    }

    /// Makes a change that does not unwind to what the lock protects. The change
    /// is used up by it, and there is nothing else here that the value could be
    /// changed with, so that it is made once and is all that is made.
    pub(crate) fn tidy<C: Tidy<T>>(&self, change: C) -> (r: C)
        ensures
            exists|slot: &mut T, access: &mut T|
                {
                    &&& #[trigger] self.opens(slot)
                    &&& *access == *slot && *final(access) == *final(slot)
                    &&& #[trigger] call_ensures(C::tidy, (change, access), r)
                },
        opens_invariants none
        no_unwind
    {
        let mut guard = self.write();
        let ghost held = guard;
        let slot = guard.get_mut();
        assert(reaches(held, slot));
        assert(self.opens(slot));
        change.tidy(slot)
    }

    /// Exchanges what the lock protects with another value, which uses up the
    /// right to do so.
    pub(crate) fn exchange(&self, closing: Closing<T>, value: &mut T)
        requires
            closing.lock() == *self,
        ensures
            exists|slot: &mut T| #[trigger]
                self.opens(slot) && *slot == *final(value) && *final(slot) == *old(value),
        opens_invariants none
        no_unwind
    {
        let mut guard = self.write();
        let ghost held = guard;
        let slot = guard.get_mut();
        assert(reaches(held, slot));
        assert(self.opens(slot));
        core::mem::swap(slot, value);
    }

    /// Calls `parking_lot::RwLock::read`: waits until no writer is left and
    /// returns a guard for reading.
    #[verifier::external_body]
    fn read(&self) -> (r: Guard<impl Deref<Target = T> + '_>) {
        Guard(self.raw.read())
    }

    /// Calls `parking_lot::RwLock::write`: waits until no reader and no other
    /// writer is left and returns a guard for writing. It does not panic.
    #[verifier::external_body]
    fn write(&self) -> (r: Guard<impl DerefMut<Target = T> + '_>)
        opens_invariants none
        no_unwind
    {
        Guard(self.raw.write())
    }
}

/// Calls `parking_lot::RwLock::new`: an unlocked reader-writer lock that holds
/// the value. That it holds the value cannot be said here, for what it holds is
/// not part of the lock as a value.
#[verifier::external_body]
fn raw_rw_lock<T>(t: T) -> (r: ApiRwLock<RawRwLock, T>) {
    ApiRwLock::new(t)
}

} // verus!
