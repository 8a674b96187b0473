//! The rights to what is counted, and what can be done to a count with them.
//!
//! A count is behind a lock, and this module knows nothing of the lock. It says
//! how a count changes when a right is made and when one is used up. A right
//! comes into being with an access to the count, or with the count, and cannot
//! be copied; so there are as many as the count says.
use super::counter::{Counter, Tally};
use super::{Count, Release, State};
use crate::sync::{Glance, Mutex, Permit, Settle, Step};
use std::sync::Arc;
use vstd::prelude::*;

verus! {

/// A count behind its lock.
pub struct Account {
    state: State,
}

impl View for Account {
    type V = Count;

    closed spec fn view(&self) -> Count {
        self.state@
    }
}

impl Account {
    /// A count of one reference.
    pub(super) fn single() -> (r: Self)
        ensures
            r@ == Count::fresh(),
    {
        Account { state: State::new() }
    }

    /// A count of two references, with the clean-up duty yet to be assigned.
    pub(super) fn double() -> (r: Self)
        ensures
            r@ == Count::fresh().heated().retained(),
    {
        let mut state = State::new();
        state.make_hot();
        state.retain();
        Account { state }
    }
}

/// The right to one of the references that a count counts.
pub struct Token {
    lock: Ghost<Mutex<Account>>,
}

impl Token {
    /// The mutex of the count.
    pub closed spec fn lock(&self) -> Mutex<Account> {
        self.lock@
    }

    /// The right to the reference with which a count starts out.
    pub(super) fn one(permit: Permit<Account>) -> (r: Self)
        requires
            permit.lock().initial()@.refs == 1,
        ensures
            r.lock() == permit.lock(),
    {
        Token { lock: Ghost(permit.lock()) }
    }

    /// The rights to the two references with which a count starts out.
    pub(super) fn two(permit: Permit<Account>) -> (r: (Self, Self))
        requires
            permit.lock().initial()@.refs == 2,
        ensures
            r.0.lock() == permit.lock(),
            r.1.lock() == permit.lock(),
    {
        (Token { lock: Ghost(permit.lock()) }, Token { lock: Ghost(permit.lock()) })
    }
}

/// The question how many references there are, with the answer.
pub struct Reading {
    refs: u32,
}

impl Reading {
    /// The number of references.
    pub closed spec fn refs(&self) -> u32 {
        self.refs
    }

    /// The question.
    pub(super) fn new() -> (r: Self)
        opens_invariants none
        no_unwind
    {
        Reading { refs: 0 }
    }

    /// The number of references.
    pub(super) fn get(self) -> (r: u32)
        ensures
            r == self.refs(),
        opens_invariants none
        no_unwind
    {
        self.refs
    }
}

impl Glance for Reading {
    fn glance(self, account: &Account) -> (r: Self)
        ensures
            r.refs() == account@.refs,
            account@.valid(),
    {
        Reading { refs: account.state.refs() }
    }
}

/// The making of a reference.
pub struct Raising {
    counter: Arc<Counter>,
}

impl Raising {
    /// The counter.
    pub closed spec fn counter(&self) -> Arc<Counter> {
        self.counter
    }

    /// The making of a reference that a counter counts.
    pub(super) fn new(counter: Arc<Counter>) -> (r: Self)
        ensures
            r.counter() == counter,
            forall|lock: &Mutex<Account>| #[trigger] r.fits(lock) == (counter.lock() == *lock),
    {
        Raising { counter }
    }
}

impl Step for Raising {
    type Out = (Tally, Ghost<Count>);

    closed spec fn fits(&self, lock: &Mutex<Account>) -> bool {
        self.counter.lock() == *lock
    }

    /// Counts one more reference and makes the right to it.
    fn step(self, permit: &Permit<Account>, account: &mut Account) -> (r: (Tally, Ghost<Count>))
        ensures
            r.0.counter() == self.counter(),
            r.0.live(),
            r.1@ == old(account)@,
            r.1@.valid(),
            final(account)@ == old(account)@.retained(),
    {
        let ghost count = account@;
        account.state.retain();
        let token = Token { lock: Ghost(permit.lock()) };
        (Tally::new(self.counter, token), Ghost(count))
    }
}

/// The giving up of a reference, with what it asks for.
pub struct Lowering {
    token: Option<Token>,
    due: Release,
}

impl Lowering {
    /// Whether the right was not used up yet.
    pub closed spec fn live(&self) -> bool {
        self.token is Some
    }

    /// What the giving up has asked for.
    pub closed spec fn due(&self) -> Release {
        self.due
    }

    /// The giving up of a reference.
    pub(super) fn new(token: Token) -> (r: Self)
        ensures
            r.live(),
            forall|lock: &Mutex<Account>| #[trigger] r.fits(lock) == (token.lock() == *lock),
        opens_invariants none
        no_unwind
    {
        Lowering { token: Some(token), due: Release::Shared }
    }

    /// What the giving up has asked for.
    pub(super) fn get(self) -> (r: Release)
        ensures
            r == self.due(),
        opens_invariants none
        no_unwind
    {
        self.due
    }
}

impl Settle for Lowering {
    closed spec fn fits(&self, lock: &Mutex<Account>) -> bool {
        self.token matches Some(token) ==> token.lock() == *lock
    }

    /// Uses the right up: counts one reference less, and says what that asks for.
    fn settle(self, permit: &Permit<Account>, account: &mut Account) -> (r: Self)
        ensures
            !r.live(),
            if self.live() {
                &&& old(account)@.valid()
                &&& r.due() == old(account)@.release()
                &&& final(account)@ == old(account)@.released()
            } else {
                final(account)@ == old(account)@
            },
    {
        match self.token {
            Some(_used) => {
                let due = account.state.release();
                Lowering { token: None, due }
            },
            None => Lowering { token: None, due: self.due },
        }
    }
}

/// The loss of a reference that nobody has given up.
pub struct Cancelling {
    token: Option<Token>,
}

impl Cancelling {
    /// Whether the right was not used up yet.
    pub closed spec fn live(&self) -> bool {
        self.token is Some
    }

    /// The loss of a reference.
    pub(super) fn new(token: Token) -> (r: Self)
        ensures
            r.live(),
            forall|lock: &Mutex<Account>| #[trigger] r.fits(lock) == (token.lock() == *lock),
        opens_invariants none
        no_unwind
    {
        Cancelling { token: Some(token) }
    }
}

impl Settle for Cancelling {
    closed spec fn fits(&self, lock: &Mutex<Account>) -> bool {
        self.token matches Some(token) ==> token.lock() == *lock
    }

    /// Uses the right up: counts one reference less. The clean-up duty stays up
    /// for assignment.
    fn settle(self, permit: &Permit<Account>, account: &mut Account) -> (r: Self)
        ensures
            !r.live(),
            if self.live() {
                &&& old(account)@.valid()
                &&& final(account)@ == old(account)@.cancelled()
            } else {
                final(account)@ == old(account)@
            },
    {
        if let Some(_used) = self.token {
            match account.state.release() {
                Release::Cleanup => {
                    account.state.make_hot();
                },
                Release::Shared => {},
                Release::Last => {},
            }
        }
        Cancelling { token: None }
    }
}

/// The question of whoever has the right to a reference whether it is the only
/// one, with the answer.
pub struct Reclaiming<'a> {
    token: &'a Token,
    sole: bool,
}

impl<'a> Reclaiming<'a> {
    /// Whether the reference was the only one.
    pub closed spec fn sole(&self) -> bool {
        self.sole
    }

    /// The question.
    pub(super) fn new(token: &'a Token) -> (r: Self)
        ensures
            forall|lock: &Mutex<Account>| #[trigger] r.fits(lock) == (token.lock() == *lock),
        opens_invariants none
        no_unwind
    {
        Reclaiming { token, sole: false }
    }

    /// Whether the reference was the only one.
    pub(super) fn get(self) -> (r: bool)
        ensures
            r == self.sole(),
        opens_invariants none
        no_unwind
    {
        self.sole
    }
}

impl<'a> Settle for Reclaiming<'a> {
    closed spec fn fits(&self, lock: &Mutex<Account>) -> bool {
        self.token.lock() == *lock
    }

    /// Tells whether the reference is the only one; where it is not, puts the
    /// clean-up duty up for assignment.
    fn settle(self, permit: &Permit<Account>, account: &mut Account) -> (r: Self)
        ensures
            old(account)@.valid(),
            r.sole() == old(account)@.sole(),
            final(account)@ == old(account)@.reclaimed(),
    {
        let sole = account.state.reclaim();
        Reclaiming { token: self.token, sole }
    }
}

} // verus!
