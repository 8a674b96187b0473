//! Counters, and the rights to what they count.
//!
//! A counter goes up when a right is made and down when one is used up, and at
//! no other time: there is no way to its lock but the functions of this module,
//! and these have nothing to change a count with but the rights. A right that
//! nobody uses up counts itself off when it is dropped. So however rights are
//! passed on, put aside or dropped, the counter says how many there are.
use super::token::{Account, Cancelling, Lowering, Raising, Reading, Reclaiming, Token};
use super::{Count, Release};
use crate::sync::{Glance, Mutex, Permit, Settle, Step};
use std::sync::Arc;
use vstd::prelude::*;

verus! {

/// A count behind its lock.
pub struct Counter {
    state: Mutex<Account>,
}

/// The right to one of the references that a counter counts.
pub struct Tally {
    counter: Arc<Counter>,
    token: Option<Token>,
}

impl Counter {
    /// The mutex of the count.
    pub closed spec fn lock(&self) -> Mutex<Account> {
        self.state
    }

    /// The count that the counter started out with.
    pub closed spec fn initial(&self) -> Count {
        self.state.initial()@
    }

    /// Whether somebody has found the count as the first one given and has left
    /// it as the second.
    pub closed spec fn counted(&self, found: Count, left: Count) -> bool {
        exists|before: Account, after: Account| #[trigger]
            self.state.accesses().contains((before, after)) && before@ == found && after@ == left
    }

    /// A counter of two references, with the clean-up duty yet to be assigned,
    /// and the rights to both.
    pub(super) fn of_two() -> (r: (Arc<Counter>, Tally, Tally))
        ensures
            r.0.initial() == Count::fresh().heated().retained(),
            r.1.counter() == r.0 && r.1.live(),
            r.2.counter() == r.0 && r.2.live(),
    {
        let (state, permit) = Mutex::fresh(Account::double());
        let (one, two) = Token::two(permit);
        let counter = Arc::new(Counter { state });
        (counter.clone(), Tally::new(counter.clone(), one), Tally::new(counter, two))
    }

    /// A counter of one reference, and the right to it.
    pub(super) fn of_one() -> (r: (Arc<Counter>, Tally))
        ensures
            r.0.initial() == Count::fresh(),
            r.1.counter() == r.0 && r.1.live(),
    {
        let (state, permit) = Mutex::fresh(Account::single());
        let one = Token::one(permit);
        let counter = Arc::new(Counter { state });
        (counter.clone(), Tally::new(counter, one))
    }

    /// The number of references at this moment.
    pub(super) fn refs(&self) -> (r: u32)
        ensures
            exists|count: Count|
                count.valid() && #[trigger] self.counted(count, count) && r == count.refs,
        opens_invariants none
        no_unwind
    {
        let question = Reading::new();
        let ghost asked = question;
        let reading = self.state.glance(question);
        proof {
            let account = choose|account: &Account| #[trigger]
                self.state.accesses().contains((*account, *account)) && call_ensures(
                    <Reading as Glance>::glance,
                    (asked, account),
                    reading,
                );
            assert(self.counted(account@, account@));
        }
        reading.get()
    }
}

impl Tally {
    #[verifier::type_invariant]
    spec fn sound(self) -> bool {
        self.token matches Some(token) ==> token.lock() == self.counter.state
    }

    /// The counter.
    pub closed spec fn counter(&self) -> Arc<Counter> {
        self.counter
    }

    /// Whether the right was not used up yet.
    pub closed spec fn live(&self) -> bool {
        self.token is Some
    }

    /// The right to a reference that a counter counts.
    pub(super) fn new(counter: Arc<Counter>, token: Token) -> (r: Self)
        requires
            token.lock() == counter.lock(),
        ensures
            r.counter() == counter,
            r.live(),
    {
        Tally { counter, token: Some(token) }
    }

    /// Counts one more reference, and says which count it found.
    pub(super) fn up(counter: &Arc<Counter>) -> (r: (Self, Ghost<Count>))
        ensures
            r.0.counter() == *counter,
            r.0.live(),
            r.1@.valid(),
            counter.counted(r.1@, r.1@.retained()),
    {
        let raising = Raising::new(counter.clone());
        let ghost change = raising;
        let r = counter.state.step(raising);
        proof {
            let (permit, slot) = choose|permit: Permit<Account>, slot: &mut Account|
                {
                    &&& permit.lock() == counter.state
                    &&& counter.state.accesses().contains((*slot, *final(slot)))
                    &&& #[trigger] call_ensures(
                        <Raising as Step>::step,
                        (change, &permit, slot),
                        r,
                    )
                };
            assert(counter.counted((*slot)@, (*final(slot))@));
        }
        r
    }

    /// Uses the right up: counts one reference less, and says what that asks
    /// for.
    pub(super) fn down(self) -> (r: Release)
        requires
            self.live(),
        ensures
            exists|count: Count|
                count.valid() && #[trigger] self.counter().counted(count, count.released()) && r
                    == count.release(),
        opens_invariants none
        no_unwind
    {
        proof {
            use_type_invariant(&self);
        }
        let mut own = self;
        let mut token: Option<Token> = None;
        core::mem::swap(&mut own.token, &mut token);
        match token {
            Some(token) => {
                let lowering = Lowering::new(token);
                let ghost change = lowering;
                let lowered = own.counter.state.settle(lowering);
                proof {
                    let lock = self.counter.state;
                    let (permit, slot) = choose|permit: Permit<Account>, slot: &mut Account|
                        {
                            &&& permit.lock() == lock
                            &&& lock.accesses().contains((*slot, *final(slot)))
                            &&& #[trigger] call_ensures(
                                <Lowering as Settle>::settle,
                                (change, &permit, slot),
                                lowered,
                            )
                        };
                    assert(self.counter().counted((*slot)@, (*final(slot))@));
                }
                lowered.get()
            },
            None => Release::Shared,
        }
    }

    /// Tells whether this is the right to the only reference; where it is not,
    /// hands the clean-up duty on to those who have the others.
    pub(super) fn reclaim(&self) -> (r: bool)
        requires
            self.live(),
        ensures
            exists|count: Count|
                count.valid() && #[trigger] self.counter().counted(count, count.reclaimed()) && r
                    == count.sole(),
        opens_invariants none
        no_unwind
    {
        proof {
            use_type_invariant(self);
        }
        match &self.token {
            Some(token) => {
                let reclaiming = Reclaiming::new(token);
                let ghost change = reclaiming;
                let reclaimed = self.counter.state.settle(reclaiming);
                proof {
                    let lock = self.counter.state;
                    let (permit, slot) = choose|permit: Permit<Account>, slot: &mut Account|
                        {
                            &&& permit.lock() == lock
                            &&& lock.accesses().contains((*slot, *final(slot)))
                            &&& #[trigger] call_ensures(
                                <Reclaiming as Settle>::settle,
                                (change, &permit, slot),
                                reclaimed,
                            )
                        };
                    assert(self.counter().counted((*slot)@, (*final(slot))@));
                }
                reclaimed.get()
            },
            None => false,
        }
    }
}

impl Drop for Tally {
    /// Counts the reference off where the right was not used up.
    fn drop(&mut self)
        ensures
            old(self).live() ==> exists|count: Count|
                count.valid() && #[trigger] old(self).counter().counted(count, count.cancelled()),
        opens_invariants none
        no_unwind
    {
        proof {
            use_type_invariant(&*self);
        }
        let mut token: Option<Token> = None;
        core::mem::swap(&mut self.token, &mut token);
        if let Some(token) = token {
            let cancelling = Cancelling::new(token);
            let ghost change = cancelling;
            let cancelled = self.counter.state.settle(cancelling);
            proof {
                let lock = self.counter.state;
                let (permit, slot) = choose|permit: Permit<Account>, slot: &mut Account|
                    {
                        &&& permit.lock() == lock
                        &&& lock.accesses().contains((*slot, *final(slot)))
                        &&& #[trigger] call_ensures(
                            <Cancelling as Settle>::settle,
                            (change, &permit, slot),
                            cancelled,
                        )
                    };
                assert(old(self).counter().counted((*slot)@, (*final(slot))@));
            }
        }
    }
}

} // verus!
