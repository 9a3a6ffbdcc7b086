//! Bookkeeping of the attempts of one Monte Carlo move.

use vstd::prelude::*;

verus! {

/// Counts how often a move was attempted and how often it was accepted, in
/// all and since the last update of its amplitude.
///
/// `R` is the type of real numbers; the counter keeps the target acceptance
/// as it was given and leaves every computation with it to the caller.
pub struct MoveCounter<R> {
    /// Count the total number of times the move was called.
    pub total_attempted: u64,
    /// Count the total number of times the move was accepted.
    pub total_accepted: u64,
    /// Count the number of times the move was accepted since the last update.
    pub accepted: u64,
    /// Count the number of times the move was called since the last update.
    pub attempted: u64,
    /// The target fraction of accepted over attempted moves.
    pub target_acceptance: Option<R>,
}

impl<R: Copy> MoveCounter<R> {
    /// Whether one more attempt can be counted.
    pub open spec fn has_room(&self) -> bool {
        &&& self.total_attempted < u64::MAX
        &&& self.total_accepted < u64::MAX
        &&& self.attempted < u64::MAX
        &&& self.accepted < u64::MAX
    }

    /// A counter with all counts at zero and the given target acceptance.
    pub fn new(target_acceptance: Option<R>) -> (counter: Self)
        ensures
            counter == (MoveCounter {
                total_attempted: 0,
                total_accepted: 0,
                accepted: 0,
                attempted: 0,
                target_acceptance,
            }),
    {
        let mut counter = MoveCounter {
            total_attempted: 0,
            total_accepted: 0,
            accepted: 0,
            attempted: 0,
            target_acceptance: None,
        };
        counter.set_acceptance(target_acceptance);
        counter
    }

    /// Makes `target_acceptance` the target acceptance.
    pub fn set_acceptance(&mut self, target_acceptance: Option<R>)
        ensures
            *final(self) == (MoveCounter { target_acceptance, ..*old(self) }),
    {
        self.target_acceptance = target_acceptance;
    }

    /// Counts an attempt that was rejected.
    pub fn reject(&mut self)
        requires
            old(self).has_room(),
        ensures
            *final(self) == (MoveCounter {
                total_attempted: (old(self).total_attempted + 1) as u64,
                attempted: (old(self).attempted + 1) as u64,
                ..*old(self)
            }),
    {
        self.total_attempted = self.total_attempted + 1;
        self.attempted = self.attempted + 1;
    }

    /// Counts an attempt that was accepted.
    pub fn accept(&mut self)
        requires
            old(self).has_room(),
        ensures
            *final(self) == (MoveCounter {
                total_attempted: (old(self).total_attempted + 1) as u64,
                attempted: (old(self).attempted + 1) as u64,
                accepted: (old(self).accepted + 1) as u64,
                total_accepted: (old(self).total_accepted + 1) as u64,
                ..*old(self)
            }),
    {
        self.total_attempted = self.total_attempted + 1;
        self.attempted = self.attempted + 1;
        self.accepted = self.accepted + 1;
        self.total_accepted = self.total_accepted + 1;
    }

    /// Counts an attempt where there is room for one more, and says whether
    /// there was.
    pub fn record(&mut self, accepted: bool) -> (counted: bool)
        ensures
            counted == old(self).has_room(),
            !counted ==> *final(self) == *old(self),
            counted && accepted ==> *final(self) == (MoveCounter {
                total_attempted: (old(self).total_attempted + 1) as u64,
                attempted: (old(self).attempted + 1) as u64,
                accepted: (old(self).accepted + 1) as u64,
                total_accepted: (old(self).total_accepted + 1) as u64,
                ..*old(self)
            }),
            counted && !accepted ==> *final(self) == (MoveCounter {
                total_attempted: (old(self).total_attempted + 1) as u64,
                attempted: (old(self).attempted + 1) as u64,
                ..*old(self)
            }),
    {
        if self.total_attempted < u64::MAX && self.total_accepted < u64::MAX && self.attempted
            < u64::MAX && self.accepted < u64::MAX {
            if accepted {
                self.accept();
            } else {
                self.reject();
            }
            true
        } else {
            false
        }
    }

    /// Starts counting anew for the time since the last update. The total
    /// counts stay.
    pub fn update(&mut self)
        ensures
            *final(self) == (MoveCounter { accepted: 0, attempted: 0, ..*old(self) }),
    {
        self.accepted = 0;
        self.attempted = 0;
    }

    /// The fraction of accepted over attempted moves, in all: `zero` before
    /// the first attempt, and afterwards what `ratio` makes of the total
    /// number of accepted and the total number of attempted moves.
    pub fn acceptance<Q: Fn(u64, u64) -> R>(&self, ratio: &Q, zero: R) -> (fraction: R)
        requires
            forall|accepted: u64, attempted: u64|
                attempted > 0 ==> call_requires(*ratio, (accepted, attempted)),
        ensures
            self.total_attempted == 0 ==> fraction == zero,
            self.total_attempted != 0 ==> call_ensures(
                *ratio,
                (self.total_accepted, self.total_attempted),
                fraction,
            ),
    {
        if self.total_attempted == 0 {
            zero
        } else {
            ratio(self.total_accepted, self.total_attempted)
        }
    }

    /// The factor by which the amplitude of the move is to be scaled: none
    /// without a target acceptance or without an attempt since the last
    /// update, and otherwise what `scale` makes of the numbers of accepted
    /// and attempted moves since the last update and the target acceptance.
    pub fn compute_scaling_factor<Q: Fn(u64, u64, R) -> R>(&self, scale: &Q) -> (factor: Option<R>)
        requires
            forall|accepted: u64, attempted: u64, target: R|
                attempted > 0 ==> call_requires(*scale, (accepted, attempted, target)),
        ensures
            factor is Some == (self.target_acceptance is Some && self.attempted != 0),
            factor is Some ==> call_ensures(
                *scale,
                (self.accepted, self.attempted, self.target_acceptance->0),
                factor->0,
            ),
    {
        match self.target_acceptance {
            Some(target) => {
                if self.attempted == 0 {
                    return None;
                }
                Some(scale(self.accepted, self.attempted, target))
            },
            None => None,
        }
    }

    /// Whether the amplitude of the move is due for an update: it is once
    /// the move was attempted `update_frequency` times since the last one.
    pub fn is_due(&self, update_frequency: u64) -> (due: bool)
        ensures
            due == (self.attempted == update_frequency),
    {
        self.attempted == update_frequency
    }
}

} // verus!
