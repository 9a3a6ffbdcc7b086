//! The bookkeeping of a Metropolis Monte Carlo propagator: its moves, how
//! often each is chosen, and how often each was attempted and accepted.
//!
//! `M` is the type of the moves and `R` the type of real numbers. The
//! propagator never computes with frequencies itself: adding, dividing and
//! comparing them is done by functions that the caller hands in.

use vstd::prelude::*;
use crate::counter::MoveCounter;
use crate::density::{lemma_sum_of_none, lemma_sum_one_more, sums_to};

verus! {

/// What became of a request to normalize the frequencies.
#[derive(Clone, Copy, Debug, PartialEq, Eq, Structural)]
pub enum Normalization {
    /// There is no move, and nothing was done.
    NoMoves,
    /// The frequencies were normalized before, and nothing was done.
    AlreadyInitialized,
    /// The frequencies are now cumulative and end with one.
    Done,
}

/// Metropolis Monte Carlo propagator
pub struct MonteCarlo<R, M> {
    /// List of possible Monte Carlo moves
    moves: Vec<(M, MoveCounter<R>)>,
    /// Cumulative frequencies of the Monte Carlo moves
    frequencies: Vec<R>,
    /// Specifies the number of moves after which an update of a move's
    /// amplitude is performed.
    update_frequency: u64,
    /// Flag checking if the moves frequencies has been converted to
    /// cumulative frequencies or not yet.
    initialized: bool,
}

/// Whether `shares` are the `frequencies`, each divided by `sum`.
pub open spec fn shares_of<R, D: Fn(R, R) -> R>(
    divide: &D,
    frequencies: Seq<R>,
    sum: R,
    shares: Seq<R>,
) -> bool {
    &&& shares.len() == frequencies.len()
    &&& forall|i: int|
        0 <= i < shares.len() ==> call_ensures(*divide, (frequencies[i], sum), #[trigger] shares[i])
}

/// Whether `cumulative` are the running sums of the `shares`, with `one` in
/// the last place: the first is the first share, each later one is its share
/// plus the one before it, and the last is `one`.
pub open spec fn cumulated<R, A: Fn(R, R) -> R>(
    plus: &A,
    one: R,
    shares: Seq<R>,
    cumulative: Seq<R>,
) -> bool {
    &&& cumulative.len() == shares.len()
    &&& shares.len() > 0
    &&& cumulative.last() == one
    &&& shares.len() > 1 ==> cumulative[0] == shares[0]
    &&& forall|i: int|
        1 <= i < shares.len() - 1 ==> call_ensures(
            *plus,
            (shares[i], cumulative[i - 1]),
            #[trigger] cumulative[i],
        )
}

/// Whether `cumulative` are the `frequencies` made into cumulative shares of
/// their sum.
pub open spec fn normalized<R, A: Fn(R, R) -> R, D: Fn(R, R) -> R>(
    plus: &A,
    divide: &D,
    zero: R,
    one: R,
    frequencies: Seq<R>,
    cumulative: Seq<R>,
) -> bool {
    exists|sum: R, shares: Seq<R>|
        {
            &&& sums_to(plus, zero, frequencies, sum)
            &&& #[trigger] shares_of(divide, frequencies, sum, shares)
            &&& cumulated(plus, one, shares, cumulative)
        }
}

/// Whether `chosen` is the first of the `frequencies` that `probability` is
/// at most, as `at_most` compares, or nothing where there is none.
pub open spec fn first_reached<R, Q: Fn(R, R) -> bool>(
    at_most: &Q,
    probability: R,
    frequencies: Seq<R>,
    chosen: Option<usize>,
) -> bool {
    match chosen {
        Some(i) => {
            &&& i < frequencies.len()
            &&& call_ensures(*at_most, (probability, frequencies[i as int]), true)
            &&& forall|j: int|
                0 <= j < i ==> call_ensures(*at_most, (probability, #[trigger] frequencies[j]), false)
        },
        None => forall|j: int|
            0 <= j < frequencies.len() ==> call_ensures(
                *at_most,
                (probability, #[trigger] frequencies[j]),
                false,
            ),
    }
}

impl<R: Copy, M> MonteCarlo<R, M> {
    /// Every move has its frequency and its counter.
    pub open spec fn wf(&self) -> bool {
        &&& self.spec_frequencies().len() == self.spec_moves().len()
        &&& self.spec_counters().len() == self.spec_moves().len()
    }

    /// The moves, in the order in which they were added.
    pub closed spec fn spec_moves(&self) -> Seq<M> {
        Seq::new(self.moves@.len(), |i: int| self.moves@[i].0)
    }

    /// The counters of the moves.
    pub closed spec fn spec_counters(&self) -> Seq<MoveCounter<R>> {
        Seq::new(self.moves@.len(), |i: int| self.moves@[i].1)
    }

    /// The frequencies of the moves.
    pub closed spec fn spec_frequencies(&self) -> Seq<R> {
        self.frequencies@
    }

    /// The number of attempts of a move after which its amplitude is
    /// updated.
    pub closed spec fn spec_update_frequency(&self) -> u64 {
        self.update_frequency
    }

    /// Whether the frequencies were normalized.
    pub closed spec fn spec_initialized(&self) -> bool {
        self.initialized
    }

    /// A propagator without any move.
    pub fn new() -> (mc: Self)
        ensures
            mc.wf(),
            mc.spec_moves().len() == 0,
            mc.spec_counters().len() == 0,
            mc.spec_frequencies().len() == 0,
            mc.spec_update_frequency() == 0,
            !mc.spec_initialized(),
    {
        MonteCarlo {
            moves: Vec::new(),
            frequencies: Vec::new(),
            update_frequency: 0,
            initialized: false,
        }
    }

    /// Whether the frequencies were normalized.
    pub fn initialized(&self) -> (initialized: bool)
        ensures
            initialized == self.spec_initialized(),
    {
        self.initialized
    }

    /// The number of moves.
    pub fn size(&self) -> (size: usize)
        ensures
            size == self.spec_moves().len(),
    {
        self.moves.len()
    }

    /// The frequencies of the moves.
    pub fn frequencies(&self) -> (frequencies: &Vec<R>)
        ensures
            frequencies@ == self.spec_frequencies(),
    {
        &self.frequencies
    }

    /// Adds the move `mcmove` with the frequency `frequency` and a counter
    /// that has the target acceptance `target_acceptance`, after the moves
    /// that are there.
    fn push(&mut self, mcmove: M, frequency: R, target_acceptance: Option<R>)
        requires
            old(self).wf(),
        ensures
            final(self).wf(),
            final(self).spec_moves() == old(self).spec_moves().push(mcmove),
            final(self).spec_counters() == old(self).spec_counters().push(
                MoveCounter {
                    total_attempted: 0,
                    total_accepted: 0,
                    accepted: 0,
                    attempted: 0,
                    target_acceptance,
                },
            ),
            final(self).spec_frequencies() == old(self).spec_frequencies().push(frequency),
            final(self).spec_update_frequency() == old(self).spec_update_frequency(),
            final(self).spec_initialized() == old(self).spec_initialized(),
    {
        self.moves.push((mcmove, MoveCounter::new(target_acceptance)));
        self.frequencies.push(frequency);
        assert(self.spec_moves() =~= old(self).spec_moves().push(mcmove));
        assert(self.spec_counters() =~= old(self).spec_counters().push(
            MoveCounter {
                total_attempted: 0,
                total_accepted: 0,
                accepted: 0,
                attempted: 0,
                target_acceptance,
            },
        ));
    }

    /// Add the `mcmove` Monte Carlo move to this propagator, with frequency
    /// `frequency`. All calls to this function should happen before any
    /// simulation run.
    pub fn add(&mut self, mcmove: M, frequency: R)
        requires
            old(self).wf(),
            !old(self).spec_initialized(),
        ensures
            final(self).wf(),
            final(self).spec_moves() == old(self).spec_moves().push(mcmove),
            final(self).spec_counters() == old(self).spec_counters().push(
                MoveCounter {
                    total_attempted: 0,
                    total_accepted: 0,
                    accepted: 0,
                    attempted: 0,
                    target_acceptance: None,
                },
            ),
            final(self).spec_frequencies() == old(self).spec_frequencies().push(frequency),
            final(self).spec_update_frequency() == old(self).spec_update_frequency(),
            !final(self).spec_initialized(),
    {
        self.push(mcmove, frequency, None);
    }

    /// Add the `mcmove` Monte Carlo move to the propagator. `frequency`
    /// describes how frequent a move is called, `target_acceptance` is the
    /// desired acceptance ratio of the move.
    pub fn add_move_with_acceptance(&mut self, mcmove: M, frequency: R, target_acceptance: R)
        requires
            old(self).wf(),
            !old(self).spec_initialized(),
        ensures
            final(self).wf(),
            final(self).spec_moves() == old(self).spec_moves().push(mcmove),
            final(self).spec_counters() == old(self).spec_counters().push(
                MoveCounter {
                    total_attempted: 0,
                    total_accepted: 0,
                    accepted: 0,
                    attempted: 0,
                    target_acceptance: Some(target_acceptance),
                },
            ),
            final(self).spec_frequencies() == old(self).spec_frequencies().push(frequency),
            final(self).spec_update_frequency() == old(self).spec_update_frequency(),
            !final(self).spec_initialized(),
    {
        self.push(mcmove, frequency, Some(target_acceptance));
    }

    /// Set the number of times a move has to be called before its amplitude
    /// is updated. This value is applied to all moves.
    pub fn set_amplitude_update_frequency(&mut self, frequency: u64)
        requires
            old(self).wf(),
        ensures
            final(self).wf(),
            final(self).spec_update_frequency() == frequency,
            final(self).spec_moves() == old(self).spec_moves(),
            final(self).spec_counters() == old(self).spec_counters(),
            final(self).spec_frequencies() == old(self).spec_frequencies(),
            final(self).spec_initialized() == old(self).spec_initialized(),
    {
        self.update_frequency = frequency;
    }

    /// Makes the frequencies of the moves cumulative shares of their sum,
    /// once.
    ///
    /// Without a move, and where it was done before, nothing happens.
    /// Otherwise the sum of the frequencies is taken with `plus`, from
    /// `zero`; each frequency is divided by it with `divide`; each share but
    /// the first has the one before it added with `plus`; and the last is
    /// set to `one`.
    pub fn normalize_frequencies<A: Fn(R, R) -> R, D: Fn(R, R) -> R>(
        &mut self,
        plus: &A,
        divide: &D,
        zero: R,
        one: R,
    ) -> (outcome: Normalization)
        requires
            old(self).wf(),
            forall|a: R, b: R| call_requires(*plus, (a, b)),
            forall|a: R, b: R| call_requires(*divide, (a, b)),
        ensures
            final(self).wf(),
            final(self).spec_moves() == old(self).spec_moves(),
            final(self).spec_counters() == old(self).spec_counters(),
            final(self).spec_update_frequency() == old(self).spec_update_frequency(),
            outcome == (if old(self).spec_moves().len() == 0 {
                Normalization::NoMoves
            } else if old(self).spec_initialized() {
                Normalization::AlreadyInitialized
            } else {
                Normalization::Done
            }),
            outcome != Normalization::Done ==> final(self).spec_frequencies() == old(
                self,
            ).spec_frequencies() && final(self).spec_initialized() == old(self).spec_initialized(),
            outcome == Normalization::Done ==> final(self).spec_initialized() && normalized(
                plus,
                divide,
                zero,
                one,
                old(self).spec_frequencies(),
                final(self).spec_frequencies(),
            ),
    {
        if self.frequencies.len() == 0 {
            return Normalization::NoMoves;
        }
        if self.initialized {
            return Normalization::AlreadyInitialized;
        }
        self.initialized = true;
        let ghost given = self.frequencies@;
        let count = self.frequencies.len();

        // the sum of the frequencies
        let mut sum = zero;
        let mut i: usize = 0;
        proof {
            lemma_sum_of_none(plus, zero);
            assert(given.subrange(0, 0) =~= Seq::<R>::empty());
        }
        while i < count
            invariant
                i <= count,
                count == given.len(),
                self.frequencies@ == given,
                forall|a: R, b: R| call_requires(*plus, (a, b)),
                sums_to(plus, zero, given.subrange(0, i as int), sum),
            decreases count - i,
        {
            let next = plus(sum, self.frequencies[i]);
            proof {
                lemma_sum_one_more(plus, zero, given.subrange(0, i as int), sum, given[i as int], next);
                assert(given.subrange(0, i as int).push(given[i as int]) =~= given.subrange(
                    0,
                    i + 1,
                ));
            }
            sum = next;
            i = i + 1;
        }
        assert(given.subrange(0, count as int) =~= given);

        // the share of each move
        let mut i: usize = 0;
        while i < count
            invariant
                i <= count,
                count == given.len(),
                self.frequencies@.len() == count,
                self.wf(),
                self.spec_moves() == old(self).spec_moves(),
                self.spec_counters() == old(self).spec_counters(),
                self.spec_update_frequency() == old(self).spec_update_frequency(),
                self.spec_initialized(),
                forall|a: R, b: R| call_requires(*divide, (a, b)),
                forall|j: int|
                    0 <= j < i ==> call_ensures(*divide, (given[j], sum), #[trigger] self.frequencies@[j]),
                forall|j: int| i <= j < count ==> #[trigger] self.frequencies@[j] == given[j],
            decreases count - i,
        {
            let share = divide(self.frequencies[i], sum);
            self.frequencies[i] = share;
            i = i + 1;
        }
        let ghost shares = self.frequencies@;
        assert(shares_of(divide, given, sum, shares));

        // the cumulative frequencies
        let mut i: usize = 1;
        while i < count
            invariant
                1 <= i <= count,
                count == shares.len(),
                self.frequencies@.len() == count,
                self.wf(),
                self.spec_moves() == old(self).spec_moves(),
                self.spec_counters() == old(self).spec_counters(),
                self.spec_update_frequency() == old(self).spec_update_frequency(),
                self.spec_initialized(),
                forall|a: R, b: R| call_requires(*plus, (a, b)),
                self.frequencies@[0] == shares[0],
                forall|j: int|
                    1 <= j < i ==> call_ensures(
                        *plus,
                        (shares[j], self.frequencies@[j - 1]),
                        #[trigger] self.frequencies@[j],
                    ),
                forall|j: int| i <= j < count ==> #[trigger] self.frequencies@[j] == shares[j],
            decreases count - i,
        {
            let ghost before = self.frequencies@;
            let total = plus(self.frequencies[i], self.frequencies[i - 1]);
            self.frequencies[i] = total;
            proof {
                assert forall|j: int| 1 <= j < i + 1 implies call_ensures(
                    *plus,
                    (shares[j], self.frequencies@[j - 1]),
                    #[trigger] self.frequencies@[j],
                ) by {
                    if j < i {
                        assert(call_ensures(*plus, (shares[j], before[j - 1]), before[j]));
                    }
                }
            }
            i = i + 1;
        }
        let ghost summed = self.frequencies@;
        let last = count - 1;
        self.frequencies[last] = one;
        proof {
            assert forall|j: int| 1 <= j < shares.len() - 1 implies call_ensures(
                *plus,
                (shares[j], self.frequencies@[j - 1]),
                #[trigger] self.frequencies@[j],
            ) by {
                assert(call_ensures(*plus, (shares[j], summed[j - 1]), summed[j]));
            }
            assert(cumulated(plus, one, shares, self.frequencies@));
        }
        Normalization::Done
    }

    /// The move to attempt for the random number `probability`: the first
    /// whose frequency `probability` is at most, as `at_most` compares.
    pub fn select<Q: Fn(R, R) -> bool>(&self, probability: R, at_most: &Q) -> (chosen: Option<
        usize,
    >)
        requires
            forall|a: R, b: R| call_requires(*at_most, (a, b)),
        ensures
            first_reached(at_most, probability, self.spec_frequencies(), chosen),
    {
        let mut i: usize = 0;
        while i < self.frequencies.len()
            invariant
                i <= self.frequencies@.len(),
                forall|a: R, b: R| call_requires(*at_most, (a, b)),
                forall|j: int|
                    0 <= j < i ==> call_ensures(
                        *at_most,
                        (probability, #[trigger] self.frequencies@[j]),
                        false,
                    ),
            decreases self.frequencies@.len() - i,
        {
            if at_most(probability, self.frequencies[i]) {
                return Some(i);
            }
            i = i + 1;
        }
        None
    }

    /// The move number `i`.
    pub fn mcmove(&self, i: usize) -> (mcmove: &M)
        requires
            i < self.spec_moves().len(),
        ensures
            *mcmove == self.spec_moves()[i as int],
    {
        &self.moves[i].0
    }

    /// The move number `i`, to be changed in place. Nothing else changes.
    pub fn mcmove_mut(&mut self, i: usize) -> (mcmove: &mut M)
        requires
            old(self).wf(),
            i < old(self).spec_moves().len(),
        ensures
            *mcmove == old(self).spec_moves()[i as int],
            final(self).wf(),
            final(self).spec_moves() == old(self).spec_moves().update(i as int, *final(mcmove)),
            final(self).spec_counters() == old(self).spec_counters(),
            final(self).spec_frequencies() == old(self).spec_frequencies(),
            final(self).spec_update_frequency() == old(self).spec_update_frequency(),
            final(self).spec_initialized() == old(self).spec_initialized(),
    {
        let ghost before = self.moves@;
        let pair = &mut self.moves[i];
        let mcmove = &mut pair.0;
        proof {
            let after = before.update(i as int, (*final(mcmove), before[i as int].1));
            assert(Seq::new(after.len(), |j: int| after[j].0) =~= Seq::new(
                before.len(),
                |j: int| before[j].0,
            ).update(i as int, *final(mcmove)));
            assert(Seq::new(after.len(), |j: int| after[j].1) =~= Seq::new(
                before.len(),
                |j: int| before[j].1,
            ));
        }
        mcmove
    }

    /// The counter of the move number `i`.
    pub fn counter(&self, i: usize) -> (counter: &MoveCounter<R>)
        requires
            i < self.spec_counters().len(),
        ensures
            *counter == self.spec_counters()[i as int],
    {
        &self.moves[i].1
    }

    /// Counts an attempt of the move number `i`, and says whether the
    /// amplitude of the move is now due for an update. An attempt that the
    /// counter has no room for is not counted.
    pub fn record(&mut self, i: usize, accepted: bool) -> (due: bool)
        requires
            old(self).wf(),
            i < old(self).spec_counters().len(),
        ensures
            final(self).wf(),
            final(self).spec_moves() == old(self).spec_moves(),
            final(self).spec_frequencies() == old(self).spec_frequencies(),
            final(self).spec_update_frequency() == old(self).spec_update_frequency(),
            final(self).spec_initialized() == old(self).spec_initialized(),
            final(self).spec_counters() == old(self).spec_counters().update(
                i as int,
                counted(old(self).spec_counters()[i as int], accepted),
            ),
            due == (final(self).spec_counters()[i as int].attempted == old(
                self,
            ).spec_update_frequency()),
    {
        let ghost before = self.moves@;
        let frequency = self.update_frequency;
        let mut counter = MoveCounter {
            total_attempted: self.moves[i].1.total_attempted,
            total_accepted: self.moves[i].1.total_accepted,
            accepted: self.moves[i].1.accepted,
            attempted: self.moves[i].1.attempted,
            target_acceptance: self.moves[i].1.target_acceptance,
        };
        let _ = counter.record(accepted);
        let due = counter.is_due(frequency);
        self.moves[i].1 = counter;
        proof {
            assert(self.spec_moves() =~= old(self).spec_moves());
            assert(self.spec_counters() =~= old(self).spec_counters().update(
                i as int,
                counted(old(self).spec_counters()[i as int], accepted),
            ));
        }
        due
    }

    /// Starts the counter of the move number `i` anew for the time since the
    /// last update of the amplitude.
    pub fn update(&mut self, i: usize)
        requires
            old(self).wf(),
            i < old(self).spec_counters().len(),
        ensures
            final(self).wf(),
            final(self).spec_moves() == old(self).spec_moves(),
            final(self).spec_frequencies() == old(self).spec_frequencies(),
            final(self).spec_update_frequency() == old(self).spec_update_frequency(),
            final(self).spec_initialized() == old(self).spec_initialized(),
            final(self).spec_counters() == old(self).spec_counters().update(
                i as int,
                (MoveCounter { accepted: 0, attempted: 0, ..old(self).spec_counters()[i as int] }),
            ),
    {
        self.moves[i].1.accepted = 0;
        self.moves[i].1.attempted = 0;
        proof {
            assert(self.spec_moves() =~= old(self).spec_moves());
            assert(self.spec_counters() =~= old(self).spec_counters().update(
                i as int,
                (MoveCounter { accepted: 0, attempted: 0, ..old(self).spec_counters()[i as int] }),
            ));
        }
    }
}

/// The counter `counter` after an attempt was counted, where it has room for
/// one; `counter` itself where it has not.
pub open spec fn counted<R: Copy>(counter: MoveCounter<R>, accepted: bool) -> MoveCounter<R> {
    if !counter.has_room() {
        counter
    } else if accepted {
        MoveCounter {
            total_attempted: (counter.total_attempted + 1) as u64,
            attempted: (counter.attempted + 1) as u64,
            accepted: (counter.accepted + 1) as u64,
            total_accepted: (counter.total_accepted + 1) as u64,
            ..counter
        }
    } else {
        MoveCounter {
            total_attempted: (counter.total_attempted + 1) as u64,
            attempted: (counter.attempted + 1) as u64,
            ..counter
        }
    }
}

/// The degrees of freedom that a Monte Carlo move simulates.
pub enum MCDegreeOfFreedom {
    /// All the particles are simulated
    Particles,
    /// All the molecules are simulated
    AllMolecules,
    /// The molecules with the given hashes are simulated
    Molecules(Vec<u64>),
}

/// The degrees of freedom that a simulation simulates.
#[derive(Clone, Copy, Debug, PartialEq, Eq, Structural)]
pub enum DegreesOfFreedom {
    /// All the particles are simulated
    Particles,
    /// The molecules are simulated as rigid bodies
    Molecules,
}

/// Whether one of the moves simulates all the particles.
pub open spec fn some_particles(moves: Seq<MCDegreeOfFreedom>) -> bool {
    exists|i: int| 0 <= i < moves.len() && #[trigger] moves[i] is Particles
}

/// Whether one of the moves simulates all the molecules.
pub open spec fn some_all_molecules(moves: Seq<MCDegreeOfFreedom>) -> bool {
    exists|i: int| 0 <= i < moves.len() && #[trigger] moves[i] is AllMolecules
}

/// Whether the move names the molecules with the hash `hash` as simulated.
pub open spec fn names_hash(mcmove: MCDegreeOfFreedom, hash: u64) -> bool {
    match mcmove {
        MCDegreeOfFreedom::Molecules(hashes) => hashes@.contains(hash),
        _ => false,
    }
}

/// Whether one of the moves simulates the molecules with the hash `hash`.
pub open spec fn simulated(moves: Seq<MCDegreeOfFreedom>, hash: u64) -> bool {
    exists|i: int| 0 <= i < moves.len() && names_hash(#[trigger] moves[i], hash)
}

/// The degrees of freedom that the moves simulate together: the particles
/// where there is no move or a move simulates all the particles, and the
/// molecules otherwise.
pub open spec fn combined(moves: Seq<MCDegreeOfFreedom>) -> DegreesOfFreedom {
    if moves.len() == 0 || some_particles(moves) {
        DegreesOfFreedom::Particles
    } else {
        DegreesOfFreedom::Molecules
    }
}

/// Whether the hashes of `composition` are to be looked for among the
/// moves: they are where every move names the molecules that it simulates.
pub open spec fn names_molecules(moves: Seq<MCDegreeOfFreedom>) -> bool {
    moves.len() > 0 && !some_particles(moves) && !some_all_molecules(moves)
}

/// The degrees of freedom that the moves with the degrees of freedom
/// `moves` simulate together, and the hashes of `composition`, in order,
/// that no move simulates although every move names the molecules that it
/// simulates.
pub fn degrees_of_freedom(moves: &Vec<MCDegreeOfFreedom>, composition: &Vec<u64>) -> (found: (
    DegreesOfFreedom,
    Vec<u64>,
))
    ensures
        found.0 == combined(moves@),
        !names_molecules(moves@) ==> found.1@.len() == 0,
        names_molecules(moves@) ==> found.1@ == composition@.filter(
            |hash: u64| !simulated(moves@, hash),
        ),
{
    let mut missing: Vec<u64> = Vec::new();
    if moves.len() == 0 {
        return (DegreesOfFreedom::Particles, missing);
    }
    let mut all_molecules = false;
    let mut i: usize = 0;
    while i < moves.len()
        invariant
            i <= moves@.len(),
            missing@.len() == 0,
            !some_particles(moves@.subrange(0, i as int)),
            all_molecules == some_all_molecules(moves@.subrange(0, i as int)),
        decreases moves@.len() - i,
    {
        let ghost before = moves@.subrange(0, i as int);
        let ghost after = moves@.subrange(0, i + 1);
        match &moves[i] {
            MCDegreeOfFreedom::Particles => {
                proof {
                    assert(moves@[i as int] is Particles);
                }
                return (DegreesOfFreedom::Particles, missing);
            },
            MCDegreeOfFreedom::AllMolecules => {
                all_molecules = true;
                proof {
                    assert(after[i as int] is AllMolecules);
                }
            },
            MCDegreeOfFreedom::Molecules(_) => {
                proof {
                    if some_all_molecules(after) {
                        let j = choose|j: int| 0 <= j < after.len() && #[trigger] after[j] is AllMolecules;
                        assert(before[j] is AllMolecules);
                    }
                    if some_all_molecules(before) {
                        let j = choose|j: int|
                            0 <= j < before.len() && #[trigger] before[j] is AllMolecules;
                        assert(after[j] is AllMolecules);
                    }
                }
            },
        }
        proof {
            if some_particles(after) {
                let j = choose|j: int| 0 <= j < after.len() && #[trigger] after[j] is Particles;
                if j < i {
                    assert(before[j] is Particles);
                }
            }
        }
        i = i + 1;
    }
    assert(moves@.subrange(0, i as int) =~= moves@);
    if all_molecules {
        return (DegreesOfFreedom::Molecules, missing);
    }
    let mut n: usize = 0;
    assert(composition@.subrange(0, 0) =~= Seq::<u64>::empty());
    while n < composition.len()
        invariant
            n <= composition@.len(),
            missing@ == composition@.subrange(0, n as int).filter(
                |hash: u64| !simulated(moves@, hash),
            ),
        decreases composition@.len() - n,
    {
        let hash = composition[n];
        let found = is_simulated(moves, hash);
        proof {
            let pred = |hash: u64| !simulated(moves@, hash);
            let taken = composition@.subrange(0, n + 1);
            assert(taken.drop_last() =~= composition@.subrange(0, n as int));
            assert(taken.last() == hash);
            reveal(Seq::filter);
            assert(taken.filter(pred) == if pred(hash) {
                taken.drop_last().filter(pred).push(hash)
            } else {
                taken.drop_last().filter(pred)
            });
        }
        if !found {
            missing.push(hash);
        }
        n = n + 1;
    }
    assert(composition@.subrange(0, n as int) =~= composition@);
    (DegreesOfFreedom::Molecules, missing)
}

/// Whether one of the moves simulates the molecules with the hash `hash`.
fn is_simulated(moves: &Vec<MCDegreeOfFreedom>, hash: u64) -> (found: bool)
    ensures
        found == simulated(moves@, hash),
{
    let mut i: usize = 0;
    while i < moves.len()
        invariant
            i <= moves@.len(),
            !simulated(moves@.subrange(0, i as int), hash),
        decreases moves@.len() - i,
    {
        let ghost before = moves@.subrange(0, i as int);
        let ghost after = moves@.subrange(0, i + 1);
        let mut here = false;
        match &moves[i] {
            MCDegreeOfFreedom::Molecules(hashes) => {
                let mut j: usize = 0;
                while j < hashes.len()
                    invariant_except_break
                        !here,
                        forall|m: int| 0 <= m < j ==> hashes@[m] != hash,
                    invariant
                        j <= hashes@.len(),
                    ensures
                        here == hashes@.contains(hash),
                    decreases hashes@.len() - j,
                {
                    if hashes[j] == hash {
                        here = true;
                        break ;
                    }
                    j = j + 1;
                }
            },
            _ => {},
        }
        if here {
            proof {
                assert(names_hash(moves@[i as int], hash));
            }
            return true;
        }
        proof {
            if simulated(after, hash) {
                let j = choose|j: int| 0 <= j < after.len() && names_hash(#[trigger] after[j], hash);
                if j < i {
                    assert(names_hash(before[j], hash));
                }
            }
        }
        i = i + 1;
    }
    assert(moves@.subrange(0, i as int) =~= moves@);
    false
}

} // verus!
