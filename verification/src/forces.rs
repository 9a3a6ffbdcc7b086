//! Forces of the real space part of the summation.
//!
//! Every pair `(i, j)` of charged particles with `i < j` has one force, which
//! pushes `i` and pulls `j`. The force on a particle is collected in two
//! steps. First the forces of the pairs in which it is the second particle
//! are subtracted from `zero`, in order of the first particle. Then, where
//! the particle is charged, the forces of the pairs in which it is the first
//! particle are added up from `zero`, in order of the second particle, and
//! that sum is added to what the first step left. The result is added to the
//! force that the caller passed in for the particle.
//!
//! What the force of a pair is, and how forces are added and subtracted, is
//! the caller's business: `pair`, `plus` and `minus` are functions that are
//! handed in.

use vstd::prelude::*;
use crate::realspace::{charged_pair, row_step, row_sum, row_totals};

verus! {

/// Whether `after` is what the pair `(i, a)` makes of the force `before`
/// on particle `a`: `before` less the force of the pair where both particles
/// are charged, and `before` itself otherwise.
pub open spec fn pull_step<T, P: Fn(usize, usize) -> T, S: Fn(T, T) -> T>(
    charged: Seq<bool>,
    pair: &P,
    minus: &S,
    i: usize,
    a: usize,
    before: T,
    after: T,
) -> bool {
    if charged[i as int] && charged[a as int] {
        exists|force: T|
            call_ensures(*pair, (i, a), force) && call_ensures(*minus, (before, force), after)
    } else {
        after == before
    }
}

/// Whether `drawn` is what the pairs `(i, a)` with `i < upto`, in order of
/// `i`, make of `zero`.
pub open spec fn pulled<T, P: Fn(usize, usize) -> T, S: Fn(T, T) -> T>(
    charged: Seq<bool>,
    pair: &P,
    minus: &S,
    zero: T,
    a: usize,
    upto: usize,
    drawn: T,
) -> bool {
    exists|totals: Seq<T>|
        {
            &&& #[trigger] totals.len() == upto + 1
            &&& totals[0] == zero
            &&& totals.last() == drawn
            &&& forall|i: usize|
                i < upto ==> pull_step(charged, pair, minus, i, a, #[trigger] totals[i as int], totals[i + 1])
        }
}

/// Whether `local` is the force that the pairs of charged particles exert
/// on particle `a`.
pub open spec fn local_force<
    T,
    P: Fn(usize, usize) -> T,
    A: Fn(T, T) -> T,
    S: Fn(T, T) -> T,
>(charged: Seq<bool>, pair: &P, plus: &A, minus: &S, zero: T, a: usize, local: T) -> bool {
    exists|drawn: T|
        #[trigger] pulled(charged, pair, minus, zero, a, a, drawn) && if charged[a as int] {
            exists|own: T|
                #[trigger] row_sum(charged, pair, plus, zero, a, own) && call_ensures(
                    *plus,
                    (drawn, own),
                    local,
                )
        } else {
            local == drawn
        }
}

/// Whether `after` is the force `before` on particle `a` with the force that
/// the pairs of charged particles exert on it added.
pub open spec fn force_added<
    T,
    P: Fn(usize, usize) -> T,
    A: Fn(T, T) -> T,
    S: Fn(T, T) -> T,
>(
    charged: Seq<bool>,
    pair: &P,
    plus: &A,
    minus: &S,
    zero: T,
    a: usize,
    before: T,
    after: T,
) -> bool {
    exists|local: T|
        #[trigger] local_force(charged, pair, plus, minus, zero, a, local) && call_ensures(
            *plus,
            (before, local),
            after,
        )
}

/// Nothing is drawn before the first pair.
pub proof fn lemma_pulled_none<T, P: Fn(usize, usize) -> T, S: Fn(T, T) -> T>(
    charged: Seq<bool>,
    pair: &P,
    minus: &S,
    zero: T,
    a: usize,
)
    ensures
        pulled(charged, pair, minus, zero, a, 0, zero),
{
    let totals = seq![zero];
    assert(totals.len() == 0 + 1);
}

/// One more pair on what was drawn.
pub proof fn lemma_pulled_one_more<T, P: Fn(usize, usize) -> T, S: Fn(T, T) -> T>(
    charged: Seq<bool>,
    pair: &P,
    minus: &S,
    zero: T,
    a: usize,
    upto: usize,
    before: T,
    after: T,
)
    requires
        upto < usize::MAX,
        pulled(charged, pair, minus, zero, a, upto, before),
        pull_step(charged, pair, minus, upto, a, before, after),
    ensures
        pulled(charged, pair, minus, zero, a, (upto + 1) as usize, after),
{
    let totals = choose|totals: Seq<T>|
        {
            &&& #[trigger] totals.len() == upto + 1
            &&& totals[0] == zero
            &&& totals.last() == before
            &&& forall|i: usize|
                i < upto ==> pull_step(charged, pair, minus, i, a, #[trigger] totals[i as int], totals[i + 1])
        };
    let more = totals.push(after);
    assert forall|i: usize| i < upto + 1 implies pull_step(
        charged,
        pair,
        minus,
        i,
        a,
        #[trigger] more[i as int],
        more[i + 1],
    ) by {
        if i < upto {
            assert(pull_step(charged, pair, minus, i, a, totals[i as int], totals[i + 1]));
        }
    }
    assert(more.len() == (upto + 1) as usize + 1);
}

/// Adds to each of `forces` the force that the pairs of charged particles
/// exert on the particle.
///
/// `charged[i]` says whether particle `i` has a charge, `pair(i, j)` gives
/// the force of the pair `(i, j)` on its first particle, `plus` adds and
/// `minus` subtracts, starting from `zero`.
pub fn real_space_forces<
    T: Copy,
    P: Fn(usize, usize) -> T,
    A: Fn(T, T) -> T,
    S: Fn(T, T) -> T,
>(charged: &Vec<bool>, pair: &P, plus: &A, minus: &S, zero: T, forces: &mut Vec<T>)
    requires
        old(forces)@.len() == charged@.len(),
        forall|i: usize, j: usize| charged_pair(charged@, i, j) ==> call_requires(*pair, (i, j)),
        forall|a: T, b: T| call_requires(*plus, (a, b)),
        forall|a: T, b: T| call_requires(*minus, (a, b)),
    ensures
        final(forces)@.len() == charged@.len(),
        forall|a: usize|
            a < charged@.len() ==> force_added(
                charged@,
                pair,
                plus,
                minus,
                zero,
                a,
                old(forces)@[a as int],
                #[trigger] final(forces)@[a as int],
            ),
{
    let natoms = charged.len();
    let locals = local_forces(charged, pair, plus, minus, zero);
    let mut a: usize = 0;
    while a < natoms
        invariant
            natoms == charged@.len(),
            a <= natoms,
            forces@.len() == natoms,
            locals@.len() == natoms,
            forall|a: T, b: T| call_requires(*plus, (a, b)),
            forall|b: usize|
                b < natoms ==> local_force(charged@, pair, plus, minus, zero, b, #[trigger] locals@[b as int]),
            forall|b: usize| a <= b < natoms ==> forces@[b as int] == old(forces)@[b as int],
            forall|b: usize|
                b < a ==> force_added(
                    charged@,
                    pair,
                    plus,
                    minus,
                    zero,
                    b,
                    old(forces)@[b as int],
                    #[trigger] forces@[b as int],
                ),
        decreases natoms - a,
    {
        let total = plus(forces[a], locals[a]);
        assert(local_force(charged@, pair, plus, minus, zero, a, locals@[a as int]));
        forces[a] = total;
        a = a + 1;
    }
}

/// Whether `after` is what the pairs of row `i`, those of particle `i` with
/// the particles after it, make of the entry `before` of a buffer for
/// particle `a`. An entry before `i` stays. The entry of `i` itself gets the
/// sum of the row added, where `i` is charged. An entry after `i` gets the
/// force of its pair with `i` subtracted.
pub open spec fn row_added<T, P: Fn(usize, usize) -> T, A: Fn(T, T) -> T, S: Fn(T, T) -> T>(
    charged: Seq<bool>,
    pair: &P,
    plus: &A,
    minus: &S,
    zero: T,
    i: usize,
    a: usize,
    before: T,
    after: T,
) -> bool {
    if a < i {
        after == before
    } else if a == i {
        if charged[i as int] {
            exists|own: T|
                #[trigger] row_sum(charged, pair, plus, zero, i, own) && call_ensures(
                    *plus,
                    (before, own),
                    after,
                )
        } else {
            after == before
        }
    } else {
        pull_step(charged, pair, minus, i, a, before, after)
    }
}

/// Adds the forces of the pairs of row `i` to a worker's buffer: to the
/// entry of particle `i` the sum of the row, and from the entry of each
/// charged particle after `i` the force of its pair with `i` is subtracted.
pub fn row_forces<T: Copy, P: Fn(usize, usize) -> T, A: Fn(T, T) -> T, S: Fn(T, T) -> T>(
    charged: &Vec<bool>,
    pair: &P,
    plus: &A,
    minus: &S,
    zero: T,
    i: usize,
    buffer: &mut Vec<T>,
)
    requires
        i < charged@.len(),
        old(buffer)@.len() == charged@.len(),
        forall|j: usize| charged_pair(charged@, i, j) ==> call_requires(*pair, (i, j)),
        forall|a: T, b: T| call_requires(*plus, (a, b)),
        forall|a: T, b: T| call_requires(*minus, (a, b)),
    ensures
        final(buffer)@.len() == charged@.len(),
        forall|a: usize|
            a < charged@.len() ==> row_added(
                charged@,
                pair,
                plus,
                minus,
                zero,
                i,
                a,
                old(buffer)@[a as int],
                #[trigger] final(buffer)@[a as int],
            ),
{
    let natoms = charged.len();
    if charged[i] {
        let mut force_i = zero;
        let ghost mut totals: Seq<T> = Seq::new((i + 2) as nat, |j: int| zero);
        let mut j: usize = i + 1;
        while j < natoms
            invariant
                natoms == charged@.len(),
                i < j <= natoms,
                charged@[i as int],
                buffer@.len() == natoms,
                forall|j: usize| charged_pair(charged@, i, j) ==> call_requires(*pair, (i, j)),
                forall|a: T, b: T| call_requires(*plus, (a, b)),
                forall|a: T, b: T| call_requires(*minus, (a, b)),
                totals.len() == j + 1,
                totals[0] == zero,
                totals.last() == force_i,
                forall|b: usize|
                    b < j ==> row_step(
                        charged@,
                        pair,
                        plus,
                        i,
                        b,
                        #[trigger] totals[b as int],
                        totals[b + 1],
                    ),
                forall|b: usize|
                    b <= i || j <= b < natoms ==> #[trigger] buffer@[b as int] == old(buffer)@[b as int],
                forall|b: usize|
                    i < b < j ==> pull_step(
                        charged@,
                        pair,
                        minus,
                        i,
                        b,
                        old(buffer)@[b as int],
                        #[trigger] buffer@[b as int],
                    ),
            decreases natoms - j,
        {
            let ghost shorter = totals;
            let ghost before = buffer@;
            if charged[j] {
                assert(charged_pair(charged@, i, j));
                let force = pair(i, j);
                let next = plus(force_i, force);
                force_i = next;
                let drawn = minus(buffer[j], force);
                buffer[j] = drawn;
            }
            proof {
                totals = shorter.push(force_i);
                assert forall|b: usize| b < j + 1 implies row_step(
                    charged@,
                    pair,
                    plus,
                    i,
                    b,
                    #[trigger] totals[b as int],
                    totals[b + 1],
                ) by {
                    if b < j {
                        assert(row_step(charged@, pair, plus, i, b, shorter[b as int], shorter[b + 1]));
                    }
                }
                assert(pull_step(charged@, pair, minus, i, j, before[j as int], buffer@[j as int]));
                assert forall|b: usize| i < b < j + 1 implies pull_step(
                    charged@,
                    pair,
                    minus,
                    i,
                    b,
                    old(buffer)@[b as int],
                    #[trigger] buffer@[b as int],
                ) by {
                    if b < j {
                        assert(buffer@[b as int] == before[b as int]);
                    }
                }
                assert forall|b: usize| b <= i || j + 1 <= b < natoms implies #[trigger] buffer@[b as int]
                    == old(buffer)@[b as int] by {
                    assert(buffer@[b as int] == before[b as int]);
                }
            }
            j = j + 1;
        }
        assert(row_totals(charged@, pair, plus, zero, i, totals));
        assert(row_sum(charged@, pair, plus, zero, i, force_i));
        let ghost before = buffer@;
        let total = plus(buffer[i], force_i);
        buffer[i] = total;
        proof {
            assert forall|a: usize| a < natoms implies row_added(
                charged@,
                pair,
                plus,
                minus,
                zero,
                i,
                a,
                old(buffer)@[a as int],
                #[trigger] buffer@[a as int],
            ) by {
                if a != i {
                    assert(buffer@[a as int] == before[a as int]);
                }
            }
        }
    } else {
        proof {
            assert forall|a: usize| a < natoms implies row_added(
                charged@,
                pair,
                plus,
                minus,
                zero,
                i,
                a,
                old(buffer)@[a as int],
                #[trigger] buffer@[a as int],
            ) by {}
        }
    }
}

/// The force that the pairs of charged particles exert on each particle.
pub fn local_forces<T: Copy, P: Fn(usize, usize) -> T, A: Fn(T, T) -> T, S: Fn(T, T) -> T>(
    charged: &Vec<bool>,
    pair: &P,
    plus: &A,
    minus: &S,
    zero: T,
) -> (locals: Vec<T>)
    requires
        forall|i: usize, j: usize| charged_pair(charged@, i, j) ==> call_requires(*pair, (i, j)),
        forall|a: T, b: T| call_requires(*plus, (a, b)),
        forall|a: T, b: T| call_requires(*minus, (a, b)),
    ensures
        locals@.len() == charged@.len(),
        forall|a: usize|
            a < charged@.len() ==> local_force(
                charged@,
                pair,
                plus,
                minus,
                zero,
                a,
                #[trigger] locals@[a as int],
            ),
{
    let natoms = charged.len();
    let mut locals: Vec<T> = Vec::new();
    let mut a: usize = 0;
    while a < natoms
        invariant
            natoms == charged@.len(),
            a <= natoms,
            locals@.len() == a,
            forall|b: usize| b < a ==> #[trigger] locals@[b as int] == zero,
        decreases natoms - a,
    {
        locals.push(zero);
        a = a + 1;
    }
    proof {
        assert forall|b: usize| b < natoms implies pulled(
            charged@,
            pair,
            minus,
            zero,
            b,
            0,
            #[trigger] locals@[b as int],
        ) by {
            lemma_pulled_none(charged@, pair, minus, zero, b);
        }
    }
    let mut i: usize = 0;
    while i < natoms
        invariant
            natoms == charged@.len(),
            i <= natoms,
            locals@.len() == natoms,
            forall|i: usize, j: usize| charged_pair(charged@, i, j) ==> call_requires(*pair, (i, j)),
            forall|a: T, b: T| call_requires(*plus, (a, b)),
            forall|a: T, b: T| call_requires(*minus, (a, b)),
            forall|b: usize|
                b < i ==> local_force(charged@, pair, plus, minus, zero, b, #[trigger] locals@[b as int]),
            forall|b: usize|
                i <= b < natoms ==> pulled(charged@, pair, minus, zero, b, i, #[trigger] locals@[b as int]),
        decreases natoms - i,
    {
        let ghost entered = locals@;
        row_forces(charged, pair, plus, minus, zero, i, &mut locals);
        proof {
            assert forall|b: usize| b < i + 1 implies local_force(
                charged@,
                pair,
                plus,
                minus,
                zero,
                b,
                #[trigger] locals@[b as int],
            ) by {
                assert(row_added(
                    charged@,
                    pair,
                    plus,
                    minus,
                    zero,
                    i,
                    b,
                    entered[b as int],
                    locals@[b as int],
                ));
                if b == i {
                    assert(pulled(charged@, pair, minus, zero, i, i, entered[i as int]));
                }
            }
            assert forall|b: usize| i + 1 <= b < natoms implies pulled(
                charged@,
                pair,
                minus,
                zero,
                b,
                (i + 1) as usize,
                #[trigger] locals@[b as int],
            ) by {
                assert(row_added(
                    charged@,
                    pair,
                    plus,
                    minus,
                    zero,
                    i,
                    b,
                    entered[b as int],
                    locals@[b as int],
                ));
                lemma_pulled_one_more(
                    charged@,
                    pair,
                    minus,
                    zero,
                    b,
                    i,
                    entered[b as int],
                    locals@[b as int],
                );
            }
        }
        i = i + 1;
    }
    locals
}

} // verus!
