//! The sum over pairs of molecules, as the molecular virial takes it.
//!
//! The molecules are taken in order. Molecule `i` contributes its row: for
//! each molecule `j` after it, for each charged particle `a` of `i` and each
//! charged particle `b` of `j`, in this order, the term of the four is added
//! to a total that starts at `zero`. The rows are then added to `zero` in
//! order of `i`.
//!
//! What the term of a pair is, and how terms are added, is the caller's
//! business: `pair` and `plus` are functions that are handed in.

use vstd::prelude::*;
use crate::density::{lemma_sum_of_none, lemma_sum_one_more, sums_to};
use crate::realspace::{members, members_below};

verus! {

/// Whether `after` is what the particle `b` of molecule `j` makes of the
/// total `before`, for the particle `a` of molecule `i`: `before` plus the
/// term of the four where `b` is charged, and `before` itself otherwise.
pub open spec fn atom_step<T, P: Fn(usize, usize, usize, usize) -> T, A: Fn(T, T) -> T>(
    charged: Seq<bool>,
    pair: &P,
    plus: &A,
    i: usize,
    j: usize,
    a: usize,
    b: usize,
    before: T,
    after: T,
) -> bool {
    if charged[b as int] {
        exists|term: T|
            call_ensures(*pair, (i, j, a, b), term) && call_ensures(*plus, (before, term), after)
    } else {
        after == before
    }
}

/// Whether `after` is what the particles `others` of molecule `j`, in order,
/// make of the total `before`, for the particle `a` of molecule `i`.
pub open spec fn atoms_run<T, P: Fn(usize, usize, usize, usize) -> T, A: Fn(T, T) -> T>(
    charged: Seq<bool>,
    pair: &P,
    plus: &A,
    i: usize,
    j: usize,
    a: usize,
    others: Seq<usize>,
    before: T,
    after: T,
) -> bool {
    exists|totals: Seq<T>|
        {
            &&& #[trigger] totals.len() == others.len() + 1
            &&& totals[0] == before
            &&& totals.last() == after
            &&& forall|n: int|
                0 <= n < others.len() ==> atom_step(
                    charged,
                    pair,
                    plus,
                    i,
                    j,
                    a,
                    others[n],
                    #[trigger] totals[n],
                    totals[n + 1],
                )
        }
}

/// Whether `after` is what the pairs of a charged particle of `firsts`, the
/// particles of molecule `i`, with a charged particle of `others`, the
/// particles of molecule `j`, make of the total `before`.
pub open spec fn molecules_run<T, P: Fn(usize, usize, usize, usize) -> T, A: Fn(T, T) -> T>(
    charged: Seq<bool>,
    pair: &P,
    plus: &A,
    i: usize,
    j: usize,
    firsts: Seq<usize>,
    others: Seq<usize>,
    before: T,
    after: T,
) -> bool {
    exists|totals: Seq<T>|
        {
            &&& #[trigger] totals.len() == firsts.len() + 1
            &&& totals[0] == before
            &&& totals.last() == after
            &&& forall|n: int|
                0 <= n < firsts.len() ==> if charged[firsts[n] as int] {
                    atoms_run(
                        charged,
                        pair,
                        plus,
                        i,
                        j,
                        firsts[n],
                        others,
                        #[trigger] totals[n],
                        totals[n + 1],
                    )
                } else {
                    totals[n + 1] == totals[n]
                }
        }
}

/// Whether `local` is the row of molecule `i`: what the molecules after it,
/// in order, make of `zero`.
pub open spec fn molecule_row<T, P: Fn(usize, usize, usize, usize) -> T, A: Fn(T, T) -> T>(
    charged: Seq<bool>,
    molecules: Seq<Seq<usize>>,
    pair: &P,
    plus: &A,
    zero: T,
    i: usize,
    local: T,
) -> bool {
    exists|totals: Seq<T>|
        {
            &&& #[trigger] totals.len() == molecules.len() + 1
            &&& totals[0] == zero
            &&& totals.last() == local
            &&& forall|j: int|
                0 <= j < molecules.len() ==> if i < j {
                    molecules_run(
                        charged,
                        pair,
                        plus,
                        i,
                        j as usize,
                        molecules[i as int],
                        molecules[j],
                        #[trigger] totals[j],
                        totals[j + 1],
                    )
                } else {
                    totals[j + 1] == totals[j]
                }
        }
}

/// Whether `total` is the sum over all pairs of molecules.
pub open spec fn molecule_sum_is<T, P: Fn(usize, usize, usize, usize) -> T, A: Fn(T, T) -> T>(
    charged: Seq<bool>,
    molecules: Seq<Seq<usize>>,
    pair: &P,
    plus: &A,
    zero: T,
    total: T,
) -> bool {
    exists|locals: Seq<T>|
        {
            &&& locals.len() == molecules.len()
            &&& forall|i: usize|
                i < molecules.len() ==> molecule_row(
                    charged,
                    molecules,
                    pair,
                    plus,
                    zero,
                    i,
                    #[trigger] locals[i as int],
                )
            &&& sums_to(plus, zero, locals, total)
        }
}

/// Whether the sum over all pairs of molecules asks for the term of the
/// particle `a` of molecule `i` with the particle `b` of molecule `j`: the
/// first molecule comes before the second, and both particles are charged.
pub open spec fn pair_visits(
    charged: Seq<bool>,
    molecules: Seq<Seq<usize>>,
    i: usize,
    j: usize,
    a: usize,
    b: usize,
) -> bool {
    &&& i < j < molecules.len()
    &&& molecules[i as int].contains(a)
    &&& molecules[j as int].contains(b)
    &&& a < charged.len() && charged[a as int]
    &&& b < charged.len() && charged[b as int]
}

/// Adds to `start` the terms of the particle `a` of molecule `i` with the
/// charged particles among `others`, the particles of molecule `j`.
fn atoms_pass<T: Copy, P: Fn(usize, usize, usize, usize) -> T, A: Fn(T, T) -> T>(
    charged: &Vec<bool>,
    pair: &P,
    plus: &A,
    i: usize,
    j: usize,
    a: usize,
    others: &Vec<usize>,
    start: T,
) -> (total: T)
    requires
        forall|n: int| 0 <= n < others@.len() ==> #[trigger] others@[n] < charged@.len(),
        forall|n: int|
            0 <= n < others@.len() && charged@[others@[n] as int] ==> call_requires(
                *pair,
                (i, j, a, #[trigger] others@[n]),
            ),
        forall|x: T, y: T| call_requires(*plus, (x, y)),
    ensures
        atoms_run(charged@, pair, plus, i, j, a, others@, start, total),
{
    let mut total = start;
    let ghost mut totals: Seq<T> = seq![start];
    let mut n: usize = 0;
    while n < others.len()
        invariant
            n <= others@.len(),
            forall|n: int| 0 <= n < others@.len() ==> #[trigger] others@[n] < charged@.len(),
            forall|n: int|
            0 <= n < others@.len() && charged@[others@[n] as int] ==> call_requires(
                *pair,
                (i, j, a, #[trigger] others@[n]),
            ),
            forall|x: T, y: T| call_requires(*plus, (x, y)),
            totals.len() == n + 1,
            totals[0] == start,
            totals.last() == total,
            forall|m: int|
                0 <= m < n ==> atom_step(
                    charged@,
                    pair,
                    plus,
                    i,
                    j,
                    a,
                    others@[m],
                    #[trigger] totals[m],
                    totals[m + 1],
                ),
        decreases others@.len() - n,
    {
        let b = others[n];
        assert(others@[n as int] < charged@.len());
        let ghost shorter = totals;
        if charged[b] {
            let term = pair(i, j, a, b);
            let next = plus(total, term);
            total = next;
        }
        proof {
            totals = shorter.push(total);
            assert forall|m: int| 0 <= m < n + 1 implies atom_step(
                charged@,
                pair,
                plus,
                i,
                j,
                a,
                others@[m],
                #[trigger] totals[m],
                totals[m + 1],
            ) by {
                if m < n {
                    assert(atom_step(
                        charged@,
                        pair,
                        plus,
                        i,
                        j,
                        a,
                        others@[m],
                        shorter[m],
                        shorter[m + 1],
                    ));
                }
            }
        }
        n = n + 1;
    }
    assert(totals.len() == others@.len() + 1);
    total
}

/// Adds to `start` the terms of the charged particles among `firsts`, the
/// particles of molecule `i`, with the charged particles among `others`, the
/// particles of molecule `j`.
fn molecules_pass<T: Copy, P: Fn(usize, usize, usize, usize) -> T, A: Fn(T, T) -> T>(
    charged: &Vec<bool>,
    pair: &P,
    plus: &A,
    i: usize,
    j: usize,
    firsts: &Vec<usize>,
    others: &Vec<usize>,
    start: T,
) -> (total: T)
    requires
        forall|n: int| 0 <= n < firsts@.len() ==> #[trigger] firsts@[n] < charged@.len(),
        forall|n: int| 0 <= n < others@.len() ==> #[trigger] others@[n] < charged@.len(),
        forall|m: int, n: int|
            0 <= m < firsts@.len() && 0 <= n < others@.len() && charged@[firsts@[m] as int]
                && charged@[others@[n] as int] ==> call_requires(
                *pair,
                (i, j, #[trigger] firsts@[m], #[trigger] others@[n]),
            ),
        forall|x: T, y: T| call_requires(*plus, (x, y)),
    ensures
        molecules_run(charged@, pair, plus, i, j, firsts@, others@, start, total),
{
    let mut total = start;
    let ghost mut totals: Seq<T> = seq![start];
    let mut n: usize = 0;
    while n < firsts.len()
        invariant
            n <= firsts@.len(),
            forall|n: int| 0 <= n < firsts@.len() ==> #[trigger] firsts@[n] < charged@.len(),
            forall|n: int| 0 <= n < others@.len() ==> #[trigger] others@[n] < charged@.len(),
            forall|m: int, n: int|
            0 <= m < firsts@.len() && 0 <= n < others@.len() && charged@[firsts@[m] as int]
                && charged@[others@[n] as int] ==> call_requires(
                *pair,
                (i, j, #[trigger] firsts@[m], #[trigger] others@[n]),
            ),
            forall|x: T, y: T| call_requires(*plus, (x, y)),
            totals.len() == n + 1,
            totals[0] == start,
            totals.last() == total,
            forall|m: int|
                0 <= m < n ==> if charged@[firsts@[m] as int] {
                    atoms_run(
                        charged@,
                        pair,
                        plus,
                        i,
                        j,
                        firsts@[m],
                        others@,
                        #[trigger] totals[m],
                        totals[m + 1],
                    )
                } else {
                    totals[m + 1] == totals[m]
                },
        decreases firsts@.len() - n,
    {
        let a = firsts[n];
        assert(firsts@[n as int] < charged@.len());
        let ghost shorter = totals;
        if charged[a] {
            total = atoms_pass(charged, pair, plus, i, j, a, others, total);
        }
        proof {
            totals = shorter.push(total);
            assert forall|m: int| 0 <= m < n + 1 implies if charged@[firsts@[m] as int] {
                atoms_run(
                    charged@,
                    pair,
                    plus,
                    i,
                    j,
                    firsts@[m],
                    others@,
                    #[trigger] totals[m],
                    totals[m + 1],
                )
            } else {
                totals[m + 1] == totals[m]
            } by {
                if m < n {
                    assert(totals[m] == shorter[m]);
                    assert(totals[m + 1] == shorter[m + 1]);
                }
            }
        }
        n = n + 1;
    }
    assert(totals.len() == firsts@.len() + 1);
    total
}

/// The row of molecule `i`: the terms of its pairs of charged particles with
/// the molecules after it, added to `zero` in order.
pub fn molecule_row_sum<T: Copy, P: Fn(usize, usize, usize, usize) -> T, A: Fn(T, T) -> T>(
    charged: &Vec<bool>,
    molecules: &Vec<Vec<usize>>,
    pair: &P,
    plus: &A,
    zero: T,
    i: usize,
) -> (local: T)
    requires
        i < molecules@.len(),
        members_below(members(molecules), charged@.len()),
        forall|i: usize, j: usize, a: usize, b: usize|
            #[trigger] pair_visits(charged@, members(molecules), i, j, a, b) ==> call_requires(
                *pair,
                (i, j, a, b),
            ),
        forall|x: T, y: T| call_requires(*plus, (x, y)),
    ensures
        molecule_row(charged@, members(molecules), pair, plus, zero, i, local),
{
    let ghost all = members(molecules);
    let firsts = &molecules[i];
    assert(all[i as int] == firsts@);
    assert forall|n: int| 0 <= n < firsts@.len() implies #[trigger] firsts@[n] < charged@.len() by {
        assert(all[i as int][n] < charged@.len());
    }
    let count = molecules.len();
    let mut local = zero;
    let ghost mut totals: Seq<T> = Seq::new((i + 2) as nat, |n: int| zero);
    let mut j: usize = i + 1;
    while j < count
        invariant
            all == members(molecules),
            count == molecules@.len(),
            i < j <= molecules@.len(),
            firsts@ == all[i as int],
            members_below(all, charged@.len()),
            forall|n: int| 0 <= n < firsts@.len() ==> #[trigger] firsts@[n] < charged@.len(),
            forall|i: usize, j: usize, a: usize, b: usize|
            #[trigger] pair_visits(charged@, members(molecules), i, j, a, b) ==> call_requires(
                *pair,
                (i, j, a, b),
            ),
            forall|x: T, y: T| call_requires(*plus, (x, y)),
            totals.len() == j + 1,
            totals[0] == zero,
            totals.last() == local,
            forall|m: int|
                0 <= m < j ==> if i < m {
                    molecules_run(
                        charged@,
                        pair,
                        plus,
                        i,
                        m as usize,
                        all[i as int],
                        all[m],
                        #[trigger] totals[m],
                        totals[m + 1],
                    )
                } else {
                    totals[m + 1] == totals[m]
                },
        decreases molecules@.len() - j,
    {
        let others = &molecules[j];
        assert(all[j as int] == others@);
        assert forall|n: int| 0 <= n < others@.len() implies #[trigger] others@[n]
            < charged@.len() by {
            assert(all[j as int][n] < charged@.len());
        }
        let ghost shorter = totals;
        assert forall|m: int, n: int|
            0 <= m < firsts@.len() && 0 <= n < others@.len() && charged@[firsts@[m] as int]
                && charged@[others@[n] as int] implies call_requires(
            *pair,
            (i, j, #[trigger] firsts@[m], #[trigger] others@[n]),
        ) by {
            assert(all[i as int].contains(firsts@[m]));
            assert(all[j as int].contains(others@[n]));
            assert(pair_visits(charged@, all, i, j, firsts@[m], others@[n]));
        }
        local = molecules_pass(charged, pair, plus, i, j, firsts, others, local);
        proof {
            totals = shorter.push(local);
            assert forall|m: int| 0 <= m < j + 1 implies if i < m {
                molecules_run(
                    charged@,
                    pair,
                    plus,
                    i,
                    m as usize,
                    all[i as int],
                    all[m],
                    #[trigger] totals[m],
                    totals[m + 1],
                )
            } else {
                totals[m + 1] == totals[m]
            } by {
                if m < j {
                    assert(totals[m] == shorter[m]);
                    assert(totals[m + 1] == shorter[m + 1]);
                }
            }
        }
        j = j + 1;
    }
    assert(totals.len() == all.len() + 1);
    local
}

/// The sum over all pairs of molecules.
///
/// `molecules[id]` lists the particles of molecule `id`, `charged[p]` says
/// whether particle `p` has a charge, `pair(i, j, a, b)` gives the term of
/// the particle `a` of molecule `i` with the particle `b` of molecule `j`,
/// and `plus` adds, starting from `zero`.
pub fn molecule_pair_sum<T: Copy, P: Fn(usize, usize, usize, usize) -> T, A: Fn(T, T) -> T>(
    charged: &Vec<bool>,
    molecules: &Vec<Vec<usize>>,
    pair: &P,
    plus: &A,
    zero: T,
) -> (total: T)
    requires
        members_below(members(molecules), charged@.len()),
        forall|i: usize, j: usize, a: usize, b: usize|
            #[trigger] pair_visits(charged@, members(molecules), i, j, a, b) ==> call_requires(
                *pair,
                (i, j, a, b),
            ),
        forall|x: T, y: T| call_requires(*plus, (x, y)),
    ensures
        molecule_sum_is(charged@, members(molecules), pair, plus, zero, total),
{
    let ghost all = members(molecules);
    let mut total = zero;
    let ghost mut locals: Seq<T> = Seq::empty();
    proof {
        lemma_sum_of_none(plus, zero);
    }
    let mut i: usize = 0;
    while i < molecules.len()
        invariant
            all == members(molecules),
            i <= molecules@.len(),
            members_below(all, charged@.len()),
            forall|i: usize, j: usize, a: usize, b: usize|
            #[trigger] pair_visits(charged@, members(molecules), i, j, a, b) ==> call_requires(
                *pair,
                (i, j, a, b),
            ),
            forall|x: T, y: T| call_requires(*plus, (x, y)),
            locals.len() == i,
            forall|m: usize|
                m < i ==> molecule_row(charged@, all, pair, plus, zero, m, #[trigger] locals[m as int]),
            sums_to(plus, zero, locals, total),
        decreases molecules@.len() - i,
    {
        let local = molecule_row_sum(charged, molecules, pair, plus, zero, i);
        let next = plus(total, local);
        proof {
            lemma_sum_one_more(plus, zero, locals, total, local, next);
            let longer = locals.push(local);
            assert forall|m: usize| m < i + 1 implies molecule_row(
                charged@,
                all,
                pair,
                plus,
                zero,
                m,
                #[trigger] longer[m as int],
            ) by {
                if m < i {
                    assert(longer[m as int] == locals[m as int]);
                }
            }
            locals = longer;
        }
        total = next;
        i = i + 1;
    }
    total
}

} // verus!
