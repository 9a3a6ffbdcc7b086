//! Sums over pairs of charged particles, as the real space part of the
//! summation takes them.
//!
//! A sum over all pairs runs over the particles `i` in order. A particle
//! without charge contributes `zero`. A charged particle contributes its row:
//! the terms of the pairs `(i, j)` with `j > i` and `j` charged, added to
//! `zero` in order of `j`. The rows are then added to `zero` in order of `i`.
//!
//! The sum for a move of one molecule runs over the pairs of a charged
//! particle of the molecule with a charged particle of another molecule, and
//! has one total for all of them.
//!
//! What the term of a pair is, and how terms are added, is the caller's
//! business: `pair` and `plus` are functions that are handed in.

use vstd::prelude::*;
use crate::density::{
    lemma_sum_of_none, lemma_sum_one_more, lemma_sum_unique, single_valued2, sums_to,
};

verus! {

/// Whether `(i, j)` is a pair that a sum over all pairs asks the term of: two
/// charged particles, the first before the second.
pub open spec fn charged_pair(charged: Seq<bool>, i: usize, j: usize) -> bool {
    i < j < charged.len() && charged[i as int] && charged[j as int]
}

/// Whether `after` is what the pair `(i, j)` makes of the row total
/// `before`: `before` plus the term of the pair where `j` comes after `i`
/// and is charged, and `before` itself otherwise.
pub open spec fn row_step<T, P: Fn(usize, usize) -> T, A: Fn(T, T) -> T>(
    charged: Seq<bool>,
    pair: &P,
    plus: &A,
    i: usize,
    j: usize,
    before: T,
    after: T,
) -> bool {
    if i < j && charged[j as int] {
        exists|term: T| call_ensures(*pair, (i, j), term) && call_ensures(*plus, (before, term), after)
    } else {
        after == before
    }
}

/// Whether `totals` are the running totals of the row of particle `i`:
/// `totals[j]` is the total before the pair `(i, j)` is looked at.
pub open spec fn row_totals<T, P: Fn(usize, usize) -> T, A: Fn(T, T) -> T>(
    charged: Seq<bool>,
    pair: &P,
    plus: &A,
    zero: T,
    i: usize,
    totals: Seq<T>,
) -> bool {
    &&& totals.len() == charged.len() + 1
    &&& totals[0] == zero
    &&& forall|j: usize|
        j < charged.len() ==> row_step(charged, pair, plus, i, j, #[trigger] totals[j as int], totals[j + 1])
}

/// Whether `local` is what particle `i` contributes to a sum over all pairs.
pub open spec fn row_sum<T, P: Fn(usize, usize) -> T, A: Fn(T, T) -> T>(
    charged: Seq<bool>,
    pair: &P,
    plus: &A,
    zero: T,
    i: usize,
    local: T,
) -> bool {
    if charged[i as int] {
        exists|totals: Seq<T>|
            #[trigger] row_totals(charged, pair, plus, zero, i, totals) && totals.last() == local
    } else {
        local == zero
    }
}

/// Whether `total` is the sum over all pairs of charged particles.
pub open spec fn pair_sum_is<T, P: Fn(usize, usize) -> T, A: Fn(T, T) -> T>(
    charged: Seq<bool>,
    pair: &P,
    plus: &A,
    zero: T,
    total: T,
) -> bool {
    exists|locals: Seq<T>|
        {
            &&& locals.len() == charged.len()
            &&& forall|i: usize|
                i < charged.len() ==> row_sum(charged, pair, plus, zero, i, #[trigger] locals[i as int])
            &&& sums_to(plus, zero, locals, total)
        }
}

/// What particle `i` contributes to a sum over all pairs: `zero` where it
/// has no charge, and otherwise the terms of its pairs with the charged
/// particles after it, added to `zero` in order.
pub fn pair_row<T: Copy, P: Fn(usize, usize) -> T, A: Fn(T, T) -> T>(
    charged: &Vec<bool>,
    pair: &P,
    plus: &A,
    zero: T,
    i: usize,
) -> (local: T)
    requires
        i < charged@.len(),
        forall|i: usize, j: usize| charged_pair(charged@, i, j) ==> call_requires(*pair, (i, j)),
        forall|a: T, b: T| call_requires(*plus, (a, b)),
    ensures
        row_sum(charged@, pair, plus, zero, i, local),
{
    let natoms = charged.len();
    let mut local = zero;
    if charged[i] {
        let ghost mut totals: Seq<T> = Seq::new((i + 2) as nat, |j: int| zero);
        let mut j: usize = i + 1;
        while j < natoms
            invariant
                natoms == charged@.len(),
                i < j <= natoms,
                charged@[i as int],
                forall|i: usize, j: usize| charged_pair(charged@, i, j) ==> call_requires(*pair, (i, j)),
                forall|a: T, b: T| call_requires(*plus, (a, b)),
                totals.len() == j + 1,
                totals[0] == zero,
                totals.last() == local,
                forall|b: usize|
                    b < j ==> row_step(
                        charged@,
                        pair,
                        plus,
                        i,
                        b,
                        #[trigger] totals[b as int],
                        totals[b + 1],
                    ),
            decreases natoms - j,
        {
            let ghost shorter = totals;
            if charged[j] {
                assert(charged_pair(charged@, i, j));
                let term = pair(i, j);
                let next = plus(local, term);
                local = next;
            }
            proof {
                totals = shorter.push(local);
                assert forall|b: usize| b < j + 1 implies row_step(
                    charged@,
                    pair,
                    plus,
                    i,
                    b,
                    #[trigger] totals[b as int],
                    totals[b + 1],
                ) by {
                    if b < j {
                        assert(row_step(
                            charged@,
                            pair,
                            plus,
                            i,
                            b,
                            shorter[b as int],
                            shorter[b + 1],
                        ));
                    }
                }
            }
            j = j + 1;
        }
        assert(row_totals(charged@, pair, plus, zero, i, totals));
    }
    local
}

/// The sum over all pairs of charged particles. `charged[i]` says whether
/// particle `i` has a charge, `pair(i, j)` gives the term of the pair `(i,
/// j)`, and `plus` adds, starting from `zero`.
pub fn pair_sum<T: Copy, P: Fn(usize, usize) -> T, A: Fn(T, T) -> T>(
    charged: &Vec<bool>,
    pair: &P,
    plus: &A,
    zero: T,
) -> (total: T)
    requires
        forall|i: usize, j: usize| charged_pair(charged@, i, j) ==> call_requires(*pair, (i, j)),
        forall|a: T, b: T| call_requires(*plus, (a, b)),
    ensures
        pair_sum_is(charged@, pair, plus, zero, total),
{
    let natoms = charged.len();
    let mut total = zero;
    let ghost mut locals: Seq<T> = Seq::empty();
    proof {
        lemma_sum_of_none(plus, zero);
    }
    let mut i: usize = 0;
    while i < natoms
        invariant
            natoms == charged@.len(),
            i <= natoms,
            forall|i: usize, j: usize| charged_pair(charged@, i, j) ==> call_requires(*pair, (i, j)),
            forall|a: T, b: T| call_requires(*plus, (a, b)),
            locals.len() == i,
            forall|a: usize|
                a < i ==> row_sum(charged@, pair, plus, zero, a, #[trigger] locals[a as int]),
            sums_to(plus, zero, locals, total),
        decreases natoms - i,
    {
        let local = pair_row(charged, pair, plus, zero, i);
        let next = plus(total, local);
        proof {
            lemma_sum_one_more(plus, zero, locals, total, local, next);
            let longer = locals.push(local);
            assert forall|a: usize| a < i + 1 implies row_sum(
                charged@,
                pair,
                plus,
                zero,
                a,
                #[trigger] longer[a as int],
            ) by {
                if a < i {
                    assert(longer[a as int] == locals[a as int]);
                }
            }
            locals = longer;
        }
        total = next;
        i = i + 1;
    }
    total
}

/// The running totals of a row agree, where `pair` and `plus` give one
/// answer for each pair of arguments.
proof fn lemma_row_totals_agree<T, P: Fn(usize, usize) -> T, A: Fn(T, T) -> T>(
    charged: Seq<bool>,
    pair: &P,
    plus: &A,
    zero: T,
    i: usize,
    first: Seq<T>,
    second: Seq<T>,
    j: usize,
)
    requires
        single_valued2(pair),
        single_valued2(plus),
        row_totals(charged, pair, plus, zero, i, first),
        row_totals(charged, pair, plus, zero, i, second),
        j <= charged.len(),
    ensures
        first[j as int] == second[j as int],
    decreases j,
{
    if j > 0 {
        let b = (j - 1) as usize;
        lemma_row_totals_agree(charged, pair, plus, zero, i, first, second, b);
        assert(row_step(charged, pair, plus, i, b, first[b as int], first[b + 1]));
        assert(row_step(charged, pair, plus, i, b, second[b as int], second[b + 1]));
    }
}

/// The sum over all pairs is a function of which particles are charged and
/// of what `pair` answers: computed twice with arithmetic that gives one
/// answer for each argument, it is the same.
pub proof fn lemma_pair_sum_reproducible<T, P: Fn(usize, usize) -> T, A: Fn(T, T) -> T>(
    charged: Seq<bool>,
    pair: &P,
    plus: &A,
    zero: T,
    first: T,
    second: T,
)
    requires
        charged.len() <= usize::MAX,
        single_valued2(pair),
        single_valued2(plus),
        pair_sum_is(charged, pair, plus, zero, first),
        pair_sum_is(charged, pair, plus, zero, second),
    ensures
        first == second,
{
    let locals1 = choose|locals: Seq<T>|
        {
            &&& locals.len() == charged.len()
            &&& forall|i: usize|
                i < charged.len() ==> row_sum(charged, pair, plus, zero, i, #[trigger] locals[i as int])
            &&& sums_to(plus, zero, locals, first)
        };
    let locals2 = choose|locals: Seq<T>|
        {
            &&& locals.len() == charged.len()
            &&& forall|i: usize|
                i < charged.len() ==> row_sum(charged, pair, plus, zero, i, #[trigger] locals[i as int])
            &&& sums_to(plus, zero, locals, second)
        };
    assert forall|n: int| 0 <= n < charged.len() implies locals1[n] == locals2[n] by {
        let i = n as usize;
        assert(row_sum(charged, pair, plus, zero, i, locals1[i as int]));
        assert(row_sum(charged, pair, plus, zero, i, locals2[i as int]));
        if charged[n] {
            let totals1 = choose|totals: Seq<T>|
                #[trigger] row_totals(charged, pair, plus, zero, i, totals) && totals.last()
                    == locals1[n];
            let totals2 = choose|totals: Seq<T>|
                #[trigger] row_totals(charged, pair, plus, zero, i, totals) && totals.last()
                    == locals2[n];
            lemma_row_totals_agree(
                charged,
                pair,
                plus,
                zero,
                i,
                totals1,
                totals2,
                charged.len() as usize,
            );
        }
    }
    assert(locals1 =~= locals2);
    lemma_sum_unique(plus, zero, locals1, first, second);
}

/// Whether `after` is what a particle `other` of another molecule makes of
/// the total `before`, for the particle `part` that is number `i` of the
/// moved molecule: `before` plus the term of the two where `other` is charged,
/// and `before` itself otherwise.
pub open spec fn partner_step<T, P: Fn(usize, usize, usize) -> T, A: Fn(T, T) -> T>(
    charged: Seq<bool>,
    pair: &P,
    plus: &A,
    i: usize,
    part: usize,
    other: usize,
    before: T,
    after: T,
) -> bool {
    if charged[other as int] {
        exists|term: T|
            call_ensures(*pair, (i, part, other), term) && call_ensures(*plus, (before, term), after)
    } else {
        after == before
    }
}

/// Whether `after` is what the particles `others` of one other molecule, in
/// order, make of the total `before`.
pub open spec fn molecule_run<T, P: Fn(usize, usize, usize) -> T, A: Fn(T, T) -> T>(
    charged: Seq<bool>,
    pair: &P,
    plus: &A,
    i: usize,
    part: usize,
    others: Seq<usize>,
    before: T,
    after: T,
) -> bool {
    exists|totals: Seq<T>|
        {
            &&& #[trigger] totals.len() == others.len() + 1
            &&& totals[0] == before
            &&& totals.last() == after
            &&& forall|b: int|
                0 <= b < others.len() ==> partner_step(
                    charged,
                    pair,
                    plus,
                    i,
                    part,
                    others[b],
                    #[trigger] totals[b],
                    totals[b + 1],
                )
        }
}

/// Whether `after` is what the molecules other than number `moved`, in
/// order, make of the total `before`.
pub open spec fn partners_run<T, P: Fn(usize, usize, usize) -> T, A: Fn(T, T) -> T>(
    charged: Seq<bool>,
    molecules: Seq<Seq<usize>>,
    moved: usize,
    pair: &P,
    plus: &A,
    i: usize,
    part: usize,
    before: T,
    after: T,
) -> bool {
    exists|totals: Seq<T>|
        {
            &&& #[trigger] totals.len() == molecules.len() + 1
            &&& totals[0] == before
            &&& totals.last() == after
            &&& forall|id: int|
                0 <= id < molecules.len() ==> if id != moved {
                    molecule_run(
                        charged,
                        pair,
                        plus,
                        i,
                        part,
                        molecules[id],
                        #[trigger] totals[id],
                        totals[id + 1],
                    )
                } else {
                    totals[id + 1] == totals[id]
                }
        }
}

/// Whether `total` is the sum over the pairs of a charged particle of the
/// molecule number `moved` with a charged particle of another molecule: the
/// particles of the moved molecule are taken in order, and each charged one
/// adds its pairs to the total that the ones before it left.
pub open spec fn move_sum_is<T, P: Fn(usize, usize, usize) -> T, A: Fn(T, T) -> T>(
    charged: Seq<bool>,
    molecules: Seq<Seq<usize>>,
    moved: usize,
    pair: &P,
    plus: &A,
    zero: T,
    total: T,
) -> bool {
    exists|totals: Seq<T>|
        {
            &&& #[trigger] totals.len() == molecules[moved as int].len() + 1
            &&& totals[0] == zero
            &&& totals.last() == total
            &&& forall|i: int|
                0 <= i < molecules[moved as int].len() ==> if charged[molecules[moved as int][i] as int] {
                    partners_run(
                        charged,
                        molecules,
                        moved,
                        pair,
                        plus,
                        i as usize,
                        molecules[moved as int][i],
                        #[trigger] totals[i],
                        totals[i + 1],
                    )
                } else {
                    totals[i + 1] == totals[i]
                }
        }
}

/// Whether the sum for a move of the molecule number `moved` asks for the
/// term of the particle `part`, which is number `i` of that molecule, with
/// the particle `other`: both are charged, and `other` is a particle of
/// another molecule.
pub open spec fn move_visits(
    charged: Seq<bool>,
    molecules: Seq<Seq<usize>>,
    moved: usize,
    i: usize,
    part: usize,
    other: usize,
) -> bool {
    &&& i < molecules[moved as int].len()
    &&& part == molecules[moved as int][i as int]
    &&& part < charged.len() && charged[part as int]
    &&& other < charged.len() && charged[other as int]
    &&& exists|id: int, b: int|
        0 <= id < molecules.len() && id != moved && 0 <= b < molecules[id].len()
            && #[trigger] molecules[id][b] == other
}

/// The particles of each molecule, as sequences.
pub open spec fn members(molecules: &Vec<Vec<usize>>) -> Seq<Seq<usize>> {
    Seq::new(molecules@.len(), |id: int| molecules@[id]@)
}

/// Whether every particle of every molecule is one of `natoms` particles.
pub open spec fn members_below(molecules: Seq<Seq<usize>>, natoms: nat) -> bool {
    forall|id: int, b: int|
        0 <= id < molecules.len() && 0 <= b < molecules[id].len() ==> #[trigger] molecules[id][b]
            < natoms
}

/// The sum over the pairs of a charged particle of the molecule number
/// `moved` with a charged particle of another molecule.
///
/// `molecules[id]` lists the particles of molecule `id`, `charged[p]` says
/// whether particle `p` has a charge, `pair(i, part, other)` gives the term
/// of the particle `part`, which is number `i` of the moved molecule, with
/// the particle `other`, and `plus` adds, starting from `zero`.
pub fn move_sum<T: Copy, P: Fn(usize, usize, usize) -> T, A: Fn(T, T) -> T>(
    charged: &Vec<bool>,
    molecules: &Vec<Vec<usize>>,
    moved: usize,
    pair: &P,
    plus: &A,
    zero: T,
) -> (total: T)
    requires
        moved < molecules@.len(),
        members_below(members(molecules), charged@.len()),
        forall|i: usize, part: usize, other: usize|
            #[trigger] move_visits(charged@, members(molecules), moved, i, part, other)
                ==> call_requires(*pair, (i, part, other)),
        forall|a: T, b: T| call_requires(*plus, (a, b)),
    ensures
        move_sum_is(charged@, members(molecules), moved, pair, plus, zero, total),
{
    let ghost all = members(molecules);
    let molecule = &molecules[moved];
    assert(all[moved as int] == molecule@);
    let mut total = zero;
    let ghost mut outer: Seq<T> = seq![zero];
    let mut i: usize = 0;
    while i < molecule.len()
        invariant
            all == members(molecules),
            moved < molecules@.len(),
            molecule@ == all[moved as int],
            members_below(all, charged@.len()),
            forall|i: usize, part: usize, other: usize|
            #[trigger] move_visits(charged@, members(molecules), moved, i, part, other)
                ==> call_requires(*pair, (i, part, other)),
            forall|a: T, b: T| call_requires(*plus, (a, b)),
            i <= molecule@.len(),
            outer.len() == i + 1,
            outer[0] == zero,
            outer.last() == total,
            forall|a: int|
                0 <= a < i ==> if charged@[molecule@[a] as int] {
                    partners_run(
                        charged@,
                        all,
                        moved,
                        pair,
                        plus,
                        a as usize,
                        molecule@[a],
                        #[trigger] outer[a],
                        outer[a + 1],
                    )
                } else {
                    outer[a + 1] == outer[a]
                },
        decreases molecule@.len() - i,
    {
        let part = molecule[i];
        assert(all[moved as int][i as int] < charged@.len());
        let ghost start = total;
        if charged[part] {
            let ghost mut middle: Seq<T> = seq![total];
            let mut id: usize = 0;
            while id < molecules.len()
                invariant
                    all == members(molecules),
                    moved < molecules@.len(),
                    members_below(all, charged@.len()),
                    forall|i: usize, part: usize, other: usize|
                        #[trigger] move_visits(charged@, all, moved, i, part, other)
                            ==> call_requires(*pair, (i, part, other)),
                    forall|a: T, b: T| call_requires(*plus, (a, b)),
                    id <= molecules@.len(),
                    i < all[moved as int].len(),
                    part == all[moved as int][i as int],
                    part < charged@.len() && charged@[part as int],
                    middle.len() == id + 1,
                    middle[0] == start,
                    middle.last() == total,
                    forall|d: int|
                        0 <= d < id ==> if d != moved {
                            molecule_run(
                                charged@,
                                pair,
                                plus,
                                i,
                                part,
                                all[d],
                                #[trigger] middle[d],
                                middle[d + 1],
                            )
                        } else {
                            middle[d + 1] == middle[d]
                        },
                decreases molecules@.len() - id,
            {
                let ghost entered = total;
                if id != moved {
                    let others = &molecules[id];
                    assert(all[id as int] == others@);
                    let ghost mut inner: Seq<T> = seq![total];
                    let mut b: usize = 0;
                    while b < others.len()
                        invariant
                            others@ == all[id as int],
                            id < all.len(),
                            id != moved,
                            i < all[moved as int].len(),
                            part == all[moved as int][i as int],
                            part < charged@.len() && charged@[part as int],
                            members_below(all, charged@.len()),
                            forall|i: usize, part: usize, other: usize|
                                #[trigger] move_visits(charged@, all, moved, i, part, other)
                                    ==> call_requires(*pair, (i, part, other)),
                            forall|a: T, b: T| call_requires(*plus, (a, b)),
                            b <= others@.len(),
                            inner.len() == b + 1,
                            inner[0] == entered,
                            inner.last() == total,
                            forall|c: int|
                                0 <= c < b ==> partner_step(
                                    charged@,
                                    pair,
                                    plus,
                                    i,
                                    part,
                                    others@[c],
                                    #[trigger] inner[c],
                                    inner[c + 1],
                                ),
                        decreases others@.len() - b,
                    {
                        let other = others[b];
                        assert(all[id as int][b as int] < charged@.len());
                        let ghost shorter = inner;
                        if charged[other] {
                            assert(move_visits(charged@, all, moved, i, part, other)) by {
                                assert(all[id as int][b as int] == other);
                            }
                            let term = pair(i, part, other);
                            let next = plus(total, term);
                            total = next;
                        }
                        proof {
                            inner = shorter.push(total);
                            assert forall|c: int| 0 <= c < b + 1 implies partner_step(
                                charged@,
                                pair,
                                plus,
                                i,
                                part,
                                others@[c],
                                #[trigger] inner[c],
                                inner[c + 1],
                            ) by {
                                if c < b {
                                    assert(partner_step(
                                        charged@,
                                        pair,
                                        plus,
                                        i,
                                        part,
                                        others@[c],
                                        shorter[c],
                                        shorter[c + 1],
                                    ));
                                }
                            }
                        }
                        b = b + 1;
                    }
                    assert(molecule_run(charged@, pair, plus, i, part, all[id as int], entered, total))
                        by {
                        assert(inner.len() == all[id as int].len() + 1);
                    }
                }
                proof {
                    let shorter = middle;
                    middle = shorter.push(total);
                    assert forall|d: int| 0 <= d < id + 1 implies if d != moved {
                        molecule_run(
                            charged@,
                            pair,
                            plus,
                            i,
                            part,
                            all[d],
                            #[trigger] middle[d],
                            middle[d + 1],
                        )
                    } else {
                        middle[d + 1] == middle[d]
                    } by {
                        if d < id {
                            assert(middle[d] == shorter[d]);
                            assert(middle[d + 1] == shorter[d + 1]);
                        }
                    }
                }
                id = id + 1;
            }
            assert(partners_run(charged@, all, moved, pair, plus, i, part, start, total)) by {
                assert(middle.len() == all.len() + 1);
            }
        }
        proof {
            let shorter = outer;
            outer = shorter.push(total);
            assert forall|a: int| 0 <= a < i + 1 implies if charged@[molecule@[a] as int] {
                partners_run(
                    charged@,
                    all,
                    moved,
                    pair,
                    plus,
                    a as usize,
                    molecule@[a],
                    #[trigger] outer[a],
                    outer[a + 1],
                )
            } else {
                outer[a + 1] == outer[a]
            } by {
                if a < i {
                    assert(outer[a] == shorter[a]);
                    assert(outer[a + 1] == shorter[a + 1]);
                }
            }
        }
        i = i + 1;
    }
    assert(outer.len() == all[moved as int].len() + 1);
    total
}

} // verus!
