//! The structure factor after a move.
//!
//! When some particles move, the solver adds the change of the structure
//! factor to the structure factor that it holds. Where the arithmetic is
//! exact, the result is the structure factor of the particles in their new
//! places, as a solver that starts afresh computes it. Exact means here that
//! `plus` and `minus` compute the sum and the difference of a commutative
//! group, and that weighing a difference gives the difference of the
//! weighed phases. The arithmetic of floating-point numbers is not exact:
//! there the two agree up to rounding only.

use vstd::prelude::*;
use crate::array3::Ewald3DArray;
use crate::density::{
    change_at, charge_term, density_at, lemma_weighted_sum_reproducible, moved_term, phase_product,
    running_totals, single_valued2, sums_to, weighted_sum_is,
};

verus! {

/// Whether `f` computes `g`: whatever `f` returns for two arguments is what
/// `g` makes of them.
pub open spec fn computes<C, A: Fn(C, C) -> C>(f: &A, g: spec_fn(C, C) -> C) -> bool {
    forall|a: C, b: C, r: C| call_ensures(*f, (a, b), r) ==> r == g(a, b)
}

/// The order of the terms of a sum of two does not matter.
pub open spec fn commutes_at<C>(sum: spec_fn(C, C) -> C, a: C, b: C) -> bool {
    sum(a, b) == sum(b, a)
}

/// The grouping of the terms of a sum of three does not matter.
pub open spec fn associates_at<C>(sum: spec_fn(C, C) -> C, a: C, b: C, c: C) -> bool {
    sum(sum(a, b), c) == sum(a, sum(b, c))
}

/// A difference added to what was subtracted gives back the first term.
pub open spec fn restores_at<C>(
    sum: spec_fn(C, C) -> C,
    less: spec_fn(C, C) -> C,
    a: C,
    b: C,
) -> bool {
    sum(b, less(a, b)) == a
}

/// Whether `sum` and `less` are the sum and the difference of a commutative
/// group with the neutral element `zero`.
pub open spec fn exact<C>(sum: spec_fn(C, C) -> C, less: spec_fn(C, C) -> C, zero: C) -> bool {
    &&& forall|a: C, b: C| #[trigger] commutes_at(sum, a, b)
    &&& forall|a: C, b: C, c: C| #[trigger] associates_at(sum, a, b, c)
    &&& forall|a: C, b: C| #[trigger] restores_at(sum, less, a, b)
    &&& forall|a: C| #[trigger] sum(a, zero) == a
}

/// Whether `weigh` spreads over `less`: the weighed difference of two values
/// is the difference of the weighed values.
pub open spec fn spreads<C, W: Fn(usize, C) -> C>(weigh: &W, less: spec_fn(C, C) -> C) -> bool {
    forall|part: usize, a: C, b: C, wa: C, wb: C, wd: C|
        #![trigger call_ensures(*weigh, (part, a), wa), call_ensures(*weigh, (part, b), wb), call_ensures(*weigh, (part, less(a, b)), wd)]
        call_ensures(*weigh, (part, a), wa) && call_ensures(*weigh, (part, b), wb) && call_ensures(
            *weigh,
            (part, less(a, b)),
            wd,
        ) ==> wd == less(wa, wb)
}

/// The sum of `terms`, added to `zero` one after the other from the first.
pub open spec fn total<C>(sum: spec_fn(C, C) -> C, zero: C, terms: Seq<C>) -> C
    decreases terms.len(),
{
    if terms.len() == 0 {
        zero
    } else {
        sum(total(sum, zero, terms.drop_last()), terms.last())
    }
}

/// Running totals of a `plus` that computes `sum` are the sums of the terms
/// so far.
proof fn lemma_totals_are_sums<C, A: Fn(C, C) -> C>(
    plus: &A,
    sum: spec_fn(C, C) -> C,
    zero: C,
    terms: Seq<C>,
    totals: Seq<C>,
    i: int,
)
    requires
        computes(plus, sum),
        running_totals(plus, zero, terms, totals),
        0 <= i <= terms.len(),
    ensures
        totals[i] == total(sum, zero, terms.take(i)),
    decreases i,
{
    if i > 0 {
        lemma_totals_are_sums(plus, sum, zero, terms, totals, i - 1);
        assert(call_ensures(*plus, (totals[i - 1], terms[i - 1]), totals[i - 1 + 1]));
        assert(terms.take(i).drop_last() =~= terms.take(i - 1));
        assert(terms.take(i).last() == terms[i - 1]);
    }
}

/// What a `plus` that computes `sum` makes of the terms is their sum.
pub proof fn lemma_sum_is_total<C, A: Fn(C, C) -> C>(
    plus: &A,
    sum: spec_fn(C, C) -> C,
    zero: C,
    terms: Seq<C>,
    result: C,
)
    requires
        computes(plus, sum),
        sums_to(plus, zero, terms, result),
    ensures
        result == total(sum, zero, terms),
{
    let totals = choose|totals: Seq<C>|
        running_totals(plus, zero, terms, totals) && totals.last() == result;
    lemma_totals_are_sums(plus, sum, zero, terms, totals, terms.len() as int);
    assert(terms.take(terms.len() as int) =~= terms);
}

/// Putting `x` in the place of one term changes the sum by the difference
/// of `x` and the term.
proof fn lemma_one_replaced<C>(
    sum: spec_fn(C, C) -> C,
    less: spec_fn(C, C) -> C,
    zero: C,
    terms: Seq<C>,
    j: int,
    x: C,
)
    requires
        exact(sum, less, zero),
        0 <= j < terms.len(),
    ensures
        total(sum, zero, terms.update(j, x)) == sum(total(sum, zero, terms), less(x, terms[j])),
    decreases terms.len(),
{
    let changed = terms.update(j, x);
    let front = terms.drop_last();
    let d = less(x, terms[j]);
    if j == terms.len() - 1 {
        assert(changed.drop_last() =~= front);
        let f = total(sum, zero, front);
        assert(associates_at(sum, f, terms[j], d));
        assert(restores_at(sum, less, x, terms[j]));
    } else {
        assert(changed.drop_last() =~= front.update(j, x));
        lemma_one_replaced(sum, less, zero, front, j, x);
        let f = total(sum, zero, front);
        let last = terms.last();
        assert(front[j] == terms[j]);
        // (f + d) + last == (f + last) + d
        assert(associates_at(sum, f, d, last));
        assert(commutes_at(sum, d, last));
        assert(associates_at(sum, f, last, d));
    }
}

/// The terms `before` with those of the first `upto` particles of
/// `molecule` taken from `after`.
pub open spec fn patched<C>(before: Seq<C>, after: Seq<C>, molecule: Seq<usize>, upto: int) -> Seq<C>
    decreases upto,
{
    if upto <= 0 {
        before
    } else {
        patched(before, after, molecule, upto - 1).update(
            molecule[upto - 1] as int,
            after[molecule[upto - 1] as int],
        )
    }
}

/// Whether `molecule` names particles below `count`, none of them twice.
pub open spec fn distinct_below(molecule: Seq<usize>, count: int) -> bool {
    &&& forall|m: int| 0 <= m < molecule.len() ==> #[trigger] molecule[m] < count
    &&& forall|m: int, n: int|
        0 <= m < n < molecule.len() ==> #[trigger] molecule[m] != #[trigger] molecule[n]
}

/// What the patched terms hold: the term of `after` for a particle among
/// the first `upto` of `molecule`, and that of `before` for another.
proof fn lemma_patched_entries<C>(before: Seq<C>, after: Seq<C>, molecule: Seq<usize>, upto: int)
    requires
        before.len() == after.len(),
        distinct_below(molecule, before.len() as int),
        0 <= upto <= molecule.len(),
    ensures
        patched(before, after, molecule, upto).len() == before.len(),
        forall|i: int|
            0 <= i < before.len() ==> #[trigger] patched(before, after, molecule, upto)[i] == (if exists|
                m: int,
            |
                0 <= m < upto && molecule[m] == i {
                after[i]
            } else {
                before[i]
            }),
    decreases upto,
{
    if upto > 0 {
        lemma_patched_entries(before, after, molecule, upto - 1);
        let shorter = patched(before, after, molecule, upto - 1);
        let p = molecule[upto - 1] as int;
        assert forall|i: int| 0 <= i < before.len() implies #[trigger] patched(
            before,
            after,
            molecule,
            upto,
        )[i] == (if exists|m: int| 0 <= m < upto && molecule[m] == i {
            after[i]
        } else {
            before[i]
        }) by {
            if i == p {
                assert(0 <= upto - 1 < upto && molecule[upto - 1] == i);
            } else if exists|m: int| 0 <= m < upto - 1 && molecule[m] == i {
                let m = choose|m: int| 0 <= m < upto - 1 && molecule[m] == i;
                assert(0 <= m < upto && molecule[m] == i);
            } else {
                if exists|m: int| 0 <= m < upto && molecule[m] == i {
                    let m = choose|m: int| 0 <= m < upto && molecule[m] == i;
                    assert(m == upto - 1);
                }
            }
        }
    }
}

/// The sum of the patched terms is the sum of the terms before and the sum
/// of the changes.
proof fn lemma_patched_total<C>(
    sum: spec_fn(C, C) -> C,
    less: spec_fn(C, C) -> C,
    zero: C,
    before: Seq<C>,
    after: Seq<C>,
    molecule: Seq<usize>,
    changes: Seq<C>,
    upto: int,
)
    requires
        exact(sum, less, zero),
        before.len() == after.len(),
        distinct_below(molecule, before.len() as int),
        changes.len() == molecule.len(),
        forall|m: int|
            0 <= m < molecule.len() ==> #[trigger] changes[m] == less(
                after[molecule[m] as int],
                before[molecule[m] as int],
            ),
        0 <= upto <= molecule.len(),
    ensures
        total(sum, zero, patched(before, after, molecule, upto)) == sum(
            total(sum, zero, before),
            total(sum, zero, changes.take(upto)),
        ),
    decreases upto,
{
    if upto == 0 {
        assert(changes.take(0) =~= Seq::<C>::empty());
        assert(sum(total(sum, zero, before), zero) == total(sum, zero, before));
    } else {
        lemma_patched_total(sum, less, zero, before, after, molecule, changes, upto - 1);
        lemma_patched_entries(before, after, molecule, upto - 1);
        let shorter = patched(before, after, molecule, upto - 1);
        let p = molecule[upto - 1] as int;
        assert(molecule[upto - 1] < before.len());
        if exists|m: int| 0 <= m < upto - 1 && molecule[m] == p {
            let m = choose|m: int| 0 <= m < upto - 1 && molecule[m] == p;
            assert(molecule[m] != molecule[upto - 1]);
        }
        assert(shorter[p] == before[p]);
        lemma_one_replaced(sum, less, zero, shorter, p, after[p]);
        let earlier = changes.take(upto - 1);
        assert(changes.take(upto).drop_last() =~= earlier);
        assert(changes.take(upto).last() == changes[upto - 1]);
        assert(associates_at(
            sum,
            total(sum, zero, before),
            total(sum, zero, earlier),
            changes[upto - 1],
        ));
    }
}

/// Whether particle `i` has the same phase factors for the point `k` in
/// `first` as particle `j` has in `second`.
pub open spec fn same_phases<C: Copy>(
    first: &Ewald3DArray<C>,
    second: &Ewald3DArray<C>,
    k: (isize, isize, isize),
    i: usize,
    j: usize,
) -> bool {
    &&& first.at(k.0 as int, 0, i as int) == second.at(k.0 as int, 0, j as int)
    &&& first.at(k.1 as int, 1, i as int) == second.at(k.1 as int, 1, j as int)
    &&& first.at(k.2 as int, 2, i as int) == second.at(k.2 as int, 2, j as int)
}

/// Whether `fresh` holds the phase factors for the point `k` after the
/// particles `molecule` moved: those of `moved` for the particles that
/// moved, and those of `table` for the others.
pub open spec fn phases_after_move<C: Copy>(
    table: &Ewald3DArray<C>,
    moved: &Ewald3DArray<C>,
    fresh: &Ewald3DArray<C>,
    molecule: Seq<usize>,
    count: usize,
    k: (isize, isize, isize),
) -> bool {
    &&& forall|m: usize|
        m < molecule.len() ==> same_phases(moved, fresh, k, m, #[trigger] molecule[m as int])
    &&& forall|i: usize|
        i < count && !molecule.contains(i) ==> #[trigger] same_phases(table, fresh, k, i, i)
}

/// The structure factor to which the change of a move was added is the
/// structure factor of the particles in their new places, where the
/// arithmetic is exact.
///
/// `rho` is the structure factor at the point `k` before the move, `delta`
/// its change when the particles `molecule` move and `committed` the sum of
/// the two. `renewed` is the structure factor that is computed from the
/// phase factors after the move.
pub proof fn lemma_commit_coherent<
    C: Copy,
    M: Fn(C, C) -> C,
    S: Fn(C, C) -> C,
    W: Fn(usize, C) -> C,
    A: Fn(C, C) -> C,
>(
    table: &Ewald3DArray<C>,
    moved: &Ewald3DArray<C>,
    fresh: &Ewald3DArray<C>,
    molecule: Seq<usize>,
    count: usize,
    times: &M,
    minus: &S,
    weigh: &W,
    plus: &A,
    zero: C,
    k: (isize, isize, isize),
    sum: spec_fn(C, C) -> C,
    less: spec_fn(C, C) -> C,
    rho: C,
    delta: C,
    committed: C,
    renewed: C,
)
    requires
        exact(sum, less, zero),
        computes(plus, sum),
        computes(minus, less),
        spreads(weigh, less),
        single_valued2(times),
        single_valued2(weigh),
        molecule.len() <= usize::MAX,
        distinct_below(molecule, count as int),
        phases_after_move(table, moved, fresh, molecule, count, k),
        density_at(table, count, times, weigh, plus, zero, k, rho),
        change_at(table, moved, molecule, times, minus, weigh, plus, zero, k, delta),
        call_ensures(*plus, (rho, delta), committed),
        density_at(fresh, count, times, weigh, plus, zero, k, renewed),
    ensures
        committed == renewed,
{
    let before = choose|terms: Seq<C>|
        {
            &&& terms.len() == count
            &&& forall|i: usize|
                i < count ==> charge_term(table, times, weigh, k, i, #[trigger] terms[i as int])
            &&& sums_to(plus, zero, terms, rho)
        };
    let after = choose|terms: Seq<C>|
        {
            &&& terms.len() == count
            &&& forall|i: usize|
                i < count ==> charge_term(fresh, times, weigh, k, i, #[trigger] terms[i as int])
            &&& sums_to(plus, zero, terms, renewed)
        };
    let changes = choose|terms: Seq<C>|
        {
            &&& terms.len() == molecule.len()
            &&& forall|i: usize|
                i < molecule.len() ==> moved_term(
                    table,
                    moved,
                    times,
                    minus,
                    weigh,
                    k,
                    i,
                    molecule[i as int],
                    #[trigger] terms[i as int],
                )
            &&& sums_to(plus, zero, terms, delta)
        };
    lemma_sum_is_total(plus, sum, zero, before, rho);
    lemma_sum_is_total(plus, sum, zero, after, renewed);
    lemma_sum_is_total(plus, sum, zero, changes, delta);

    // each change is the difference of the terms after and before
    assert forall|m: int| 0 <= m < molecule.len() implies #[trigger] changes[m] == less(
        after[molecule[m] as int],
        before[molecule[m] as int],
    ) by {
        let i = m as usize;
        let part = molecule[m];
        assert(i < molecule.len() && i as int == m);
        assert(moved_term(table, moved, times, minus, weigh, k, i, molecule[i as int], changes[i as int]));
        let (old_phi, new_phi, change) = choose|old_phi: C, new_phi: C, change: C|
            {
                &&& phase_product(table, times, k, part, old_phi)
                &&& phase_product(moved, times, k, i, new_phi)
                &&& call_ensures(*minus, (new_phi, old_phi), change)
                &&& call_ensures(*weigh, (part, change), changes[m])
            };
        assert(part < count);
        assert(charge_term(table, times, weigh, k, part, before[part as int]));
        assert(charge_term(fresh, times, weigh, k, part, after[part as int]));
        let was = choose|phi: C|
            phase_product(table, times, k, part, phi) && call_ensures(
                *weigh,
                (part, phi),
                before[part as int],
            );
        let is = choose|phi: C|
            phase_product(fresh, times, k, part, phi) && call_ensures(
                *weigh,
                (part, phi),
                after[part as int],
            );
        lemma_phase_agrees(table, table, times, k, part, part, old_phi, was);
        assert(same_phases(moved, fresh, k, i, molecule[i as int]));
        lemma_phase_agrees(moved, fresh, times, k, i, part, new_phi, is);
        assert(change == less(new_phi, old_phi));
    }

    // a particle that did not move has the term that it had
    lemma_patched_entries(before, after, molecule, molecule.len() as int);
    let last = patched(before, after, molecule, molecule.len() as int);
    assert forall|i: int| 0 <= i < count implies last[i] == after[i] by {
        if !(exists|m: int| 0 <= m < molecule.len() && molecule[m] == i) {
            let part = i as usize;
            assert(!molecule.contains(part)) by {
                if molecule.contains(part) {
                    let m = choose|m: int| 0 <= m < molecule.len() && molecule[m] == part;
                    assert(0 <= m < molecule.len() && molecule[m] == i);
                }
            }
            assert(same_phases(table, fresh, k, part, part));
            assert(charge_term(table, times, weigh, k, part, before[part as int]));
            assert(charge_term(fresh, times, weigh, k, part, after[part as int]));
            let was = choose|phi: C|
                phase_product(table, times, k, part, phi) && call_ensures(
                    *weigh,
                    (part, phi),
                    before[part as int],
                );
            let is = choose|phi: C|
                phase_product(fresh, times, k, part, phi) && call_ensures(
                    *weigh,
                    (part, phi),
                    after[part as int],
                );
            lemma_phase_agrees(table, fresh, times, k, part, part, was, is);
        }
    }
    assert(last =~= after);
    lemma_patched_total(sum, less, zero, before, after, molecule, changes, molecule.len() as int);
    assert(changes.take(molecule.len() as int) =~= changes);
}

/// A sum over the points, such as the energy of the k-space sum, is after a
/// move what a solver that starts afresh computes, where the arithmetic of
/// the structure factor is exact and that of the sum gives one answer for
/// each pair of arguments.
///
/// `rho` is the structure factor at the points `kvecs` before the move,
/// `delta` its change when the particles `molecule` move and `committed`
/// the sum of the two; `renewed` is the structure factor that is computed
/// from the phase factors after the move. `kept` is the sum of what `term`
/// makes of the factors and `committed`, `anew` that of the factors and
/// `renewed`.
pub proof fn lemma_sum_after_commit<
    X,
    T,
    C: Copy,
    M: Fn(C, C) -> C,
    S: Fn(C, C) -> C,
    W: Fn(usize, C) -> C,
    A: Fn(C, C) -> C,
    P: Fn(X, C) -> T,
    B: Fn(T, T) -> T,
>(
    table: &Ewald3DArray<C>,
    moved: &Ewald3DArray<C>,
    fresh: &Ewald3DArray<C>,
    molecule: Seq<usize>,
    count: usize,
    kvecs: Seq<(isize, isize, isize)>,
    times: &M,
    minus: &S,
    weigh: &W,
    plus: &A,
    zero: C,
    sum: spec_fn(C, C) -> C,
    less: spec_fn(C, C) -> C,
    rho: Seq<C>,
    delta: Seq<C>,
    committed: Seq<C>,
    renewed: Seq<C>,
    factors: Seq<X>,
    term: &P,
    gather: &B,
    nothing: T,
    kept: T,
    anew: T,
)
    requires
        exact(sum, less, zero),
        computes(plus, sum),
        computes(minus, less),
        spreads(weigh, less),
        single_valued2(times),
        single_valued2(weigh),
        single_valued2(term),
        single_valued2(gather),
        molecule.len() <= usize::MAX,
        distinct_below(molecule, count as int),
        rho.len() == kvecs.len(),
        delta.len() == kvecs.len(),
        committed.len() == kvecs.len(),
        renewed.len() == kvecs.len(),
        forall|n: int|
            0 <= n < kvecs.len() ==> {
                &&& phases_after_move(table, moved, fresh, molecule, count, #[trigger] kvecs[n])
                &&& density_at(table, count, times, weigh, plus, zero, kvecs[n], rho[n])
                &&& change_at(table, moved, molecule, times, minus, weigh, plus, zero, kvecs[n], delta[n])
                &&& call_ensures(*plus, (rho[n], delta[n]), committed[n])
                &&& density_at(fresh, count, times, weigh, plus, zero, kvecs[n], renewed[n])
            },
        weighted_sum_is(factors, committed, term, gather, nothing, kept),
        weighted_sum_is(factors, renewed, term, gather, nothing, anew),
    ensures
        committed == renewed,
        kept == anew,
{
    assert forall|n: int| 0 <= n < kvecs.len() implies committed[n] == renewed[n] by {
        assert(phases_after_move(table, moved, fresh, molecule, count, kvecs[n]));
        lemma_commit_coherent(
            table,
            moved,
            fresh,
            molecule,
            count,
            times,
            minus,
            weigh,
            plus,
            zero,
            kvecs[n],
            sum,
            less,
            rho[n],
            delta[n],
            committed[n],
            renewed[n],
        );
    }
    assert(committed =~= renewed);
    lemma_weighted_sum_reproducible(factors, committed, term, gather, nothing, kept, anew);
}

/// Two particles with the same phase factors for a point have the same
/// phase there, where `times` gives one answer for each pair of arguments.
proof fn lemma_phase_agrees<C: Copy, M: Fn(C, C) -> C>(
    first: &Ewald3DArray<C>,
    second: &Ewald3DArray<C>,
    times: &M,
    k: (isize, isize, isize),
    i: usize,
    j: usize,
    one: C,
    other: C,
)
    requires
        single_valued2(times),
        same_phases(first, second, k, i, j),
        phase_product(first, times, k, i, one),
        phase_product(second, times, k, j, other),
    ensures
        one == other,
{
    let xy = choose|xy: C|
        call_ensures(
            *times,
            (first.at(k.0 as int, 0, i as int), first.at(k.1 as int, 1, i as int)),
            xy,
        ) && call_ensures(*times, (xy, first.at(k.2 as int, 2, i as int)), one);
    let uv = choose|uv: C|
        call_ensures(
            *times,
            (second.at(k.0 as int, 0, j as int), second.at(k.1 as int, 1, j as int)),
            uv,
        ) && call_ensures(*times, (uv, second.at(k.2 as int, 2, j as int)), other);
    assert(xy == uv);
}

} // verus!
