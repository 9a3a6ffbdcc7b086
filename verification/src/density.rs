//! The structure factor: for each retained point `k` of reciprocal space the
//! sum over the particles of charge times phase, `rho(k) = sum_i q_i exp(i k
//! r_i)`, and the change of that sum when some particles move.
//!
//! The phase of particle `i` at the point `(ikx, iky, ikz)` is the product
//! of three entries of a phase table, taken from the left. The arithmetic is
//! the caller's: `times`, `minus`, `plus` and `weigh` are functions that are
//! handed in, and the contracts say to which values each was applied, in
//! which order.

use vstd::prelude::*;
use crate::array3::Ewald3DArray;
use crate::phases::phase_shaped;

verus! {

/// Whether `totals` are the running totals of adding the `terms` to `zero`
/// with `plus`, one after the other from the first: `totals[0]` is `zero`,
/// and each later total is the one before it plus the next term.
pub open spec fn running_totals<T, A: Fn(T, T) -> T>(
    plus: &A,
    zero: T,
    terms: Seq<T>,
    totals: Seq<T>,
) -> bool {
    &&& totals.len() == terms.len() + 1
    &&& totals[0] == zero
    &&& forall|i: int|
        0 <= i < terms.len() ==> call_ensures(*plus, (totals[i], #[trigger] terms[i]), totals[i + 1])
}

/// Whether `total` is what comes of adding the `terms` to `zero` with
/// `plus`, one after the other from the first.
pub open spec fn sums_to<T, A: Fn(T, T) -> T>(plus: &A, zero: T, terms: Seq<T>, total: T) -> bool {
    exists|totals: Seq<T>| running_totals(plus, zero, terms, totals) && totals.last() == total
}

/// The sum of no terms is `zero`.
pub proof fn lemma_sum_of_none<T, A: Fn(T, T) -> T>(plus: &A, zero: T)
    ensures
        sums_to(plus, zero, Seq::<T>::empty(), zero),
{
    let totals = seq![zero];
    assert(running_totals(plus, zero, Seq::<T>::empty(), totals) && totals.last() == zero);
}

/// One more term on a sum.
pub proof fn lemma_sum_one_more<T, A: Fn(T, T) -> T>(
    plus: &A,
    zero: T,
    terms: Seq<T>,
    before: T,
    term: T,
    total: T,
)
    requires
        sums_to(plus, zero, terms, before),
        call_ensures(*plus, (before, term), total),
    ensures
        sums_to(plus, zero, terms.push(term), total),
{
    let totals = choose|totals: Seq<T>|
        running_totals(plus, zero, terms, totals) && totals.last() == before;
    let longer = terms.push(term);
    let more = totals.push(total);
    assert forall|i: int| 0 <= i < longer.len() implies call_ensures(
        *plus,
        (more[i], #[trigger] longer[i]),
        more[i + 1],
    ) by {
        if i < terms.len() {
            assert(longer[i] == terms[i]);
            assert(call_ensures(*plus, (totals[i], terms[i]), totals[i + 1]));
        }
    }
    assert(running_totals(plus, zero, longer, more) && more.last() == total);
}

/// Whether `f` gives one answer for each argument.
pub open spec fn single_valued1<A, R, F: Fn(A) -> R>(f: &F) -> bool {
    forall|a: A, r1: R, r2: R| call_ensures(*f, (a,), r1) && call_ensures(*f, (a,), r2) ==> r1 == r2
}

/// Whether `f` gives one answer for each pair of arguments.
pub open spec fn single_valued2<A, B, R, F: Fn(A, B) -> R>(f: &F) -> bool {
    forall|a: A, b: B, r1: R, r2: R|
        call_ensures(*f, (a, b), r1) && call_ensures(*f, (a, b), r2) ==> r1 == r2
}

/// Running totals of the same terms agree, where `plus` gives one answer for
/// each pair of arguments.
proof fn lemma_totals_agree<T, A: Fn(T, T) -> T>(
    plus: &A,
    zero: T,
    terms: Seq<T>,
    first: Seq<T>,
    second: Seq<T>,
    i: int,
)
    requires
        single_valued2(plus),
        running_totals(plus, zero, terms, first),
        running_totals(plus, zero, terms, second),
        0 <= i <= terms.len(),
    ensures
        first[i] == second[i],
    decreases i,
{
    if i > 0 {
        lemma_totals_agree(plus, zero, terms, first, second, i - 1);
        assert(call_ensures(*plus, (first[i - 1], terms[i - 1]), first[i - 1 + 1]));
        assert(call_ensures(*plus, (second[i - 1], terms[i - 1]), second[i - 1 + 1]));
    }
}

/// A sum has one value, where `plus` gives one answer for each pair of
/// arguments.
pub proof fn lemma_sum_unique<T, A: Fn(T, T) -> T>(
    plus: &A,
    zero: T,
    terms: Seq<T>,
    first: T,
    second: T,
)
    requires
        single_valued2(plus),
        sums_to(plus, zero, terms, first),
        sums_to(plus, zero, terms, second),
    ensures
        first == second,
{
    let totals1 = choose|totals: Seq<T>|
        running_totals(plus, zero, terms, totals) && totals.last() == first;
    let totals2 = choose|totals: Seq<T>|
        running_totals(plus, zero, terms, totals) && totals.last() == second;
    lemma_totals_agree(plus, zero, terms, totals1, totals2, terms.len() as int);
}

/// Whether every index of `k` lies in `[-kmax, kmax]`.
pub open spec fn within(kmax: isize, k: (isize, isize, isize)) -> bool {
    &&& -kmax <= k.0 <= kmax
    &&& -kmax <= k.1 <= kmax
    &&& -kmax <= k.2 <= kmax
}

/// Whether `phi` is the phase of particle `i` at the point `k`: the entry of
/// `table` for the first index of `k` times the entry for the second, and
/// that times the entry for the third.
pub open spec fn phase_product<C: Copy, M: Fn(C, C) -> C>(
    table: &Ewald3DArray<C>,
    times: &M,
    k: (isize, isize, isize),
    i: usize,
    phi: C,
) -> bool {
    exists|xy: C|
        call_ensures(*times, (table.at(k.0 as int, 0, i as int), table.at(k.1 as int, 1, i as int)), xy)
            && call_ensures(*times, (xy, table.at(k.2 as int, 2, i as int)), phi)
}

/// Whether `term` is what particle `i` adds to the structure factor at the
/// point `k`: its phase there, weighed by `weigh` for particle `i`.
pub open spec fn charge_term<C: Copy, M: Fn(C, C) -> C, W: Fn(usize, C) -> C>(
    table: &Ewald3DArray<C>,
    times: &M,
    weigh: &W,
    k: (isize, isize, isize),
    i: usize,
    term: C,
) -> bool {
    exists|phi: C| phase_product(table, times, k, i, phi) && call_ensures(*weigh, (i, phi), term)
}

/// Whether `rho` is the structure factor of `count` particles at the point
/// `k`: the sum, from the first particle on, of what each adds.
pub open spec fn density_at<
    C: Copy,
    M: Fn(C, C) -> C,
    W: Fn(usize, C) -> C,
    A: Fn(C, C) -> C,
>(
    table: &Ewald3DArray<C>,
    count: usize,
    times: &M,
    weigh: &W,
    plus: &A,
    zero: C,
    k: (isize, isize, isize),
    rho: C,
) -> bool {
    exists|terms: Seq<C>|
        {
            &&& terms.len() == count
            &&& forall|i: usize|
                i < count ==> charge_term(table, times, weigh, k, i, #[trigger] terms[i as int])
            &&& sums_to(plus, zero, terms, rho)
        }
}

/// Whether `term` is what the particle `part` adds to the change of the
/// structure factor at the point `k` when it moves: its phase in `moved`,
/// where it is number `i`, less its phase in `table`, weighed by `weigh` for
/// `part`.
pub open spec fn moved_term<
    C: Copy,
    M: Fn(C, C) -> C,
    S: Fn(C, C) -> C,
    W: Fn(usize, C) -> C,
>(
    table: &Ewald3DArray<C>,
    moved: &Ewald3DArray<C>,
    times: &M,
    minus: &S,
    weigh: &W,
    k: (isize, isize, isize),
    i: usize,
    part: usize,
    term: C,
) -> bool {
    exists|old_phi: C, new_phi: C, change: C|
        {
            &&& phase_product(table, times, k, part, old_phi)
            &&& phase_product(moved, times, k, i, new_phi)
            &&& call_ensures(*minus, (new_phi, old_phi), change)
            &&& call_ensures(*weigh, (part, change), term)
        }
}

/// Whether `delta` is the change of the structure factor at the point `k`
/// when the particles `molecule` move: the sum, from the first of them on,
/// of what each adds.
pub open spec fn change_at<
    C: Copy,
    M: Fn(C, C) -> C,
    S: Fn(C, C) -> C,
    W: Fn(usize, C) -> C,
    A: Fn(C, C) -> C,
>(
    table: &Ewald3DArray<C>,
    moved: &Ewald3DArray<C>,
    molecule: Seq<usize>,
    times: &M,
    minus: &S,
    weigh: &W,
    plus: &A,
    zero: C,
    k: (isize, isize, isize),
    delta: C,
) -> bool {
    exists|terms: Seq<C>|
        {
            &&& terms.len() == molecule.len()
            &&& forall|i: usize|
                i < molecule.len() ==> moved_term(
                    table,
                    moved,
                    times,
                    minus,
                    weigh,
                    k,
                    i,
                    molecule[i as int],
                    #[trigger] terms[i as int],
                )
            &&& sums_to(plus, zero, terms, delta)
        }
}

/// The phase of particle `i` at the point `k`.
pub fn phase<C: Copy, M: Fn(C, C) -> C>(
    table: &Ewald3DArray<C>,
    times: &M,
    k: (isize, isize, isize),
    i: usize,
) -> (phi: C)
    requires
        table.has(k.0 as int, 0, i as int),
        table.has(k.1 as int, 1, i as int),
        table.has(k.2 as int, 2, i as int),
        forall|a: C, b: C| call_requires(*times, (a, b)),
    ensures
        phase_product(table, times, k, i, phi),
{
    let x = *table.index((k.0, 0, i));
    let y = *table.index((k.1, 1, i));
    let z = *table.index((k.2, 2, i));
    let xy = times(x, y);
    times(xy, z)
}

/// The structure factor of `count` particles at each of the points `kvecs`,
/// from the phase table `table`.
///
/// `weigh(i, phi)` gives the phase `phi` the weight of particle `i`, its
/// charge; `plus` adds, starting from `zero`.
pub fn structure_factor<C: Copy, M: Fn(C, C) -> C, W: Fn(usize, C) -> C, A: Fn(C, C) -> C>(
    table: &Ewald3DArray<C>,
    kmax: isize,
    count: usize,
    kvecs: &Vec<(isize, isize, isize)>,
    times: &M,
    weigh: &W,
    plus: &A,
    zero: C,
) -> (rho: Vec<C>)
    requires
        1 <= kmax < isize::MAX,
        phase_shaped(table, kmax, count),
        forall|n: int| 0 <= n < kvecs@.len() ==> within(kmax, #[trigger] kvecs@[n]),
        forall|a: C, b: C| call_requires(*times, (a, b)),
        forall|i: usize, a: C| i < count ==> call_requires(*weigh, (i, a)),
        forall|a: C, b: C| call_requires(*plus, (a, b)),
    ensures
        rho@.len() == kvecs@.len(),
        forall|n: int|
            0 <= n < kvecs@.len() ==> density_at(
                table,
                count,
                times,
                weigh,
                plus,
                zero,
                kvecs@[n],
                #[trigger] rho@[n],
            ),
{
    let mut rho: Vec<C> = Vec::new();
    let mut n: usize = 0;
    while n < kvecs.len()
        invariant
            1 <= kmax < isize::MAX,
            n <= kvecs@.len(),
            rho@.len() == n,
            phase_shaped(table, kmax, count),
            forall|n: int| 0 <= n < kvecs@.len() ==> within(kmax, #[trigger] kvecs@[n]),
            forall|a: C, b: C| call_requires(*times, (a, b)),
            forall|i: usize, a: C| i < count ==> call_requires(*weigh, (i, a)),
            forall|a: C, b: C| call_requires(*plus, (a, b)),
            forall|m: int|
                0 <= m < n ==> density_at(
                    table,
                    count,
                    times,
                    weigh,
                    plus,
                    zero,
                    kvecs@[m],
                    #[trigger] rho@[m],
                ),
        decreases kvecs@.len() - n,
    {
        let k = kvecs[n];
        assert(within(kmax, kvecs@[n as int]));
        let mut partial = zero;
        let ghost mut terms: Seq<C> = Seq::empty();
        proof {
            lemma_sum_of_none(plus, zero);
        }
        let mut i: usize = 0;
        while i < count
            invariant
                1 <= kmax < isize::MAX,
                i <= count,
                within(kmax, k),
                phase_shaped(table, kmax, count),
                forall|a: C, b: C| call_requires(*times, (a, b)),
                forall|i: usize, a: C| i < count ==> call_requires(*weigh, (i, a)),
                forall|a: C, b: C| call_requires(*plus, (a, b)),
                terms.len() == i,
                forall|j: usize|
                    j < i ==> charge_term(table, times, weigh, k, j, #[trigger] terms[j as int]),
                sums_to(plus, zero, terms, partial),
            decreases count - i,
        {
            let phi = phase(table, times, k, i);
            let term = weigh(i, phi);
            let total = plus(partial, term);
            proof {
                lemma_sum_one_more(plus, zero, terms, partial, term, total);
                assert(charge_term(table, times, weigh, k, i, term));
                let longer = terms.push(term);
                assert forall|j: usize| j < i + 1 implies charge_term(
                    table,
                    times,
                    weigh,
                    k,
                    j,
                    #[trigger] longer[j as int],
                ) by {
                    if j < i {
                        assert(longer[j as int] == terms[j as int]);
                    }
                }
                terms = longer;
            }
            partial = total;
            i = i + 1;
        }
        let ghost before = rho@;
        rho.push(partial);
        proof {
            assert(density_at(table, count, times, weigh, plus, zero, k, partial));
            assert forall|m: int| 0 <= m < n + 1 implies density_at(
                table,
                count,
                times,
                weigh,
                plus,
                zero,
                kvecs@[m],
                #[trigger] rho@[m],
            ) by {
                if m < n {
                    assert(rho@[m] == before[m]);
                }
            }
        }
        n = n + 1;
    }
    rho
}

/// The change of the structure factor at each of the points `kvecs` when
/// the particles `molecule` move from where `table` has them to where
/// `moved` has them. In `moved` the particles are numbered from zero, in the
/// order of `molecule`.
///
/// `minus(new, old)` subtracts, `weigh(part, change)` gives the change the
/// weight of particle `part`, its charge; `plus` adds, starting from `zero`.
pub fn structure_factor_change<
    C: Copy,
    M: Fn(C, C) -> C,
    S: Fn(C, C) -> C,
    W: Fn(usize, C) -> C,
    A: Fn(C, C) -> C,
>(
    table: &Ewald3DArray<C>,
    moved: &Ewald3DArray<C>,
    kmax: isize,
    molecule: &Vec<usize>,
    kvecs: &Vec<(isize, isize, isize)>,
    times: &M,
    minus: &S,
    weigh: &W,
    plus: &A,
    zero: C,
) -> (delta: Vec<C>)
    requires
        1 <= kmax < isize::MAX,
        table.start() == -kmax,
        table.length() == 2 * kmax + 1,
        table.width() == 3,
        phase_shaped(moved, kmax, molecule@.len() as usize),
        forall|i: int| 0 <= i < molecule@.len() ==> #[trigger] molecule@[i] < table.depth(),
        forall|n: int| 0 <= n < kvecs@.len() ==> within(kmax, #[trigger] kvecs@[n]),
        forall|a: C, b: C| call_requires(*times, (a, b)),
        forall|a: C, b: C| call_requires(*minus, (a, b)),
        forall|i: int, a: C|
            0 <= i < molecule@.len() ==> #[trigger] call_requires(*weigh, (molecule@[i], a)),
        forall|a: C, b: C| call_requires(*plus, (a, b)),
    ensures
        delta@.len() == kvecs@.len(),
        forall|n: int|
            0 <= n < kvecs@.len() ==> change_at(
                table,
                moved,
                molecule@,
                times,
                minus,
                weigh,
                plus,
                zero,
                kvecs@[n],
                #[trigger] delta@[n],
            ),
{
    let mut delta: Vec<C> = Vec::new();
    let mut n: usize = 0;
    while n < kvecs.len()
        invariant
            1 <= kmax < isize::MAX,
            n <= kvecs@.len(),
            delta@.len() == n,
            table.start() == -kmax,
            table.length() == 2 * kmax + 1,
            table.width() == 3,
            phase_shaped(moved, kmax, molecule@.len() as usize),
            forall|i: int| 0 <= i < molecule@.len() ==> #[trigger] molecule@[i] < table.depth(),
            forall|n: int| 0 <= n < kvecs@.len() ==> within(kmax, #[trigger] kvecs@[n]),
            forall|a: C, b: C| call_requires(*times, (a, b)),
            forall|a: C, b: C| call_requires(*minus, (a, b)),
            forall|i: int, a: C|
            0 <= i < molecule@.len() ==> #[trigger] call_requires(*weigh, (molecule@[i], a)),
            forall|a: C, b: C| call_requires(*plus, (a, b)),
            forall|m: int|
                0 <= m < n ==> change_at(
                    table,
                    moved,
                    molecule@,
                    times,
                    minus,
                    weigh,
                    plus,
                    zero,
                    kvecs@[m],
                    #[trigger] delta@[m],
                ),
        decreases kvecs@.len() - n,
    {
        let k = kvecs[n];
        assert(within(kmax, kvecs@[n as int]));
        let mut partial = zero;
        let ghost mut terms: Seq<C> = Seq::empty();
        proof {
            lemma_sum_of_none(plus, zero);
        }
        let mut i: usize = 0;
        while i < molecule.len()
            invariant
                1 <= kmax < isize::MAX,
                i <= molecule@.len(),
                within(kmax, k),
                table.start() == -kmax,
                table.length() == 2 * kmax + 1,
                table.width() == 3,
                phase_shaped(moved, kmax, molecule@.len() as usize),
                forall|i: int|
                    0 <= i < molecule@.len() ==> #[trigger] molecule@[i] < table.depth(),
                forall|a: C, b: C| call_requires(*times, (a, b)),
                forall|a: C, b: C| call_requires(*minus, (a, b)),
                forall|i: int, a: C|
            0 <= i < molecule@.len() ==> #[trigger] call_requires(*weigh, (molecule@[i], a)),
                forall|a: C, b: C| call_requires(*plus, (a, b)),
                terms.len() == i,
                forall|j: usize|
                    j < i ==> moved_term(
                        table,
                        moved,
                        times,
                        minus,
                        weigh,
                        k,
                        j,
                        molecule@[j as int],
                        #[trigger] terms[j as int],
                    ),
                sums_to(plus, zero, terms, partial),
            decreases molecule@.len() - i,
        {
            let part = molecule[i];
            assert(molecule@[i as int] < table.depth());
            let old_phi = phase(table, times, k, part);
            let new_phi = phase(moved, times, k, i);
            let change = minus(new_phi, old_phi);
            let term = weigh(part, change);
            let total = plus(partial, term);
            proof {
                lemma_sum_one_more(plus, zero, terms, partial, term, total);
                assert(moved_term(table, moved, times, minus, weigh, k, i, part, term));
                let longer = terms.push(term);
                assert forall|j: usize| j < i + 1 implies moved_term(
                    table,
                    moved,
                    times,
                    minus,
                    weigh,
                    k,
                    j,
                    molecule@[j as int],
                    #[trigger] longer[j as int],
                ) by {
                    if j < i {
                        assert(longer[j as int] == terms[j as int]);
                    }
                }
                terms = longer;
            }
            partial = total;
            i = i + 1;
        }
        let ghost before = delta@;
        delta.push(partial);
        proof {
            assert(change_at(table, moved, molecule@, times, minus, weigh, plus, zero, k, partial));
            assert forall|m: int| 0 <= m < n + 1 implies change_at(
                table,
                moved,
                molecule@,
                times,
                minus,
                weigh,
                plus,
                zero,
                kvecs@[m],
                #[trigger] delta@[m],
            ) by {
                if m < n {
                    assert(delta@[m] == before[m]);
                }
            }
        }
        n = n + 1;
    }
    delta
}

/// Whether `total` is the sum over the points of what `term` makes of the
/// factor and the structure factor of each point, from the first point on.
pub open spec fn weighted_sum_is<X, C, T, P: Fn(X, C) -> T, A: Fn(T, T) -> T>(
    factors: Seq<X>,
    rho: Seq<C>,
    term: &P,
    plus: &A,
    zero: T,
    total: T,
) -> bool {
    exists|terms: Seq<T>|
        {
            &&& terms.len() == factors.len()
            &&& forall|n: int|
                0 <= n < factors.len() ==> call_ensures(*term, (factors[n], rho[n]), #[trigger] terms[n])
            &&& sums_to(plus, zero, terms, total)
        }
}

/// The sum over the points of what `term` makes of the factor and the
/// structure factor of each point; `plus` adds, starting from `zero`.
pub fn weighted_sum<X: Copy, C: Copy, T: Copy, P: Fn(X, C) -> T, A: Fn(T, T) -> T>(
    factors: &Vec<X>,
    rho: &Vec<C>,
    term: &P,
    plus: &A,
    zero: T,
) -> (total: T)
    requires
        factors@.len() == rho@.len(),
        forall|n: int| 0 <= n < factors@.len() ==> call_requires(*term, (#[trigger] factors@[n], rho@[n])),
        forall|a: T, b: T| call_requires(*plus, (a, b)),
    ensures
        weighted_sum_is(factors@, rho@, term, plus, zero, total),
{
    let mut total = zero;
    let ghost mut terms: Seq<T> = Seq::empty();
    proof {
        lemma_sum_of_none(plus, zero);
    }
    let mut n: usize = 0;
    while n < factors.len()
        invariant
            n <= factors@.len(),
            factors@.len() == rho@.len(),
            forall|n: int| 0 <= n < factors@.len() ==> call_requires(*term, (#[trigger] factors@[n], rho@[n])),
            forall|a: T, b: T| call_requires(*plus, (a, b)),
            terms.len() == n,
            forall|m: int|
                0 <= m < n ==> call_ensures(*term, (factors@[m], rho@[m]), #[trigger] terms[m]),
            sums_to(plus, zero, terms, total),
        decreases factors@.len() - n,
    {
        let value = term(factors[n], rho[n]);
        let next = plus(total, value);
        proof {
            lemma_sum_one_more(plus, zero, terms, total, value, next);
            let longer = terms.push(value);
            assert forall|m: int| 0 <= m < n + 1 implies call_ensures(
                *term,
                (factors@[m], rho@[m]),
                #[trigger] longer[m],
            ) by {
                if m < n {
                    assert(longer[m] == terms[m]);
                }
            }
            terms = longer;
        }
        total = next;
        n = n + 1;
    }
    total
}

/// Whether `term` is what the point `k` adds to the electric field at
/// particle `i`: what `field` makes of the phase of the particle there, the
/// structure factor `rho` at the point and the factor `factor` of the point.
pub open spec fn field_term<C: Copy, F, M: Fn(C, C) -> C, E: Fn(C, C, F) -> F>(
    table: &Ewald3DArray<C>,
    times: &M,
    field: &E,
    k: (isize, isize, isize),
    i: usize,
    rho: C,
    factor: F,
    term: F,
) -> bool {
    exists|phi: C| phase_product(table, times, k, i, phi) && call_ensures(*field, (phi, rho, factor), term)
}

/// Whether `total` is the electric field at particle `i`: the sum, from the
/// first point on, of what each point adds.
pub open spec fn field_at<
    C: Copy,
    F,
    M: Fn(C, C) -> C,
    E: Fn(C, C, F) -> F,
    A: Fn(F, F) -> F,
>(
    table: &Ewald3DArray<C>,
    kvecs: Seq<(isize, isize, isize)>,
    rho: Seq<C>,
    factors: Seq<F>,
    times: &M,
    field: &E,
    plus: &A,
    zero: F,
    i: usize,
    total: F,
) -> bool {
    exists|terms: Seq<F>|
        {
            &&& terms.len() == kvecs.len()
            &&& forall|n: int|
                0 <= n < kvecs.len() ==> field_term(
                    table,
                    times,
                    field,
                    kvecs[n],
                    i,
                    rho[n],
                    factors[n],
                    #[trigger] terms[n],
                )
            &&& sums_to(plus, zero, terms, total)
        }
}

/// The electric field of the k-space sum at each of `count` particles.
///
/// `rho[n]` is the structure factor and `factors[n]` the field factor at the
/// point `kvecs[n]`; `field(phi, rho, factor)` gives what a point adds to the
/// field at a particle with the phase `phi` there; `plus` adds, starting
/// from `zero`. The field is written to `efield`, which is emptied first and
/// keeps its room from one call to the next.
pub fn electric_field<
    C: Copy,
    F: Copy,
    M: Fn(C, C) -> C,
    E: Fn(C, C, F) -> F,
    A: Fn(F, F) -> F,
>(
    table: &Ewald3DArray<C>,
    kmax: isize,
    count: usize,
    kvecs: &Vec<(isize, isize, isize)>,
    rho: &Vec<C>,
    factors: &Vec<F>,
    times: &M,
    field: &E,
    plus: &A,
    zero: F,
    efield: &mut Vec<F>,
)
    requires
        1 <= kmax < isize::MAX,
        phase_shaped(table, kmax, count),
        rho@.len() == kvecs@.len(),
        factors@.len() == kvecs@.len(),
        forall|n: int| 0 <= n < kvecs@.len() ==> within(kmax, #[trigger] kvecs@[n]),
        forall|a: C, b: C| call_requires(*times, (a, b)),
        forall|a: C, b: C, c: F| call_requires(*field, (a, b, c)),
        forall|a: F, b: F| call_requires(*plus, (a, b)),
    ensures
        final(efield)@.len() == count,
        forall|i: usize|
            i < count ==> field_at(
                table,
                kvecs@,
                rho@,
                factors@,
                times,
                field,
                plus,
                zero,
                i,
                #[trigger] final(efield)@[i as int],
            ),
{
    efield.clear();
    let mut i: usize = 0;
    while i < count
        invariant
            1 <= kmax < isize::MAX,
            i <= count,
            efield@.len() == i,
            phase_shaped(table, kmax, count),
            rho@.len() == kvecs@.len(),
            factors@.len() == kvecs@.len(),
            forall|n: int| 0 <= n < kvecs@.len() ==> within(kmax, #[trigger] kvecs@[n]),
            forall|a: C, b: C| call_requires(*times, (a, b)),
            forall|a: C, b: C, c: F| call_requires(*field, (a, b, c)),
            forall|a: F, b: F| call_requires(*plus, (a, b)),
            forall|j: usize|
                j < i ==> field_at(
                    table,
                    kvecs@,
                    rho@,
                    factors@,
                    times,
                    field,
                    plus,
                    zero,
                    j,
                    #[trigger] efield@[j as int],
                ),
        decreases count - i,
    {
        let mut partial = zero;
        let ghost mut terms: Seq<F> = Seq::empty();
        proof {
            lemma_sum_of_none(plus, zero);
        }
        let mut n: usize = 0;
        while n < kvecs.len()
            invariant
                1 <= kmax < isize::MAX,
                i < count,
                n <= kvecs@.len(),
                phase_shaped(table, kmax, count),
                rho@.len() == kvecs@.len(),
                factors@.len() == kvecs@.len(),
                forall|n: int| 0 <= n < kvecs@.len() ==> within(kmax, #[trigger] kvecs@[n]),
                forall|a: C, b: C| call_requires(*times, (a, b)),
                forall|a: C, b: C, c: F| call_requires(*field, (a, b, c)),
                forall|a: F, b: F| call_requires(*plus, (a, b)),
                terms.len() == n,
                forall|m: int|
                    0 <= m < n ==> field_term(
                        table,
                        times,
                        field,
                        kvecs@[m],
                        i,
                        rho@[m],
                        factors@[m],
                        #[trigger] terms[m],
                    ),
                sums_to(plus, zero, terms, partial),
            decreases kvecs@.len() - n,
        {
            let k = kvecs[n];
            assert(within(kmax, kvecs@[n as int]));
            let phi = phase(table, times, k, i);
            let term = field(phi, rho[n], factors[n]);
            let total = plus(partial, term);
            proof {
                lemma_sum_one_more(plus, zero, terms, partial, term, total);
                assert(field_term(table, times, field, k, i, rho@[n as int], factors@[n as int], term));
                let longer = terms.push(term);
                assert forall|m: int| 0 <= m < n + 1 implies field_term(
                    table,
                    times,
                    field,
                    kvecs@[m],
                    i,
                    rho@[m],
                    factors@[m],
                    #[trigger] longer[m],
                ) by {
                    if m < n {
                        assert(longer[m] == terms[m]);
                    }
                }
                terms = longer;
            }
            partial = total;
            n = n + 1;
        }
        let ghost before = efield@;
        efield.push(partial);
        proof {
            assert(field_at(table, kvecs@, rho@, factors@, times, field, plus, zero, i, partial));
            assert forall|j: usize| j < i + 1 implies field_at(
                table,
                kvecs@,
                rho@,
                factors@,
                times,
                field,
                plus,
                zero,
                j,
                #[trigger] efield@[j as int],
            ) by {
                if j < i {
                    assert(efield@[j as int] == before[j as int]);
                }
            }
        }
        i = i + 1;
    }
}

/// Whether `after` is the entry `before` of a buffer for particle `i` with
/// what the point `k` adds to the electric field there added.
pub open spec fn field_added<
    C: Copy,
    F,
    M: Fn(C, C) -> C,
    E: Fn(C, C, F) -> F,
    A: Fn(F, F) -> F,
>(
    table: &Ewald3DArray<C>,
    times: &M,
    field: &E,
    plus: &A,
    k: (isize, isize, isize),
    i: usize,
    rho: C,
    factor: F,
    before: F,
    after: F,
) -> bool {
    exists|term: F|
        #[trigger] field_term(table, times, field, k, i, rho, factor, term) && call_ensures(
            *plus,
            (before, term),
            after,
        )
}

/// Adds to a worker's buffer what the point `k` adds to the electric field
/// at each of `count` particles.
///
/// `rho` is the structure factor and `factor` the field factor at the
/// point; `field(phi, rho, factor)` gives what the point adds to the field at
/// a particle with the phase `phi` there; `plus` adds.
pub fn point_field<C: Copy, F: Copy, M: Fn(C, C) -> C, E: Fn(C, C, F) -> F, A: Fn(F, F) -> F>(
    table: &Ewald3DArray<C>,
    kmax: isize,
    count: usize,
    k: (isize, isize, isize),
    rho: C,
    factor: F,
    times: &M,
    field: &E,
    plus: &A,
    buffer: &mut Vec<F>,
)
    requires
        1 <= kmax < isize::MAX,
        phase_shaped(table, kmax, count),
        within(kmax, k),
        old(buffer)@.len() == count,
        forall|a: C, b: C| call_requires(*times, (a, b)),
        forall|a: C, b: C, c: F| call_requires(*field, (a, b, c)),
        forall|a: F, b: F| call_requires(*plus, (a, b)),
    ensures
        final(buffer)@.len() == count,
        forall|i: usize|
            i < count ==> field_added(
                table,
                times,
                field,
                plus,
                k,
                i,
                rho,
                factor,
                old(buffer)@[i as int],
                #[trigger] final(buffer)@[i as int],
            ),
{
    let mut i: usize = 0;
    while i < count
        invariant
            1 <= kmax < isize::MAX,
            i <= count,
            buffer@.len() == count,
            phase_shaped(table, kmax, count),
            within(kmax, k),
            forall|a: C, b: C| call_requires(*times, (a, b)),
            forall|a: C, b: C, c: F| call_requires(*field, (a, b, c)),
            forall|a: F, b: F| call_requires(*plus, (a, b)),
            forall|j: usize| i <= j < count ==> #[trigger] buffer@[j as int] == old(buffer)@[j as int],
            forall|j: usize|
                j < i ==> field_added(
                    table,
                    times,
                    field,
                    plus,
                    k,
                    j,
                    rho,
                    factor,
                    old(buffer)@[j as int],
                    #[trigger] buffer@[j as int],
                ),
        decreases count - i,
    {
        let ghost entered = buffer@;
        let phi = phase(table, times, k, i);
        let term = field(phi, rho, factor);
        assert(field_term(table, times, field, k, i, rho, factor, term));
        let total = plus(buffer[i], term);
        buffer[i] = total;
        proof {
            assert forall|j: usize| j < i + 1 implies field_added(
                table,
                times,
                field,
                plus,
                k,
                j,
                rho,
                factor,
                old(buffer)@[j as int],
                #[trigger] buffer@[j as int],
            ) by {
                if j < i {
                    assert(buffer@[j as int] == entered[j as int]);
                }
            }
        }
        i = i + 1;
    }
}

/// The structure factor at a point is a function of the phase table, the
/// number of particles and the point: computed twice with arithmetic that
/// gives one answer for each argument, it is the same.
pub proof fn lemma_structure_factor_reproducible<
    C: Copy,
    M: Fn(C, C) -> C,
    W: Fn(usize, C) -> C,
    A: Fn(C, C) -> C,
>(
    table: &Ewald3DArray<C>,
    count: usize,
    times: &M,
    weigh: &W,
    plus: &A,
    zero: C,
    k: (isize, isize, isize),
    first: C,
    second: C,
)
    requires
        single_valued2(times),
        single_valued2(weigh),
        single_valued2(plus),
        density_at(table, count, times, weigh, plus, zero, k, first),
        density_at(table, count, times, weigh, plus, zero, k, second),
    ensures
        first == second,
{
    let terms1 = choose|terms: Seq<C>|
        {
            &&& terms.len() == count
            &&& forall|i: usize|
                i < count ==> charge_term(table, times, weigh, k, i, #[trigger] terms[i as int])
            &&& sums_to(plus, zero, terms, first)
        };
    let terms2 = choose|terms: Seq<C>|
        {
            &&& terms.len() == count
            &&& forall|i: usize|
                i < count ==> charge_term(table, times, weigh, k, i, #[trigger] terms[i as int])
            &&& sums_to(plus, zero, terms, second)
        };
    assert forall|n: int| 0 <= n < count implies terms1[n] == terms2[n] by {
        let i = n as usize;
        assert(charge_term(table, times, weigh, k, i, terms1[i as int]));
        assert(charge_term(table, times, weigh, k, i, terms2[i as int]));
        let phi1 = choose|phi: C|
            phase_product(table, times, k, i, phi) && call_ensures(*weigh, (i, phi), terms1[n]);
        let phi2 = choose|phi: C|
            phase_product(table, times, k, i, phi) && call_ensures(*weigh, (i, phi), terms2[n]);
        lemma_phase_unique(table, times, k, i, phi1, phi2);
    }
    assert(terms1 =~= terms2);
    lemma_sum_unique(plus, zero, terms1, first, second);
}

/// The phase of a particle at a point has one value, where `times` gives one
/// answer for each pair of arguments.
pub proof fn lemma_phase_unique<C: Copy, M: Fn(C, C) -> C>(
    table: &Ewald3DArray<C>,
    times: &M,
    k: (isize, isize, isize),
    i: usize,
    first: C,
    second: C,
)
    requires
        single_valued2(times),
        phase_product(table, times, k, i, first),
        phase_product(table, times, k, i, second),
    ensures
        first == second,
{
    let x = table.at(k.0 as int, 0, i as int);
    let y = table.at(k.1 as int, 1, i as int);
    let z = table.at(k.2 as int, 2, i as int);
    let xy1 = choose|xy: C| call_ensures(*times, (x, y), xy) && call_ensures(*times, (xy, z), first);
    let xy2 = choose|xy: C|
        call_ensures(*times, (x, y), xy) && call_ensures(*times, (xy, z), second);
    assert(xy1 == xy2);
}

/// A sum over the points is a function of the factors and the structure
/// factor: computed twice with arithmetic that gives one answer for each
/// argument, it is the same.
pub proof fn lemma_weighted_sum_reproducible<X, C, T, P: Fn(X, C) -> T, A: Fn(T, T) -> T>(
    factors: Seq<X>,
    rho: Seq<C>,
    term: &P,
    plus: &A,
    zero: T,
    first: T,
    second: T,
)
    requires
        single_valued2(term),
        single_valued2(plus),
        weighted_sum_is(factors, rho, term, plus, zero, first),
        weighted_sum_is(factors, rho, term, plus, zero, second),
    ensures
        first == second,
{
    let terms1 = choose|terms: Seq<T>|
        {
            &&& terms.len() == factors.len()
            &&& forall|n: int|
                0 <= n < factors.len() ==> call_ensures(*term, (factors[n], rho[n]), #[trigger] terms[n])
            &&& sums_to(plus, zero, terms, first)
        };
    let terms2 = choose|terms: Seq<T>|
        {
            &&& terms.len() == factors.len()
            &&& forall|n: int|
                0 <= n < factors.len() ==> call_ensures(*term, (factors[n], rho[n]), #[trigger] terms[n])
            &&& sums_to(plus, zero, terms, second)
        };
    assert forall|n: int| 0 <= n < factors.len() implies terms1[n] == terms2[n] by {
        assert(call_ensures(*term, (factors[n], rho[n]), terms1[n]));
        assert(call_ensures(*term, (factors[n], rho[n]), terms2[n]));
    }
    assert(terms1 =~= terms2);
    lemma_sum_unique(plus, zero, terms1, first, second);
}

} // verus!
