//! Phase factors `exp(i k r)` of a set of particles, built by recurrence.
//!
//! The table has one entry for each index `k` in `[-kmax, kmax]`, each of the
//! three axes `d` of reciprocal space and each particle `i`. The entry for
//! `k = 0` is one; the entry for `k = 1` is whatever the caller says the
//! phase of particle `i` along axis `d` is; the entry for a larger `k` is the
//! product of the entry for `k - 1` with the entry for `1`; and the entry for
//! `-k` is the conjugate of the entry for `k`.
//!
//! The arithmetic is the caller's: `unit`, `times` and `conj` are functions
//! that are handed in, and the contracts below say to which entries each was
//! applied.

use vstd::prelude::*;
use crate::array3::Ewald3DArray;
use crate::density::{single_valued1, single_valued2};

verus! {

/// Whether `table` has the shape of a phase table for `kmax` and `count`
/// particles.
pub open spec fn phase_shaped<C: Copy>(table: &Ewald3DArray<C>, kmax: isize, count: usize) -> bool {
    &&& table.start() == -kmax
    &&& table.length() == 2 * kmax + 1
    &&& table.width() == 3
    &&& table.depth() == count
}

/// Whether the entries for the indexes 0, 1 and -1 of particle `i` along
/// axis `d` are what they have to be.
pub open spec fn base_set<C: Copy, U: Fn(usize, usize) -> C, J: Fn(C) -> C>(
    table: &Ewald3DArray<C>,
    unit: &U,
    conj: &J,
    one: C,
    d: usize,
    i: usize,
) -> bool {
    &&& table.at(0, d as int, i as int) == one
    &&& call_ensures(*unit, (d, i), table.at(1, d as int, i as int))
    &&& call_ensures(*conj, (table.at(1, d as int, i as int),), table.at(-1, d as int, i as int))
}

/// Whether the entries for the indexes `k` and `-k` of particle `i` along
/// axis `d` are what the recurrence makes of the entries for `k - 1` and 1.
pub open spec fn step_set<C: Copy, M: Fn(C, C) -> C, J: Fn(C) -> C>(
    table: &Ewald3DArray<C>,
    times: &M,
    conj: &J,
    k: isize,
    d: usize,
    i: usize,
) -> bool {
    &&& call_ensures(
        *times,
        (table.at(k - 1, d as int, i as int), table.at(1, d as int, i as int)),
        table.at(k as int, d as int, i as int),
    )
    &&& call_ensures(
        *conj,
        (table.at(k as int, d as int, i as int),),
        table.at(-k, d as int, i as int),
    )
}

/// Whether `table` is the phase table for `kmax` and `count` particles that
/// the recurrence builds from `unit`, `times`, `conj` and `one`.
pub open spec fn phases_filled<
    C: Copy,
    U: Fn(usize, usize) -> C,
    M: Fn(C, C) -> C,
    J: Fn(C) -> C,
>(table: &Ewald3DArray<C>, kmax: isize, count: usize, unit: &U, times: &M, conj: &J, one: C) -> bool {
    &&& phase_shaped(table, kmax, count)
    &&& forall|d: usize, i: usize|
        d < 3 && i < count ==> #[trigger] base_set(table, unit, conj, one, d, i)
    &&& forall|k: isize, d: usize, i: usize|
        2 <= k <= kmax && d < 3 && i < count ==> #[trigger] step_set(table, times, conj, k, d, i)
}

/// Fills `table`, which has the shape of a phase table for `kmax` and
/// `count` particles, by the recurrence.
///
/// `unit(d, i)` gives the phase factor of particle `i` along axis `d` for
/// the index 1, `times` multiplies and `conj` conjugates.
pub fn fill_phases<C: Copy, U: Fn(usize, usize) -> C, M: Fn(C, C) -> C, J: Fn(C) -> C>(
    table: &mut Ewald3DArray<C>,
    kmax: isize,
    count: usize,
    unit: &U,
    times: &M,
    conj: &J,
    one: C,
)
    requires
        1 <= kmax < isize::MAX,
        phase_shaped(old(table), kmax, count),
        forall|d: usize, i: usize| d < 3 && i < count ==> call_requires(*unit, (d, i)),
        forall|a: C, b: C| call_requires(*times, (a, b)),
        forall|a: C| call_requires(*conj, (a,)),
    ensures
        phases_filled(final(table), kmax, count, unit, times, conj, one),
{
    // the entries for k = -1, 0, 1 first
    let mut spatial: usize = 0;
    while spatial < 3
        invariant
            1 <= kmax < isize::MAX,
            spatial <= 3,
            phase_shaped(table, kmax, count),
            forall|d: usize, i: usize| d < 3 && i < count ==> call_requires(*unit, (d, i)),
            forall|a: C| call_requires(*conj, (a,)),
            forall|d: usize, i: usize|
                d < spatial && i < count ==> #[trigger] base_set(table, unit, conj, one, d, i),
        decreases 3 - spatial,
    {
        let mut i: usize = 0;
        while i < count
            invariant
                1 <= kmax < isize::MAX,
                spatial < 3,
                i <= count,
                phase_shaped(table, kmax, count),
                forall|d: usize, i: usize| d < 3 && i < count ==> call_requires(*unit, (d, i)),
                forall|a: C| call_requires(*conj, (a,)),
                forall|d: usize, j: usize|
                    (d < spatial && j < count) || (d == spatial && j < i) ==> #[trigger] base_set(
                        table,
                        unit,
                        conj,
                        one,
                        d,
                        j,
                    ),
            decreases count - i,
        {
            let ghost before = *table;
            let first = unit(spatial, i);
            let mirror = conj(first);
            *table.index_mut((0, spatial, i)) = one;
            *table.index_mut((1, spatial, i)) = first;
            *table.index_mut((-1, spatial, i)) = mirror;
            proof {
                assert forall|d: usize, j: usize|
                    (d < spatial && j < count) || (d == spatial && j < i + 1) implies #[trigger] base_set(
                    table,
                    unit,
                    conj,
                    one,
                    d,
                    j,
                ) by {
                    if d == spatial && j == i {
                    } else {
                        assert(base_set(&before, unit, conj, one, d, j));
                    }
                }
            }
            i = i + 1;
        }
        spatial = spatial + 1;
    }

    // the other entries by recurrence
    let mut spatial: usize = 0;
    while spatial < 3
        invariant
            1 <= kmax < isize::MAX,
            spatial <= 3,
            phase_shaped(table, kmax, count),
            forall|a: C, b: C| call_requires(*times, (a, b)),
            forall|a: C| call_requires(*conj, (a,)),
            forall|d: usize, i: usize|
                d < 3 && i < count ==> #[trigger] base_set(table, unit, conj, one, d, i),
            forall|k: isize, d: usize, i: usize|
                2 <= k <= kmax && d < spatial && i < count ==> #[trigger] step_set(
                    table,
                    times,
                    conj,
                    k,
                    d,
                    i,
                ),
        decreases 3 - spatial,
    {
        let mut k: isize = 2;
        while k < kmax + 1
            invariant
                1 <= kmax < isize::MAX,
                spatial < 3,
                2 <= k <= kmax + 1,
                phase_shaped(table, kmax, count),
                forall|a: C, b: C| call_requires(*times, (a, b)),
                forall|a: C| call_requires(*conj, (a,)),
                forall|d: usize, i: usize|
                    d < 3 && i < count ==> #[trigger] base_set(table, unit, conj, one, d, i),
                forall|q: isize, d: usize, i: usize|
                    2 <= q <= kmax && i < count && (d < spatial || (d == spatial && q < k))
                        ==> #[trigger] step_set(table, times, conj, q, d, i),
            decreases kmax + 1 - k,
        {
            let mut i: usize = 0;
            while i < count
                invariant
                    1 <= kmax < isize::MAX,
                    spatial < 3,
                    2 <= k <= kmax,
                    i <= count,
                    phase_shaped(table, kmax, count),
                    forall|a: C, b: C| call_requires(*times, (a, b)),
                    forall|a: C| call_requires(*conj, (a,)),
                    forall|d: usize, i: usize|
                        d < 3 && i < count ==> #[trigger] base_set(table, unit, conj, one, d, i),
                    forall|q: isize, d: usize, j: usize|
                        2 <= q <= kmax && j < count && (d < spatial || (d == spatial && (q < k || (q
                            == k && j < i)))) ==> #[trigger] step_set(table, times, conj, q, d, j),
                decreases count - i,
            {
                let ghost before = *table;
                let lower = *table.index((k - 1, spatial, i));
                let first = *table.index((1, spatial, i));
                let value = times(lower, first);
                let mirror = conj(value);
                *table.index_mut((k, spatial, i)) = value;
                *table.index_mut((-k, spatial, i)) = mirror;
                proof {
                    assert forall|d: usize, j: usize| d < 3 && j < count implies #[trigger] base_set(
                        table,
                        unit,
                        conj,
                        one,
                        d,
                        j,
                    ) by {
                        assert(base_set(&before, unit, conj, one, d, j));
                    }
                    assert forall|q: isize, d: usize, j: usize|
                        2 <= q <= kmax && j < count && (d < spatial || (d == spatial && (q < k || (q
                            == k && j < i + 1)))) implies #[trigger] step_set(
                        table,
                        times,
                        conj,
                        q,
                        d,
                        j,
                    ) by {
                        if d == spatial && q == k && j == i {
                        } else {
                            assert(step_set(&before, times, conj, q, d, j));
                        }
                    }
                }
                i = i + 1;
            }
            k = k + 1;
        }
        spatial = spatial + 1;
    }
}

/// The entries of two phase tables for the index `k` and its opposite agree,
/// for every index from 0 up to `k`.
proof fn lemma_entries_agree<
    C: Copy,
    U: Fn(usize, usize) -> C,
    M: Fn(C, C) -> C,
    J: Fn(C) -> C,
>(
    first: &Ewald3DArray<C>,
    second: &Ewald3DArray<C>,
    kmax: isize,
    count: usize,
    unit: &U,
    times: &M,
    conj: &J,
    one: C,
    k: isize,
    d: usize,
    i: usize,
)
    requires
        single_valued2(unit),
        single_valued2(times),
        single_valued1(conj),
        phases_filled(first, kmax, count, unit, times, conj, one),
        phases_filled(second, kmax, count, unit, times, conj, one),
        1 <= kmax,
        0 <= k <= kmax,
        d < 3,
        i < count,
    ensures
        first.at(k as int, d as int, i as int) == second.at(k as int, d as int, i as int),
        first.at(-k, d as int, i as int) == second.at(-k, d as int, i as int),
    decreases k,
{
    assert(base_set(first, unit, conj, one, d, i));
    assert(base_set(second, unit, conj, one, d, i));
    if k >= 2 {
        lemma_entries_agree(
            first,
            second,
            kmax,
            count,
            unit,
            times,
            conj,
            one,
            (k - 1) as isize,
            d,
            i,
        );
        assert(step_set(first, times, conj, k, d, i));
        assert(step_set(second, times, conj, k, d, i));
    }
}

/// The phase table is a function of what `unit` answers: two tables filled
/// for the same `kmax` and the same particles, with arithmetic that gives
/// one answer for each argument, have the same entries.
pub proof fn lemma_phases_reproducible<
    C: Copy,
    U: Fn(usize, usize) -> C,
    M: Fn(C, C) -> C,
    J: Fn(C) -> C,
>(
    first: &Ewald3DArray<C>,
    second: &Ewald3DArray<C>,
    kmax: isize,
    count: usize,
    unit: &U,
    times: &M,
    conj: &J,
    one: C,
)
    requires
        single_valued2(unit),
        single_valued2(times),
        single_valued1(conj),
        phases_filled(first, kmax, count, unit, times, conj, one),
        phases_filled(second, kmax, count, unit, times, conj, one),
        1 <= kmax,
    ensures
        first.same_as(second),
{
    assert forall|k: int, d: int, i: int| first.has(k, d, i) implies first.at(k, d, i)
        == second.at(k, d, i) by {
        if k >= 0 {
            lemma_entries_agree(
                first,
                second,
                kmax,
                count,
                unit,
                times,
                conj,
                one,
                k as isize,
                d as usize,
                i as usize,
            );
        } else {
            lemma_entries_agree(
                first,
                second,
                kmax,
                count,
                unit,
                times,
                conj,
                one,
                (-k) as isize,
                d as usize,
                i as usize,
            );
        }
    }
}

} // verus!
