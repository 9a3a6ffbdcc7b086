//! The points of reciprocal space that the k-space sum runs over, and the
//! per-point factors that belong to them.
//!
//! Of every pair `k`, `-k` of lattice points only one is visited, and the
//! origin never is. With `kmax` the number of points per axis, the points are
//! taken in three blocks, each in ascending order of its free indexes,
//! leftmost first:
//!
//! 1. `ikx` in `[1, kmax)`, `iky` and `ikz` in `[-kmax, kmax)`;
//! 2. `ikx = 0`, `iky` in `[1, kmax)`, `ikz` in `[-kmax, kmax)`;
//! 3. `ikx = 0`, `iky = 0`, `ikz` in `[1, kmax)`.
//!
//! The upper end of every range is open, also where the lower end is
//! `-kmax`: the point with an index equal to `kmax` is not visited while the
//! one with that index equal to `-kmax` is.

use vstd::prelude::*;
use crate::cell::{CellShape, UnitCell};

verus! {

/// The block of the enumeration that a point with these indexes belongs to.
pub open spec fn block(k: (isize, isize, isize)) -> int {
    if k.0 != 0 {
        1
    } else if k.1 != 0 {
        2
    } else {
        3
    }
}

/// Whether `k` is one of the points that the enumeration for `kmax` visits.
pub open spec fn is_kpoint(kmax: isize, k: (isize, isize, isize)) -> bool {
    ||| 1 <= k.0 < kmax && -kmax <= k.1 < kmax && -kmax <= k.2 < kmax
    ||| k.0 == 0 && 1 <= k.1 < kmax && -kmax <= k.2 < kmax
    ||| k.0 == 0 && k.1 == 0 && 1 <= k.2 < kmax
}

/// Whether `a` comes before `b` when indexes are compared from the left.
pub open spec fn lex_before(a: (isize, isize, isize), b: (isize, isize, isize)) -> bool {
    a.0 < b.0 || (a.0 == b.0 && (a.1 < b.1 || (a.1 == b.1 && a.2 < b.2)))
}

/// Whether a point `a` of block `block_a` is visited before the place `b` of
/// block `block_b`.
pub open spec fn visited_before(
    block_a: int,
    a: (isize, isize, isize),
    block_b: int,
    b: (isize, isize, isize),
) -> bool {
    block_a < block_b || (block_a == block_b && lex_before(a, b))
}

/// Whether the enumeration visits `a` before `b`.
pub open spec fn precedes(a: (isize, isize, isize), b: (isize, isize, isize)) -> bool {
    visited_before(block(a), a, block(b), b)
}

/// Whether `kvecs` is in the order of the enumeration, without repetition.
pub open spec fn in_order(kvecs: Seq<(isize, isize, isize)>) -> bool {
    forall|i: int, j: int| 0 <= i < j < kvecs.len() ==> precedes(#[trigger] kvecs[i], #[trigger] kvecs[j])
}

/// The number of points that the enumeration for `kmax` visits.
pub open spec fn kpoint_count(kmax: int) -> int {
    (kmax - 1) * (4 * kmax * kmax + 2 * kmax + 1)
}

/// The number of places of the enumeration for `kmax` that lie before the
/// place `at` of block `block_at`.
pub open spec fn places_before(kmax: int, block_at: int, at: (isize, isize, isize)) -> int {
    if block_at == 1 {
        (at.0 - 1) * (4 * kmax * kmax) + (at.1 + kmax) * (2 * kmax) + (at.2 + kmax)
    } else if block_at == 2 {
        (kmax - 1) * (4 * kmax * kmax) + (at.1 - 1) * (2 * kmax) + (at.2 + kmax)
    } else {
        (kmax - 1) * (4 * kmax * kmax) + (kmax - 1) * (2 * kmax) + (at.2 - 1)
    }
}

/// The room that is set aside for the points of `kmax`.
pub open spec fn kpoint_room(kmax: int) -> int {
    4 * kmax * kmax * kmax + 6 * kmax * kmax + 3 * kmax
}

/// Pre-factors of the k-space sum, one entry per retained point.
///
/// The four vectors run in parallel: entry `n` of `energy`, `efield` and
/// `virial` belongs to the point `kvecs[n]`.
pub struct EwaldFactors<E, F, V> {
    /// Energy pre-factor of each point.
    pub energy: Vec<E>,
    /// Electric field pre-factor of each point.
    pub efield: Vec<F>,
    /// Virial pre-factor of each point.
    pub virial: Vec<V>,
    /// Indexes of each point in reciprocal space.
    pub kvecs: Vec<(isize, isize, isize)>,
}

impl<E, F, V> EwaldFactors<E, F, V> {
    /// The four vectors have one length.
    pub open spec fn wf(&self) -> bool {
        &&& self.energy@.len() == self.kvecs@.len()
        &&& self.efield@.len() == self.kvecs@.len()
        &&& self.virial@.len() == self.kvecs@.len()
    }

    /// Whether `self` and `other` hold the same points with the same factors
    /// in the same order.
    pub open spec fn same_entries(&self, other: &Self) -> bool {
        &&& self.energy@ == other.energy@
        &&& self.efield@ == other.efield@
        &&& self.virial@ == other.virial@
        &&& self.kvecs@ == other.kvecs@
    }

    /// Entry `n` holds what `factor` gave for the point `kvecs[n]`.
    pub open spec fn entry_from<G: Fn(isize, isize, isize) -> Option<(E, F, V)>>(
        &self,
        factor: &G,
        n: int,
    ) -> bool {
        call_ensures(
            *factor,
            self.kvecs@[n],
            Some((self.energy@[n], self.efield@[n], self.virial@[n])),
        )
    }

    /// The table is what the enumeration for `kmax` yields when `factor`
    /// decides which points stay: the retained points stand in visiting
    /// order, each with the factors that `factor` returned for it, and every
    /// point that is missing is one that `factor` turned down.
    pub open spec fn computed_by<G: Fn(isize, isize, isize) -> Option<(E, F, V)>>(
        &self,
        kmax: isize,
        factor: &G,
    ) -> bool {
        &&& self.wf()
        &&& in_order(self.kvecs@)
        &&& self.kvecs@.len() <= kpoint_count(kmax as int)
        &&& forall|n: int|
            0 <= n < self.kvecs@.len() ==> is_kpoint(kmax, #[trigger] self.kvecs@[n])
                && self.entry_from(factor, n)
        &&& forall|k: (isize, isize, isize)|
            #[trigger] is_kpoint(kmax, k) && !self.kvecs@.contains(k) ==> call_ensures(
                *factor,
                k,
                None,
            )
    }

    /// The same, for the part of the enumeration that lies before place `at`
    /// of block `block_at`.
    pub open spec fn computed_up_to<G: Fn(isize, isize, isize) -> Option<(E, F, V)>>(
        &self,
        kmax: isize,
        factor: &G,
        block_at: int,
        at: (isize, isize, isize),
    ) -> bool {
        &&& self.wf()
        &&& in_order(self.kvecs@)
        &&& self.kvecs@.len() <= places_before(kmax as int, block_at, at)
        &&& forall|n: int|
            0 <= n < self.kvecs@.len() ==> is_kpoint(kmax, #[trigger] self.kvecs@[n])
                && visited_before(block(self.kvecs@[n]), self.kvecs@[n], block_at, at)
                && self.entry_from(factor, n)
        &&& forall|k: (isize, isize, isize)|
            #[trigger] is_kpoint(kmax, k) && visited_before(block(k), k, block_at, at)
                && !self.kvecs@.contains(k) ==> call_ensures(*factor, k, None)
    }

    /// A table without any point.
    pub fn new() -> (factors: Self)
        ensures
            factors.kvecs@.len() == 0,
            factors.wf(),
    {
        EwaldFactors {
            energy: Vec::new(),
            efield: Vec::new(),
            virial: Vec::new(),
            kvecs: Vec::new(),
        }
    }

    /// Removes every point.
    fn clear(&mut self)
        ensures
            final(self).kvecs@.len() == 0,
            final(self).wf(),
    {
        self.energy.clear();
        self.efield.clear();
        self.virial.clear();
        self.kvecs.clear();
    }

    /// Asks for room for `size` more points. The table is the same with or
    /// without the room.
    fn reserve(&mut self, size: usize)
        ensures
            final(self).energy@ == old(self).energy@,
            final(self).efield@ == old(self).efield@,
            final(self).virial@ == old(self).virial@,
            final(self).kvecs@ == old(self).kvecs@,
    {
        let _ = self.energy.try_reserve(size);
        let _ = self.efield.try_reserve(size);
        let _ = self.virial.try_reserve(size);
        let _ = self.kvecs.try_reserve(size);
    }

    /// Visits the place `k`, which is next in the enumeration, and retains
    /// it if `factor` returns factors for it. `next` is the place after `k`.
    fn visit<G: Fn(isize, isize, isize) -> Option<(E, F, V)>>(
        &mut self,
        kmax: isize,
        factor: &G,
        k: (isize, isize, isize),
        Ghost(next): Ghost<(isize, isize, isize)>,
    )
        requires
            is_kpoint(kmax, k),
            call_requires(*factor, k),
            old(self).computed_up_to(kmax, factor, block(k), k),
            lex_before(k, next),
            places_before(kmax as int, block(k), next) == places_before(kmax as int, block(k), k) + 1,
            forall|j: (isize, isize, isize)|
                is_kpoint(kmax, j) && block(j) == block(k) && lex_before(j, next) && j != k
                    ==> lex_before(j, k),
        ensures
            final(self).computed_up_to(kmax, factor, block(k), next),
    {
        let ghost before = *self;
        match factor(k.0, k.1, k.2) {
            Some((energy, efield, virial)) => {
                self.kvecs.push(k);
                self.energy.push(energy);
                self.efield.push(efield);
                self.virial.push(virial);
                proof {
                    let last = before.kvecs@.len() as int;
                    assert(self.kvecs@[last] == k);
                    assert forall|n: int| 0 <= n < self.kvecs@.len() implies is_kpoint(
                        kmax,
                        #[trigger] self.kvecs@[n],
                    ) && visited_before(block(self.kvecs@[n]), self.kvecs@[n], block(k), next)
                        && self.entry_from(factor, n) by {
                        if n < last {
                            assert(self.kvecs@[n] == before.kvecs@[n]);
                            assert(before.entry_from(factor, n));
                        }
                    }
                    assert forall|i: int, j: int| 0 <= i < j < self.kvecs@.len() implies precedes(
                        #[trigger] self.kvecs@[i],
                        #[trigger] self.kvecs@[j],
                    ) by {
                        assert(self.kvecs@[i] == before.kvecs@[i]);
                        if j < last {
                            assert(self.kvecs@[j] == before.kvecs@[j]);
                        }
                    }
                    assert forall|j: (isize, isize, isize)|
                        #[trigger] is_kpoint(kmax, j) && visited_before(
                            block(j),
                            j,
                            block(k),
                            next,
                        ) && !self.kvecs@.contains(j) implies call_ensures(*factor, j, None) by {
                        if j == k {
                            assert(self.kvecs@.contains(k));
                        } else {
                            if before.kvecs@.contains(j) {
                                let i = choose|i: int|
                                    0 <= i < before.kvecs@.len() && before.kvecs@[i] == j;
                                assert(self.kvecs@[i] == j);
                            }
                        }
                    }
                }
            },
            None => {
                proof {
                    assert forall|n: int| 0 <= n < self.kvecs@.len() implies visited_before(
                        block(#[trigger] self.kvecs@[n]),
                        self.kvecs@[n],
                        block(k),
                        next,
                    ) by {}
                }
            },
        }
    }

    /// Computes the table for `cell`, with `kmax` points per axis.
    ///
    /// `factor` is asked once for each point of the enumeration, in visiting
    /// order. It returns the three factors of the point, or `None` for a
    /// point that lies outside the spherical cutoff and must be left out.
    pub fn compute<G: Fn(isize, isize, isize) -> Option<(E, F, V)>>(
        &mut self,
        cell: &UnitCell,
        kmax: isize,
        factor: &G,
    )
        requires
            cell.shape() != CellShape::Infinite,
            kmax >= 1,
            forall|k: (isize, isize, isize)| is_kpoint(kmax, k) ==> call_requires(*factor, k),
        ensures
            final(self).computed_by(kmax, factor),
    {
        self.clear();
        match capacity_for(kmax) {
            Some(room) => self.reserve(room),
            None => {},
        }
        match cell.shape() {
            CellShape::Infinite => {},
            CellShape::Orthorhombic => self.compute_ortho(kmax, factor),
            CellShape::Triclinic => self.compute_triclinic(kmax, factor),
        }
    }

    /// Computes the table for a cell with orthogonal edges.
    fn compute_ortho<G: Fn(isize, isize, isize) -> Option<(E, F, V)>>(
        &mut self,
        kmax: isize,
        factor: &G,
    )
        requires
            old(self).kvecs@.len() == 0,
            old(self).wf(),
            kmax >= 1,
            forall|k: (isize, isize, isize)| is_kpoint(kmax, k) ==> call_requires(*factor, k),
        ensures
            final(self).computed_by(kmax, factor),
    {
        self.compute_triclinic(kmax, factor);
    }

    /// Computes the table for a cell of any periodic shape.
    fn compute_triclinic<G: Fn(isize, isize, isize) -> Option<(E, F, V)>>(
        &mut self,
        kmax: isize,
        factor: &G,
    )
        requires
            old(self).kvecs@.len() == 0,
            old(self).wf(),
            kmax >= 1,
            forall|k: (isize, isize, isize)| is_kpoint(kmax, k) ==> call_requires(*factor, k),
        ensures
            final(self).computed_by(kmax, factor),
    {
        let low: isize = -kmax;

        // points with a positive `ikx`
        let mut ikx: isize = 1;
        while ikx < kmax
            invariant
                kmax >= 1,
                low == -kmax,
                1 <= ikx <= kmax,
                forall|k: (isize, isize, isize)| is_kpoint(kmax, k) ==> call_requires(*factor, k),
                self.computed_up_to(kmax, factor, 1, (ikx, low, low)),
            decreases kmax - ikx,
        {
            let mut iky: isize = low;
            while iky < kmax
                invariant
                    kmax >= 1,
                    low == -kmax,
                    1 <= ikx < kmax,
                    low <= iky <= kmax,
                    forall|k: (isize, isize, isize)|
                        is_kpoint(kmax, k) ==> call_requires(*factor, k),
                    self.computed_up_to(kmax, factor, 1, (ikx, iky, low)),
                decreases kmax - iky,
            {
                let mut ikz: isize = low;
                while ikz < kmax
                    invariant
                        kmax >= 1,
                        low == -kmax,
                        1 <= ikx < kmax,
                        low <= iky < kmax,
                        low <= ikz <= kmax,
                        forall|k: (isize, isize, isize)|
                            is_kpoint(kmax, k) ==> call_requires(*factor, k),
                        self.computed_up_to(kmax, factor, 1, (ikx, iky, ikz)),
                    decreases kmax - ikz,
                {
                    assert(is_kpoint(kmax, (ikx, iky, ikz)));
                    self.visit(kmax, factor, (ikx, iky, ikz), Ghost((ikx, iky, (ikz + 1) as isize)));
                    ikz = ikz + 1;
                }
                proof {
                    lemma_next_line(kmax as int, iky as int);
                    self.lemma_same_place(kmax, factor, 1, (ikx, iky, ikz), 1, (ikx, (iky + 1) as isize, low));
                }
                iky = iky + 1;
            }
            proof {
                lemma_next_plane(kmax as int, ikx as int);
                self.lemma_same_place(kmax, factor, 1, (ikx, iky, low), 1, ((ikx + 1) as isize, low, low));
            }
            ikx = ikx + 1;
        }
        proof {
            self.lemma_same_place(kmax, factor, 1, (ikx, low, low), 2, (0, 1, low));
        }

        // points with `ikx = 0`
        let mut iky: isize = 1;
        while iky < kmax
            invariant
                kmax >= 1,
                low == -kmax,
                1 <= iky <= kmax,
                forall|k: (isize, isize, isize)| is_kpoint(kmax, k) ==> call_requires(*factor, k),
                self.computed_up_to(kmax, factor, 2, (0, iky, low)),
            decreases kmax - iky,
        {
            let mut ikz: isize = low;
            while ikz < kmax
                invariant
                    kmax >= 1,
                    low == -kmax,
                    1 <= iky < kmax,
                    low <= ikz <= kmax,
                    forall|k: (isize, isize, isize)|
                        is_kpoint(kmax, k) ==> call_requires(*factor, k),
                    self.computed_up_to(kmax, factor, 2, (0, iky, ikz)),
                decreases kmax - ikz,
            {
                assert(is_kpoint(kmax, (0isize, iky, ikz)));
                self.visit(kmax, factor, (0, iky, ikz), Ghost((0, iky, (ikz + 1) as isize)));
                ikz = ikz + 1;
            }
            proof {
                lemma_next_line(kmax as int, iky as int - kmax - 1);
                self.lemma_same_place(kmax, factor, 2, (0, iky, ikz), 2, (0, (iky + 1) as isize, low));
            }
            iky = iky + 1;
        }
        proof {
            self.lemma_same_place(kmax, factor, 2, (0, iky, low), 3, (0, 0, 1));
        }

        // points with `ikx = 0` and `iky = 0`
        let mut ikz: isize = 1;
        while ikz < kmax
            invariant
                kmax >= 1,
                1 <= ikz <= kmax,
                forall|k: (isize, isize, isize)| is_kpoint(kmax, k) ==> call_requires(*factor, k),
                self.computed_up_to(kmax, factor, 3, (0, 0, ikz)),
            decreases kmax - ikz,
        {
            assert(is_kpoint(kmax, (0isize, 0isize, ikz)));
            self.visit(kmax, factor, (0, 0, ikz), Ghost((0, 0, (ikz + 1) as isize)));
            ikz = ikz + 1;
        }
        proof {
            self.lemma_complete(kmax, factor, (0, 0, ikz));
        }
    }

    /// Two places with the same points of the enumeration before them are
    /// the same place, as far as the table is concerned.
    proof fn lemma_same_place<G: Fn(isize, isize, isize) -> Option<(E, F, V)>>(
        &self,
        kmax: isize,
        factor: &G,
        block_p: int,
        p: (isize, isize, isize),
        block_q: int,
        q: (isize, isize, isize),
    )
        requires
            self.computed_up_to(kmax, factor, block_p, p),
            places_before(kmax as int, block_p, p) == places_before(kmax as int, block_q, q),
            forall|k: (isize, isize, isize)|
                is_kpoint(kmax, k) ==> (visited_before(block(k), k, block_p, p) <==> visited_before(
                    block(k),
                    k,
                    block_q,
                    q,
                )),
        ensures
            self.computed_up_to(kmax, factor, block_q, q),
    {
        assert forall|n: int| 0 <= n < self.kvecs@.len() implies visited_before(
            block(#[trigger] self.kvecs@[n]),
            self.kvecs@[n],
            block_q,
            q,
        ) by {
            assert(is_kpoint(kmax, self.kvecs@[n]));
        }
    }

    /// Past the last place of the last block, every point has been visited.
    proof fn lemma_complete<G: Fn(isize, isize, isize) -> Option<(E, F, V)>>(
        &self,
        kmax: isize,
        factor: &G,
        end: (isize, isize, isize),
    )
        requires
            self.computed_up_to(kmax, factor, 3, end),
            end == (0isize, 0isize, kmax),
        ensures
            self.computed_by(kmax, factor),
    {
        assert(places_before(kmax as int, 3, end) == kpoint_count(kmax as int)) by (nonlinear_arith)
            requires
                end.2 == kmax,
                places_before(kmax as int, 3, end) == (kmax - 1) * (4 * kmax * kmax) + (kmax - 1) * (2
                    * kmax) + (end.2 - 1),
                kpoint_count(kmax as int) == (kmax - 1) * (4 * kmax * kmax + 2 * kmax + 1),
        ;
        assert forall|k: (isize, isize, isize)|
            #[trigger] is_kpoint(kmax, k) && !self.kvecs@.contains(k) implies call_ensures(
            *factor,
            k,
            None,
        ) by {
            assert(visited_before(block(k), k, 3, end));
        }
    }
}

/// A line of the enumeration has `2 * kmax` places.
proof fn lemma_next_line(kmax: int, y: int)
    ensures
        (y + kmax) * (2 * kmax) + (kmax + kmax) == (y + 1 + kmax) * (2 * kmax),
        (y + kmax + 1 - 1) * (2 * kmax) + (kmax + kmax) == (y + kmax + 1 + 1 - 1) * (2 * kmax),
{
    assert((y + kmax) * (2 * kmax) + (kmax + kmax) == (y + 1 + kmax) * (2 * kmax))
        by (nonlinear_arith);
    assert((y + kmax + 1 - 1) * (2 * kmax) + (kmax + kmax) == (y + kmax + 1 + 1 - 1) * (2 * kmax))
        by (nonlinear_arith);
}

/// A plane of the enumeration has `2 * kmax` lines.
proof fn lemma_next_plane(kmax: int, x: int)
    ensures
        (x - 1) * (4 * kmax * kmax) + (kmax + kmax) * (2 * kmax) == (x + 1 - 1) * (4 * kmax * kmax),
        (-kmax + kmax) * (2 * kmax) == 0,
{
    assert((x - 1) * (4 * kmax * kmax) + (kmax + kmax) * (2 * kmax) == (x + 1 - 1) * (4 * kmax
        * kmax)) by (nonlinear_arith);
    assert((-kmax + kmax) * (2 * kmax) == 0) by (nonlinear_arith);
}

/// The room that is set aside is enough for the points of `kmax`.
pub proof fn lemma_room_suffices(kmax: int)
    requires
        kmax >= 1,
    ensures
        0 <= kpoint_count(kmax) <= kpoint_room(kmax),
{
    assert(0 <= (kmax - 1) * (4 * kmax * kmax + 2 * kmax + 1) <= 4 * kmax * kmax * kmax + 6 * kmax
        * kmax + 3 * kmax) by (nonlinear_arith)
        requires
            kmax >= 1,
    ;
}

/// Whether `factor` gives one answer for each point.
pub open spec fn single_valued<E, F, V, G: Fn(isize, isize, isize) -> Option<(E, F, V)>>(
    factor: &G,
) -> bool {
    forall|k: (isize, isize, isize), r1: Option<(E, F, V)>, r2: Option<(E, F, V)>|
        call_ensures(*factor, k, r1) && call_ensures(*factor, k, r2) ==> r1 == r2
}

/// The origin of reciprocal space is never visited.
pub proof fn lemma_origin_excluded(kmax: isize)
    ensures
        !is_kpoint(kmax, (0isize, 0isize, 0isize)),
{
}

/// Of a point and its opposite at most one is visited.
pub proof fn lemma_one_of_each_pair(kmax: isize, k: (isize, isize, isize), opposite: (isize, isize, isize))
    requires
        opposite.0 == -k.0,
        opposite.1 == -k.1,
        opposite.2 == -k.2,
        is_kpoint(kmax, k),
    ensures
        !is_kpoint(kmax, opposite),
{
}

/// No point is visited before itself, and of two points at most one is
/// visited before the other.
pub proof fn lemma_precedes_strict(a: (isize, isize, isize), b: (isize, isize, isize))
    ensures
        !precedes(a, a),
        precedes(a, b) ==> !precedes(b, a),
{
}

/// Of two different points one is visited before the other.
pub proof fn lemma_precedes_total(a: (isize, isize, isize), b: (isize, isize, isize))
    requires
        a != b,
    ensures
        precedes(a, b) || precedes(b, a),
{
}

/// The visiting order is transitive.
pub proof fn lemma_precedes_transitive(
    a: (isize, isize, isize),
    b: (isize, isize, isize),
    c: (isize, isize, isize),
)
    requires
        precedes(a, b),
        precedes(b, c),
    ensures
        precedes(a, c),
{
}

/// Two sequences in visiting order that hold the same points are one
/// sequence.
pub proof fn lemma_in_order_unique(p: Seq<(isize, isize, isize)>, q: Seq<(isize, isize, isize)>)
    requires
        in_order(p),
        in_order(q),
        forall|k: (isize, isize, isize)| p.contains(k) <==> q.contains(k),
    ensures
        p == q,
    decreases p.len(),
{
    if p.len() == 0 {
        if q.len() > 0 {
            assert(q.contains(q[0]));
        }
        assert(p =~= q);
    } else {
        let top = p.last();
        assert(p.contains(top));
        assert(q.contains(top));
        let at = choose|at: int| 0 <= at < q.len() && q[at] == top;
        if at < q.len() - 1 {
            let other = q.last();
            assert(precedes(q[at], q[q.len() - 1]));
            assert(q.contains(other));
            assert(p.contains(other));
            let back = choose|back: int| 0 <= back < p.len() && p[back] == other;
            if back < p.len() - 1 {
                assert(precedes(p[back], p[p.len() - 1]));
            }
            lemma_precedes_strict(top, other);
        }
        let p0 = p.drop_last();
        let q0 = q.drop_last();
        assert forall|k: (isize, isize, isize)| p0.contains(k) <==> q0.contains(k) by {
            if p0.contains(k) {
                let i = choose|i: int| 0 <= i < p0.len() && p0[i] == k;
                assert(p[i] == k);
                assert(precedes(p[i], p[p.len() - 1]));
                lemma_precedes_strict(k, top);
                assert(p.contains(k));
                let j = choose|j: int| 0 <= j < q.len() && q[j] == k;
                assert(q0[j] == k);
            }
            if q0.contains(k) {
                let j = choose|j: int| 0 <= j < q0.len() && q0[j] == k;
                assert(q[j] == k);
                assert(precedes(q[j], q[q.len() - 1]));
                lemma_precedes_strict(k, top);
                assert(q.contains(k));
                let i = choose|i: int| 0 <= i < p.len() && p[i] == k;
                assert(p0[i] == k);
            }
        }
        assert(in_order(p0)) by {
            assert forall|i: int, j: int| 0 <= i < j < p0.len() implies precedes(
                #[trigger] p0[i],
                #[trigger] p0[j],
            ) by {
                assert(precedes(p[i], p[j]));
            }
        }
        assert(in_order(q0)) by {
            assert forall|i: int, j: int| 0 <= i < j < q0.len() implies precedes(
                #[trigger] q0[i],
                #[trigger] q0[j],
            ) by {
                assert(precedes(q[i], q[j]));
            }
        }
        lemma_in_order_unique(p0, q0);
        assert(p =~= p0.push(top));
        assert(q =~= q0.push(top));
    }
}

/// The table is a function of `kmax` and of what `factor` answers: two
/// tables computed for the same `kmax` with a `factor` that gives one answer
/// per point hold the same points with the same factors in the same order.
pub proof fn lemma_compute_reproducible<E, F, V, G: Fn(isize, isize, isize) -> Option<(E, F, V)>>(
    first: EwaldFactors<E, F, V>,
    second: EwaldFactors<E, F, V>,
    kmax: isize,
    factor: &G,
)
    requires
        first.computed_by(kmax, factor),
        second.computed_by(kmax, factor),
        single_valued(factor),
    ensures
        first.kvecs@ == second.kvecs@,
        first.energy@ == second.energy@,
        first.efield@ == second.efield@,
        first.virial@ == second.virial@,
{
    assert forall|k: (isize, isize, isize)|
        first.kvecs@.contains(k) <==> second.kvecs@.contains(k) by {
        if first.kvecs@.contains(k) {
            let n = choose|n: int| 0 <= n < first.kvecs@.len() && first.kvecs@[n] == k;
            assert(is_kpoint(kmax, first.kvecs@[n]));
            assert(first.entry_from(factor, n));
        }
        if second.kvecs@.contains(k) {
            let n = choose|n: int| 0 <= n < second.kvecs@.len() && second.kvecs@[n] == k;
            assert(is_kpoint(kmax, second.kvecs@[n]));
            assert(second.entry_from(factor, n));
        }
    }
    lemma_in_order_unique(first.kvecs@, second.kvecs@);
    assert forall|n: int| 0 <= n < first.kvecs@.len() implies first.energy@[n] == second.energy@[n]
        && first.efield@[n] == second.efield@[n] && first.virial@[n] == second.virial@[n] by {
        assert(is_kpoint(kmax, first.kvecs@[n]));
        assert(is_kpoint(kmax, second.kvecs@[n]));
        assert(first.entry_from(factor, n));
        assert(second.entry_from(factor, n));
    }
    assert(first.energy@ =~= second.energy@);
    assert(first.efield@ =~= second.efield@);
    assert(first.virial@ =~= second.virial@);
}

/// The room to set aside for the points of `kmax`, where that number fits
/// the machine's word.
pub fn capacity_for(kmax: isize) -> (room: Option<usize>)
    requires
        kmax >= 1,
    ensures
        room.is_some() <==> kpoint_room(kmax as int) <= usize::MAX,
        room.is_some() ==> room.unwrap() == kpoint_room(kmax as int),
{
    let k: usize = kmax as usize;
    let square = match k.checked_mul(k) {
        Some(square) => square,
        None => {
            proof {
                lemma_room_exceeds_square(kmax as int);
            }
            return None;
        },
    };
    let cube = match square.checked_mul(k) {
        Some(cube) => cube,
        None => {
            proof {
                lemma_room_exceeds_cube(kmax as int);
            }
            return None;
        },
    };
    proof {
        lemma_room_split(kmax as int);
    }
    let first = match cube.checked_mul(4) {
        Some(first) => first,
        None => {
            return None;
        },
    };
    let second = match square.checked_mul(6) {
        Some(second) => second,
        None => {
            return None;
        },
    };
    let third = match k.checked_mul(3) {
        Some(third) => third,
        None => {
            return None;
        },
    };
    let sum = match first.checked_add(second) {
        Some(sum) => sum,
        None => {
            return None;
        },
    };
    sum.checked_add(third)
}

proof fn lemma_room_exceeds_square(kmax: int)
    requires
        kmax >= 1,
    ensures
        kpoint_room(kmax) >= kmax * kmax,
{
    assert(kpoint_room(kmax) >= kmax * kmax) by (nonlinear_arith)
        requires
            kmax >= 1,
            kpoint_room(kmax) == 4 * kmax * kmax * kmax + 6 * kmax * kmax + 3 * kmax,
    ;
}

proof fn lemma_room_exceeds_cube(kmax: int)
    requires
        kmax >= 1,
    ensures
        kpoint_room(kmax) >= kmax * kmax * kmax,
{
    assert(kpoint_room(kmax) >= kmax * kmax * kmax) by (nonlinear_arith)
        requires
            kmax >= 1,
            kpoint_room(kmax) == 4 * kmax * kmax * kmax + 6 * kmax * kmax + 3 * kmax,
    ;
}

proof fn lemma_room_split(kmax: int)
    requires
        kmax >= 1,
    ensures
        kpoint_room(kmax) == 4 * (kmax * kmax * kmax) + 6 * (kmax * kmax) + 3 * kmax,
        4 * (kmax * kmax * kmax) >= 0,
        6 * (kmax * kmax) >= 0,
{
    assert(4 * kmax * kmax * kmax == 4 * (kmax * kmax * kmax)) by (nonlinear_arith);
    assert(6 * kmax * kmax == 6 * (kmax * kmax)) by (nonlinear_arith);
    assert(kmax * kmax * kmax >= 0) by (nonlinear_arith)
        requires
            kmax >= 1,
    ;
    assert(kmax * kmax >= 0) by (nonlinear_arith);
}

} // verus!
