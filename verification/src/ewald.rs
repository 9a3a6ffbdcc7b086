//! The Ewald solver: its parameters, the caches it keeps between calls, and
//! the update of the structure factor that a trial move leaves pending.
//!
//! The solver is generic in the numbers it works with: `R` is a real, `C` a
//! complex number, `F` and `V` the vector and the matrix that go with one
//! point of reciprocal space. It never computes with them. Whatever has to
//! be multiplied, added or compared is done by a function that the caller
//! hands in, and the contracts say which function was applied to what.

use vstd::prelude::*;
use core::ops::Range;
use crate::array3::Ewald3DArray;
use crate::cell::{CellShape, UnitCell};
use crate::density::{
    change_at, charge_term, density_at, electric_field, field_added, field_at,
    lemma_structure_factor_reproducible, lemma_weighted_sum_reproducible, phase_product,
    point_field, single_valued1, single_valued2, structure_factor, structure_factor_change,
    sums_to, weighted_sum, weighted_sum_is, within,
};
use crate::factors::{is_kpoint, lemma_compute_reproducible, single_valued, EwaldFactors};
use crate::gather::{buffers_of, gathered, sum_into};
use crate::phases::{fill_phases, lemma_phases_reproducible, phase_shaped, phases_filled};
use crate::restriction::PairRestriction;

verus! {

/// Parameters of an Ewald summation.
pub struct EwaldParameters<R> {
    /// Splitting parameter between k-space and real space.
    pub alpha: R,
    /// Cutoff radius in real space.
    pub rc: R,
    /// Number of points to use in k-space, per axis.
    pub kmax: isize,
    /// Spherical cutoff in k-space.
    pub kmax2: R,
}

/// Whether `kmax` can be the number of points per axis of a solver.
pub open spec fn valid_kmax(kmax: int) -> bool {
    1 <= kmax < isize::MAX
}

/// Whether a phase table for `kmax` and `count` particles fits the machine.
pub open spec fn table_fits(kmax: int, count: int) -> bool {
    (2 * kmax + 1) * 3 * count <= usize::MAX
}

/// Whether `kmax` is the smallest number, from 1 on, that `exceeds` does not
/// answer with `true`.
pub open spec fn smallest_accepted<P: Fn(usize) -> bool>(exceeds: &P, kmax: usize) -> bool {
    &&& 1 <= kmax
    &&& call_ensures(*exceeds, (kmax,), false)
    &&& forall|k: usize| 1 <= k < kmax ==> call_ensures(*exceeds, (k,), true)
}

/// Whether `exceeds` answers `true` for every number that could be the
/// number of points per axis of a solver.
pub open spec fn none_accepted<P: Fn(usize) -> bool>(exceeds: &P) -> bool {
    forall|k: usize| valid_kmax(k as int) ==> call_ensures(*exceeds, (k,), true)
}

/// The smallest number of points per axis, from 1 on, for which the error
/// estimate does not exceed the accuracy that is asked for. `exceeds(kmax)`
/// says whether the estimate for `kmax` does exceed it.
pub fn smallest_kmax<P: Fn(usize) -> bool>(exceeds: &P) -> (found: Option<usize>)
    requires
        forall|k: usize| 1 <= k ==> call_requires(*exceeds, (k,)),
    ensures
        match found {
            Some(kmax) => valid_kmax(kmax as int) && smallest_accepted(exceeds, kmax),
            None => none_accepted(exceeds),
        },
{
    let limit: usize = isize::MAX as usize;
    let mut kmax: usize = 1;
    while kmax < limit
        invariant
            1 <= kmax <= limit,
            limit == isize::MAX,
            forall|k: usize| 1 <= k ==> call_requires(*exceeds, (k,)),
            forall|k: usize| 1 <= k < kmax ==> call_ensures(*exceeds, (k,), true),
        decreases limit - kmax,
    {
        if !exceeds(kmax) {
            return Some(kmax);
        }
        kmax = kmax + 1;
    }
    None
}

/// A copy of `source`.
fn copy_of<T: Copy>(source: &Vec<T>) -> (copy: Vec<T>)
    ensures
        copy@ == source@,
{
    let mut copy: Vec<T> = Vec::new();
    let mut n: usize = 0;
    while n < source.len()
        invariant
            n <= source@.len(),
            copy@ == source@.subrange(0, n as int),
        decreases source@.len() - n,
    {
        copy.push(source[n]);
        assert(copy@ =~= source@.subrange(0, n + 1));
        n = n + 1;
    }
    assert(copy@ =~= source@);
    copy
}

/// Ewald summation for coulombic interactions.
pub struct Ewald<R, C, F, V> {
    /// Various Ewald parameters
    parameters: EwaldParameters<R>,
    /// Ewald pre-factors, only depending on the system unit cell
    factors: EwaldFactors<R, F, V>,
    /// Restriction scheme
    restriction: PairRestriction,
    /// Cached phase factors
    eikr: Ewald3DArray<C>,
    /// Fourier transform of the electrostatic density, one term for each
    /// point of `factors`
    rho: Vec<C>,
    /// Caching the allocation for electric field calculation
    ///
    /// This will contain the electric field at each atom
    efield: Vec<F>,
    /// Guard for cache invalidation of `factors`
    previous_cell: Option<UnitCell>,
    /// Pending change of `rho`
    updater: Option<Vec<C>>,
}

impl<R: Copy, C: Copy, F: Copy, V: Copy> Ewald<R, C, F, V> {
    /// The number of points per axis is one that a solver can have, and the
    /// table of factors holds points of its enumeration only.
    pub closed spec fn wf(&self) -> bool {
        &&& valid_kmax(self.parameters.kmax as int)
        &&& self.factors.wf()
        &&& forall|n: int|
            0 <= n < self.factors.kvecs@.len() ==> is_kpoint(
                self.parameters.kmax,
                #[trigger] self.factors.kvecs@[n],
            )
    }

    /// What it is for a solver to be well formed, in terms of its parameters
    /// and its table of factors.
    pub open spec fn sound(&self) -> bool {
        &&& valid_kmax(self.spec_kmax() as int)
        &&& self.spec_factors().wf()
        &&& forall|n: int|
            0 <= n < self.spec_kvecs().len() ==> is_kpoint(
                self.spec_kmax(),
                #[trigger] self.spec_kvecs()[n],
            )
    }

    /// A solver is well formed exactly when its number of points per axis
    /// is one that a solver can have, the four vectors of its table of
    /// factors have one length, and the table holds points of its
    /// enumeration only.
    pub proof fn lemma_wf(&self)
        ensures
            self.wf() == self.sound(),
    {
        if self.wf() {
            assert forall|n: int| 0 <= n < self.spec_kvecs().len() implies is_kpoint(
                self.spec_kmax(),
                #[trigger] self.spec_kvecs()[n],
            ) by {
                assert(is_kpoint(self.parameters.kmax, self.factors.kvecs@[n]));
            }
        }
        if self.sound() {
            assert forall|n: int| 0 <= n < self.factors.kvecs@.len() implies is_kpoint(
                self.parameters.kmax,
                #[trigger] self.factors.kvecs@[n],
            ) by {
                assert(is_kpoint(self.spec_kmax(), self.spec_kvecs()[n]));
            }
        }
    }

    /// The parameters of the solver.
    pub closed spec fn spec_parameters(&self) -> EwaldParameters<R> {
        self.parameters
    }

    /// The number of points per axis.
    pub open spec fn spec_kmax(&self) -> isize {
        self.spec_parameters().kmax
    }

    /// The table of factors.
    pub closed spec fn spec_factors(&self) -> EwaldFactors<R, F, V> {
        self.factors
    }

    /// The retained points of reciprocal space.
    pub open spec fn spec_kvecs(&self) -> Seq<(isize, isize, isize)> {
        self.spec_factors().kvecs@
    }

    /// The restriction scheme.
    pub closed spec fn spec_restriction(&self) -> PairRestriction {
        self.restriction
    }

    /// The cached phase factors.
    pub closed spec fn spec_eikr(&self) -> Ewald3DArray<C> {
        self.eikr
    }

    /// The cached structure factor.
    pub closed spec fn spec_rho(&self) -> Seq<C> {
        self.rho@
    }

    /// The electric field at each atom, as it was last computed.
    pub closed spec fn spec_efield(&self) -> Seq<F> {
        self.efield@
    }

    /// The cell for which the table of factors was computed.
    pub closed spec fn spec_previous_cell(&self) -> Option<UnitCell> {
        self.previous_cell
    }

    /// The pending change of the structure factor.
    pub closed spec fn spec_updater(&self) -> Option<Seq<C>> {
        match self.updater {
            Some(delta) => Some(delta@),
            None => None,
        }
    }

    /// Whether `self` and `other` agree in parameters, factors, restriction
    /// and the cell that the factors were computed for.
    pub open spec fn same_setup(&self, other: &Self) -> bool {
        &&& self.spec_parameters() == other.spec_parameters()
        &&& self.spec_factors().same_entries(&other.spec_factors())
        &&& self.spec_restriction() == other.spec_restriction()
        &&& self.spec_previous_cell() == other.spec_previous_cell()
    }

    /// Whether `self` and `other` agree in the caches of the k-space sum:
    /// phase factors, structure factor and electric field.
    pub open spec fn same_caches(&self, other: &Self) -> bool {
        &&& self.spec_eikr().same_as(&other.spec_eikr())
        &&& self.spec_rho() == other.spec_rho()
        &&& self.spec_efield() == other.spec_efield()
    }

    /// A solver with the real space cutoff `cutoff`, `kmax` points per axis
    /// in k-space and the splitting parameter `alpha`. `kmax2` is the value
    /// that the spherical cutoff in k-space has until the factors are first
    /// computed. The solver restricts no pair, has empty caches and no
    /// pending change.
    pub fn new(cutoff: R, kmax: usize, alpha: R, kmax2: R) -> (ewald: Self)
        requires
            valid_kmax(kmax as int),
        ensures
            ewald.wf(),
            ewald.spec_parameters() == (EwaldParameters { alpha, rc: cutoff, kmax: kmax as isize, kmax2 }),
            ewald.spec_kmax() == kmax,
            ewald.spec_restriction() == PairRestriction::Unrestricted,
            ewald.spec_factors().wf(),
            ewald.spec_kvecs().len() == 0,
            ewald.spec_factors().energy@.len() == 0,
            ewald.spec_factors().efield@.len() == 0,
            ewald.spec_factors().virial@.len() == 0,
            ewald.spec_rho().len() == 0,
            ewald.spec_efield().len() == 0,
            ewald.spec_eikr().length() == 0,
            ewald.spec_eikr().depth() == 0,
            ewald.spec_previous_cell() is None,
            ewald.spec_updater() is None,
    {
        let parameters = EwaldParameters { alpha, rc: cutoff, kmax: kmax as isize, kmax2 };
        Ewald {
            parameters,
            restriction: PairRestriction::Unrestricted,
            factors: EwaldFactors::new(),
            eikr: Ewald3DArray::new(),
            rho: Vec::new(),
            efield: Vec::new(),
            previous_cell: None,
            updater: None,
        }
    }

    /// A solver with the real space cutoff `cutoff` and the splitting
    /// parameter `alpha`, and with the smallest number of points per axis
    /// for which the error estimate does not exceed the accuracy that is
    /// asked for; `exceeds(kmax)` says whether the estimate for `kmax` does
    /// exceed it. There is no solver where no number that the machine can
    /// hold is large enough.
    pub fn with_accuracy<P: Fn(usize) -> bool>(cutoff: R, alpha: R, kmax2: R, exceeds: &P) -> (found:
        Option<Self>)
        requires
            forall|k: usize| 1 <= k ==> call_requires(*exceeds, (k,)),
        ensures
            match found {
                Some(ewald) => {
                    &&& ewald.wf()
                    &&& valid_kmax(ewald.spec_kmax() as int)
                    &&& smallest_accepted(exceeds, ewald.spec_kmax() as usize)
                    &&& ewald.spec_parameters().alpha == alpha
                    &&& ewald.spec_parameters().rc == cutoff
                    &&& ewald.spec_parameters().kmax2 == kmax2
                    &&& ewald.spec_restriction() == PairRestriction::Unrestricted
                    &&& ewald.spec_factors().wf()
                    &&& ewald.spec_kvecs().len() == 0
                    &&& ewald.spec_factors().energy@.len() == 0
                    &&& ewald.spec_factors().efield@.len() == 0
                    &&& ewald.spec_factors().virial@.len() == 0
                    &&& ewald.spec_rho().len() == 0
                    &&& ewald.spec_efield().len() == 0
                    &&& ewald.spec_eikr().length() == 0
                    &&& ewald.spec_eikr().depth() == 0
                    &&& ewald.spec_previous_cell() is None
                    &&& ewald.spec_updater() is None
                },
                None => none_accepted(exceeds),
            },
    {
        match smallest_kmax(exceeds) {
            Some(kmax) => Some(Ewald::new(cutoff, kmax, alpha, kmax2)),
            None => None,
        }
    }

    /// The parameters of the solver.
    pub fn parameters(&self) -> (parameters: &EwaldParameters<R>)
        ensures
            *parameters == self.spec_parameters(),
    {
        &self.parameters
    }

    /// The table of factors.
    pub fn factors(&self) -> (factors: &EwaldFactors<R, F, V>)
        ensures
            *factors == self.spec_factors(),
    {
        &self.factors
    }

    /// The cached phase factors.
    pub fn eikr(&self) -> (eikr: &Ewald3DArray<C>)
        ensures
            *eikr == self.spec_eikr(),
    {
        &self.eikr
    }

    /// The cached structure factor.
    pub fn rho(&self) -> (rho: &Vec<C>)
        ensures
            rho@ == self.spec_rho(),
    {
        &self.rho
    }

    /// The electric field at each atom, as it was last computed.
    pub fn efield(&self) -> (efield: &Vec<F>)
        ensures
            efield@ == self.spec_efield(),
    {
        &self.efield
    }

    /// The pending change of the structure factor.
    pub fn updater(&self) -> (updater: &Option<Vec<C>>)
        ensures
            updater is Some == self.spec_updater() is Some,
            updater is Some ==> updater->0@ == self.spec_updater()->0,
    {
        &self.updater
    }

    /// The real space cutoff.
    pub fn cutoff(&self) -> (cutoff: Option<R>)
        ensures
            cutoff == Some(self.spec_parameters().rc),
    {
        Some(self.parameters.rc)
    }

    /// The restriction scheme.
    pub fn restriction(&self) -> (restriction: PairRestriction)
        ensures
            restriction == self.spec_restriction(),
    {
        self.restriction
    }

    /// Makes `restriction` the restriction scheme.
    pub fn set_restriction(&mut self, restriction: PairRestriction)
        requires
            old(self).wf(),
        ensures
            final(self).wf(),
            final(self).spec_restriction() == restriction,
            final(self).spec_parameters() == old(self).spec_parameters(),
            final(self).spec_factors() == old(self).spec_factors(),
            final(self).spec_previous_cell() == old(self).spec_previous_cell(),
            final(self).spec_eikr() == old(self).spec_eikr(),
            final(self).spec_rho() == old(self).spec_rho(),
            final(self).spec_updater() == old(self).spec_updater(),
            final(self).spec_efield() == old(self).spec_efield(),
    {
        self.restriction = restriction;
    }

    /// Brings the table of factors up to date with `cell`, and says whether
    /// it had to be computed anew.
    ///
    /// Where `cell` is the cell that the table was last computed for,
    /// nothing changes. Otherwise `cell` is remembered, `kmax2` becomes the
    /// spherical cutoff in k-space, and the table is computed with `factor`.
    /// The caches and the pending change are left alone either way.
    pub fn precompute<G: Fn(isize, isize, isize) -> Option<(R, F, V)>>(
        &mut self,
        cell: &UnitCell,
        kmax2: R,
        factor: &G,
    ) -> (rebuilt: bool)
        requires
            old(self).wf(),
            cell.shape() != CellShape::Infinite,
            forall|k: (isize, isize, isize)|
                is_kpoint(old(self).spec_kmax(), k) ==> call_requires(*factor, k),
        ensures
            final(self).wf(),
            rebuilt == (old(self).spec_previous_cell() != Some(*cell)),
            !rebuilt ==> final(self).same_setup(old(self)),
            rebuilt ==> {
                &&& final(self).spec_previous_cell() == Some(*cell)
                &&& final(self).spec_parameters() == (EwaldParameters {
                    kmax2,
                    ..old(self).spec_parameters()
                })
                &&& final(self).spec_factors().computed_by(old(self).spec_kmax(), factor)
                &&& final(self).spec_restriction() == old(self).spec_restriction()
            },
            final(self).spec_eikr() == old(self).spec_eikr(),
            final(self).spec_rho() == old(self).spec_rho(),
            final(self).spec_updater() == old(self).spec_updater(),
            final(self).spec_efield() == old(self).spec_efield(),
    {
        match self.previous_cell {
            Some(previous) => {
                if cell.same_as(&previous) {
                    return false;
                }
            },
            None => {},
        }
        self.previous_cell = Some(*cell);
        self.parameters.kmax2 = kmax2;
        let kmax = self.parameters.kmax;
        assert(kmax == old(self).spec_kmax());
        self.factors.compute(cell, kmax, factor);
        true
    }

    /// Computes the phase factors and the structure factor of `natoms`
    /// particles.
    ///
    /// `unit(d, i)` gives the phase factor of particle `i` along axis `d`
    /// for the index 1; `times` multiplies, `conj` conjugates and `plus`
    /// adds; `weigh(i, phi)` gives the phase `phi` the weight of particle
    /// `i`, its charge. A pending change is left pending.
    pub fn eik_dot_r<
        U: Fn(usize, usize) -> C,
        M: Fn(C, C) -> C,
        J: Fn(C) -> C,
        W: Fn(usize, C) -> C,
        A: Fn(C, C) -> C,
    >(
        &mut self,
        natoms: usize,
        unit: &U,
        times: &M,
        conj: &J,
        weigh: &W,
        plus: &A,
        one: C,
        zero: C,
    )
        requires
            old(self).wf(),
            table_fits(old(self).spec_kmax() as int, natoms as int),
            forall|d: usize, i: usize| d < 3 && i < natoms ==> call_requires(*unit, (d, i)),
            forall|a: C, b: C| call_requires(*times, (a, b)),
            forall|a: C| call_requires(*conj, (a,)),
            forall|i: usize, a: C| i < natoms ==> call_requires(*weigh, (i, a)),
            forall|a: C, b: C| call_requires(*plus, (a, b)),
        ensures
            final(self).wf(),
            final(self).same_setup(old(self)),
            final(self).spec_updater() == old(self).spec_updater(),
            final(self).spec_efield() == old(self).spec_efield(),
            phases_filled(
                &final(self).spec_eikr(),
                old(self).spec_kmax(),
                natoms,
                unit,
                times,
                conj,
                one,
            ),
            final(self).spec_rho().len() == old(self).spec_kvecs().len(),
            forall|n: int|
                0 <= n < old(self).spec_kvecs().len() ==> density_at(
                    &final(self).spec_eikr(),
                    natoms,
                    times,
                    weigh,
                    plus,
                    zero,
                    old(self).spec_kvecs()[n],
                    #[trigger] final(self).spec_rho()[n],
                ),
    {
        let kmax = self.parameters.kmax;
        assert((kmax + 1 - (-kmax)) * 3 * natoms == (2 * kmax + 1) * 3 * natoms) by (nonlinear_arith);
        let range = Range { start: -kmax, end: kmax + 1 };
        self.eikr.resize_if_different((range, 3, natoms), zero);
        fill_phases(&mut self.eikr, kmax, natoms, unit, times, conj, one);
        proof {
            assert forall|n: int| 0 <= n < self.factors.kvecs@.len() implies within(
                kmax,
                #[trigger] self.factors.kvecs@[n],
            ) by {
                assert(is_kpoint(kmax, self.factors.kvecs@[n]));
            }
        }
        self.rho = structure_factor(
            &self.eikr,
            kmax,
            natoms,
            &self.factors.kvecs,
            times,
            weigh,
            plus,
            zero,
        );
    }

    /// The change of the structure factor when the particles `molecule`,
    /// which are the particles of one molecule, move as a rigid body.
    ///
    /// `unit(d, i)` gives the phase factor, for the index 1 along axis `d`,
    /// of the `i`-th particle of `molecule` at its new position; `times`
    /// multiplies, `conj` conjugates, `minus` subtracts and `plus` adds;
    /// `weigh(part, change)` gives a change of phase the weight of particle
    /// `part`, its charge. The phase factors at the old positions are the
    /// cached ones.
    pub fn delta_rho_move_rigid_molecules<
        U: Fn(usize, usize) -> C,
        M: Fn(C, C) -> C,
        J: Fn(C) -> C,
        S: Fn(C, C) -> C,
        W: Fn(usize, C) -> C,
        A: Fn(C, C) -> C,
    >(
        &self,
        molecule: &Vec<usize>,
        unit: &U,
        times: &M,
        conj: &J,
        minus: &S,
        weigh: &W,
        plus: &A,
        one: C,
        zero: C,
    ) -> (delta: Vec<C>)
        requires
            self.wf(),
            self.movable(molecule@),
            forall|d: usize, i: usize| d < 3 && i < molecule@.len() ==> call_requires(*unit, (d, i)),
            forall|a: C, b: C| call_requires(*times, (a, b)),
            forall|a: C| call_requires(*conj, (a,)),
            forall|a: C, b: C| call_requires(*minus, (a, b)),
            forall|i: int, a: C|
                0 <= i < molecule@.len() ==> #[trigger] call_requires(*weigh, (molecule@[i], a)),
            forall|a: C, b: C| call_requires(*plus, (a, b)),
        ensures
            delta@.len() == self.spec_kvecs().len(),
            exists|moved: Ewald3DArray<C>|
                {
                    &&& #[trigger] phases_filled(
                        &moved,
                        self.spec_kmax(),
                        molecule@.len() as usize,
                        unit,
                        times,
                        conj,
                        one,
                    )
                    &&& forall|n: int|
                        0 <= n < self.spec_kvecs().len() ==> change_at(
                            &self.spec_eikr(),
                            &moved,
                            molecule@,
                            times,
                            minus,
                            weigh,
                            plus,
                            zero,
                            self.spec_kvecs()[n],
                            #[trigger] delta@[n],
                        )
                },
    {
        let kmax = self.parameters.kmax;
        let count = molecule.len();
        assert((kmax + 1 - (-kmax)) * 3 * count == (2 * kmax + 1) * 3 * count) by (nonlinear_arith);
        let range = Range { start: -kmax, end: kmax + 1 };
        let mut moved = Ewald3DArray::zeros((range, 3, count), zero);
        fill_phases(&mut moved, kmax, count, unit, times, conj, one);
        proof {
            assert forall|n: int| 0 <= n < self.factors.kvecs@.len() implies within(
                kmax,
                #[trigger] self.factors.kvecs@[n],
            ) by {
                assert(is_kpoint(kmax, self.factors.kvecs@[n]));
            }
        }
        let delta = structure_factor_change(
            &self.eikr,
            &moved,
            kmax,
            molecule,
            &self.factors.kvecs,
            times,
            minus,
            weigh,
            plus,
            zero,
        );
        assert(phases_filled(&moved, self.spec_kmax(), count, unit, times, conj, one));
        delta
    }

    /// Whether the caches are those of `natoms` particles and of the table of
    /// factors as it is.
    pub open spec fn caches_cover(&self, natoms: usize) -> bool {
        &&& phase_shaped(&self.spec_eikr(), self.spec_kmax(), natoms)
        &&& self.spec_rho().len() == self.spec_kvecs().len()
    }

    /// Computes the electric field of the k-space sum at each of `natoms`
    /// particles, from the cached phase factors and structure factor, and
    /// keeps it in the solver.
    ///
    /// `field(phi, rho, factor)` gives what a point with the structure
    /// factor `rho` and the field factor `factor` adds to the field at a
    /// particle with the phase `phi` there; `times` multiplies phase
    /// factors, `plus` adds fields, starting from `zero`.
    pub fn kspace_field<M: Fn(C, C) -> C, E: Fn(C, C, F) -> F, A: Fn(F, F) -> F>(
        &mut self,
        natoms: usize,
        times: &M,
        field: &E,
        plus: &A,
        zero: F,
    )
        requires
            old(self).wf(),
            old(self).caches_cover(natoms),
            forall|a: C, b: C| call_requires(*times, (a, b)),
            forall|a: C, b: C, c: F| call_requires(*field, (a, b, c)),
            forall|a: F, b: F| call_requires(*plus, (a, b)),
        ensures
            final(self).wf(),
            final(self).same_setup(old(self)),
            final(self).spec_eikr() == old(self).spec_eikr(),
            final(self).spec_rho() == old(self).spec_rho(),
            final(self).spec_updater() == old(self).spec_updater(),
            final(self).spec_efield().len() == natoms,
            forall|i: usize|
                i < natoms ==> field_at(
                    &old(self).spec_eikr(),
                    old(self).spec_kvecs(),
                    old(self).spec_rho(),
                    old(self).spec_factors().efield@,
                    times,
                    field,
                    plus,
                    zero,
                    i,
                    #[trigger] final(self).spec_efield()[i as int],
                ),
    {
        let kmax = self.parameters.kmax;
        proof {
            assert forall|n: int| 0 <= n < self.factors.kvecs@.len() implies within(
                kmax,
                #[trigger] self.factors.kvecs@[n],
            ) by {
                assert(is_kpoint(kmax, self.factors.kvecs@[n]));
            }
        }
        electric_field(
            &self.eikr,
            kmax,
            natoms,
            &self.factors.kvecs,
            &self.rho,
            &self.factors.efield,
            times,
            field,
            plus,
            zero,
            &mut self.efield,
        );
    }

    /// Adds to a worker's buffer what the point `n` of the k-space sum adds
    /// to the electric field at each of `natoms` particles, from the cached
    /// phase factors and structure factor.
    pub fn kspace_point_field<M: Fn(C, C) -> C, E: Fn(C, C, F) -> F, A: Fn(F, F) -> F>(
        &self,
        natoms: usize,
        n: usize,
        times: &M,
        field: &E,
        plus: &A,
        buffer: &mut Vec<F>,
    )
        requires
            self.wf(),
            self.caches_cover(natoms),
            n < self.spec_kvecs().len(),
            old(buffer)@.len() == natoms,
            forall|a: C, b: C| call_requires(*times, (a, b)),
            forall|a: C, b: C, c: F| call_requires(*field, (a, b, c)),
            forall|a: F, b: F| call_requires(*plus, (a, b)),
        ensures
            final(buffer)@.len() == natoms,
            forall|i: usize|
                i < natoms ==> field_added(
                    &self.spec_eikr(),
                    times,
                    field,
                    plus,
                    self.spec_kvecs()[n as int],
                    i,
                    self.spec_rho()[n as int],
                    self.spec_factors().efield@[n as int],
                    old(buffer)@[i as int],
                    #[trigger] final(buffer)@[i as int],
                ),
    {
        let kmax = self.parameters.kmax;
        assert(is_kpoint(kmax, self.factors.kvecs@[n as int]));
        point_field(
            &self.eikr,
            kmax,
            natoms,
            self.factors.kvecs[n],
            self.rho[n],
            self.factors.efield[n],
            times,
            field,
            plus,
            buffer,
        );
    }

    /// Takes for the electric field at each of `natoms` particles the sum of
    /// what the workers' buffers hold for the particle, added to `zero` one
    /// buffer after the other from the first, and keeps it in the solver.
    pub fn gather_field<A: Fn(F, F) -> F>(
        &mut self,
        natoms: usize,
        buffers: &Vec<Vec<F>>,
        plus: &A,
        zero: F,
    )
        requires
            old(self).wf(),
            buffers_of(buffers@, natoms as nat),
            forall|a: F, b: F| call_requires(*plus, (a, b)),
        ensures
            final(self).wf(),
            final(self).same_setup(old(self)),
            final(self).spec_eikr() == old(self).spec_eikr(),
            final(self).spec_rho() == old(self).spec_rho(),
            final(self).spec_updater() == old(self).spec_updater(),
            final(self).spec_efield().len() == natoms,
            forall|a: int|
                0 <= a < natoms ==> gathered(
                    plus,
                    buffers@,
                    a,
                    zero,
                    #[trigger] final(self).spec_efield()[a],
                ),
    {
        self.efield.clear();
        let mut a: usize = 0;
        while a < natoms
            invariant
                a <= natoms,
                self.efield@.len() == a,
                forall|b: int| 0 <= b < a ==> #[trigger] self.efield@[b] == zero,
                self.parameters == old(self).parameters,
                self.factors == old(self).factors,
                self.restriction == old(self).restriction,
                self.eikr == old(self).eikr,
                self.rho == old(self).rho,
                self.previous_cell == old(self).previous_cell,
                self.updater == old(self).updater,
            decreases natoms - a,
        {
            self.efield.push(zero);
            a = a + 1;
        }
        sum_into(buffers, plus, &mut self.efield);
    }

    /// The k-space sum of the energy, from the cached structure factor:
    /// the sum over the points of what `term` makes of the energy factor and
    /// the structure factor of each point; `plus` adds, starting from `zero`.
    pub fn kspace_energy<P: Fn(R, C) -> R, A: Fn(R, R) -> R>(&self, term: &P, plus: &A, zero: R) -> (energy:
        R)
        requires
            self.wf(),
            self.spec_rho().len() == self.spec_kvecs().len(),
            forall|n: int|
                0 <= n < self.spec_kvecs().len() ==> call_requires(
                    *term,
                    (#[trigger] self.spec_factors().energy@[n], self.spec_rho()[n]),
                ),
            forall|a: R, b: R| call_requires(*plus, (a, b)),
        ensures
            weighted_sum_is(self.spec_factors().energy@, self.spec_rho(), term, plus, zero, energy),
    {
        weighted_sum(&self.factors.energy, &self.rho, term, plus, zero)
    }

    /// The k-space sum of the atomic virial, from the cached structure
    /// factor: the sum over the points of what `term` makes of the virial
    /// factor and the structure factor of each point; `plus` adds, starting
    /// from `zero`.
    pub fn kspace_atomic_virial<P: Fn(V, C) -> V, A: Fn(V, V) -> V>(
        &self,
        term: &P,
        plus: &A,
        zero: V,
    ) -> (virial: V)
        requires
            self.wf(),
            self.spec_rho().len() == self.spec_kvecs().len(),
            forall|n: int|
                0 <= n < self.spec_kvecs().len() ==> call_requires(
                    *term,
                    (#[trigger] self.spec_factors().virial@[n], self.spec_rho()[n]),
                ),
            forall|a: V, b: V| call_requires(*plus, (a, b)),
        ensures
            weighted_sum_is(self.spec_factors().virial@, self.spec_rho(), term, plus, zero, virial),
    {
        weighted_sum(&self.factors.virial, &self.rho, term, plus, zero)
    }

    /// Whether the cached phase factors cover the particles `molecule`, and
    /// a phase table for that many particles fits the machine.
    pub open spec fn movable(&self, molecule: Seq<usize>) -> bool {
        &&& self.spec_eikr().start() == -self.spec_kmax()
        &&& self.spec_eikr().length() == 2 * self.spec_kmax() + 1
        &&& self.spec_eikr().width() == 3
        &&& forall|i: int| 0 <= i < molecule.len() ==> #[trigger] molecule[i] < self.spec_eikr().depth()
        &&& table_fits(self.spec_kmax() as int, molecule.len() as int)
    }

    /// The k-space part of the cost of moving the particles `molecule`,
    /// which are the particles of one molecule, as a rigid body.
    ///
    /// The change of the structure factor is computed as by
    /// `delta_rho_move_rigid_molecules` and handed to `cost` together with
    /// the energy factors and the cached structure factor; what `cost`
    /// returns is the result. The change is then left pending, in place of
    /// any change that was pending before.
    pub fn kspace_move_molecule_cost<
        U: Fn(usize, usize) -> C,
        M: Fn(C, C) -> C,
        J: Fn(C) -> C,
        S: Fn(C, C) -> C,
        W: Fn(usize, C) -> C,
        A: Fn(C, C) -> C,
        K: Fn(&Vec<R>, &Vec<C>, &Vec<C>) -> R,
    >(
        &mut self,
        molecule: &Vec<usize>,
        unit: &U,
        times: &M,
        conj: &J,
        minus: &S,
        weigh: &W,
        plus: &A,
        one: C,
        zero: C,
        cost: &K,
    ) -> (energy: R)
        requires
            old(self).wf(),
            old(self).movable(molecule@),
            forall|d: usize, i: usize| d < 3 && i < molecule@.len() ==> call_requires(*unit, (d, i)),
            forall|a: C, b: C| call_requires(*times, (a, b)),
            forall|a: C| call_requires(*conj, (a,)),
            forall|a: C, b: C| call_requires(*minus, (a, b)),
            forall|i: int, a: C|
                0 <= i < molecule@.len() ==> #[trigger] call_requires(*weigh, (molecule@[i], a)),
            forall|a: C, b: C| call_requires(*plus, (a, b)),
            forall|factors: &Vec<R>, rho: &Vec<C>, delta: &Vec<C>|
                factors@ == old(self).spec_factors().energy@ && rho@ == old(self).spec_rho()
                    && delta@.len() == old(self).spec_kvecs().len() ==> #[trigger] call_requires(
                    *cost,
                    (factors, rho, delta),
                ),
        ensures
            final(self).wf(),
            final(self).same_setup(old(self)),
            final(self).spec_eikr() == old(self).spec_eikr(),
            final(self).spec_rho() == old(self).spec_rho(),
            final(self).spec_efield() == old(self).spec_efield(),
            final(self).spec_updater() is Some,
            final(self).spec_updater()->0.len() == old(self).spec_kvecs().len(),
            exists|moved: Ewald3DArray<C>|
                {
                    &&& #[trigger] phases_filled(
                        &moved,
                        old(self).spec_kmax(),
                        molecule@.len() as usize,
                        unit,
                        times,
                        conj,
                        one,
                    )
                    &&& forall|n: int|
                        0 <= n < old(self).spec_kvecs().len() ==> change_at(
                            &old(self).spec_eikr(),
                            &moved,
                            molecule@,
                            times,
                            minus,
                            weigh,
                            plus,
                            zero,
                            old(self).spec_kvecs()[n],
                            #[trigger] final(self).spec_updater()->0[n],
                        )
                },
            exists|factors: &Vec<R>, rho: &Vec<C>, delta: &Vec<C>|
                {
                    &&& factors@ == old(self).spec_factors().energy@
                    &&& rho@ == old(self).spec_rho()
                    &&& delta@ == final(self).spec_updater()->0
                    &&& #[trigger] call_ensures(*cost, (factors, rho, delta), energy)
                },
    {
        let delta = self.delta_rho_move_rigid_molecules(
            molecule,
            unit,
            times,
            conj,
            minus,
            weigh,
            plus,
            one,
            zero,
        );
        let energy = cost(&self.factors.energy, &self.rho, &delta);
        proof {
            let factors = &self.factors.energy;
            let rho = &self.rho;
            let pending = &delta;
            assert(factors@ == old(self).spec_factors().energy@ && rho@ == old(self).spec_rho()
                && pending@ == delta@ && call_ensures(*cost, (factors, rho, pending), energy));
        }
        self.updater = Some(delta);
        energy
    }

    /// Applies the pending change to the cached structure factor, term by
    /// term with `plus`, and forgets it. Where the change and the structure
    /// factor differ in length, the terms that both have are changed.
    /// Without a pending change nothing happens.
    pub fn update<A: Fn(C, C) -> C>(&mut self, plus: &A)
        requires
            old(self).wf(),
            forall|a: C, b: C| call_requires(*plus, (a, b)),
        ensures
            final(self).wf(),
            final(self).same_setup(old(self)),
            final(self).spec_eikr() == old(self).spec_eikr(),
            final(self).spec_efield() == old(self).spec_efield(),
            final(self).spec_updater() is None,
            final(self).spec_rho().len() == old(self).spec_rho().len(),
            match old(self).spec_updater() {
                Some(delta) => forall|n: int|
                    0 <= n < old(self).spec_rho().len() ==> if n < delta.len() {
                        call_ensures(
                            *plus,
                            (old(self).spec_rho()[n], delta[n]),
                            #[trigger] final(self).spec_rho()[n],
                        )
                    } else {
                        final(self).spec_rho()[n] == old(self).spec_rho()[n]
                    },
                None => final(self).spec_rho() == old(self).spec_rho(),
            },
    {
        let pending = self.updater.take();
        match pending {
            Some(delta) => {
                let ghost before = self.rho@;
                let mut n: usize = 0;
                while n < self.rho.len() && n < delta.len()
                    invariant
                        self.wf(),
                        self.same_setup(old(self)),
                        self.spec_eikr() == old(self).spec_eikr(),
                        self.spec_efield() == old(self).spec_efield(),
                        self.spec_updater() is None,
                        before == old(self).spec_rho(),
                        self.rho@.len() == before.len(),
                        n <= delta@.len(),
                        forall|a: C, b: C| call_requires(*plus, (a, b)),
                        forall|m: int|
                            0 <= m < n ==> call_ensures(
                                *plus,
                                (before[m], delta@[m]),
                                #[trigger] self.rho@[m],
                            ),
                        forall|m: int| n <= m < before.len() ==> self.rho@[m] == before[m],
                    decreases self.rho@.len() - n,
                {
                    let total = plus(self.rho[n], delta[n]);
                    self.rho[n] = total;
                    n = n + 1;
                }
            },
            None => {},
        }
    }

    /// A solver with the parameters, factors, restriction, remembered cell
    /// and caches of `self`, and without a pending change.
    pub fn duplicate(&self) -> (ewald: Self)
        requires
            self.wf(),
        ensures
            ewald.wf(),
            ewald.same_setup(self),
            ewald.same_caches(self),
            ewald.spec_updater() is None,
    {
        let parameters = EwaldParameters {
            alpha: self.parameters.alpha,
            rc: self.parameters.rc,
            kmax: self.parameters.kmax,
            kmax2: self.parameters.kmax2,
        };
        let factors = EwaldFactors {
            energy: copy_of(&self.factors.energy),
            efield: copy_of(&self.factors.efield),
            virial: copy_of(&self.factors.virial),
            kvecs: copy_of(&self.factors.kvecs),
        };
        Ewald {
            parameters,
            factors,
            restriction: self.restriction,
            eikr: self.eikr.duplicate(),
            rho: copy_of(&self.rho),
            efield: copy_of(&self.efield),
            previous_cell: self.previous_cell,
            updater: None,
        }
    }
}

/// The k-space sum is a function of what the solver is given: two solvers
/// with the same `kmax`, whose tables of factors were computed with the
/// same `factor` and whose caches were filled for the same particles, hold
/// the same points and the same structure factor, and a sum over the points,
/// such as the energy, is the same for both. All the arithmetic is taken to
/// give one answer for each argument.
///
/// `one_sum` is the sum of what `term` makes of the energy factors and the
/// structure factor of `first`, `other_sum` that of `second`.
pub proof fn lemma_kspace_sum_reproducible<
    R: Copy,
    C: Copy,
    F: Copy,
    V: Copy,
    G: Fn(isize, isize, isize) -> Option<(R, F, V)>,
    U: Fn(usize, usize) -> C,
    M: Fn(C, C) -> C,
    J: Fn(C) -> C,
    W: Fn(usize, C) -> C,
    A: Fn(C, C) -> C,
    P: Fn(R, C) -> R,
    B: Fn(R, R) -> R,
>(
    first: &Ewald<R, C, F, V>,
    second: &Ewald<R, C, F, V>,
    factor: &G,
    natoms: usize,
    unit: &U,
    times: &M,
    conj: &J,
    weigh: &W,
    plus: &A,
    one: C,
    zero: C,
    term: &P,
    gather: &B,
    nothing: R,
    one_sum: R,
    other_sum: R,
)
    requires
        first.wf(),
        second.wf(),
        first.spec_kmax() == second.spec_kmax(),
        first.spec_factors().computed_by(first.spec_kmax(), factor),
        second.spec_factors().computed_by(first.spec_kmax(), factor),
        phases_filled(&first.spec_eikr(), first.spec_kmax(), natoms, unit, times, conj, one),
        phases_filled(&second.spec_eikr(), first.spec_kmax(), natoms, unit, times, conj, one),
        first.spec_rho().len() == first.spec_kvecs().len(),
        second.spec_rho().len() == second.spec_kvecs().len(),
        forall|n: int|
            0 <= n < first.spec_kvecs().len() ==> density_at(
                &first.spec_eikr(),
                natoms,
                times,
                weigh,
                plus,
                zero,
                first.spec_kvecs()[n],
                #[trigger] first.spec_rho()[n],
            ),
        forall|n: int|
            0 <= n < second.spec_kvecs().len() ==> density_at(
                &second.spec_eikr(),
                natoms,
                times,
                weigh,
                plus,
                zero,
                second.spec_kvecs()[n],
                #[trigger] second.spec_rho()[n],
            ),
        weighted_sum_is(first.spec_factors().energy@, first.spec_rho(), term, gather, nothing, one_sum),
        weighted_sum_is(
            second.spec_factors().energy@,
            second.spec_rho(),
            term,
            gather,
            nothing,
            other_sum,
        ),
        single_valued(factor),
        single_valued2(unit),
        single_valued2(times),
        single_valued1(conj),
        single_valued2(weigh),
        single_valued2(plus),
        single_valued2(term),
        single_valued2(gather),
    ensures
        first.spec_kvecs() == second.spec_kvecs(),
        first.spec_factors().energy@ == second.spec_factors().energy@,
        first.spec_eikr().same_as(&second.spec_eikr()),
        first.spec_rho() == second.spec_rho(),
        one_sum == other_sum,
{
    let kmax = first.spec_kmax();
    lemma_compute_reproducible(first.spec_factors(), second.spec_factors(), kmax, factor);
    lemma_phases_reproducible(
        &first.spec_eikr(),
        &second.spec_eikr(),
        kmax,
        natoms,
        unit,
        times,
        conj,
        one,
    );
    assert forall|n: int| 0 <= n < first.spec_kvecs().len() implies first.spec_rho()[n]
        == second.spec_rho()[n] by {
        let k = first.spec_kvecs()[n];
        assert(is_kpoint(kmax, first.factors.kvecs@[n]));
        lemma_density_of_same_table(
            &second.spec_eikr(),
            &first.spec_eikr(),
            kmax,
            natoms,
            times,
            weigh,
            plus,
            zero,
            k,
            second.spec_rho()[n],
        );
        lemma_structure_factor_reproducible(
            &first.spec_eikr(),
            natoms,
            times,
            weigh,
            plus,
            zero,
            k,
            first.spec_rho()[n],
            second.spec_rho()[n],
        );
    }
    assert(first.spec_rho() =~= second.spec_rho());
    lemma_weighted_sum_reproducible(
        first.spec_factors().energy@,
        first.spec_rho(),
        term,
        gather,
        nothing,
        one_sum,
        other_sum,
    );
}

/// The structure factor at a point is the same for two phase tables with
/// the same entries.
proof fn lemma_density_of_same_table<
    C: Copy,
    M: Fn(C, C) -> C,
    W: Fn(usize, C) -> C,
    A: Fn(C, C) -> C,
>(
    table: &Ewald3DArray<C>,
    other: &Ewald3DArray<C>,
    kmax: isize,
    count: usize,
    times: &M,
    weigh: &W,
    plus: &A,
    zero: C,
    k: (isize, isize, isize),
    rho: C,
)
    requires
        phase_shaped(table, kmax, count),
        other.same_as(table),
        within(kmax, k),
        density_at(table, count, times, weigh, plus, zero, k, rho),
    ensures
        density_at(other, count, times, weigh, plus, zero, k, rho),
{
    let terms = choose|terms: Seq<C>|
        {
            &&& terms.len() == count
            &&& forall|i: usize|
                i < count ==> charge_term(table, times, weigh, k, i, #[trigger] terms[i as int])
            &&& sums_to(plus, zero, terms, rho)
        };
    assert forall|i: usize| i < count implies charge_term(
        other,
        times,
        weigh,
        k,
        i,
        #[trigger] terms[i as int],
    ) by {
        assert(charge_term(table, times, weigh, k, i, terms[i as int]));
        let phi = choose|phi: C|
            phase_product(table, times, k, i, phi) && call_ensures(*weigh, (i, phi), terms[i as int]);
        assert(other.has(k.0 as int, 0, i as int));
        assert(other.has(k.1 as int, 1, i as int));
        assert(other.has(k.2 as int, 2, i as int));
        assert(other.at(k.0 as int, 0, i as int) == table.at(k.0 as int, 0, i as int));
        assert(other.at(k.1 as int, 1, i as int) == table.at(k.1 as int, 1, i as int));
        assert(other.at(k.2 as int, 2, i as int) == table.at(k.2 as int, 2, i as int));
        assert(phase_product(other, times, k, i, phi));
    }
}

} // verus!
