//! The solver at work on small systems, with double precision numbers.

use lumol::cell::{CellShape, RawVector, UnitCell};
use lumol::ewald::Ewald;
use lumol::realspace::{move_sum, pair_sum};
use lumol::restriction::{BondPath, PairRestriction};
use lumol::topology::Topology;
use special::Error;
use std::f64::consts::{FRAC_2_SQRT_PI, PI};

const FOUR_PI_EPSILON_0: f64 = 7.197589831304046;

type Vector = [f64; 3];
type Matrix = [[f64; 3]; 3];

#[derive(Clone, Copy, Debug, PartialEq)]
struct Complex {
    re: f64,
    im: f64,
}

const ONE: Complex = Complex { re: 1.0, im: 0.0 };
const ZERO: Complex = Complex { re: 0.0, im: 0.0 };

fn polar(r: f64, phi: f64) -> Complex {
    Complex { re: r * phi.cos(), im: r * phi.sin() }
}

fn cmul(a: Complex, b: Complex) -> Complex {
    Complex { re: a.re * b.re - a.im * b.im, im: a.re * b.im + a.im * b.re }
}

fn cadd(a: Complex, b: Complex) -> Complex {
    Complex { re: a.re + b.re, im: a.im + b.im }
}

fn csub(a: Complex, b: Complex) -> Complex {
    Complex { re: a.re - b.re, im: a.im - b.im }
}

fn conj(a: Complex) -> Complex {
    Complex { re: a.re, im: -a.im }
}

fn cscale(s: f64, a: Complex) -> Complex {
    Complex { re: s * a.re, im: s * a.im }
}

fn norm2(a: Complex) -> f64 {
    a.re * a.re + a.im * a.im
}

fn dot(a: Vector, b: Vector) -> f64 {
    a[0] * b[0] + a[1] * b[1] + a[2] * b[2]
}

fn vadd(a: Vector, b: Vector) -> Vector {
    [a[0] + b[0], a[1] + b[1], a[2] + b[2]]
}

fn vsub(a: Vector, b: Vector) -> Vector {
    [a[0] - b[0], a[1] - b[1], a[2] - b[2]]
}

fn vscale(s: f64, a: Vector) -> Vector {
    [s * a[0], s * a[1], s * a[2]]
}

fn vnorm(a: Vector) -> f64 {
    dot(a, a).sqrt()
}

fn tensorial(a: Vector, b: Vector) -> Matrix {
    let mut m = [[0.0; 3]; 3];
    for i in 0..3 {
        for j in 0..3 {
            m[i][j] = a[i] * b[j];
        }
    }
    m
}

fn madd(a: Matrix, b: Matrix) -> Matrix {
    let mut m = [[0.0; 3]; 3];
    for i in 0..3 {
        for j in 0..3 {
            m[i][j] = a[i][j] + b[i][j];
        }
    }
    m
}

fn mscale(s: f64, a: Matrix) -> Matrix {
    let mut m = [[0.0; 3]; 3];
    for i in 0..3 {
        for j in 0..3 {
            m[i][j] = s * a[i][j];
        }
    }
    m
}

fn mmul(a: Matrix, b: Matrix) -> Matrix {
    let mut m = [[0.0; 3]; 3];
    for i in 0..3 {
        for j in 0..3 {
            for k in 0..3 {
                m[i][j] += a[i][k] * b[k][j];
            }
        }
    }
    m
}

fn mvec(a: Matrix, v: Vector) -> Vector {
    [dot(a[0], v), dot(a[1], v), dot(a[2], v)]
}

fn identity() -> Matrix {
    [[1.0, 0.0, 0.0], [0.0, 1.0, 0.0], [0.0, 0.0, 1.0]]
}

fn determinant(m: Matrix) -> f64 {
    m[0][0] * (m[1][1] * m[2][2] - m[1][2] * m[2][1])
        - m[0][1] * (m[1][0] * m[2][2] - m[1][2] * m[2][0])
        + m[0][2] * (m[1][0] * m[2][1] - m[1][1] * m[2][0])
}

fn inverse(m: Matrix) -> Matrix {
    let det = determinant(m);
    let mut inv = [[0.0; 3]; 3];
    inv[0][0] = (m[1][1] * m[2][2] - m[1][2] * m[2][1]) / det;
    inv[0][1] = (m[0][2] * m[2][1] - m[0][1] * m[2][2]) / det;
    inv[0][2] = (m[0][1] * m[1][2] - m[0][2] * m[1][1]) / det;
    inv[1][0] = (m[1][2] * m[2][0] - m[1][0] * m[2][2]) / det;
    inv[1][1] = (m[0][0] * m[2][2] - m[0][2] * m[2][0]) / det;
    inv[1][2] = (m[0][2] * m[1][0] - m[0][0] * m[1][2]) / det;
    inv[2][0] = (m[1][0] * m[2][1] - m[1][1] * m[2][0]) / det;
    inv[2][1] = (m[0][1] * m[2][0] - m[0][0] * m[2][1]) / det;
    inv[2][2] = (m[0][0] * m[1][1] - m[0][1] * m[1][0]) / det;
    inv
}

fn trace(m: Matrix) -> f64 {
    m[0][0] + m[1][1] + m[2][2]
}

/// A periodic cell; the columns of `h` are its edges.
#[derive(Clone, Copy)]
struct Cell {
    h: Matrix,
    inv: Matrix,
    shape: CellShape,
}

impl Cell {
    fn cubic(length: f64) -> Cell {
        let h = mscale(length, identity());
        Cell { h, inv: inverse(h), shape: CellShape::Orthorhombic }
    }

    fn scale(&self, factor: Matrix) -> Cell {
        let h = mmul(factor, self.h);
        Cell { h, inv: inverse(h), shape: CellShape::Triclinic }
    }

    fn volume(&self) -> f64 {
        determinant(self.h).abs()
    }

    fn fractional(&self, v: Vector) -> Vector {
        mvec(self.inv, v)
    }

    fn cartesian(&self, f: Vector) -> Vector {
        mvec(self.h, f)
    }

    fn k_vector(&self, index: Vector) -> Vector {
        let mut k = [0.0; 3];
        for d in 0..3 {
            for row in 0..3 {
                k[d] += 2.0 * PI * index[row] * self.inv[row][d];
            }
        }
        k
    }

    fn image(&self, v: Vector) -> Vector {
        let mut f = self.fractional(v);
        for d in 0..3 {
            f[d] -= f[d].round();
        }
        self.cartesian(f)
    }

    fn raw(&self) -> UnitCell {
        let column = |j: usize| RawVector {
            x: self.h[0][j].to_bits(),
            y: self.h[1][j].to_bits(),
            z: self.h[2][j].to_bits(),
        };
        UnitCell::with_edges(self.shape, column(0), column(1), column(2))
    }
}

#[derive(Clone)]
struct System {
    cell: Cell,
    positions: Vec<Vector>,
    charges: Vec<f64>,
    molecules: Vec<Vec<usize>>,
    topology: Topology,
}

impl System {
    fn new(cell: Cell, atoms: Vec<(f64, Vector)>, bonds: Vec<(usize, usize)>) -> System {
        let mut topology = Topology::new();
        for _ in &atoms {
            topology.add_particle();
        }
        for (i, j) in bonds {
            topology.add_bond(i, j);
        }
        System {
            cell,
            positions: atoms.iter().map(|a| a.1).collect(),
            charges: atoms.iter().map(|a| a.0).collect(),
            molecules: topology.molecules(),
            topology,
        }
    }

    fn size(&self) -> usize {
        self.positions.len()
    }

    fn charged(&self) -> Vec<bool> {
        self.charges.iter().map(|q| *q != 0.0).collect()
    }

    fn bond_path(&self, i: usize, j: usize) -> BondPath {
        self.topology.bond_path(i, j)
    }

    fn nearest_image(&self, i: usize, j: usize) -> Vector {
        self.cell.image(vsub(self.positions[i], self.positions[j]))
    }

    fn distance(&self, i: usize, j: usize) -> f64 {
        vnorm(self.nearest_image(i, j))
    }
}

fn nacl_pair() -> System {
    System::new(
        Cell::cubic(20.0),
        vec![(-1.0, [0.0, 0.0, 0.0]), (1.0, [1.5, 0.0, 0.0])],
        vec![],
    )
}

fn water() -> System {
    let system = System::new(
        Cell::cubic(20.0),
        vec![(-0.8476, [0.0, 0.0, 0.0]), (0.4238, [-0.7, -0.7, 0.3]), (0.4238, [0.3, -0.3, -0.8])],
        vec![(0, 1), (0, 2)],
    );
    assert_eq!(system.molecules.len(), 1);
    system
}

fn two_waters() -> System {
    let system = System::new(
        Cell::cubic(20.0),
        vec![
            (0.4238, [0.3, -0.3, -0.8]),
            (-0.8476, [0.0, 0.0, 0.0]),
            (0.4238, [-0.7, -0.7, 0.3]),
            (0.4238, [2.3, 1.7, -0.8]),
            (-0.8476, [2.0, 2.0, 0.0]),
            (0.4238, [1.3, 1.3, 0.3]),
        ],
        vec![(0, 1), (1, 2), (3, 4), (4, 5)],
    );
    assert_eq!(system.molecules.len(), 2);
    system
}

type Solver = Ewald<f64, Complex, Vector, Matrix>;

fn solver(cutoff: f64, kmax: usize, alpha: Option<f64>) -> Solver {
    let alpha = alpha.unwrap_or(PI / cutoff);
    assert!(cutoff > 0.0);
    assert!(alpha > 0.0);
    assert!(kmax != 0);
    Ewald::new(cutoff, kmax, alpha, 0.0)
}

fn precompute(ewald: &mut Solver, cell: &Cell) -> bool {
    assert!(cell.shape != CellShape::Infinite);
    let kmax = ewald.parameters().kmax;
    let alpha = ewald.parameters().alpha;
    let corner = cell.k_vector([1.0, 1.0, 1.0]);
    let max = corner[0].max(corner[1]).max(corner[2]) * kmax as f64;
    let kmax2 = 1.0001 * max * max;
    let alpha_sq_inv_fourth = 0.25 / (alpha * alpha);
    let four_pi_v = 4.0 * PI / cell.volume();
    let factor = |ikx: isize, iky: isize, ikz: isize| {
        let kvec = cell.k_vector([ikx as f64, iky as f64, ikz as f64]);
        let k2 = dot(kvec, kvec);
        if k2 > kmax2 {
            return None;
        }
        let energy = four_pi_v * f64::exp(-k2 * alpha_sq_inv_fourth) / k2;
        let efield = vscale(2.0 * energy, kvec);
        let virial_factor = -2.0 * (1.0 / k2 + alpha_sq_inv_fourth);
        let virial = madd(identity(), mscale(virial_factor, tensorial(kvec, kvec)));
        Some((energy, efield, mscale(energy, virial)))
    };
    ewald.precompute(&cell.raw(), kmax2, &factor)
}

fn energy_pair(ewald: &Solver, excluded: bool, qiqj: f64, r: f64) -> f64 {
    let (alpha, rc) = (ewald.parameters().alpha, ewald.parameters().rc);
    if r > rc {
        return 0.0;
    }
    if !excluded {
        qiqj / FOUR_PI_EPSILON_0 * (alpha * r).compl_error() / r
    } else {
        -qiqj / FOUR_PI_EPSILON_0 * (alpha * r).error() / r
    }
}

fn force_pair(ewald: &Solver, excluded: bool, qiqj: f64, r: f64) -> f64 {
    let (alpha, rc) = (ewald.parameters().alpha, ewald.parameters().rc);
    if r > rc {
        return 0.0;
    }
    let gauss = alpha * FRAC_2_SQRT_PI * f64::exp(-alpha * alpha * r * r);
    if !excluded {
        qiqj / (FOUR_PI_EPSILON_0 * r * r) * (gauss + (alpha * r).compl_error() / r)
    } else {
        qiqj / (FOUR_PI_EPSILON_0 * r * r) * (gauss - (alpha * r).error() / r)
    }
}

fn excluded(ewald: &Solver, system: &System, i: usize, j: usize) -> bool {
    ewald.restriction().information(system.bond_path(i, j)).excluded
}

fn real_space_energy(ewald: &Solver, system: &System) -> f64 {
    let pair = |i: usize, j: usize| {
        let qiqj = system.charges[i] * system.charges[j];
        energy_pair(ewald, excluded(ewald, system, i, j), qiqj, system.distance(i, j))
    };
    pair_sum(&system.charged(), &pair, &|a: f64, b: f64| a + b, 0.0)
}

fn real_space_forces(ewald: &Solver, system: &System, forces: &mut Vec<Vector>) {
    assert_eq!(forces.len(), system.size());
    let pair = |i: usize, j: usize| {
        let rij = system.nearest_image(i, j);
        let qiqj = system.charges[i] * system.charges[j];
        let f = force_pair(ewald, excluded(ewald, system, i, j), qiqj, vnorm(rij));
        vscale(f, rij)
    };
    lumol::forces::real_space_forces(&system.charged(), &pair, &vadd, &vsub, [0.0; 3], forces);
}

fn centre(system: &System, molecule: usize) -> Vector {
    // all the particles weigh the same here
    let members = &system.molecules[molecule];
    let mut sum = [0.0; 3];
    for i in members {
        sum = vadd(sum, system.positions[*i]);
    }
    vscale(1.0 / members.len() as f64, sum)
}

fn real_space_molecular_virial(ewald: &Solver, system: &System) -> Matrix {
    let pair = |i: usize, j: usize, a: usize, b: usize| {
        let r_ij = system.cell.image(vsub(centre(system, i), centre(system, j)));
        let r_ab = system.nearest_image(a, b);
        let qq = system.charges[a] * system.charges[b];
        let f = force_pair(ewald, excluded(ewald, system, a, b), qq, vnorm(r_ab));
        let w_ab = tensorial(vscale(f, r_ab), r_ab);
        mscale(dot(r_ab, r_ij) / dot(r_ab, r_ab), w_ab)
    };
    lumol::molecular::molecule_pair_sum(
        &system.charged(),
        &system.molecules,
        &pair,
        &madd,
        [[0.0; 3]; 3],
    )
}

fn real_space_atomic_virial(ewald: &Solver, system: &System) -> Matrix {
    let pair = |i: usize, j: usize| {
        let rij = system.nearest_image(i, j);
        let qiqj = system.charges[i] * system.charges[j];
        let f = force_pair(ewald, excluded(ewald, system, i, j), qiqj, vnorm(rij));
        tensorial(vscale(f, rij), rij)
    };
    pair_sum(&system.charged(), &pair, &madd, [[0.0; 3]; 3])
}

fn real_space_move_molecule_cost(
    ewald: &Solver,
    system: &System,
    molecule: usize,
    new_positions: &[Vector],
) -> f64 {
    let pair = |i: usize, part_i: usize, part_j: usize| {
        let qiqj = system.charges[part_i] * system.charges[part_j];
        let old_r = system.distance(part_i, part_j);
        let new_r = vnorm(system.cell.image(vsub(new_positions[i], system.positions[part_j])));
        let out = excluded(ewald, system, part_i, part_j);
        (energy_pair(ewald, out, qiqj, old_r), energy_pair(ewald, out, qiqj, new_r))
    };
    let plus = |a: (f64, f64), b: (f64, f64)| (a.0 + b.0, a.1 + b.1);
    let (old_energy, new_energy) =
        move_sum(&system.charged(), &system.molecules, molecule, &pair, &plus, (0.0, 0.0));
    new_energy - old_energy
}

fn self_energy(ewald: &Solver, system: &System) -> f64 {
    let q2: f64 = system.charges.iter().map(|q| q * q).sum();
    -ewald.parameters().alpha / PI.sqrt() * q2 / FOUR_PI_EPSILON_0
}

fn eik_dot_r(ewald: &mut Solver, system: &System) {
    let unit = |d: usize, i: usize| {
        let mut index = [0.0; 3];
        index[d] = 1.0;
        polar(1.0, dot(system.cell.k_vector(index), system.positions[i]))
    };
    let weigh = |i: usize, phi: Complex| cscale(system.charges[i], phi);
    ewald.eik_dot_r(system.size(), &unit, &cmul, &conj, &weigh, &cadd, ONE, ZERO);
}

fn kspace_energy(ewald: &mut Solver, system: &System) -> f64 {
    eik_dot_r(ewald, system);
    let term = |factor: f64, rho: Complex| factor * norm2(rho);
    let energy = ewald.kspace_energy(&term, &|a: f64, b: f64| a + b, 0.0);
    energy / FOUR_PI_EPSILON_0
}

fn kspace_forces(ewald: &mut Solver, system: &System, forces: &mut Vec<Vector>) {
    assert_eq!(forces.len(), system.size());
    eik_dot_r(ewald, system);
    let field = |phi: Complex, rho: Complex, factor: Vector| {
        vscale(cmul(phi, conj(rho)).im, factor)
    };
    ewald.kspace_field(system.size(), &cmul, &field, &vadd, [0.0; 3]);
    let efield = ewald.efield();
    for i in 0..system.size() {
        forces[i] = vadd(forces[i], vscale(system.charges[i] / FOUR_PI_EPSILON_0, efield[i]));
    }
}

fn kspace_atomic_virial(ewald: &mut Solver, system: &System) -> Matrix {
    eik_dot_r(ewald, system);
    let term = |factor: Matrix, rho: Complex| mscale(norm2(rho), factor);
    let virial = ewald.kspace_atomic_virial(&term, &madd, [[0.0; 3]; 3]);
    mscale(1.0 / FOUR_PI_EPSILON_0, virial)
}

fn kspace_move_molecule_cost(
    ewald: &mut Solver,
    system: &System,
    molecule: usize,
    new_positions: &[Vector],
) -> f64 {
    let unit = |d: usize, i: usize| {
        let mut index = [0.0; 3];
        index[d] = 1.0;
        polar(1.0, dot(system.cell.k_vector(index), new_positions[i]))
    };
    let weigh = |part: usize, change: Complex| cscale(system.charges[part], change);
    let cost = |factors: &Vec<f64>, rho: &Vec<Complex>, delta: &Vec<Complex>| {
        let mut old_energy = 0.0;
        for (factor, rho) in factors.iter().zip(rho) {
            old_energy += factor * norm2(*rho);
        }
        old_energy /= FOUR_PI_EPSILON_0;
        let mut new_energy = 0.0;
        for ((factor, rho), delta) in factors.iter().zip(rho).zip(delta) {
            new_energy += factor * norm2(cadd(*rho, *delta));
        }
        new_energy /= FOUR_PI_EPSILON_0;
        new_energy - old_energy
    };
    ewald.kspace_move_molecule_cost(
        &system.molecules[molecule],
        &unit,
        &cmul,
        &conj,
        &csub,
        &weigh,
        &cadd,
        ONE,
        ZERO,
        &cost,
    )
}

fn energy(ewald: &mut Solver, system: &System) -> f64 {
    precompute(ewald, &system.cell);
    let real = real_space_energy(ewald, system);
    let self_e = self_energy(ewald, system);
    let kspace = kspace_energy(ewald, system);
    real + self_e + kspace
}

fn forces(ewald: &mut Solver, system: &System, forces: &mut Vec<Vector>) {
    assert_eq!(forces.len(), system.size());
    precompute(ewald, &system.cell);
    real_space_forces(ewald, system, forces);
    kspace_forces(ewald, system, forces);
}

fn atomic_virial(ewald: &mut Solver, system: &System) -> Matrix {
    precompute(ewald, &system.cell);
    madd(real_space_atomic_virial(ewald, system), kspace_atomic_virial(ewald, system))
}

fn move_molecule_cost(
    ewald: &mut Solver,
    system: &System,
    molecule: usize,
    new_positions: &[Vector],
) -> f64 {
    precompute(ewald, &system.cell);
    let real = real_space_move_molecule_cost(ewald, system, molecule, new_positions);
    let kspace = kspace_move_molecule_cost(ewald, system, molecule, new_positions);
    real + kspace
}

fn close(a: f64, b: f64, epsilon: f64) -> bool {
    (a - b).abs() <= epsilon
}

/// Equality up to the machine epsilon, or else up to four floats in between.
fn ulps_eq(a: f64, b: f64) -> bool {
    if (a - b).abs() <= f64::EPSILON {
        return true;
    }
    if a.is_sign_negative() != b.is_sign_negative() {
        return false;
    }
    let apart = (a.to_bits() as i64).wrapping_sub(b.to_bits() as i64);
    apart.abs() <= 4
}

fn relatively_close(a: f64, b: f64, max_relative: f64) -> bool {
    a == b || (a - b).abs() <= max_relative * a.abs().max(b.abs())
}

fn scale_system(system: &mut System, i: usize, j: usize, eps: f64) {
    let mut scaling = identity();
    scaling[i][j] += eps;
    let old_cell = system.cell;
    let new_cell = system.cell.scale(scaling);
    for position in system.positions.iter_mut() {
        *position = new_cell.cartesian(old_cell.fractional(*position));
    }
    system.cell = new_cell;
}

#[test]
fn ewald_with_accuracy() {
    let system = water();
    let (cutoff, accuracy) = (8.5, 1e-6);
    let q2 = system.charges.iter().map(|q| q * q).sum::<f64>() / FOUR_PI_EPSILON_0;
    let natoms = system.size() as f64;
    let lengths = [20.0, 20.0, 20.0];
    let alpha =
        accuracy * f64::sqrt(natoms * cutoff * lengths[0] * lengths[1] * lengths[2]) / (2.0 * q2);
    let alpha = if alpha >= 1.0 {
        (1.35 - 0.15 * f64::ln(accuracy)) / cutoff
    } else {
        f64::sqrt(-f64::ln(alpha)) / cutoff
    };
    let min_length = 20.0;
    let error = |kmax: f64| {
        let arg: f64 = PI * kmax / (alpha * min_length);
        FRAC_2_SQRT_PI * q2 * alpha / min_length / f64::sqrt(kmax * natoms) * f64::exp(-arg * arg)
    };
    let ewald: Solver =
        Ewald::with_accuracy(cutoff, alpha, 0.0, &|kmax: usize| error(kmax as f64) > accuracy)
            .unwrap();
    assert!(f64::abs(ewald.parameters().alpha - 0.2998) < 1e-4);
    assert_eq!(ewald.parameters().kmax, 5);
    assert_eq!(ewald.parameters().rc, 8.5);
    assert_eq!(ewald.restriction(), PairRestriction::Unrestricted);
}

#[test]
fn with_accuracy_never_reached() {
    // an estimate that exceeds the accuracy for the first thousand numbers
    let ewald: Option<Solver> = Ewald::with_accuracy(8.5, 0.3, 0.0, &|kmax: usize| kmax < 1000);
    assert_eq!(ewald.unwrap().parameters().kmax, 1000);
}

#[test]
fn ewald_energy() {
    let system = nacl_pair();
    let mut ewald = solver(8.0, 10, None);
    let e = energy(&mut ewald, &system);
    let energy_brute_force = -0.09262397663346732;
    assert!(close(e, energy_brute_force, 1e-4), "energy is {}", e);

    // a single point per axis leaves the k-space sum empty
    let mut ewald = solver(8.0, 1, None);
    let _ = energy(&mut ewald, &system);
    assert_eq!(ewald.factors().kvecs.len(), 0);

    let system = water();
    let mut ewald = solver(8.0, 10, None);
    ewald.set_restriction(PairRestriction::InterMolecular);
    let e = energy(&mut ewald, &system);
    let expected = -0.000009243868813825495;
    assert!(ulps_eq(e, expected), "energy is {:e}", e);
}

#[test]
fn real_forces_finite_differences() {
    let mut system = nacl_pair();
    let mut ewald = solver(8.0, 10, None);
    precompute(&mut ewald, &system.cell);

    let e = real_space_energy(&ewald, &system);
    let eps = 1e-9;
    system.positions[0][0] += eps;

    let e1 = real_space_energy(&ewald, &system);
    let mut forces = vec![[0.0; 3]; 2];
    real_space_forces(&ewald, &system, &mut forces);
    assert!(close((e - e1) / eps, forces[0][0], 1e-6));
}

#[test]
fn ewald_kspace_forces_finite_differences() {
    let mut system = nacl_pair();
    // a small cutoff gives the k-space sum more weight
    let mut ewald = solver(2.0, 10, None);
    precompute(&mut ewald, &system.cell);

    let e = kspace_energy(&mut ewald, &system);
    let eps = 1e-9;
    system.positions[0][0] += eps;

    let e1 = kspace_energy(&mut ewald, &system);
    let mut forces = vec![[0.0; 3]; 2];
    kspace_forces(&mut ewald, &system, &mut forces);
    assert!(close((e - e1) / eps, forces[0][0], 1e-6));

    let mut system = water();
    let mut ewald = solver(8.0, 10, None);
    ewald.set_restriction(PairRestriction::InterMolecular);
    precompute(&mut ewald, &system.cell);

    let mut forces = vec![[0.0; 3]; 3];
    kspace_forces(&mut ewald, &system, &mut forces);
    let force = forces[0][0];

    let e = kspace_energy(&mut ewald, &system);
    system.positions[0][0] += eps;
    let e1 = kspace_energy(&mut ewald, &system);
    assert!(close((e - e1) / eps, force, 1e-6));
}

#[test]
fn ewald_total_forces() {
    let mut system = nacl_pair();
    let mut ewald = solver(8.0, 10, None);

    let mut f = vec![[0.0; 3]; 2];
    forces(&mut ewald, &system, &mut f);
    let norm = vnorm(vadd(f[0], f[1]));
    // the total force vanishes
    assert!(ulps_eq(norm, 0.0));

    // the force is attractive
    assert!(f[0][0] > 0.0);
    assert!(f[1][0] < 0.0);

    let e = energy(&mut ewald, &system);
    let eps = 1e-9;
    system.positions[0][0] += eps;

    let e1 = energy(&mut ewald, &system);
    let mut f = vec![[0.0; 3]; 2];
    forces(&mut ewald, &system, &mut f);
    assert!(close((e - e1) / eps, f[0][0], 1e-6));

    let mut system = water();
    let mut ewald = solver(8.0, 10, None);
    ewald.set_restriction(PairRestriction::InterMolecular);

    let mut f = vec![[0.0; 3]; 3];
    forces(&mut ewald, &system, &mut f);
    let norm = vnorm(vadd(f[0], f[1]));
    assert!(norm.abs() < 1e-3);

    let e = energy(&mut ewald, &system);
    system.positions[0][0] += eps;
    let e1 = energy(&mut ewald, &system);
    assert!(close((e - e1) / eps, f[0][0], 1e-6));
}

#[test]
fn real_space_forces_finite_differences() {
    let mut system = water();
    let mut ewald = solver(8.0, 10, None);
    ewald.set_restriction(PairRestriction::InterMolecular);
    precompute(&mut ewald, &system.cell);

    let mut forces = vec![[0.0; 3]; 3];
    real_space_forces(&ewald, &system, &mut forces);
    let force = forces[0][0];

    let eps = 1e-9;
    let e = real_space_energy(&ewald, &system);
    system.positions[0][0] += eps;
    let e1 = real_space_energy(&ewald, &system);

    assert!(close((e - e1) / eps, force, 1e-6));
}

#[test]
fn virial_is_energy() {
    let system = water();
    let mut ewald = solver(8.0, 10, None);
    let e = energy(&mut ewald, &system);
    let virial = trace(atomic_virial(&mut ewald, &system));
    assert!(relatively_close(e, virial, 1e-3));

    let system = nacl_pair();
    let mut ewald = solver(8.0, 10, None);
    let e = energy(&mut ewald, &system);
    let virial = trace(atomic_virial(&mut ewald, &system));
    assert!(relatively_close(e, virial, 1e-3));
}

#[test]
fn real_space_finite_differences() {
    let mut system = water();
    let mut ewald = solver(8.0, 10, None);
    ewald.set_restriction(PairRestriction::InterMolecular);
    precompute(&mut ewald, &system.cell);

    let eps = 1e-9;
    let virial = real_space_atomic_virial(&ewald, &system);
    let mut finite_diff = [[0.0; 3]; 3];
    for i in 0..3 {
        for j in 0..3 {
            precompute(&mut ewald, &system.cell);
            let e = real_space_energy(&ewald, &system);
            scale_system(&mut system, i, j, eps);
            precompute(&mut ewald, &system.cell);
            let e1 = real_space_energy(&ewald, &system);
            finite_diff[i][j] = (e - e1) / eps;
        }
    }
    for i in 0..3 {
        for j in 0..3 {
            assert!(close(virial[i][j], finite_diff[i][j], 1e-6));
        }
    }
}

#[test]
fn kspace_finite_differences() {
    let mut system = water();
    let mut ewald = solver(2.0, 10, None);
    ewald.set_restriction(PairRestriction::InterMolecular);
    precompute(&mut ewald, &system.cell);

    let eps = 1e-9;
    let virial = kspace_atomic_virial(&mut ewald, &system);
    let mut finite_diff = [[0.0; 3]; 3];
    for i in 0..3 {
        for j in 0..3 {
            precompute(&mut ewald, &system.cell);
            let e = kspace_energy(&mut ewald, &system);
            scale_system(&mut system, i, j, eps);
            precompute(&mut ewald, &system.cell);
            let e1 = kspace_energy(&mut ewald, &system);
            finite_diff[i][j] = (e - e1) / eps;
        }
    }
    for i in 0..3 {
        for j in 0..3 {
            let symmetric = (finite_diff[i][j] + finite_diff[j][i]) / 2.0;
            assert!(close(virial[i][j], symmetric, 1e-6));
        }
    }
}

const NEW_POSITIONS: [Vector; 3] = [
    [0.41727, 2.29401, -0.0558],
    [0.5097743599026461, 3.194114034722624, -0.020364564697826326],
    [-0.2501317777731211, 3.562366060753896, -0.6178033542374419],
];

fn check_cache(
    mut system: System,
    ewald: Solver,
    compute_energy: fn(&mut Solver, &System) -> f64,
    compute_cost: fn(&mut Solver, &System, usize, &[Vector]) -> f64,
) {
    let mut ewald = ewald;
    ewald.set_restriction(PairRestriction::InterMolecular);
    precompute(&mut ewald, &system.cell);

    let mut check = ewald.duplicate();
    // fill the caches
    let _ = compute_energy(&mut ewald, &system);
    let old_energy = compute_energy(&mut check, &system);

    let cost = compute_cost(&mut ewald, &system, 0, &NEW_POSITIONS);

    system.positions[0] = NEW_POSITIONS[0];
    system.positions[1] = NEW_POSITIONS[1];
    system.positions[2] = NEW_POSITIONS[2];
    let new_energy = compute_energy(&mut check, &system);
    assert!(relatively_close(cost, new_energy - old_energy, 1e-12));
}

#[test]
fn move_molecule() {
    let system = two_waters();

    // real space energy
    check_cache(
        system.clone(),
        solver(8.0, 10, None),
        |ewald, system| real_space_energy(ewald, system),
        |ewald, system, molecule, positions| {
            real_space_move_molecule_cost(ewald, system, molecule, positions)
        },
    );

    // k-space energy
    check_cache(
        system.clone(),
        solver(2.0, 10, None),
        |ewald, system| kspace_energy(ewald, system),
        |ewald, system, molecule, positions| {
            kspace_move_molecule_cost(ewald, system, molecule, positions)
        },
    );

    // the whole energy at once
    check_cache(
        system.clone(),
        solver(8.0, 10, None),
        |ewald, system| energy(ewald, system),
        |ewald, system, molecule, positions| move_molecule_cost(ewald, system, molecule, positions),
    );
}

#[test]
fn update_after_move() {
    let mut system = two_waters();
    let mut ewald = solver(8.0, 10, None);
    ewald.set_restriction(PairRestriction::InterMolecular);
    let _ = energy(&mut ewald, &system);
    assert!(ewald.updater().is_none());

    // a first move is proposed and the next one takes its place
    let shifted: Vec<Vector> = (0..3).map(|i| vadd(system.positions[i], [0.1, 0.0, 0.0])).collect();
    let _ = move_molecule_cost(&mut ewald, &system, 0, &shifted);
    let first = ewald.updater().clone().unwrap();
    let rho_before = ewald.rho().clone();
    let _ = move_molecule_cost(&mut ewald, &system, 0, &NEW_POSITIONS);
    let second = ewald.updater().clone().unwrap();
    assert_eq!(first.len(), second.len());
    assert!(first != second);
    // nothing is published before the update
    assert_eq!(ewald.rho(), &rho_before);

    ewald.update(&cadd);
    assert!(ewald.updater().is_none());
    for n in 0..rho_before.len() {
        assert_eq!(ewald.rho()[n], cadd(rho_before[n], second[n]));
    }
    // a second update finds nothing to apply
    let committed = ewald.rho().clone();
    ewald.update(&cadd);
    assert_eq!(ewald.rho(), &committed);

    // the structure factor is the one of the moved system
    for i in 0..3 {
        system.positions[i] = NEW_POSITIONS[i];
    }
    let mut fresh = solver(8.0, 10, None);
    fresh.set_restriction(PairRestriction::InterMolecular);
    let expected = energy(&mut fresh, &system);
    for n in 0..committed.len() {
        assert!(close(committed[n].re, fresh.rho()[n].re, 1e-12));
        assert!(close(committed[n].im, fresh.rho()[n].im, 1e-12));
    }
    let after = energy(&mut ewald, &system);
    assert!(relatively_close(after, expected, 1e-10));
}

#[test]
fn scaling() {
    // positions and cell scaled by s give the energy divided by s, with the
    // parameters of the summation scaled along
    let system = nacl_pair();
    let mut ewald = solver(8.0, 10, None);
    let e = energy(&mut ewald, &system);

    let s = 2.0;
    let mut scaled = system.clone();
    scaled.cell = Cell::cubic(20.0 * s);
    for position in scaled.positions.iter_mut() {
        *position = vscale(s, *position);
    }
    let mut ewald = solver(8.0 * s, 10, None);
    let e_scaled = energy(&mut ewald, &scaled);
    assert!(relatively_close(e_scaled, e / s, 1e-10));
}

#[test]
fn precompute_guard() {
    let system = nacl_pair();
    let mut ewald = solver(8.0, 5, None);
    assert!(precompute(&mut ewald, &system.cell));
    let kvecs = ewald.factors().kvecs.clone();
    let kmax2 = ewald.parameters().kmax2;
    assert!(!kvecs.is_empty());
    // the same cell again: nothing is computed
    assert!(!precompute(&mut ewald, &system.cell));
    assert_eq!(ewald.factors().kvecs, kvecs);
    // another cell: the table is computed anew
    assert!(precompute(&mut ewald, &Cell::cubic(30.0)));
    assert!(ewald.parameters().kmax2 != kmax2);
    assert_eq!(ewald.factors().energy.len(), ewald.factors().kvecs.len());
    assert_eq!(ewald.factors().efield.len(), ewald.factors().kvecs.len());
    assert_eq!(ewald.factors().virial.len(), ewald.factors().kvecs.len());
}

#[test]
fn phase_factors() {
    let system = water();
    let mut ewald = solver(8.0, 4, None);
    precompute(&mut ewald, &system.cell);
    eik_dot_r(&mut ewald, &system);
    let table = ewald.eikr();
    for d in 0..3 {
        for i in 0..3 {
            assert_eq!(*table.index((0, d, i)), ONE);
            let first = *table.index((1, d, i));
            let mut index = [0.0; 3];
            index[d] = 1.0;
            let angle = dot(system.cell.k_vector(index), system.positions[i]);
            assert_eq!(first, polar(1.0, angle));
            for k in 2..5isize {
                let below = *table.index((k - 1, d, i));
                assert_eq!(*table.index((k, d, i)), cmul(below, first));
            }
            for k in 1..5isize {
                assert_eq!(*table.index((-k, d, i)), conj(*table.index((k, d, i))));
            }
        }
    }
    // the structure factor is the charge weighted sum of phases
    for (n, k) in ewald.factors().kvecs.iter().enumerate() {
        let mut expected = ZERO;
        for i in 0..3 {
            let phi = cmul(
                cmul(*table.index((k.0, 0, i)), *table.index((k.1, 1, i))),
                *table.index((k.2, 2, i)),
            );
            expected = cadd(expected, cscale(system.charges[i], phi));
        }
        assert_eq!(ewald.rho()[n], expected);
    }
}

#[test]
fn molecular_virial() {
    // molecules of one particle each: the molecular virial is the atomic one
    let system = nacl_pair();
    let mut ewald = solver(8.0, 10, None);
    precompute(&mut ewald, &system.cell);
    let atomic = real_space_atomic_virial(&ewald, &system);
    let molecular = real_space_molecular_virial(&ewald, &system);
    for i in 0..3 {
        for j in 0..3 {
            assert!(relatively_close(atomic[i][j], molecular[i][j], 1e-12));
        }
    }
    assert!(atomic[0][0] != 0.0);

    // a single molecule has no pair of molecules
    let system = water();
    let molecular = real_space_molecular_virial(&ewald, &system);
    assert_eq!(molecular, [[0.0; 3]; 3]);

    // two rigid molecules: the trace is the sum over pairs of f . r_ij
    let system = two_waters();
    let mut ewald = solver(8.0, 10, None);
    ewald.set_restriction(PairRestriction::InterMolecular);
    precompute(&mut ewald, &system.cell);
    let molecular = real_space_molecular_virial(&ewald, &system);
    let r_ij = system.cell.image(vsub(centre(&system, 0), centre(&system, 1)));
    let mut expected = 0.0;
    for a in 0..3 {
        for b in 3..6 {
            let r_ab = system.nearest_image(a, b);
            let qq = system.charges[a] * system.charges[b];
            expected += force_pair(&ewald, false, qq, vnorm(r_ab)) * dot(r_ab, r_ij);
        }
    }
    assert!(relatively_close(trace(molecular), expected, 1e-12));
}

#[test]
fn forces_add_to_what_is_there() {
    let system = two_waters();
    let mut ewald = solver(8.0, 10, None);
    ewald.set_restriction(PairRestriction::InterMolecular);
    precompute(&mut ewald, &system.cell);
    let mut fresh = vec![[0.0; 3]; 6];
    real_space_forces(&ewald, &system, &mut fresh);
    let mut added = vec![[1.0, 2.0, 3.0]; 6];
    real_space_forces(&ewald, &system, &mut added);
    let mut total = [0.0; 3];
    for i in 0..6 {
        assert_eq!(added[i], vadd([1.0, 2.0, 3.0], fresh[i]));
        total = vadd(total, fresh[i]);
    }
    // every force has its opposite
    assert!(vnorm(total) < 1e-12);
}

#[test]
fn field_by_points() {
    let system = water();
    let mut ewald = solver(8.0, 10, None);
    precompute(&mut ewald, &system.cell);
    eik_dot_r(&mut ewald, &system);
    let field = |phi: Complex, rho: Complex, factor: Vector| {
        vscale(cmul(phi, conj(rho)).im, factor)
    };
    let natoms = system.size();
    let points = ewald.factors().kvecs.len();
    assert!(points > 0);

    ewald.kspace_field(natoms, &cmul, &field, &vadd, [0.0; 3]);
    let at_once = ewald.efield().clone();
    assert_eq!(at_once.len(), natoms);
    assert!(at_once.iter().any(|e| vnorm(*e) > 0.0));

    // one buffer that takes the points in order holds the same sums
    let mut buffer = vec![[0.0; 3]; natoms];
    for n in 0..points {
        ewald.kspace_point_field(natoms, n, &cmul, &field, &vadd, &mut buffer);
    }
    ewald.gather_field(natoms, &vec![buffer], &vadd, [0.0; 3]);
    assert_eq!(ewald.efield(), &at_once);

    // three buffers hold them up to rounding
    let mut buffers = vec![vec![[0.0; 3]; natoms]; 3];
    for n in 0..points {
        ewald.kspace_point_field(natoms, n, &cmul, &field, &vadd, &mut buffers[n % 3]);
    }
    ewald.gather_field(natoms, &buffers, &vadd, [0.0; 3]);
    for i in 0..natoms {
        for d in 0..3 {
            assert!(relatively_close(ewald.efield()[i][d], at_once[i][d], 1e-9));
        }
    }

    // the field is computed anew for fewer particles
    ewald.gather_field(2, &Vec::new(), &vadd, [0.0; 3]);
    assert_eq!(ewald.efield(), &vec![[0.0; 3]; 2]);
    let copy = ewald.duplicate();
    assert_eq!(copy.efield(), ewald.efield());
}

#[test]
fn computed_twice() {
    let system = water();
    let mut first = solver(8.0, 10, None);
    first.set_restriction(PairRestriction::InterMolecular);
    let mut second = solver(8.0, 10, None);
    second.set_restriction(PairRestriction::InterMolecular);
    // the second solver has seen another system before
    let _ = energy(&mut second, &two_waters());
    let _ = move_molecule_cost(&mut second, &two_waters(), 0, &NEW_POSITIONS);
    second.update(&cadd);
    assert!(precompute(&mut second, &Cell::cubic(18.0)));

    let one = energy(&mut first, &system);
    let other = energy(&mut second, &system);
    assert_eq!(one.to_bits(), other.to_bits());
    assert_eq!(first.factors().kvecs, second.factors().kvecs);
    assert_eq!(first.factors().energy, second.factors().energy);
    assert_eq!(first.factors().efield, second.factors().efield);
    assert_eq!(first.factors().virial, second.factors().virial);
    assert_eq!(first.rho(), second.rho());
    let again = energy(&mut first, &system);
    assert_eq!(one.to_bits(), again.to_bits());
}
