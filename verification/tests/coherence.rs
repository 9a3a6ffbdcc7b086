//! The structure factor after a move, with exact arithmetic: numbers modulo a
//! prime stand for the complex numbers.

use lumol::cell::{CellShape, RawVector, UnitCell};
use lumol::ewald::Ewald;

const P: u64 = 1_000_003;

fn times(a: u64, b: u64) -> u64 {
    a * b % P
}

fn plus(a: u64, b: u64) -> u64 {
    (a + b) % P
}

fn minus(a: u64, b: u64) -> u64 {
    (a + P - b) % P
}

fn power(base: u64, exponent: u64) -> u64 {
    let mut result = 1;
    for _ in 0..exponent {
        result = times(result, base);
    }
    result
}

/// The inverse takes the place of the conjugate of a number of norm one.
fn inverse(a: u64) -> u64 {
    let mut result = 1;
    let mut base = a;
    let mut exponent = P - 2;
    while exponent > 0 {
        if exponent % 2 == 1 {
            result = times(result, base);
        }
        base = times(base, base);
        exponent /= 2;
    }
    result
}

type Exact = Ewald<u64, u64, u64, u64>;

fn exact_solver(kmax: usize) -> Exact {
    let mut ewald: Exact = Ewald::new(8, kmax, 1, 0);
    let edge = |x: u64, y: u64, z: u64| RawVector { x, y, z };
    let cell = UnitCell::with_edges(
        CellShape::Orthorhombic,
        edge(10, 0, 0),
        edge(0, 10, 0),
        edge(0, 0, 10),
    );
    let factor = |ikx: isize, iky: isize, ikz: isize| {
        let weight = (ikx * ikx + 3 * iky * iky + 5 * ikz * ikz) as u64;
        Some((weight, weight, weight))
    };
    assert!(ewald.precompute(&cell, 0, &factor));
    ewald
}

fn structure_factor(ewald: &mut Exact, places: &Vec<[u64; 3]>, charges: &Vec<u64>) {
    let unit = |d: usize, i: usize| power(7, places[i][d]);
    let weigh = |i: usize, phi: u64| times(charges[i], phi);
    ewald.eik_dot_r(places.len(), &unit, &times, &inverse, &weigh, &plus, 1, 0);
}

#[test]
fn committed_is_renewed() {
    let charges = vec![3, 999_999, 5, 0, 11, 999_990];
    let mut places = vec![[1, 2, 3], [4, 5, 6], [7, 8, 9], [1, 1, 1], [2, 7, 1], [8, 2, 8]];
    let molecule = vec![4, 1, 2];
    let moved = vec![[5, 5, 5], [9, 1, 4], [3, 3, 8]];

    let mut ewald = exact_solver(3);
    let points = ewald.factors().kvecs.len();
    assert!(points > 50);
    structure_factor(&mut ewald, &places, &charges);
    let before = ewald.rho().clone();

    let unit = |d: usize, i: usize| power(7, moved[i][d]);
    let weigh = |i: usize, phi: u64| times(charges[i], phi);
    let cost = |factors: &Vec<u64>, rho: &Vec<u64>, delta: &Vec<u64>| {
        let mut change = 0;
        for n in 0..factors.len() {
            let after = times(factors[n] % P, plus(rho[n], delta[n]));
            change = plus(change, minus(after, times(factors[n] % P, rho[n])));
        }
        change
    };
    let change = ewald.kspace_move_molecule_cost(
        &molecule, &unit, &times, &inverse, &minus, &weigh, &plus, 1, 0, &cost,
    );
    assert_eq!(ewald.rho(), &before);
    ewald.update(&plus);
    let committed = ewald.rho().clone();
    assert!(committed != before);

    for (m, &part) in molecule.iter().enumerate() {
        places[part] = moved[m];
    }
    let mut fresh = exact_solver(3);
    structure_factor(&mut fresh, &places, &charges);
    assert_eq!(&committed, fresh.rho());

    // the cost is the change of the weighed sum
    let weighed = |rho: &Vec<u64>| {
        let mut total = 0;
        for n in 0..points {
            total = plus(total, times(ewald.factors().energy[n] % P, rho[n]));
        }
        total
    };
    assert_eq!(change, minus(weighed(&committed), weighed(&before)));

    // the solver that went on computes what the fresh one computes
    structure_factor(&mut ewald, &places, &charges);
    assert_eq!(ewald.rho(), fresh.rho());
}
