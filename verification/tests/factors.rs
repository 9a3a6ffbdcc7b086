//! The enumeration of the points of reciprocal space.

use lumol::cell::{CellShape, RawVector, UnitCell};
use lumol::factors::{capacity_for, EwaldFactors};

fn cell(shape: CellShape) -> UnitCell {
    let bits = 20.0f64.to_bits();
    UnitCell::with_edges(
        shape,
        RawVector { x: bits, y: 0, z: 0 },
        RawVector { x: 0, y: bits, z: 0 },
        RawVector { x: 0, y: 0, z: bits },
    )
}

fn all_points(kmax: isize) -> Vec<(isize, isize, isize)> {
    let mut factors: EwaldFactors<(), (), ()> = EwaldFactors::new();
    factors.compute(&cell(CellShape::Triclinic), kmax, &|_, _, _| Some(((), (), ())));
    factors.kvecs
}

#[test]
fn enumeration_for_two() {
    let expected = vec![
        (1, -2, -2),
        (1, -2, -1),
        (1, -2, 0),
        (1, -2, 1),
        (1, -1, -2),
        (1, -1, -1),
        (1, -1, 0),
        (1, -1, 1),
        (1, 0, -2),
        (1, 0, -1),
        (1, 0, 0),
        (1, 0, 1),
        (1, 1, -2),
        (1, 1, -1),
        (1, 1, 0),
        (1, 1, 1),
        (0, 1, -2),
        (0, 1, -1),
        (0, 1, 0),
        (0, 1, 1),
        (0, 0, 1),
    ];
    assert_eq!(all_points(2), expected);
}

#[test]
fn enumeration_for_one_is_empty() {
    assert_eq!(all_points(1), vec![]);
}

#[test]
fn number_of_points() {
    for kmax in 1..8isize {
        let count = (kmax - 1) * (4 * kmax * kmax + 2 * kmax + 1);
        assert_eq!(all_points(kmax).len() as isize, count);
        assert!(count as usize <= capacity_for(kmax).unwrap());
    }
}

#[test]
fn open_upper_end() {
    let points = all_points(4);
    // no index reaches kmax, the lower end -kmax is taken
    assert!(points.iter().all(|k| k.0 < 4 && k.1 < 4 && k.2 < 4));
    assert!(points.contains(&(1, -4, -4)));
    assert!(points.contains(&(0, 1, -4)));
    assert!(!points.contains(&(1, 4, 0)));
    assert!(!points.contains(&(4, 0, 0)));
    assert!(!points.contains(&(0, 0, 4)));
}

#[test]
fn one_point_of_each_pair() {
    let points = all_points(5);
    assert!(!points.contains(&(0, 0, 0)));
    for k in &points {
        assert!(!points.contains(&(-k.0, -k.1, -k.2)));
    }
    let mut sorted = points.clone();
    sorted.sort();
    sorted.dedup();
    assert_eq!(sorted.len(), points.len());
}

#[test]
fn spherical_cutoff() {
    let kmax = 6;
    let inside = |x: isize, y: isize, z: isize| x * x + y * y + z * z <= 20;
    let factor = |x: isize, y: isize, z: isize| {
        if inside(x, y, z) {
            Some((x * x + y * y + z * z, (x, y, z), [x, y, z]))
        } else {
            None
        }
    };
    let mut factors = EwaldFactors::new();
    factors.compute(&cell(CellShape::Orthorhombic), kmax, &factor);

    let expected: Vec<(isize, isize, isize)> =
        all_points(kmax).into_iter().filter(|k| inside(k.0, k.1, k.2)).collect();
    assert_eq!(factors.kvecs, expected);
    assert_eq!(factors.energy.len(), expected.len());
    assert_eq!(factors.efield.len(), expected.len());
    assert_eq!(factors.virial.len(), expected.len());
    for (n, k) in expected.iter().enumerate() {
        assert_eq!(factors.energy[n], k.0 * k.0 + k.1 * k.1 + k.2 * k.2);
        assert_eq!(factors.efield[n], *k);
        assert_eq!(factors.virial[n], [k.0, k.1, k.2]);
    }
}

#[test]
fn compute_starts_afresh() {
    let mut factors: EwaldFactors<(), (), ()> = EwaldFactors::new();
    let shape = cell(CellShape::Orthorhombic);
    factors.compute(&shape, 3, &|_, _, _| Some(((), (), ())));
    let first = factors.kvecs.clone();
    factors.compute(&shape, 3, &|_, _, _| Some(((), (), ())));
    assert_eq!(factors.kvecs, first);
    factors.compute(&shape, 2, &|_, _, _| Some(((), (), ())));
    assert_eq!(factors.kvecs.len(), 21);
    factors.compute(&shape, 2, &|_, _, _| None);
    assert!(factors.kvecs.is_empty());
    assert!(factors.energy.is_empty());
}

#[test]
fn room_for_the_points() {
    assert_eq!(capacity_for(1), Some(13));
    assert_eq!(capacity_for(10), Some(4630));
    assert_eq!(capacity_for(isize::MAX), None);
    assert_eq!(capacity_for(3_000_000), None);
}
