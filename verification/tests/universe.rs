//! Systems of particles.

use lumol::cell::{CellShape, RawVector, UnitCell};
use lumol::particle::{Particle, NO_KIND};
use lumol::universe::Universe;

#[test]
fn particles() {
    let mut universe = Universe::new();
    universe.add_particle(Particle::new("O"));
    universe.add_particle(Particle::new("H"));
    universe.add_particle(Particle::new("H"));

    assert_eq!(universe.size(), 3);
    assert_eq!(universe.index(0).name(), "O");
    assert_eq!(universe.index(1).name(), "H");
    assert_eq!(universe.index(2).name(), "H");
}

#[test]
fn kinds() {
    let mut universe = Universe::new();
    assert_eq!(Particle::new("O").kind(), NO_KIND);
    universe.add_particle(Particle::new("O"));
    universe.add_particle(Particle::new("H"));
    universe.add_particle(Particle::new("H"));
    universe.add_particle(Particle::new("C"));
    let kinds: Vec<u16> = universe.iter().map(|p| p.kind()).collect();
    assert_eq!(kinds, vec![0, 1, 1, 2]);

    assert_eq!(universe.get_kind("H"), 1);
    assert_eq!(universe.get_kind("N"), 3);
    assert_eq!(universe.get_kind("N"), 3);
    assert_eq!(universe.get_kind("O"), 0);

    // a particle that has a kind keeps it
    let mut odd = Particle::new("Zn");
    odd.set_kind(42);
    universe.add_particle(odd);
    assert_eq!(universe.index(4).kind(), 42);
    assert_eq!(universe.get_kind("Zn"), 4);
}

#[test]
fn cell_of_a_universe() {
    let length = 5.0f64.to_bits();
    let cubic = UnitCell::with_edges(
        CellShape::Orthorhombic,
        RawVector { x: length, y: 0, z: 0 },
        RawVector { x: 0, y: length, z: 0 },
        RawVector { x: 0, y: 0, z: length },
    );
    let mut universe = Universe::from_cell(cubic);
    assert_eq!(*universe.cell(), cubic);
    assert_eq!(universe.size(), 0);
    assert!(!universe.cell().is_infinite());

    universe.set_cell(UnitCell::new());
    assert_eq!(*universe.cell(), UnitCell::new());
    assert!(universe.cell().is_infinite());
    assert_eq!(Universe::new().cell().shape(), CellShape::Infinite);
    assert!(cubic.same_as(&cubic));
    assert!(!cubic.same_as(&UnitCell::new()));
    assert_eq!(cubic.edges().0.x, length);
}

#[test]
fn iteration() {
    let mut universe = Universe::new();
    universe.add_particle(Particle::new("Ag"));
    universe.add_particle(Particle::new("Ag"));
    for particle in universe.iter_mut() {
        particle.mass = 107.8682f64.to_bits();
    }
    universe.index_mut(1).velocity.x = 1.0f64.to_bits();
    let total: f64 = universe.iter().map(|p| f64::from_bits(p.mass)).sum();
    assert_eq!(total, 2.0 * 107.8682);
    assert_eq!(universe.index(0).velocity.x, 0);
    assert_eq!(f64::from_bits(universe.index(1).velocity.x), 1.0);
    assert_eq!(universe.iter().count(), 2);
}

#[test]
fn interactions() {
    let mut universe = Universe::new();
    universe.add_particle(Particle::new("He"));

    universe.add_pair_interaction("He", "He", 0);
    universe.add_pair_interaction("He", "He", 1);
    assert_eq!(universe.pairs(0, 0).len(), 2);
    assert_eq!(universe.pairs(0, 0), &vec![0, 1]);

    universe.add_angle_interaction("He", "He", "He", 1);
    assert_eq!(universe.angles(0, 0, 0).len(), 1);

    universe.add_dihedral_interaction("He", "He", "He", "He", 2);
    assert_eq!(universe.dihedrals(0, 0, 0, 0).len(), 1);
    assert_eq!(universe.dihedrals(0, 0, 0, 0), &vec![2]);
}

#[test]
fn interactions_by_kind() {
    let mut universe = Universe::new();
    universe.add_particle(Particle::new("Na"));
    universe.add_particle(Particle::new("Cl"));
    universe.add_pair_interaction("Na", "Cl", 7);
    universe.add_pair_interaction("Ar", "Ar", 8);

    assert_eq!(universe.try_pairs(0, 1), Some(&vec![7]));
    // the order of the kinds matters, and nothing is declared for the others
    assert_eq!(universe.try_pairs(1, 0), None);
    assert_eq!(universe.try_pairs(0, 0), None);
    assert_eq!(universe.try_angles(0, 1, 0), None);
    assert_eq!(universe.try_dihedrals(0, 1, 0, 1), None);

    universe.add_particle(Particle::new("Ar"));
    assert_eq!(universe.index(2).kind(), 2);
    assert_eq!(universe.try_pairs(2, 2), Some(&vec![8]));

    universe.add_angle_interaction("Na", "Cl", "Na", 3);
    assert_eq!(universe.try_angles(0, 1, 0), Some(&vec![3]));
    assert_eq!(universe.try_angles(1, 0, 1), None);
    assert_eq!(universe.try_pairs(0, 1), Some(&vec![7]));
}
