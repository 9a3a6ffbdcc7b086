//! Bonds and molecules.

use lumol::restriction::BondPath;
use lumol::topology::Topology;

fn chain(length: usize) -> Topology {
    let mut topology = Topology::new();
    for i in 0..length {
        assert_eq!(topology.add_particle(), i);
    }
    for i in 1..length {
        topology.add_bond(i - 1, i);
    }
    topology
}

#[test]
fn particles_are_molecules() {
    let mut topology = Topology::new();
    assert_eq!(topology.size(), 0);
    assert_eq!(topology.molecule_count(), 0);
    assert!(topology.molecules().is_empty());
    for _ in 0..3 {
        topology.add_particle();
    }
    assert_eq!(topology.size(), 3);
    assert_eq!(topology.molecule_count(), 3);
    assert_eq!(topology.molecules(), vec![vec![0], vec![1], vec![2]]);
    assert_eq!(topology.bond_path(0, 0), BondPath::SameParticle);
    assert_eq!(topology.bond_path(0, 1), BondPath::Disconnected);
    assert!(!topology.are_bonded(0, 1));
}

#[test]
fn bonds_merge_molecules() {
    let mut topology = Topology::new();
    for _ in 0..6 {
        topology.add_particle();
    }
    topology.add_bond(4, 1);
    assert_eq!(topology.molecules(), vec![vec![0], vec![1, 4], vec![2], vec![3], vec![5]]);
    assert_eq!(topology.molecule_id(4), 1);
    assert_eq!(topology.molecule_id(5), 4);
    topology.add_bond(5, 2);
    assert_eq!(topology.molecules(), vec![vec![0], vec![1, 4], vec![2, 5], vec![3]]);
    topology.add_bond(5, 4);
    assert_eq!(topology.molecules(), vec![vec![0], vec![1, 2, 4, 5], vec![3]]);
    assert_eq!(topology.molecule_count(), 3);
    assert_eq!(topology.molecule_id(3), 2);

    // a bond inside a molecule, and a bond that is there already
    topology.add_bond(1, 2);
    topology.add_bond(4, 1);
    topology.add_bond(1, 4);
    assert_eq!(topology.molecules(), vec![vec![0], vec![1, 2, 4, 5], vec![3]]);
    assert!(topology.are_bonded(1, 4) && topology.are_bonded(4, 1));
    assert!(topology.are_bonded(2, 1) && topology.are_bonded(2, 5));
    assert!(!topology.are_bonded(1, 5));
    assert!(!topology.are_bonded(0, 3));
    assert_eq!(topology.size(), 6);
}

#[test]
fn bond_paths() {
    let topology = chain(6);
    assert_eq!(topology.molecule_count(), 1);
    assert_eq!(topology.bond_path(2, 2), BondPath::SameParticle);
    assert_eq!(topology.bond_path(0, 1), BondPath::OneBond);
    assert_eq!(topology.bond_path(1, 0), BondPath::OneBond);
    assert_eq!(topology.bond_path(0, 2), BondPath::TwoBonds);
    assert_eq!(topology.bond_path(3, 1), BondPath::TwoBonds);
    assert_eq!(topology.bond_path(0, 3), BondPath::ThreeBonds);
    assert_eq!(topology.bond_path(5, 2), BondPath::ThreeBonds);
    assert_eq!(topology.bond_path(0, 4), BondPath::Far);
    assert_eq!(topology.bond_path(5, 0), BondPath::Far);
}

#[test]
fn shortest_path_counts() {
    // a ring of four and a tail: 0-1-2-3-0, 3-4
    let mut topology = chain(5);
    topology.add_bond(3, 0);
    assert_eq!(topology.bond_path(0, 3), BondPath::OneBond);
    assert_eq!(topology.bond_path(0, 2), BondPath::TwoBonds);
    assert_eq!(topology.bond_path(0, 4), BondPath::TwoBonds);
    assert_eq!(topology.bond_path(1, 4), BondPath::ThreeBonds);
    assert_eq!(topology.bond_path(1, 3), BondPath::TwoBonds);

    // water: the two hydrogens are two bonds apart
    let mut water = Topology::new();
    for _ in 0..3 {
        water.add_particle();
    }
    water.add_bond(0, 1);
    water.add_bond(0, 2);
    assert_eq!(water.bond_path(1, 2), BondPath::TwoBonds);
    assert_eq!(water.molecules(), vec![vec![0, 1, 2]]);
}
