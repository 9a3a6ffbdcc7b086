//! The counter of attempts of a move.

use lumol::counter::MoveCounter;
use lumol::restriction::{BondPath, PairRestriction};

fn scale(accepted: u64, attempted: u64, target: f64) -> f64 {
    let quotient = accepted as f64 / attempted as f64 / target;
    if quotient > 1.2 {
        1.2
    } else if quotient < 0.8 {
        0.8
    } else {
        quotient
    }
}

fn ratio(accepted: u64, attempted: u64) -> f64 {
    accepted as f64 / attempted as f64
}

#[test]
fn scaling_factor() {
    let mut counter = MoveCounter::new(Some(0.5));
    assert_eq!(counter.compute_scaling_factor(&scale), None);
    counter.attempted = 100;
    counter.accepted = 100;
    assert_eq!(counter.compute_scaling_factor(&scale), Some(1.2));
    counter.accepted = 0;
    assert_eq!(counter.compute_scaling_factor(&scale), Some(0.8));
    counter.accepted = 55;
    assert_eq!(counter.compute_scaling_factor(&scale), Some(1.1));
}

#[test]
fn valid_acceptance() {
    let mut counter = MoveCounter::new(Some(0.5));
    assert_eq!(counter.target_acceptance, Some(0.5));
    counter.set_acceptance(None);
    assert_eq!(counter.target_acceptance, None);
    assert_eq!(counter.compute_scaling_factor(&scale), None);
}

#[test]
fn counting() {
    let mut counter = MoveCounter::new(Some(0.5));
    assert_eq!(counter.acceptance(&ratio, 0.0), 0.0);
    counter.accept();
    assert_eq!(counter.compute_scaling_factor(&scale), Some(1.2));
    counter.update();
    assert_eq!(counter.compute_scaling_factor(&scale), None);
    assert_eq!(counter.acceptance(&ratio, 0.0), 1.0);

    counter.reject();
    assert_eq!(counter.compute_scaling_factor(&scale), Some(0.8));
    assert_eq!(counter.acceptance(&ratio, 0.0), 0.5);
    assert_eq!(
        (counter.total_attempted, counter.total_accepted, counter.attempted, counter.accepted),
        (2, 1, 1, 0)
    );
    assert!(counter.is_due(1));
    assert!(!counter.is_due(2));
}

#[test]
fn full_counter() {
    let mut counter: MoveCounter<f64> = MoveCounter::new(None);
    counter.total_attempted = u64::MAX;
    assert!(!counter.record(true));
    assert_eq!(counter.total_attempted, u64::MAX);
    assert_eq!(counter.accepted, 0);
    counter.total_attempted = 5;
    assert!(counter.record(true));
    assert!(counter.record(false));
    assert_eq!(
        (counter.total_attempted, counter.total_accepted, counter.attempted, counter.accepted),
        (7, 1, 2, 1)
    );
}

#[test]
fn restrictions() {
    let paths = [
        BondPath::Disconnected,
        BondPath::SameParticle,
        BondPath::OneBond,
        BondPath::TwoBonds,
        BondPath::ThreeBonds,
        BondPath::Far,
    ];
    for path in paths {
        assert!(!PairRestriction::Unrestricted.information(path).excluded);
        let excluded = PairRestriction::InterMolecular.information(path).excluded;
        assert_eq!(excluded, path != BondPath::Disconnected);
    }
}
