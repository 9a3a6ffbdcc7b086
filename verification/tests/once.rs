//! Messages that are given once.

use lumol::once::WarnOnce;

#[test]
fn once_per_message() {
    let mut once = WarnOnce::new();
    assert!(once.first_time("the cutoff is too high"));
    assert!(!once.first_time("the cutoff is too high"));
    assert!(once.first_time("alpha is too low"));
    assert!(!once.first_time("the cutoff is too high"));
    assert!(!once.first_time("alpha is too low"));
    assert!(once.first_time(""));
    assert!(!once.first_time(""));
    assert!(once.first_time("the cutoff is too high "));
}
