//! Sums over pairs of charged particles.

use lumol::forces::{local_forces, real_space_forces};
use lumol::molecular::{molecule_pair_sum, molecule_row_sum};
use lumol::realspace::{move_sum, pair_row, pair_sum};

#[test]
fn pairs_in_order() {
    let charged = vec![true, false, true, true, false, true];
    // each pair has a weight of its own
    let weight = |i: usize, j: usize| 1u64 << (6 * i + j);
    let total = pair_sum(&charged, &weight, &|a: u64, b: u64| a + b, 0);
    let mut expected = 0;
    for (i, j) in [(0, 2), (0, 3), (0, 5), (2, 3), (2, 5), (3, 5)] {
        expected += 1u64 << (6 * i + j);
    }
    assert_eq!(total, expected);
}

#[test]
fn rows_are_summed_apart() {
    // an addition that appends digits shows how the terms are grouped
    let charged = vec![true, true, true];
    let pair = |i: usize, j: usize| (i + 2 * j) as i64;
    let plus = |a: i64, b: i64| 10 * a + b;
    // the terms are (0,1) = 2, (0,2) = 4 and (1,2) = 5
    // row 0: (0*10 + 2)*10 + 4 = 24, row 1: 5, row 2: 0
    // total: ((0*10 + 24)*10 + 5)*10 + 0
    assert_eq!(pair_sum(&charged, &pair, &plus, 0), 2450);
    // an uncharged particle contributes zero, and is skipped as a partner
    let charged = vec![true, false, true];
    // row 0: (0,2) = 4, row 1: 0, row 2: 0
    assert_eq!(pair_sum(&charged, &pair, &plus, 0), 400);
    assert_eq!(pair_sum(&vec![], &pair, &plus, 3), 3);
}

#[test]
fn move_pairs() {
    // three molecules, the second of them not contiguous
    let molecules = vec![vec![0, 1], vec![2, 5], vec![3, 4]];
    let charged = vec![true, true, true, false, true, true];
    let pair = |i: usize, part: usize, other: usize| (100 * i + 10 * part + other) as u64;
    let plus = |a: u64, b: u64| 1000 * a + b;
    // molecule 1 moves: its particles 2 and 5 meet 0, 1 and 4, in this order
    let mut expected = 0;
    for term in [20, 21, 24, 150, 151, 154] {
        expected = 1000 * expected + term;
    }
    assert_eq!(move_sum(&charged, &molecules, 1, &pair, &plus, 0), expected);

    // molecule 2 moves: particle 3 has no charge, particle 4 meets 0, 1, 2, 5
    let mut expected = 0;
    for term in [140, 141, 142, 145] {
        expected = 1000 * expected + term;
    }
    assert_eq!(move_sum(&charged, &molecules, 2, &pair, &plus, 0), expected);

    // a single molecule has no partner
    assert_eq!(move_sum(&vec![true, true], &vec![vec![0, 1]], 0, &pair, &plus, 9), 9);
}

#[test]
fn molecule_pairs() {
    let molecules = vec![vec![0, 3], vec![1], vec![2, 4]];
    let charged = vec![true, true, true, true, false];
    let pair = |i: usize, j: usize, a: usize, b: usize| (1000 * i + 100 * j + 10 * a + b) as u64;
    let plus = |a: u64, b: u64| 10_000 * a + b;
    // row 0: with molecule 1 the pairs (0,1), (3,1); with molecule 2 the
    // pairs (0,2), (3,2), particle 4 having no charge
    let mut row0 = 0;
    for term in [101, 131, 202, 232] {
        row0 = 10_000 * row0 + term;
    }
    // row 1: with molecule 2 the pair (1,2); row 2 is empty
    let row1 = 1212;
    let expected = 10_000 * (10_000 * (10_000 * 0 + row0) + row1) + 0;
    assert_eq!(molecule_pair_sum(&charged, &molecules, &pair, &plus, 0), expected);
    assert_eq!(molecule_pair_sum(&charged, &vec![], &pair, &plus, 5), 5);
}

#[test]
fn forces_in_order() {
    // forces are strings of digits: adding appends a digit pair, subtracting
    // appends it with a mark
    let charged = vec![true, true, false, true];
    let pair = |i: usize, j: usize| (10 * (i + 1) + j + 1) as i64;
    let plus = |a: i64, b: i64| 100 * a + b;
    let minus = |a: i64, b: i64| -(100 * a.abs() + b);
    let locals = local_forces(&charged, &pair, &plus, &minus, 0);
    // particle 0: own row (0,1), (0,3): 12 then 14 -> 1214, added to 0
    assert_eq!(locals[0], 1214);
    // particle 1: pulled by (0,1): -(12); own row (1,3): 24; added: 100 * -12 + 24
    assert_eq!(locals[1], -1176);
    // particle 2 has no charge
    assert_eq!(locals[2], 0);
    // particle 3: pulled by (0,3) and (1,3); its own row is empty
    assert_eq!(locals[3], 100 * -(100 * 14 + 24) + 0);

    let mut forces = vec![1, 2, 3, 4];
    real_space_forces(&charged, &pair, &plus, &minus, 0, &mut forces);
    assert_eq!(forces, vec![100 + locals[0], 200 + locals[1], 300, 400 + locals[3]]);
}

#[test]
fn rows_on_their_own() {
    let charged = vec![true, true, false, true];
    let pair = |i: usize, j: usize| (10 * i + j) as u64;
    let plus = |a: u64, b: u64| 100 * a + b;
    assert_eq!(pair_row(&charged, &pair, &plus, 0, 0), 103);
    assert_eq!(pair_row(&charged, &pair, &plus, 0, 1), 13);
    assert_eq!(pair_row(&charged, &pair, &plus, 7, 2), 7);
    assert_eq!(pair_row(&charged, &pair, &plus, 7, 3), 7);
    let rows: Vec<u64> = (0..4).map(|i| pair_row(&charged, &pair, &plus, 0, i)).collect();
    let total = rows.iter().fold(0, |total, row| plus(total, *row));
    assert_eq!(total, pair_sum(&charged, &pair, &plus, 0));

    let molecules = vec![vec![0, 3], vec![1], vec![2]];
    let pair = |i: usize, j: usize, a: usize, b: usize| (1000 * i + 100 * j + 10 * a + b) as u64;
    let plus = |a: u64, b: u64| 10_000 * a + b;
    let rows: Vec<u64> =
        (0..3).map(|i| molecule_row_sum(&charged, &molecules, &pair, &plus, 0, i)).collect();
    assert_eq!(rows, vec![10_000 * 101 + 131, 0, 0]);
    let total = rows.iter().fold(0, |total, row| plus(total, *row));
    assert_eq!(total, molecule_pair_sum(&charged, &molecules, &pair, &plus, 0));
}
