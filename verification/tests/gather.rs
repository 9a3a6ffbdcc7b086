//! Buffers of the workers, and their sum.

use lumol::forces::{local_forces, row_forces};
use lumol::gather::{sum_into, zeroed};

#[test]
fn zeroed_buffer() {
    assert_eq!(zeroed(3, 7u8), vec![7, 7, 7]);
    assert_eq!(zeroed(0, 7u8), Vec::<u8>::new());
}

#[test]
fn buffers_are_added_in_order() {
    // an addition that appends a digit shows the order
    let plus = |a: u64, b: u64| 10 * a + b;
    let buffers = vec![vec![1, 2], vec![3, 4], vec![5, 6]];
    let mut output = vec![7, 8];
    sum_into(&buffers, &plus, &mut output);
    assert_eq!(output, vec![7135, 8246]);

    // without buffers nothing is added
    let mut output = vec![7, 8];
    sum_into(&Vec::new(), &plus, &mut output);
    assert_eq!(output, vec![7, 8]);

    // without particles there is nothing to add to
    let mut output: Vec<u64> = Vec::new();
    sum_into(&vec![Vec::new(), Vec::new()], &plus, &mut output);
    assert!(output.is_empty());
}

#[test]
fn one_row_in_a_buffer() {
    let charged = vec![true, true, false, true];
    let pair = |i: usize, j: usize| (10 * (i + 1) + j + 1) as i64;
    let plus = |a: i64, b: i64| 100 * a + b;
    let minus = |a: i64, b: i64| -(100 * a.abs() + b);

    // row 0 holds the pairs (0, 1) = 12 and (0, 3) = 14
    let mut buffer = vec![7, 7, 7, 7];
    row_forces(&charged, &pair, &plus, &minus, 0, 0, &mut buffer);
    assert_eq!(buffer, vec![700 + 1214, -712, 7, -714]);

    // row 1 holds the pair (1, 3) = 24, and leaves the entry before it
    let mut buffer = vec![7, 7, 7, 7];
    row_forces(&charged, &pair, &plus, &minus, 0, 1, &mut buffer);
    assert_eq!(buffer, vec![7, 724, 7, -724]);

    // the row of a particle without charge is empty
    let mut buffer = vec![7, 7, 7, 7];
    row_forces(&charged, &pair, &plus, &minus, 0, 2, &mut buffer);
    assert_eq!(buffer, vec![7, 7, 7, 7]);

    // the last row has no pair: the sum of no forces is added
    let mut buffer = vec![7, 7, 7, 7];
    row_forces(&charged, &pair, &plus, &minus, 0, 3, &mut buffer);
    assert_eq!(buffer, vec![7, 7, 7, 700]);
}

#[test]
fn all_rows_in_one_buffer() {
    let charged = vec![true, true, false, true, true];
    let pair = |i: usize, j: usize| (10 * (i + 1) + j + 1) as i64;
    let plus = |a: i64, b: i64| 100 * a + b;
    let minus = |a: i64, b: i64| -(100 * a.abs() + b);
    let mut buffer = zeroed(5, 0);
    for i in 0..5 {
        row_forces(&charged, &pair, &plus, &minus, 0, i, &mut buffer);
    }
    assert_eq!(buffer, local_forces(&charged, &pair, &plus, &minus, 0));
}

#[test]
fn rows_shared_out() {
    // with a true addition the share of the rows does not matter
    let charged = vec![true, false, true, true, true, true];
    let pair = |i: usize, j: usize| (7 * i + 3 * j + 1) as i64;
    let plus = |a: i64, b: i64| a + b;
    let minus = |a: i64, b: i64| a - b;
    let mut buffers = vec![zeroed(6, 0), zeroed(6, 0), zeroed(6, 0)];
    for i in 0..6 {
        row_forces(&charged, &pair, &plus, &minus, 0, i, &mut buffers[i % 3]);
    }
    let mut forces = vec![100; 6];
    sum_into(&buffers, &plus, &mut forces);
    let locals = local_forces(&charged, &pair, &plus, &minus, 0);
    for a in 0..6 {
        assert_eq!(forces[a], 100 + locals[a]);
    }
    // every force has its opposite
    assert_eq!(locals.iter().sum::<i64>(), 0);
    assert_eq!(locals[1], 0);
}
