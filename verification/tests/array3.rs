//! The table with a signed first index.

use lumol::array3::Ewald3DArray;

#[test]
fn zeros() {
    let array = Ewald3DArray::zeros((-6..5, 8, 2), 0u32);
    for i in -6..5isize {
        for j in 0..8 {
            for k in 0..2 {
                assert!(array.contains((i, j, k)));
                assert_eq!(*array.index((i, j, k)), 0);
            }
        }
    }
    assert!(!array.contains((-7, 0, 0)));
    assert!(!array.contains((5, 0, 0)));
    assert!(!array.contains((0, 8, 0)));
    assert!(!array.contains((0, 0, 2)));
}

#[test]
fn negative_indexing() {
    let mut array = Ewald3DArray::zeros((-6..5, 8, 2), 0.0f64);
    *array.index_mut((-4, 2, 1)) = 1.2;
    *array.index_mut((3, 0, 0)) = 2.2;
    *array.index_mut((-6, 7, 1)) = 3.2;
    *array.index_mut((4, 7, 1)) = 4.2;
    assert_eq!(*array.index((-4, 2, 1)), 1.2);
    assert_eq!(*array.index((3, 0, 0)), 2.2);
    assert_eq!(*array.index((-6, 7, 1)), 3.2);
    assert_eq!(*array.index((4, 7, 1)), 4.2);
    let mut others = 0;
    for i in -6..5isize {
        for j in 0..8 {
            for k in 0..2 {
                if *array.index((i, j, k)) == 0.0 {
                    others += 1;
                }
            }
        }
    }
    assert_eq!(others, 11 * 8 * 2 - 4);
}

#[test]
fn every_entry_has_its_own_place() {
    let mut array = Ewald3DArray::zeros((-2..3, 3, 4), (0isize, 0usize, 0usize));
    for i in -2..3isize {
        for j in 0..3 {
            for k in 0..4 {
                *array.index_mut((i, j, k)) = (i, j, k);
            }
        }
    }
    for i in -2..3isize {
        for j in 0..3 {
            for k in 0..4 {
                assert_eq!(*array.index((i, j, k)), (i, j, k));
            }
        }
    }
}

#[test]
fn resize_if_different() {
    let mut array = Ewald3DArray::zeros((-1..2, 3, 2), 0i32);
    *array.index_mut((-1, 0, 0)) = 7;
    *array.index_mut((1, 2, 1)) = 9;

    // the same lengths: the entries stay and the first axis is renumbered
    array.resize_if_different((0..3, 3, 2), 0);
    assert_eq!(*array.index((0, 0, 0)), 7);
    assert_eq!(*array.index((2, 2, 1)), 9);
    assert!(!array.contains((-1, 0, 0)));

    // other lengths: the table is filled anew
    array.resize_if_different((-2..3, 3, 2), 5);
    for i in -2..3isize {
        for j in 0..3 {
            for k in 0..2 {
                assert_eq!(*array.index((i, j, k)), 5);
            }
        }
    }
}

#[test]
fn empty_and_duplicate() {
    let empty: Ewald3DArray<u8> = Ewald3DArray::new();
    assert!(!empty.contains((0, 0, 0)));

    let mut array = Ewald3DArray::zeros((-1..1, 1, 2), 'a');
    *array.index_mut((-1, 0, 1)) = 'b';
    let copy = array.duplicate();
    *array.index_mut((0, 0, 0)) = 'c';
    assert_eq!(*copy.index((-1, 0, 0)), 'a');
    assert_eq!(*copy.index((-1, 0, 1)), 'b');
    assert_eq!(*copy.index((0, 0, 0)), 'a');
    assert_eq!(*array.index((0, 0, 0)), 'c');
}
