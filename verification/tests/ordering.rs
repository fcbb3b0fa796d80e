use contour_trace::curve::{Curve, Pos};
use contour_trace::kernel::{
    blur_kernel, horizontal_kernel, kernel_fits, vertical_kernel, window_cell, KERNEL_SIDE,
};
use contour_trace::length::{integer_root, segment_units};
use contour_trace::order::{length_order, order_curves};

fn curve_of(points: &[(i32, i32)]) -> Curve {
    Curve::new(points.iter().map(|&(x, y)| Pos::new(x, y)).collect())
}

#[test]
fn roots_are_rounded_down() {
    assert_eq!(integer_root(0), 0);
    assert_eq!(integer_root(1), 1);
    assert_eq!(integer_root(3), 1);
    assert_eq!(integer_root(4), 2);
    assert_eq!(integer_root(15), 3);
    assert_eq!(integer_root(16), 4);
    assert_eq!(integer_root(17), 4);
    assert_eq!(integer_root(1 << 62), 1 << 31);
    assert_eq!(integer_root((1 << 62) - 1), (1 << 31) - 1);
    assert_eq!(integer_root(u64::MAX), u32::MAX as u64);
}

#[test]
fn a_step_is_as_long_as_the_other_side() {
    assert_eq!(segment_units(Pos::new(0, 0), Pos::new(1, 0), 3, 4), 4);
    assert_eq!(segment_units(Pos::new(0, 0), Pos::new(0, 1), 3, 4), 3);
    assert_eq!(segment_units(Pos::new(0, 0), Pos::new(1, 1), 3, 4), 5);
    assert_eq!(segment_units(Pos::new(1, 1), Pos::new(0, 0), 3, 4), 5);
    assert_eq!(segment_units(Pos::new(0, 0), Pos::new(1, 1), 5, 5), 7);
    assert_eq!(segment_units(Pos::new(2, 2), Pos::new(2, 2), 5, 5), 0);
    assert_eq!(Pos::new(1, 1).magnitude(3, 4), 5);
    assert_eq!(Pos::new(2, 0).magnitude(3, 4), 8);
    assert_eq!(Pos::new(0, 0).magnitude(3, 4), 0);
}

#[test]
fn length_is_the_sum_of_the_segments() {
    let square = [(1, 1), (1, 2), (1, 3), (2, 3), (3, 3), (3, 2), (3, 1), (2, 1)];
    assert_eq!(curve_of(&square).curve_length(5, 5), 35);
    assert_eq!(curve_of(&[(0, 0), (1, 1), (2, 1), (2, 3)]).curve_length(3, 4), 5 + 4 + 6);
    assert_eq!(curve_of(&[(2, 2)]).curve_length(5, 5), 0);
    assert_eq!(curve_of(&[]).curve_length(5, 5), 0);
}

#[test]
fn length_is_the_same_in_either_direction() {
    let curve = [(0, 0), (1, 3), (2, 0), (3, 3), (4, 0), (5, 2), (6, 1)];
    let mut back = curve;
    back.reverse();
    assert_eq!(curve_of(&curve).curve_length(8, 4), curve_of(&back).curve_length(8, 4));
    assert_eq!(curve_of(&curve).curve_length(8, 4), 24 + 24 + 24 + 24 + 16 + 8);
}

#[test]
fn longest_first_and_none_below_the_minimum() {
    assert_eq!(length_order(&vec![5, 9, 5, 1, 9], 2), vec![1, 4, 0, 2]);
    assert_eq!(length_order(&vec![5, 9, 5, 1, 9], 0), vec![1, 4, 0, 2, 3]);
    assert_eq!(length_order(&vec![5, 9, 5, 1, 9], 9), vec![1, 4]);
    assert_eq!(length_order(&vec![5, 9, 5, 1, 9], 10), Vec::<usize>::new());
    assert_eq!(length_order(&vec![1, 2, 3], 0), vec![2, 1, 0]);
    assert_eq!(length_order(&Vec::new(), 0), Vec::<usize>::new());
}

#[test]
fn curves_are_ordered_by_their_length() {
    let curves = vec![
        curve_of(&[(0, 0), (1, 0)]),
        curve_of(&[(0, 0), (4, 0)]),
        curve_of(&[(2, 2)]),
        curve_of(&[(0, 0), (0, 1)]),
        curve_of(&[(0, 0), (2, 0), (4, 0)]),
    ];
    assert_eq!(order_curves(&curves, 5, 5, 0), vec![1, 4, 0, 3, 2]);
    assert_eq!(order_curves(&curves, 5, 5, 1), vec![1, 4, 0, 3]);
    assert_eq!(order_curves(&curves, 5, 5, 6), vec![1, 4]);
}

#[test]
fn fixed_kernels_hold_their_weights() {
    assert_eq!(KERNEL_SIDE, 5);
    let blur = blur_kernel();
    assert_eq!(blur.len(), 25);
    assert_eq!(blur.iter().sum::<i32>(), 159);
    assert_eq!(&blur[10..15], &[5, 12, 15, 12, 5]);
    let horizontal = horizontal_kernel();
    let vertical = vertical_kernel();
    assert_eq!(&horizontal[10..15], &[3, 0, 0, 0, -3]);
    assert_eq!(&vertical[0..5], &[1, 2, 3, 2, 1]);
    assert_eq!(&vertical[20..25], &[-1, -2, -3, -2, -1]);
    for row in 0..5 {
        for column in 0..5 {
            assert_eq!(vertical[row * 5 + column], horizontal[column * 5 + row]);
        }
    }
}

#[test]
fn kernel_must_be_a_square() {
    assert!(kernel_fits(25, 5));
    assert!(!kernel_fits(24, 5));
    assert!(kernel_fits(0, 0));
    assert!(!kernel_fits(0, usize::MAX));
}

#[test]
fn weights_off_the_grid_fall_on_no_cell() {
    assert_eq!(window_cell(0, 0, 0, 0, 5, 4, 4), None);
    assert_eq!(window_cell(0, 0, 2, 2, 5, 4, 4), Some(0));
    assert_eq!(window_cell(0, 0, 1, 2, 5, 4, 4), None);
    assert_eq!(window_cell(0, 0, 2, 1, 5, 4, 4), None);
    assert_eq!(window_cell(3, 3, 4, 4, 5, 4, 4), None);
    assert_eq!(window_cell(3, 3, 3, 2, 5, 4, 4), None);
    assert_eq!(window_cell(3, 3, 2, 2, 5, 4, 4), Some(15));
    assert_eq!(window_cell(1, 2, 3, 1, 5, 4, 4), Some(6));
    assert_eq!(window_cell(2, 1, 0, 4, 5, 4, 4), Some(12));
}
