//! The fixed kernels of the edge filter, and the cells that a kernel meets
//! when it is laid on a grid.

use vstd::prelude::*;
use crate::grid::cell_index_in_range;

verus! {

/// The side of the fixed kernels.
pub const KERNEL_SIDE: usize = 5;

/// The weights of the blur, row by row. They add up to 159.
pub open spec fn blur_weights() -> Seq<i32> {
    seq![
        2i32, 4, 5, 4, 2,
        4, 9, 12, 9, 4,
        5, 12, 15, 12, 5,
        4, 9, 12, 9, 4,
        2, 4, 5, 4, 2,
    ]
}

/// The weights of the derivative along a row, row by row.
pub open spec fn horizontal_weights() -> Seq<i32> {
    seq![
        1i32, 0, 0, 0, -1i32,
        2, 0, 0, 0, -2i32,
        3, 0, 0, 0, -3i32,
        2, 0, 0, 0, -2i32,
        1, 0, 0, 0, -1i32,
    ]
}

/// The weights of the derivative along a column, row by row.
pub open spec fn vertical_weights() -> Seq<i32> {
    seq![
        1i32, 2, 3, 2, 1,
        0, 0, 0, 0, 0,
        0, 0, 0, 0, 0,
        0, 0, 0, 0, 0,
        -1i32, -2i32, -3i32, -2i32, -1i32,
    ]
}

/// The sum of the first `n` weights.
pub open spec fn weight_sum(weights: Seq<i32>, n: int) -> int
    decreases n,
{
    if n <= 0 {
        0
    } else {
        weight_sum(weights, n - 1) + weights[n - 1]
    }
}

/// The kernel of the blur. Its weights are divided by the sum of those that
/// fall on the grid.
pub fn blur_kernel() -> (kernel: Vec<i32>)
    ensures
        kernel@ == blur_weights(),
{
    let kernel: Vec<i32> = vec![
        2, 4, 5, 4, 2,
        4, 9, 12, 9, 4,
        5, 12, 15, 12, 5,
        4, 9, 12, 9, 4,
        2, 4, 5, 4, 2,
    ];
    proof {
        assert(kernel@ =~= blur_weights());
    }
    kernel
}

/// The kernel of the derivative along a row.
pub fn horizontal_kernel() -> (kernel: Vec<i32>)
    ensures
        kernel@ == horizontal_weights(),
{
    let kernel: Vec<i32> = vec![
        1, 0, 0, 0, -1,
        2, 0, 0, 0, -2,
        3, 0, 0, 0, -3,
        2, 0, 0, 0, -2,
        1, 0, 0, 0, -1,
    ];
    proof {
        assert(kernel@ =~= horizontal_weights());
    }
    kernel
}

/// The kernel of the derivative along a column.
pub fn vertical_kernel() -> (kernel: Vec<i32>)
    ensures
        kernel@ == vertical_weights(),
{
    let kernel: Vec<i32> = vec![
        1, 2, 3, 2, 1,
        0, 0, 0, 0, 0,
        0, 0, 0, 0, 0,
        0, 0, 0, 0, 0,
        -1, -2, -3, -2, -1,
    ];
    proof {
        assert(kernel@ =~= vertical_weights());
    }
    kernel
}

/// The weights of the blur add up to 159, and those of each derivative to
/// nothing; the one derivative is the other with rows and columns
/// exchanged.
pub proof fn fixed_kernels_add_up()
    ensures
        blur_weights().len() == 25,
        horizontal_weights().len() == 25,
        vertical_weights().len() == 25,
        weight_sum(blur_weights(), 25) == 159,
        weight_sum(horizontal_weights(), 25) == 0,
        weight_sum(vertical_weights(), 25) == 0,
        forall|row: int, column: int|
            0 <= row < 5 && 0 <= column < 5 ==> #[trigger] vertical_weights()[row * 5 + column]
                == horizontal_weights()[column * 5 + row],
{
    reveal_with_fuel(weight_sum, 26);
    assert forall|row: int, column: int| 0 <= row < 5 && 0 <= column < 5 implies
        #[trigger] vertical_weights()[row * 5 + column] == horizontal_weights()[column * 5
        + row] by {
        if row == 0 {
        } else if row == 1 {
        } else if row == 2 {
        } else if row == 3 {
        } else {
        }
        if column == 0 {
        } else if column == 1 {
        } else if column == 2 {
        } else if column == 3 {
        } else {
        }
    }
}

/// Whether a kernel of `length` weights is a square of side `side`.
pub fn kernel_fits(length: usize, side: usize) -> (fits: bool)
    ensures
        fits == (length == side * side),
{
    match side.checked_mul(side) {
        Some(square) => square == length,
        None => false,
    }
}

/// The cell that the weight at column `k_x` and row `k_y` of a kernel falls
/// on when the middle of the kernel lies on the cell `(x, y)`: its column
/// and row, which may be outside the grid.
pub open spec fn tap(x: int, y: int, k_x: int, k_y: int, side: int) -> (int, int) {
    (x + k_x - side / 2, y + k_y - side / 2)
}

/// The place, among the cells in row-major order, of the cell that a weight
/// of the kernel falls on; `None` where it falls outside the grid. Such a
/// weight counts neither for the sum nor for what the sum is divided by.
pub fn window_cell(
    x: usize,
    y: usize,
    k_x: usize,
    k_y: usize,
    side: usize,
    width: usize,
    height: usize,
) -> (cell: Option<usize>)
    requires
        x < width,
        y < height,
        k_x < side,
        k_y < side,
        width * height <= usize::MAX,
    ensures
        cell.is_some() == (0 <= tap(x as int, y as int, k_x as int, k_y as int, side as int).0
            < width && 0 <= tap(x as int, y as int, k_x as int, k_y as int, side as int).1
            < height),
        cell.is_some() ==> cell.unwrap() == tap(
            x as int,
            y as int,
            k_x as int,
            k_y as int,
            side as int,
        ).1 * width + tap(x as int, y as int, k_x as int, k_y as int, side as int).0,
        cell.is_some() ==> cell.unwrap() < width * height,
{
    let half: usize = side / 2;
    if k_x < half && half - k_x > x {
        return None;
    }
    if k_y < half && half - k_y > y {
        return None;
    }
    let column: usize = if k_x < half {
        x - (half - k_x)
    } else {
        let right: usize = k_x - half;
        if right >= width - x {
            return None;
        }
        x + right
    };
    let row: usize = if k_y < half {
        y - (half - k_y)
    } else {
        let down: usize = k_y - half;
        if down >= height - y {
            return None;
        }
        y + down
    };
    proof {
        cell_index_in_range(
            column as int,
            row as int,
            width as int,
            height as int,
        );
        assert(0 <= row * width) by (nonlinear_arith)
            requires
                0 <= row,
                0 <= width,
        ;
    }
    Some(row * width + column)
}

} // verus!
