//! Where a cell of a grid stands among its cells in row-major order.

use vstd::prelude::*;

verus! {

/// Whether column `x` of row `y` is a cell of a grid of the given extent.
pub open spec fn is_cell(x: int, y: int, width: int, height: int) -> bool {
    0 <= x < width && 0 <= y < height
}

/// A cell of the grid stands, in row-major order, before the end of the
/// cells.
pub proof fn cell_index_in_range(x: int, y: int, width: int, height: int)
    requires
        0 <= x < width,
        0 <= y < height,
    ensures
        0 <= y * width + x < width * height,
{
    assert(y * width + x < width * height) by (nonlinear_arith)
        requires
            0 <= x < width,
            0 <= y < height,
    {
        assert((y + 1) * width <= height * width);
    }
    assert(0 <= y * width) by (nonlinear_arith)
        requires
            0 <= y,
            0 <= width,
    ;
}

/// The place of the cell at column `x` of row `y` among the cells of a
/// grid, in row-major order; `None` for what is no cell of the grid. A read
/// there finds nothing, and stands for background.
pub fn cell_at(x: i64, y: i64, width: usize, height: usize) -> (index: Option<usize>)
    requires
        width * height <= usize::MAX,
    ensures
        index.is_some() == is_cell(x as int, y as int, width as int, height as int),
        index.is_some() ==> index.unwrap() == y * width + x,
        index.is_some() ==> index.unwrap() < width * height,
{
    if x < 0 || y < 0 {
        return None;
    }
    if x as u64 >= width as u64 || y as u64 >= height as u64 {
        return None;
    }
    let column: usize = x as usize;
    let row: usize = y as usize;
    proof {
        cell_index_in_range(x as int, y as int, width as int, height as int);
        assert(0 <= row * width) by (nonlinear_arith)
            requires
                0 <= row,
                0 <= width,
        ;
    }
    Some(row * width + column)
}

} // verus!
