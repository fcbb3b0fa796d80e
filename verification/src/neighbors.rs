//! The eight neighbour offsets of a cell, in their fixed cyclic order.

use vstd::prelude::*;

verus! {

/// The offset `(dx, dy)` that stands at slot `i` of the cyclic order: west,
/// north-west, north, north-east, east, south-east, south, south-west.
/// Rows grow downwards, so north is `dy == -1`.
pub open spec fn direction(i: int) -> (i32, i32) {
    if i == 0 {
        (-1i32, 0i32)
    } else if i == 1 {
        (-1i32, -1i32)
    } else if i == 2 {
        (0i32, -1i32)
    } else if i == 3 {
        (1i32, -1i32)
    } else if i == 4 {
        (1i32, 0i32)
    } else if i == 5 {
        (1i32, 1i32)
    } else if i == 6 {
        (0i32, 1i32)
    } else {
        (-1i32, 1i32)
    }
}

/// Whether `d` is one of the nine offsets with both parts in `-1..=1`.
pub open spec fn is_step(d: (i32, i32)) -> bool {
    -1 <= d.0 <= 1 && -1 <= d.1 <= 1
}

/// The slot of the offset `d` in the cyclic order, and 8 for `(0, 0)`,
/// which is no neighbour.
pub open spec fn slot_of(d: (i32, i32)) -> int {
    if d == (-1i32, 0i32) {
        0
    } else if d == (-1i32, -1i32) {
        1
    } else if d == (0i32, -1i32) {
        2
    } else if d == (1i32, -1i32) {
        3
    } else if d == (1i32, 0i32) {
        4
    } else if d == (1i32, 1i32) {
        5
    } else if d == (0i32, 1i32) {
        6
    } else if d == (-1i32, 1i32) {
        7
    } else {
        8
    }
}

/// The table of the eight neighbour offsets.
pub struct Neighbors {
    pub values: [(i32, i32); 8],
}

impl Neighbors {
    /// The table holds, slot by slot, the offsets of the cyclic order.
    pub open spec fn wf(&self) -> bool {
        forall|i: int| 0 <= i < 8 ==> #[trigger] self.values@[i] == direction(i)
    }

    pub fn new() -> (table: Self)
        ensures
            table.wf(),
    {
        let values: [(i32, i32); 8] = [
            (-1, 0),
            (-1, -1),
            (0, -1),
            (1, -1),
            (1, 0),
            (1, 1),
            (0, 1),
            (-1, 1),
        ];
        Self { values }
    }

    pub fn len(&self) -> (n: usize)
        ensures
            n == 8,
    {
        self.values.len()
    }

    /// The offset at slot `index`, taken modulo 8.
    pub fn get(&self, index: usize) -> (d: (i32, i32))
        requires
            self.wf(),
        ensures
            d == direction(index as int % 8),
    {
        self.values[index % 8]
    }

    /// The slot at which the offset `values` stands, 8 for `(0, 0)`.
    pub fn lookup(values: (i32, i32)) -> (slot: usize)
        requires
            is_step(values),
        ensures
            slot == slot_of(values),
            values == (0i32, 0i32) <==> slot == 8,
            slot < 8 ==> direction(slot as int) == values,
    {
        let table: [[usize; 3]; 3] = [[1, 0, 7], [2, 8, 6], [3, 4, 5]];
        let column: usize = (values.0 + 1) as usize;
        let row: usize = (values.1 + 1) as usize;
        table[column][row]
    }
}

/// Every slot holds an offset of one cell, and `slot_of` finds it again.
pub proof fn direction_is_step(i: int)
    requires
        0 <= i < 8,
    ensures
        is_step(direction(i)),
        direction(i) != (0i32, 0i32),
        slot_of(direction(i)) == i,
{
}

} // verus!
