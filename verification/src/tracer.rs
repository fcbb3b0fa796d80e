//! Border following on a label grid: from a seed cell the tracer walks
//! round the border of a region, relabels the cells it passes with the
//! border's id and writes them to the table of entries.

use vstd::prelude::*;
use crate::binary_image::{BinaryImage, Labels};
use crate::grid::cell_index_in_range;
use crate::neighbors::{direction, direction_is_step, slot_of, Neighbors};

verus! {

/// The label of the neighbour of cell `(cx, cy)` that stands at `slot`.
pub open spec fn neighbor_label(g: Labels, cx: int, cy: int, slot: int) -> i32 {
    g.label(cx + direction(slot).0, cy + direction(slot).1)
}

/// The first slot from `slot` on, in the cyclic order, at which the cell
/// `(cx, cy)` has a neighbour that is not background; 8 if there is none.
pub open spec fn first_neighbor_from(g: Labels, cx: int, cy: int, slot: int) -> int
    decreases 8 - slot,
{
    if slot >= 8 {
        8
    } else if neighbor_label(g, cx, cy, slot) != 0 {
        slot
    } else {
        first_neighbor_from(g, cx, cy, slot + 1)
    }
}

/// The slot that the search looks at in its turn `t`, having arrived by
/// the slot `arrival`: it goes against the cyclic order, beginning just
/// before the arrival slot.
pub open spec fn turn_slot(arrival: int, t: int) -> int {
    (arrival + 8 - t) % 8
}

/// The first turn from `t` on, of the seven turns, in which the search
/// round `(cx, cy)` meets a neighbour that is not background; 8 if there
/// is none. The arrival slot itself is no turn.
pub open spec fn first_turn_from(g: Labels, cx: int, cy: int, arrival: int, t: int) -> int
    decreases 8 - t,
{
    if t >= 8 {
        8
    } else if neighbor_label(g, cx, cy, turn_slot(arrival, t)) != 0 {
        t
    } else {
        first_turn_from(g, cx, cy, arrival, t + 1)
    }
}

/// The slot by which the walk arrived at `follow`, coming from `start`.
pub open spec fn arrival_slot(start: (i32, i32), follow: (i32, i32)) -> int {
    slot_of(((start.0 - follow.0) as i32, (start.1 - follow.1) as i32))
}

/// Where the walk goes next from `follow`, having come from `start`; both
/// are offsets from the seed `(x, y)`, and so is the result. `None` where
/// no neighbour but the one it came from is left to go to.
pub open spec fn next_neighbor(
    g: Labels,
    start: (i32, i32),
    follow: (i32, i32),
    x: int,
    y: int,
) -> Option<(i32, i32)> {
    let arrival = arrival_slot(start, follow);
    let t = first_turn_from(g, x + follow.0, y + follow.1, arrival, 1);
    if t >= 8 {
        None
    } else {
        let d = direction(turn_slot(arrival, t));
        Some(((follow.0 + d.0) as i32, (follow.1 + d.1) as i32))
    }
}

/// The grid after the walk has passed the cell `(cx, cy)` on the border
/// `id`: a cell with background to its east gets `-id`, another one gets
/// `id` if it was never labelled, and a cell of an earlier border stays.
pub open spec fn mark(g: Labels, cx: int, cy: int, id: i32) -> Labels {
    if g.label(cx + 1, cy) == 0 {
        g.put(cx, cy, (-id) as i32)
    } else if g.label(cx, cy) == 1 {
        g.put(cx, cy, id)
    } else {
        g
    }
}

/// Whether the walk is over: it is about to step on the seed again, from
/// the neighbour that it first left the seed towards.
pub open spec fn is_closed(found: (i32, i32), follow: (i32, i32), first: (i32, i32)) -> bool {
    found == (0i32, 0i32) && follow == first
}

/// The grid after at most `steps` steps of the walk round the border `id`
/// of the seed `(x, y)`, which stands at `follow` and came from `start`.
pub open spec fn walk(
    g: Labels,
    x: int,
    y: int,
    id: i32,
    first: (i32, i32),
    start: (i32, i32),
    follow: (i32, i32),
    steps: nat,
) -> Labels
    decreases steps,
{
    if steps == 0 {
        g
    } else {
        match next_neighbor(g, start, follow, x, y) {
            None => g,
            Some(found) => {
                let marked = mark(g, x + follow.0, y + follow.1, id);
                if is_closed(found, follow, first) {
                    marked
                } else {
                    walk(marked, x, y, id, first, follow, found, (steps - 1) as nat)
                }
            },
        }
    }
}

/// The number of steps after which a walk is cut off: one for each pair of
/// a cell and a slot to arrive by. A walk that is longer has been in one
/// such state twice and would never end.
pub open spec fn step_limit(g: Labels) -> nat {
    8 * g.width * g.height
}

/// The grid after the border `id` was traced from the seed `(x, y)`. A seed
/// without a neighbour is a border of one cell and gets `-id`.
pub open spec fn trace(g: Labels, x: int, y: int, id: i32) -> Labels {
    let slot = first_neighbor_from(g, x, y, 0);
    if slot >= 8 {
        g.put(x, y, (-id) as i32)
    } else {
        walk(g, x, y, id, direction(slot), direction(slot), (0i32, 0i32), step_limit(g))
    }
}

/// In a grid with a cell in it, no side is longer than the cells are many.
pub proof fn sides_are_bounded(g: Labels, x: int, y: int)
    requires
        g.wf(),
        g.in_bounds(x, y),
    ensures
        g.width < i32::MAX,
        g.height < i32::MAX,
{
    assert(g.width <= g.width * g.height) by (nonlinear_arith)
        requires
            g.height >= 1,
    ;
    assert(g.height <= g.width * g.height) by (nonlinear_arith)
        requires
            g.width >= 1,
    ;
}

/// Looks round the cell at `follow` for the next cell of the border.
pub fn contour_trace3(
    image: &BinaryImage,
    start_pixel: (i32, i32),
    follow_pixel: (i32, i32),
    x: i32,
    y: i32,
) -> (found: Option<(i32, i32)>)
    requires
        image@.wf(),
        image@.in_bounds(x as int, y as int),
        image@.in_bounds(x + follow_pixel.0, y + follow_pixel.1),
        -1 <= start_pixel.0 - follow_pixel.0 <= 1,
        -1 <= start_pixel.1 - follow_pixel.1 <= 1,
    ensures
        found == next_neighbor(image@, start_pixel, follow_pixel, x as int, y as int),
        found.is_some() ==> image@.label(x + found.unwrap().0, y + found.unwrap().1) != 0,
        found.is_some() ==> -1 <= follow_pixel.0 - found.unwrap().0 <= 1 && -1 <= follow_pixel.1
            - found.unwrap().1 <= 1,
{
    proof {
        sides_are_bounded(image@, x + follow_pixel.0, y + follow_pixel.1);
    }
    let direction = (start_pixel.0 - follow_pixel.0, start_pixel.1 - follow_pixel.1);
    let start_index: usize = Neighbors::lookup(direction);
    let neighbors = Neighbors::new();
    let cx: i32 = x + follow_pixel.0;
    let cy: i32 = y + follow_pixel.1;
    let mut turn: usize = 1;
    while turn < 8
        invariant
            1 <= turn <= 8,
            start_index <= 8,
            start_index == arrival_slot(start_pixel, follow_pixel),
            neighbors.wf(),
            image@.wf(),
            image@.in_bounds(cx as int, cy as int),
            image@.in_bounds(x as int, y as int),
            cx == x + follow_pixel.0,
            cy == y + follow_pixel.1,
            image@.width < i32::MAX,
            image@.height < i32::MAX,
            first_turn_from(image@, cx as int, cy as int, start_index as int, 1) == first_turn_from(
                image@,
                cx as int,
                cy as int,
                start_index as int,
                turn as int,
            ),
        decreases 8 - turn,
    {
        let slot: usize = (start_index + 8 - turn) % 8;
        let neighbor = neighbors.get(slot);
        proof {
            direction_is_step(slot as int);
            assert(slot == turn_slot(start_index as int, turn as int));
        }
        if image.get(cx + neighbor.0, cy + neighbor.1) != 0 {
            let pos = (follow_pixel.0 + neighbor.0, follow_pixel.1 + neighbor.1);
            return Some(pos);
        }
        turn += 1;
    }
    None
}

/// Relabels the cell at `follow` as a cell of the border `nbd`.
pub fn contour_trace4(image: &mut BinaryImage, follow_pixel: (i32, i32), x: i32, y: i32, nbd: i32)
    requires
        old(image)@.wf(),
        i32::MIN <= x + follow_pixel.0 <= i32::MAX,
        i32::MIN <= y + follow_pixel.1 <= i32::MAX,
        nbd > i32::MIN,
    ensures
        final(image)@ == mark(old(image)@, x + follow_pixel.0, y + follow_pixel.1, nbd),
        final(image)@.wf(),
{
    let cx: i32 = x + follow_pixel.0;
    let cy: i32 = y + follow_pixel.1;
    let right_pixel: i32 = if cx == i32::MAX {
        0
    } else {
        image.get(cx + 1, cy)
    };
    proof {
        if cx == i32::MAX && old(image)@.in_bounds(cx + 1, cy as int) {
            sides_are_bounded(old(image)@, cx + 1, cy as int);
        }
    }
    if right_pixel == 0 {
        image.put(cx, cy, -nbd);
    } else if image.get(cx, cy) == 1 {
        image.put(cx, cy, nbd);
    }
}

/// Ends the walk where it has come round, and moves it on where not:
/// then the cell it stood at becomes the one it came from, and the cell
/// it found the one it stands at.
pub fn contour_trace5(
    found_pixel: (i32, i32),
    follow_pixel: &mut (i32, i32),
    start_pixel: &mut (i32, i32),
    found_neighbor: (i32, i32),
) -> (moved: bool)
    ensures
        moved == !is_closed(found_pixel, *old(follow_pixel), found_neighbor),
        moved ==> *final(start_pixel) == *old(follow_pixel) && *final(follow_pixel) == found_pixel,
        !moved ==> *final(start_pixel) == *old(start_pixel) && *final(follow_pixel) == *old(
            follow_pixel,
        ),
{
    if found_pixel.0 == 0 && found_pixel.1 == 0 && follow_pixel.0 == found_neighbor.0
        && follow_pixel.1 == found_neighbor.1 {
        false
    } else {
        *start_pixel = *follow_pixel;
        *follow_pixel = found_pixel;
        true
    }
}

/// Traces the border `nbd` from the seed `(x, y)`.
pub fn contour_trace(image: &mut BinaryImage, x: i32, y: i32, nbd: i32)
    requires
        old(image)@.wf(),
        old(image)@.in_bounds(x as int, y as int),
        nbd > i32::MIN,
    ensures
        final(image)@ == trace(old(image)@, x as int, y as int, nbd),
        final(image)@.wf(),
        final(image)@.width == old(image)@.width,
        final(image)@.height == old(image)@.height,
{
    proof {
        sides_are_bounded(image@, x as int, y as int);
    }
    let neighbors = Neighbors::new();
    let mut slot: usize = 0;
    let mut seen: bool = false;
    while slot < 8 && !seen
        invariant
            slot <= 8,
            seen ==> slot < 8 && neighbor_label(image@, x as int, y as int, slot as int) != 0,
            neighbors.wf(),
            image@.wf(),
            image@.in_bounds(x as int, y as int),
            image@.width < i32::MAX,
            image@.height < i32::MAX,
            first_neighbor_from(image@, x as int, y as int, 0) == first_neighbor_from(
                image@,
                x as int,
                y as int,
                slot as int,
            ),
        decreases 8 - slot + (if seen { 0int } else { 1int }),
    {
        let neighbor = neighbors.get(slot);
        proof {
            direction_is_step(slot as int);
        }
        if image.get(x + neighbor.0, y + neighbor.1) != 0 {
            seen = true;
        } else {
            slot += 1;
        }
    }
    if !seen {
        image.put(x, y, -nbd);
        return ;
    }
    let found_neighbor = neighbors.get(slot);
    let mut start_pixel = found_neighbor;
    let mut follow_pixel: (i32, i32) = (0, 0);
    let ghost before = image@;
    let width: u64 = image.width() as u64;
    let height: u64 = image.height() as u64;
    proof {
        direction_is_step(slot as int);
        assert(8 * (width * height) < u64::MAX) by (nonlinear_arith)
            requires
                width * height < 0x7fff_ffff,
        ;
        assert(8 * width * height == 8 * (width * height)) by (nonlinear_arith);
    }
    let mut steps: u64 = 8 * (width * height);
    let mut closed: bool = false;
    while steps > 0 && !closed
        invariant
            image@.wf(),
            image@.in_bounds(x as int, y as int),
            image@.in_bounds(x + follow_pixel.0, y + follow_pixel.1),
            -1 <= start_pixel.0 - follow_pixel.0 <= 1,
            -1 <= start_pixel.1 - follow_pixel.1 <= 1,
            nbd > i32::MIN,
            image@.width == before.width,
            image@.height == before.height,
            trace(before, x as int, y as int, nbd) == (if closed {
                image@
            } else {
                walk(
                    image@,
                    x as int,
                    y as int,
                    nbd,
                    found_neighbor,
                    start_pixel,
                    follow_pixel,
                    steps as nat,
                )
            }),
        decreases steps + (if closed { 0int } else { 1int }),
    {
        proof {
            sides_are_bounded(image@, x as int, y as int);
        }
        match contour_trace3(image, start_pixel, follow_pixel, x, y) {
            None => {
                closed = true;
            },
            Some(found) => {
                contour_trace4(image, follow_pixel, x, y, nbd);
                let moved = contour_trace5(
                    found,
                    &mut follow_pixel,
                    &mut start_pixel,
                    found_neighbor,
                );
                if moved {
                    steps -= 1;
                } else {
                    closed = true;
                }
            },
        }
    }
}

/// The state of a scan over the grid: the grid, the id of the border that
/// was minted last, and the label that the scan last passed in its row.
pub struct Scan {
    pub grid: Labels,
    pub nbd: i32,
    pub lnbd: i32,
}

/// The state after the scan has passed the cell `(x, y)`. An unlabelled
/// cell with background to its west, met while the last label passed in
/// the row is none or negative, is the seed of a new border: the next id
/// is minted and the border traced. Any cell that has a label other than 1
/// when the scan leaves it is the last label passed.
pub open spec fn visit(s: Scan, x: int, y: int) -> Scan {
    let current = s.grid.label(x, y);
    if current != 1 {
        Scan { lnbd: current, ..s }
    } else if s.grid.label(x - 1, y) == 0 && s.lnbd <= 0 {
        let id = (s.nbd + 1) as i32;
        let grid = trace(s.grid, x, y, id);
        let label = grid.label(x, y);
        Scan { grid, nbd: id, lnbd: if label != 1 { label } else { s.lnbd } }
    } else {
        s
    }
}

/// The state after the scan has passed the first `columns` cells of the
/// row `y`, from west to east. At the start of a row no label was passed.
pub open spec fn scan_row(s: Scan, y: int, columns: nat) -> Scan
    decreases columns,
{
    if columns == 0 {
        Scan { lnbd: 0, ..s }
    } else {
        visit(scan_row(s, y, (columns - 1) as nat), columns - 1, y)
    }
}

/// The state after the scan has passed the first `rows` rows, each of
/// `width` cells, from north to south.
pub open spec fn scan_rows(s: Scan, width: nat, rows: nat) -> Scan
    decreases rows,
{
    if rows == 0 {
        s
    } else {
        scan_row(scan_rows(s, width, (rows - 1) as nat), rows - 1, width)
    }
}

/// The state in which a scan begins: no border was minted, and the first id
/// to be minted is 2.
pub open spec fn scan_start(g: Labels) -> Scan {
    Scan { grid: g, nbd: 1, lnbd: 0 }
}

/// The grid after every border in it was traced, in row-major order.
pub open spec fn traced(g: Labels) -> Labels {
    scan_rows(scan_start(g), g.width, g.height).grid
}

/// Traces every border of the grid: scans the cells in row-major order and
/// traces a border from each seed that the scan meets.
pub fn trace_borders(image: &mut BinaryImage)
    requires
        old(image)@.wf(),
    ensures
        final(image)@ == traced(old(image)@),
        final(image)@.wf(),
        final(image)@.width == old(image)@.width,
        final(image)@.height == old(image)@.height,
{
    let ghost before = image@;
    let width: usize = image.width();
    let height: usize = image.height();
    let mut nbd: i32 = 1;
    let mut lnbd: i32 = 0;
    let mut row: usize = 0;
    while row < height
        invariant
            row <= height,
            width == before.width,
            height == before.height,
            image@.wf(),
            image@.width == before.width,
            image@.height == before.height,
            1 <= nbd <= 1 + row * width,
            (Scan { grid: image@, nbd, lnbd }) == scan_rows(
                scan_start(before),
                before.width,
                row as nat,
            ),
        decreases height - row,
    {
        let ghost row_start = Scan { grid: image@, nbd, lnbd };
        lnbd = 0;
        let mut column: usize = 0;
        while column < width
            invariant
                row < height,
                column <= width,
                width == before.width,
                height == before.height,
                image@.wf(),
                image@.width == before.width,
                image@.height == before.height,
                1 <= nbd <= 1 + row * width + column,
                (Scan { grid: image@, nbd, lnbd }) == scan_row(
                    row_start,
                    row as int,
                    column as nat,
                ),
            decreases width - column,
        {
            proof {
                sides_are_bounded(image@, column as int, row as int);
                cell_index_in_range(
                    column as int,
                    row as int,
                    width as int,
                    height as int,
                );
            }
            let x: i32 = column as i32;
            let y: i32 = row as i32;
            let current_pixel = image.get(x, y);
            if current_pixel != 1 {
                lnbd = current_pixel;
            } else if image.get(x - 1, y) == 0 && lnbd <= 0 {
                nbd += 1;
                contour_trace(image, x, y, nbd);
                let label = image.get(x, y);
                if label != 1 {
                    lnbd = label;
                }
            }
            column += 1;
        }
        proof {
            assert(row * width + width == (row + 1) * width) by (nonlinear_arith);
        }
        row += 1;
    }
}

} // verus!
