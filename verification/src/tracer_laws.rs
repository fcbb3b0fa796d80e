//! What holds of every traced grid: the order of the border ids, the cells
//! that stay background, and that the labels alone decide the outcome.

use vstd::prelude::*;
use crate::binary_image::{border_id, Labels};
use crate::grid::cell_index_in_range;
use crate::neighbors::{direction, direction_is_step};
use crate::tracer::{
    arrival_slot, first_neighbor_from, first_turn_from, is_closed, mark, neighbor_label,
    next_neighbor, scan_row, scan_rows, scan_start, sides_are_bounded, step_limit, trace, traced,
    turn_slot, visit, walk, Scan,
};

verus! {

/// Whether two grids of one extent have their background at the same
/// cells.
pub open spec fn same_ground(before: Labels, after: Labels) -> bool {
    &&& after.width == before.width
    &&& after.height == before.height
    &&& after.cells.len() == before.cells.len()
    &&& forall|k: int|
        0 <= k < before.cells.len() ==> ((#[trigger] after.cells[k]) == 0) == (before.cells[k]
            == 0)
}

/// Whether `after` is `before` with the same background and with a table
/// that goes on from the table of `before` with entries of the border `id`
/// alone.
pub open spec fn grows_by(before: Labels, after: Labels, id: int) -> bool {
    &&& same_ground(before, after)
    &&& before.entries.len() <= after.entries.len()
    &&& forall|i: int|
        0 <= i < before.entries.len() ==> #[trigger] after.entries[i] == before.entries[i]
    &&& forall|i: int|
        before.entries.len() <= i < after.entries.len() ==> border_id(
            (#[trigger] after.entries[i]).0,
        ) == id
}

/// The label of a cell of the grid is what the cells hold at its place.
pub proof fn label_is_cell(g: Labels, x: int, y: int)
    requires
        g.wf(),
        g.in_bounds(x, y),
    ensures
        0 <= y * g.width + x < g.cells.len(),
        g.label(x, y) == g.cells[y * g.width + x],
{
    cell_index_in_range(x, y, g.width as int, g.height as int);
}

/// A turn that the search stops at shows a neighbour that is not
/// background.
pub proof fn first_turn_shows_label(g: Labels, cx: int, cy: int, arrival: int, t: int)
    requires
        1 <= t <= 8,
    ensures
        t <= first_turn_from(g, cx, cy, arrival, t) <= 8,
        first_turn_from(g, cx, cy, arrival, t) < 8 ==> neighbor_label(
            g,
            cx,
            cy,
            turn_slot(arrival, first_turn_from(g, cx, cy, arrival, t)),
        ) != 0,
    decreases 8 - t,
{
    if t < 8 && neighbor_label(g, cx, cy, turn_slot(arrival, t)) == 0 {
        first_turn_shows_label(g, cx, cy, arrival, t + 1);
    }
}

/// Passing a cell that is not background leaves the background where it
/// was, and writes an entry of the border at most.
pub proof fn mark_grows_by(g: Labels, cx: int, cy: int, id: i32)
    requires
        g.wf(),
        id > 0,
        g.label(cx, cy) != 0,
    ensures
        grows_by(g, mark(g, cx, cy, id), id as int),
        mark(g, cx, cy, id).wf(),
{
    label_is_cell(g, cx, cy);
    let after = mark(g, cx, cy, id);
    assert forall|i: int| 0 <= i < after.entries.len() implies after.in_bounds(
        (#[trigger] after.entries[i]).1.x as int,
        after.entries[i].1.y as int,
    ) by {
        if i < g.entries.len() {
            assert(after.entries[i] == g.entries[i]);
        } else {
            sides_are_bounded(g, cx, cy);
        }
    }
}

/// A walk round the border `id` leaves the background where it was and
/// writes entries of that border alone.
pub proof fn walk_grows_by(
    g: Labels,
    x: int,
    y: int,
    id: i32,
    first: (i32, i32),
    start: (i32, i32),
    follow: (i32, i32),
    steps: nat,
)
    requires
        g.wf(),
        g.in_bounds(x, y),
        id > 0,
        g.label(x + follow.0, y + follow.1) != 0,
    ensures
        grows_by(g, walk(g, x, y, id, first, start, follow, steps), id as int),
        walk(g, x, y, id, first, start, follow, steps).wf(),
    decreases steps,
{
    if steps > 0 {
        let cx = x + follow.0;
        let cy = y + follow.1;
        let arrival = arrival_slot(start, follow);
        first_turn_shows_label(g, cx, cy, arrival, 1);
        match next_neighbor(g, start, follow, x, y) {
            None => {},
            Some(found) => {
                let t = first_turn_from(g, cx, cy, arrival, 1);
                let slot = turn_slot(arrival, t);
                let d = direction(slot);
                direction_is_step(slot);
                sides_are_bounded(g, x, y);
                assert(g.label(cx + d.0, cy + d.1) != 0);
                assert(g.in_bounds(cx + d.0, cy + d.1));
                assert(found.0 == follow.0 + d.0 && found.1 == follow.1 + d.1);
                let marked = mark(g, cx, cy, id);
                mark_grows_by(g, cx, cy, id);
                label_is_cell(g, cx + d.0, cy + d.1);
                label_is_cell(marked, cx + d.0, cy + d.1);
                if !is_closed(found, follow, first) {
                    walk_grows_by(marked, x, y, id, first, follow, found, (steps - 1) as nat);
                    let end = walk(marked, x, y, id, first, follow, found, (steps - 1) as nat);
                    assert forall|i: int|
                        0 <= i < g.entries.len() implies #[trigger] end.entries[i]
                        == g.entries[i] by {
                        assert(marked.entries[i] == g.entries[i]);
                    }
                    assert forall|i: int|
                        g.entries.len() <= i < end.entries.len() implies border_id(
                        (#[trigger] end.entries[i]).0,
                    ) == id by {
                        if i < marked.entries.len() {
                            assert(end.entries[i] == marked.entries[i]);
                        }
                    }
                }
            },
        }
    }
}

/// Tracing the border `id` from a seed that is not background leaves the
/// background where it was and writes entries of that border alone.
pub proof fn trace_grows_by(g: Labels, x: int, y: int, id: i32)
    requires
        g.wf(),
        id > 0,
        g.label(x, y) != 0,
    ensures
        grows_by(g, trace(g, x, y, id), id as int),
        trace(g, x, y, id).wf(),
{
    let slot = first_neighbor_from(g, x, y, 0);
    label_is_cell(g, x, y);
    sides_are_bounded(g, x, y);
    if slot < 8 {
        walk_grows_by(g, x, y, id, direction(slot), direction(slot), (0i32, 0i32), step_limit(g));
    } else {
        let after = trace(g, x, y, id);
        assert forall|i: int| 0 <= i < after.entries.len() implies after.in_bounds(
            (#[trigger] after.entries[i]).1.x as int,
            after.entries[i].1.y as int,
        ) by {
            if i < g.entries.len() {
                assert(after.entries[i] == g.entries[i]);
            }
        }
    }
}

/// Whether the table of a scan is in the order in which its borders were
/// minted: no entry is of a border before 2 or after the last one minted,
/// and none is of a border before that of an earlier entry.
pub open spec fn in_minting_order(s: Scan) -> bool {
    &&& 1 <= s.nbd
    &&& forall|i: int|
        0 <= i < s.grid.entries.len() ==> 2 <= border_id((#[trigger] s.grid.entries[i]).0)
            <= s.nbd
    &&& forall|i: int, j: int|
        0 <= i <= j < s.grid.entries.len() ==> border_id((#[trigger] s.grid.entries[i]).0)
            <= border_id((#[trigger] s.grid.entries[j]).0)
}

/// Passing a cell keeps the table in minting order and the background
/// where it was, and mints one border at most.
pub proof fn visit_keeps_order(s: Scan, x: int, y: int)
    requires
        s.grid.wf(),
        in_minting_order(s),
        s.nbd < i32::MAX,
    ensures
        visit(s, x, y).grid.wf(),
        in_minting_order(visit(s, x, y)),
        s.nbd <= visit(s, x, y).nbd <= s.nbd + 1,
        same_ground(s.grid, visit(s, x, y).grid),
{
    let current = s.grid.label(x, y);
    if current == 1 && s.grid.label(x - 1, y) == 0 && s.lnbd <= 0 {
        let id = (s.nbd + 1) as i32;
        trace_grows_by(s.grid, x, y, id);
        let after = visit(s, x, y);
        assert(after.grid == trace(s.grid, x, y, id));
        assert forall|i: int| 0 <= i < after.grid.entries.len() implies 2 <= border_id(
            (#[trigger] after.grid.entries[i]).0,
        ) <= after.nbd by {
            if i < s.grid.entries.len() {
                assert(after.grid.entries[i] == s.grid.entries[i]);
            }
        }
        assert forall|i: int, j: int| 0 <= i <= j < after.grid.entries.len() implies border_id(
            (#[trigger] after.grid.entries[i]).0,
        ) <= border_id((#[trigger] after.grid.entries[j]).0) by {
            if j < s.grid.entries.len() {
                assert(after.grid.entries[i] == s.grid.entries[i]);
                assert(after.grid.entries[j] == s.grid.entries[j]);
            } else if i < s.grid.entries.len() {
                assert(after.grid.entries[i] == s.grid.entries[i]);
            }
        }
    }
}

/// Passing cells of a row keeps the table in minting order and the
/// background where it was, and mints one border for each cell at most.
pub proof fn scan_row_keeps_order(s: Scan, y: int, columns: nat)
    requires
        s.grid.wf(),
        in_minting_order(s),
        s.nbd + columns <= i32::MAX,
    ensures
        scan_row(s, y, columns).grid.wf(),
        in_minting_order(scan_row(s, y, columns)),
        s.nbd <= scan_row(s, y, columns).nbd <= s.nbd + columns,
        same_ground(s.grid, scan_row(s, y, columns).grid),
    decreases columns,
{
    if columns > 0 {
        scan_row_keeps_order(s, y, (columns - 1) as nat);
        visit_keeps_order(scan_row(s, y, (columns - 1) as nat), columns - 1, y);
    }
}

/// Passing rows keeps the table in minting order and the background where
/// it was, and mints one border for each cell at most.
pub proof fn scan_rows_keeps_order(s: Scan, width: nat, rows: nat)
    requires
        s.grid.wf(),
        in_minting_order(s),
        s.nbd + rows * width <= i32::MAX,
    ensures
        scan_rows(s, width, rows).grid.wf(),
        in_minting_order(scan_rows(s, width, rows)),
        s.nbd <= scan_rows(s, width, rows).nbd <= s.nbd + rows * width,
        same_ground(s.grid, scan_rows(s, width, rows).grid),
    decreases rows,
{
    if rows > 0 {
        assert((rows - 1) * width + width == rows * width) by (nonlinear_arith);
        assert((rows - 1) * width >= 0) by (nonlinear_arith)
            requires
                rows >= 1,
                width >= 0,
        ;
        scan_rows_keeps_order(s, width, (rows - 1) as nat);
        scan_row_keeps_order(scan_rows(s, width, (rows - 1) as nat), rows - 1, width);
    }
}

/// The borders of a grid get their ids in the order in which the scan meets
/// them, from 2 on: in the table of a traced grid no entry is of a border
/// before 2, and none is of a border before that of an earlier entry. So of
/// two curves of the table the later one is of the greater border.
pub proof fn border_ids_increase(g: Labels, i: int, j: int)
    requires
        g.wf(),
        g.entries.len() == 0,
        0 <= i <= j < traced(g).entries.len(),
    ensures
        2 <= border_id(traced(g).entries[i].0) <= border_id(traced(g).entries[j].0),
{
    assert(g.height * g.width == g.width * g.height) by (nonlinear_arith);
    scan_rows_keeps_order(scan_start(g), g.width, g.height);
}

/// Tracing relabels what is not background, and nothing else: a cell of a
/// traced grid is background if it was before, and only then. No label is
/// ever set back to 0.
pub proof fn tracing_keeps_ground(g: Labels)
    requires
        g.wf(),
        g.entries.len() == 0,
    ensures
        traced(g).wf(),
        same_ground(g, traced(g)),
{
    assert(g.height * g.width == g.width * g.height) by (nonlinear_arith);
    scan_rows_keeps_order(scan_start(g), g.width, g.height);
}

/// Whether two grids have the same extent and hold the same labels; their
/// tables may differ.
pub open spec fn same_labels(a: Labels, b: Labels) -> bool {
    a.width == b.width && a.height == b.height && a.cells == b.cells
}

/// Whether two scans stand at the same point over the same labels.
pub open spec fn same_scan(a: Scan, b: Scan) -> bool {
    same_labels(a.grid, b.grid) && a.nbd == b.nbd && a.lnbd == b.lnbd
}

/// The search for a first neighbour reads the labels alone.
pub proof fn first_neighbor_reads_labels(a: Labels, b: Labels, cx: int, cy: int, slot: int)
    requires
        same_labels(a, b),
    ensures
        first_neighbor_from(a, cx, cy, slot) == first_neighbor_from(b, cx, cy, slot),
    decreases 8 - slot,
{
    if slot < 8 && neighbor_label(a, cx, cy, slot) == 0 {
        first_neighbor_reads_labels(a, b, cx, cy, slot + 1);
    }
}

/// The search for the next cell of a border reads the labels alone.
pub proof fn first_turn_reads_labels(a: Labels, b: Labels, cx: int, cy: int, arrival: int, t: int)
    requires
        same_labels(a, b),
    ensures
        first_turn_from(a, cx, cy, arrival, t) == first_turn_from(b, cx, cy, arrival, t),
    decreases 8 - t,
{
    if t < 8 && neighbor_label(a, cx, cy, turn_slot(arrival, t)) == 0 {
        first_turn_reads_labels(a, b, cx, cy, arrival, t + 1);
    }
}

/// A walk over the same labels leaves the same labels.
pub proof fn walk_reads_labels(
    a: Labels,
    b: Labels,
    x: int,
    y: int,
    id: i32,
    first: (i32, i32),
    start: (i32, i32),
    follow: (i32, i32),
    steps: nat,
)
    requires
        same_labels(a, b),
    ensures
        same_labels(
            walk(a, x, y, id, first, start, follow, steps),
            walk(b, x, y, id, first, start, follow, steps),
        ),
    decreases steps,
{
    if steps > 0 {
        first_turn_reads_labels(
            a,
            b,
            x + follow.0,
            y + follow.1,
            arrival_slot(start, follow),
            1,
        );
        match next_neighbor(a, start, follow, x, y) {
            None => {},
            Some(found) => {
                if !is_closed(found, follow, first) {
                    walk_reads_labels(
                        mark(a, x + follow.0, y + follow.1, id),
                        mark(b, x + follow.0, y + follow.1, id),
                        x,
                        y,
                        id,
                        first,
                        follow,
                        found,
                        (steps - 1) as nat,
                    );
                }
            },
        }
    }
}

/// Tracing a border over the same labels leaves the same labels.
pub proof fn trace_reads_labels(a: Labels, b: Labels, x: int, y: int, id: i32)
    requires
        same_labels(a, b),
    ensures
        same_labels(trace(a, x, y, id), trace(b, x, y, id)),
{
    first_neighbor_reads_labels(a, b, x, y, 0);
    let slot = first_neighbor_from(a, x, y, 0);
    if slot < 8 {
        walk_reads_labels(
            a,
            b,
            x,
            y,
            id,
            direction(slot),
            direction(slot),
            (0i32, 0i32),
            step_limit(a),
        );
    }
}

/// Passing the cells of a row over the same labels leaves the same scan.
pub proof fn scan_row_reads_labels(a: Scan, b: Scan, y: int, columns: nat)
    requires
        same_scan(a, b),
    ensures
        same_scan(scan_row(a, y, columns), scan_row(b, y, columns)),
    decreases columns,
{
    if columns > 0 {
        scan_row_reads_labels(a, b, y, (columns - 1) as nat);
        let before_a = scan_row(a, y, (columns - 1) as nat);
        let before_b = scan_row(b, y, (columns - 1) as nat);
        trace_reads_labels(
            before_a.grid,
            before_b.grid,
            columns - 1,
            y,
            (before_a.nbd + 1) as i32,
        );
    }
}

/// Passing rows over the same labels leaves the same scan.
pub proof fn scan_rows_reads_labels(a: Scan, b: Scan, width: nat, rows: nat)
    requires
        same_scan(a, b),
    ensures
        same_scan(scan_rows(a, width, rows), scan_rows(b, width, rows)),
    decreases rows,
{
    if rows > 0 {
        scan_rows_reads_labels(a, b, width, (rows - 1) as nat);
        scan_row_reads_labels(
            scan_rows(a, width, (rows - 1) as nat),
            scan_rows(b, width, (rows - 1) as nat),
            rows - 1,
            width,
        );
    }
}

/// Tracing is a function of the labels: two grids of one extent that hold
/// the same labels hold the same labels after they were traced, whatever
/// their tables held before.
pub proof fn tracing_is_deterministic(a: Labels, b: Labels)
    requires
        same_labels(a, b),
    ensures
        same_labels(traced(a), traced(b)),
        a.entries == b.entries ==> traced(a) == traced(b),
{
    scan_rows_reads_labels(scan_start(a), scan_start(b), a.width, a.height);
}

} // verus!
