//! The label grid that the border tracer relabels in place, with the table
//! of border entries that it writes while doing so.

use vstd::prelude::*;
use crate::curve::{within, Curve, Pos};
use crate::grid::cell_at;

verus! {

/// What a label grid holds, as mathematics: its extent, its cells in
/// row-major order, and the border entries written so far.
pub struct Labels {
    pub width: nat,
    pub height: nat,
    pub cells: Seq<i32>,
    pub entries: Seq<(i32, Pos)>,
}

impl Labels {
    /// There is one cell for each column of each row, few enough of them
    /// that every cell could get a border label of its own, and the table
    /// speaks of cells of the grid only.
    pub open spec fn wf(self) -> bool {
        &&& self.cells.len() == self.width * self.height
        &&& self.cells.len() < i32::MAX
        &&& self.entries_inside()
    }

    /// Every entry of the table stands at a cell of the grid.
    pub open spec fn entries_inside(self) -> bool {
        forall|i: int|
            0 <= i < self.entries.len() ==> self.in_bounds(
                (#[trigger] self.entries[i]).1.x as int,
                self.entries[i].1.y as int,
            )
    }

    pub open spec fn in_bounds(self, x: int, y: int) -> bool {
        0 <= x < self.width && 0 <= y < self.height
    }

    /// The label at column `x` of row `y`; outside the grid it is 0.
    pub open spec fn label(self, x: int, y: int) -> i32 {
        if self.in_bounds(x, y) {
            self.cells[y * self.width + x]
        } else {
            0
        }
    }

    /// The grid after `label` was written at column `x` of row `y`: the
    /// cell holds it and the table ends with it. Outside the grid nothing
    /// changes.
    pub open spec fn put(self, x: int, y: int, label: i32) -> Labels {
        if self.in_bounds(x, y) {
            Labels {
                cells: self.cells.update(y * self.width + x, label),
                entries: self.entries.push((label, Pos { x: x as i32, y: y as i32 })),
                ..self
            }
        } else {
            self
        }
    }
}

/// The border that a label belongs to: the label without its sign.
pub open spec fn border_id(label: i32) -> int {
    if label < 0 {
        -label
    } else {
        label as int
    }
}

/// The entries grouped into maximal runs of one border, in order: an entry
/// goes on with the last run if it belongs to the border of the entry
/// before it, and starts a run of its own if not.
pub open spec fn runs(entries: Seq<(i32, Pos)>) -> Seq<Seq<Pos>>
    decreases entries.len(),
{
    if entries.len() == 0 {
        Seq::empty()
    } else {
        let before = runs(entries.drop_last());
        let entry = entries.last();
        if entries.len() >= 2 && border_id(entries[entries.len() - 2].0) == border_id(entry.0) {
            before.drop_last().push(before.last().push(entry.1))
        } else {
            before.push(seq![entry.1])
        }
    }
}

/// The point sequences of some curves, in order.
pub open spec fn curve_views(curves: Seq<Curve>) -> Seq<Seq<Pos>> {
    Seq::new(curves.len(), |i: int| curves[i]@)
}

/// A label grid with its table of border entries.
pub struct BinaryImage {
    points: Vec<(i32, Pos)>,
    data: Vec<i32>,
    width: usize,
    height: usize,
}

impl View for BinaryImage {
    type V = Labels;

    closed spec fn view(&self) -> Labels {
        Labels {
            width: self.width as nat,
            height: self.height as nat,
            cells: self.data@,
            entries: self.points@,
        }
    }
}

impl BinaryImage {
    /// A grid of the given extent over `pixels` in row-major order, with an
    /// empty table.
    pub fn new(pixels: Vec<i32>, width: usize, height: usize) -> (image: Self)
        requires
            pixels@.len() == width * height,
            pixels@.len() < i32::MAX,
        ensures
            image@.wf(),
            image@ == (Labels {
                width: width as nat,
                height: height as nat,
                cells: pixels@,
                entries: Seq::empty(),
            }),
    {
        Self { points: Vec::new(), data: pixels, width, height }
    }

    pub fn get(&self, x: i32, y: i32) -> (label: i32)
        requires
            self@.wf(),
        ensures
            label == self@.label(x as int, y as int),
    {
        match self.index_of(x, y) {
            Some(index) => self.data[index],
            None => 0,
        }
    }

    pub fn put(&mut self, x: i32, y: i32, pixel: i32)
        requires
            old(self)@.wf(),
        ensures
            final(self)@ == old(self)@.put(x as int, y as int, pixel),
            final(self)@.wf(),
    {
        match self.index_of(x, y) {
            Some(index) => {
                self.data[index] = pixel;
                self.points.push((pixel, Pos::new(x, y)));
            },
            None => {},
        }
    }

    /// The place of the cell among the cells, for a cell inside the grid.
    pub fn index_of(&self, x: i32, y: i32) -> (index: Option<usize>)
        requires
            self@.wf(),
        ensures
            index.is_some() == self@.in_bounds(x as int, y as int),
            index.is_some() ==> index.unwrap() == y * self@.width + x,
            index.is_some() ==> index.unwrap() < self@.cells.len(),
    {
        cell_at(x as i64, y as i64, self.width, self.height)
    }

    /// One curve for each maximal run of entries of one border, in the
    /// order of the table.
    pub fn curves(&self) -> (curves: Vec<Curve>)
        requires
            self@.wf(),
        ensures
            curve_views(curves@) == runs(self@.entries),
            forall|i: int|
                0 <= i < curves@.len() ==> within(
                    #[trigger] curves@[i]@,
                    self@.width as int,
                    self@.height as int,
                ),
    {
        let mut curves: Vec<Curve> = Vec::new();
        let mut current: Vec<Pos> = Vec::new();
        let mut i: usize = 0;
        while i < self.points.len()
            invariant
                i <= self.points@.len(),
                self@.wf(),
                within(current@, self@.width as int, self@.height as int),
                forall|j: int|
                    0 <= j < curves@.len() ==> within(
                        #[trigger] curves@[j]@,
                        self@.width as int,
                        self@.height as int,
                    ),
                i == 0 ==> curves@.len() == 0 && current@.len() == 0,
                i > 0 ==> runs(self.points@.take(i as int)) == curve_views(curves@).push(
                    current@,
                ),
            decreases self.points@.len() - i,
        {
            let entry = self.points[i];
            let ghost before = self.points@.take(i as int);
            let ghost now = self.points@.take(i + 1);
            proof {
                assert(now.drop_last() =~= before);
                assert(now.last() == entry);
                assert(entry == self@.entries[i as int]);
                assert(self@.in_bounds(entry.1.x as int, entry.1.y as int));
            }
            if i > 0 && same_border(self.points[i - 1].0, entry.0) {
                proof {
                    assert(now[now.len() - 2] == self.points@[i - 1]);
                    let grouped = curve_views(curves@).push(current@);
                    assert(grouped.drop_last() =~= curve_views(curves@));
                }
                current.push(entry.1);
                proof {
                    assert(runs(now) =~= curve_views(curves@).push(current@));
                }
            } else {
                if i > 0 {
                    proof {
                        assert(now[now.len() - 2] == self.points@[i - 1]);
                    }
                    let ghost done = curve_views(curves@).push(current@);
                    curves.push(Curve::new(current));
                    proof {
                        assert(curve_views(curves@) =~= done);
                    }
                    current = Vec::new();
                }
                current.push(entry.1);
                proof {
                    assert(current@ =~= seq![entry.1]);
                    if i == 0 {
                        assert(runs(before) =~= Seq::<Seq<Pos>>::empty());
                        assert(curve_views(curves@) =~= Seq::<Seq<Pos>>::empty());
                    }
                    assert(runs(now) =~= curve_views(curves@).push(current@));
                }
            }
            i += 1;
        }
        if i > 0 {
            let ghost done = curve_views(curves@).push(current@);
            curves.push(Curve::new(current));
            proof {
                assert(self.points@.take(i as int) =~= self.points@);
                assert(curve_views(curves@) =~= done);
            }
        } else {
            proof {
                assert(curve_views(curves@) =~= runs(self.points@));
            }
        }
        curves
    }

    pub fn width(&self) -> (width: usize)
        ensures
            width == self@.width,
    {
        self.width
    }

    pub fn height(&self) -> (height: usize)
        ensures
            height == self@.height,
    {
        self.height
    }
}

/// Whether two labels belong to one border.
pub fn same_border(a: i32, b: i32) -> (same: bool)
    ensures
        same == (border_id(a) == border_id(b)),
{
    let wide_a: i64 = a as i64;
    let wide_b: i64 = b as i64;
    wide_a == wide_b || wide_a == -wide_b
}

} // verus!
