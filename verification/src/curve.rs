//! Points on the cell grid and the curves made of them.

use vstd::prelude::*;

verus! {

/// A point of a curve: the column `x` and the row `y` of a grid cell.
///
/// The normalized position of the point is `x / width` and `y / height` of
/// the grid it was traced on; keeping the cell itself keeps every distance
/// an exact ratio of integers.
#[derive(Clone, Copy, Debug, PartialEq, Eq, Structural)]
pub struct Pos {
    pub x: i32,
    pub y: i32,
}

impl Pos {
    pub fn new(x: i32, y: i32) -> (pos: Self)
        ensures
            pos.x == x,
            pos.y == y,
    {
        Self { x, y }
    }
}

/// Whether every point of the sequence is a cell of a grid of `w` columns
/// and `h` rows.
pub open spec fn within(s: Seq<Pos>, w: int, h: int) -> bool {
    forall|i: int| 0 <= i < s.len() ==> 0 <= (#[trigger] s[i]).x < w && 0 <= s[i].y < h
}

/// An ordered sequence of points.
#[derive(Debug)]
pub struct Curve {
    points: Vec<Pos>,
}

impl View for Curve {
    type V = Seq<Pos>;

    closed spec fn view(&self) -> Seq<Pos> {
        self.points@
    }
}

impl Clone for Curve {
    fn clone(&self) -> (copy: Self)
        ensures
            copy@ == self@,
    {
        Self { points: self.points.clone() }
    }
}

impl Curve {
    pub fn new(points: Vec<Pos>) -> (curve: Self)
        ensures
            curve@ == points@,
    {
        Self { points }
    }

    /// Moves every point of `other` to the end of this curve.
    pub fn append(&mut self, other: &mut Self)
        ensures
            final(self)@ == old(self)@ + old(other)@,
            final(other)@ == Seq::<Pos>::empty(),
    {
        self.points.append(&mut other.points);
    }

    /// The points from `start` up to, not including, `end`.
    pub fn part(&self, start: usize, end: usize) -> (piece: Self)
        requires
            start <= end <= self@.len(),
        ensures
            piece@ == self@.subrange(start as int, end as int),
    {
        let mut points: Vec<Pos> = Vec::new();
        let mut i: usize = start;
        while i < end
            invariant
                start <= i <= end <= self.points@.len(),
                points@ == self.points@.subrange(start as int, i as int),
            decreases end - i,
        {
            points.push(self.points[i]);
            i += 1;
            assert(points@ =~= self.points@.subrange(start as int, i as int));
        }
        Self { points }
    }

    pub fn len(&self) -> (n: usize)
        ensures
            n == self@.len(),
    {
        self.points.len()
    }

    /// The point at `index`.
    pub fn index(&self, index: usize) -> (pos: &Pos)
        requires
            index < self@.len(),
        ensures
            *pos == self@[index as int],
    {
        &self.points[index]
    }

    /// Gives up the curve for its points, in order.
    pub fn into_iter(self) -> (points: Vec<Pos>)
        ensures
            points@ == self@,
    {
        self.points
    }
}

} // verus!
