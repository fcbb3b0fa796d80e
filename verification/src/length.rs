//! The length of a curve, in whole units of the grid's extent.
//!
//! In a grid of `w` columns and `h` rows a step of one column is `h` units
//! long and a step of one row `w` units: the unit is the `w * h`-th part of
//! the extent. The length of a segment is rounded down to whole units.

use vstd::prelude::*;
use crate::curve::{within, Curve, Pos};

verus! {

/// Whether `r` is the root of `n`, rounded down.
pub open spec fn is_root(r: int, n: int) -> bool {
    0 <= r && r * r <= n < (r + 1) * (r + 1)
}

/// The root of `n`, rounded down.
pub open spec fn root(n: int) -> int {
    choose|r: int| is_root(r, n)
}

/// A number has one rounded root at most.
pub proof fn root_is_unique(r: int, n: int)
    requires
        is_root(r, n),
    ensures
        root(n) == r,
{
    let q = root(n);
    assert(is_root(q, n));
    assert(q == r) by (nonlinear_arith)
        requires
            0 <= r && r * r <= n < (r + 1) * (r + 1),
            0 <= q && q * q <= n < (q + 1) * (q + 1),
    {
        if q < r {
            assert((q + 1) * (q + 1) <= r * r);
        } else if r < q {
            assert((r + 1) * (r + 1) <= q * q);
        }
    }
}

/// The square of the length of the segment from `a` to `b`, in units.
pub open spec fn segment_square(a: Pos, b: Pos, w: int, h: int) -> int {
    ((b.x - a.x) * h) * ((b.x - a.x) * h) + ((b.y - a.y) * w) * ((b.y - a.y) * w)
}

/// The length of the segment from `a` to `b`, in whole units.
pub open spec fn segment_length(a: Pos, b: Pos, w: int, h: int) -> int {
    root(segment_square(a, b, w, h))
}

/// The length of a curve: the sum of the lengths of the segments between
/// its points, each next to the one before. A curve of one point has no
/// length.
pub open spec fn arc_length(s: Seq<Pos>, w: int, h: int) -> int
    decreases s.len(),
{
    if s.len() < 2 {
        0
    } else {
        arc_length(s.drop_last(), w, h) + segment_length(s[s.len() - 2], s.last(), w, h)
    }
}

/// A segment is as long from its one end as from its other.
pub proof fn segment_length_is_symmetric(a: Pos, b: Pos, w: int, h: int)
    ensures
        segment_length(a, b, w, h) == segment_length(b, a, w, h),
{
    assert(segment_square(a, b, w, h) == segment_square(b, a, w, h)) by (nonlinear_arith)
        requires
            segment_square(a, b, w, h) == ((b.x - a.x) * h) * ((b.x - a.x) * h) + ((b.y - a.y)
                * w) * ((b.y - a.y) * w),
            segment_square(b, a, w, h) == ((a.x - b.x) * h) * ((a.x - b.x) * h) + ((a.y - b.y)
                * w) * ((a.y - b.y) * w),
    ;
}

/// The length of a curve is that of its first segment and that of the rest.
pub proof fn arc_length_from_front(s: Seq<Pos>, w: int, h: int)
    requires
        s.len() >= 2,
    ensures
        arc_length(s, w, h) == segment_length(s[0], s[1], w, h) + arc_length(s.skip(1), w, h),
    decreases s.len(),
{
    if s.len() == 2 {
        assert(arc_length(s.drop_last(), w, h) == 0);
        assert(arc_length(s.skip(1), w, h) == 0);
    } else {
        arc_length_from_front(s.drop_last(), w, h);
        assert(s.drop_last().skip(1) =~= s.skip(1).drop_last());
        assert(s.skip(1).last() == s.last());
        assert(s.skip(1)[s.skip(1).len() - 2] == s[s.len() - 2]);
    }
}

/// The length of a curve is the same in either direction.
pub proof fn arc_length_of_reverse(s: Seq<Pos>, w: int, h: int)
    ensures
        arc_length(s.reverse(), w, h) == arc_length(s, w, h),
    decreases s.len(),
{
    if s.len() >= 2 {
        let back = s.reverse();
        arc_length_of_reverse(s.skip(1), w, h);
        arc_length_from_front(s, w, h);
        segment_length_is_symmetric(s[0], s[1], w, h);
        assert(back.drop_last() =~= s.skip(1).reverse());
        assert(back.last() == s[0]);
        assert(back[back.len() - 2] == s[1]);
    } else {
        assert(s.reverse().len() == s.len());
    }
}

/// The root of `n`, rounded down.
pub fn integer_root(n: u64) -> (r: u64)
    ensures
        r == root(n as int),
        is_root(r as int, n as int),
        r <= 0xffff_ffff,
{
    let mut low: u64 = 0;
    let mut high: u64 = 0x1_0000_0000;
    proof {
        assert(0x1_0000_0000 * 0x1_0000_0000 > n) by (nonlinear_arith)
            requires
                n <= 0xffff_ffff_ffff_ffff,
        ;
    }
    while high - low > 1
        invariant
            low < high <= 0x1_0000_0000,
            low * low <= n < high * high,
        decreases high - low,
    {
        let middle: u64 = low + (high - low) / 2;
        proof {
            assert(middle * middle <= 0x1_0000_0000 * 0x1_0000_0000) by (nonlinear_arith)
                requires
                    0 <= middle <= 0x1_0000_0000,
            ;
        }
        let square: u128 = (middle as u128) * (middle as u128);
        if square <= n as u128 {
            low = middle;
        } else {
            high = middle;
        }
    }
    proof {
        root_is_unique(low as int, n as int);
    }
    low
}

/// The length of the segment from `a` to `b`, in whole units.
pub fn segment_units(a: Pos, b: Pos, width: usize, height: usize) -> (units: u64)
    requires
        width * height < i32::MAX,
        0 <= a.x < width && 0 <= a.y < height,
        0 <= b.x < width && 0 <= b.y < height,
    ensures
        units == segment_length(a, b, width as int, height as int),
        units <= 0xffff_ffff,
{
    let ghost cells: int = width * height;
    let w: i64 = width as i64;
    let h: i64 = height as i64;
    let dx: i64 = b.x as i64 - a.x as i64;
    let dy: i64 = b.y as i64 - a.y as i64;
    proof {
        assert(width <= width * height && height <= width * height) by (nonlinear_arith)
            requires
                width >= 1,
                height >= 1,
        ;
        assert(-cells <= dx * h <= cells && -cells <= dy * w <= cells) by (nonlinear_arith)
            requires
                -w < dx < w,
                -h < dy < h,
                w >= 1,
                h >= 1,
                cells == w * h,
        {
            assert((w - dx) * h >= 0);
            assert((w + dx) * h >= 0);
            assert((h - dy) * w >= 0);
            assert((h + dy) * w >= 0);
        }
    }
    let across: i64 = dx * h;
    let along: i64 = dy * w;
    proof {
        assert(0 <= across * across <= cells * cells && 0 <= along * along <= cells * cells)
            by (nonlinear_arith)
            requires
                -cells <= across <= cells,
                -cells <= along <= cells,
        {
            assert((cells - across) * (cells + across) >= 0);
            assert((cells - along) * (cells + along) >= 0);
        }
        assert(cells * cells < 0x4000_0000_0000_0000) by (nonlinear_arith)
            requires
                0 <= cells < 0x7fff_ffff,
        ;
    }
    let square: u64 = (across * across + along * along) as u64;
    integer_root(square)
}

impl Pos {
    /// How far the point is from the first cell of a grid of `width`
    /// columns and `height` rows, in whole units.
    pub fn magnitude(&self, width: usize, height: usize) -> (units: u64)
        requires
            width * height < i32::MAX,
            0 <= self.x < width && 0 <= self.y < height,
        ensures
            units == segment_length(Pos { x: 0, y: 0 }, *self, width as int, height as int),
    {
        segment_units(Pos::new(0, 0), *self, width, height)
    }
}

impl Curve {
    /// The length of the curve in a grid of `width` columns and `height`
    /// rows, in whole units.
    pub fn curve_length(&self, width: usize, height: usize) -> (length: u128)
        requires
            width * height < i32::MAX,
            within(self@, width as int, height as int),
        ensures
            length == arc_length(self@, width as int, height as int),
    {
        let mut length: u128 = 0;
        if self.len() < 2 {
            return length;
        }
        let mut i: usize = 1;
        proof {
            assert(arc_length(self@.take(1), width as int, height as int) == 0);
        }
        while i < self.len()
            invariant
                1 <= i <= self@.len(),
                width * height < i32::MAX,
                within(self@, width as int, height as int),
                length == arc_length(self@.take(i as int), width as int, height as int),
                length <= i * 0xffff_ffff,
            decreases self@.len() - i,
        {
            let previous = *self.index(i - 1);
            let current = *self.index(i);
            let units = segment_units(previous, current, width, height);
            proof {
                let now = self@.take(i + 1);
                assert(now.drop_last() =~= self@.take(i as int));
                assert(now.last() == current);
                assert(now[now.len() - 2] == previous);
            }
            length = length + units as u128;
            i += 1;
        }
        proof {
            assert(self@.take(i as int) =~= self@);
        }
        length
    }
}

} // verus!
