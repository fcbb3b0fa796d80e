//! Curve simplification: a curve is cut at the point that stands farthest
//! off its chord, as long as that point stands farther off than the
//! tolerance allows, and is replaced by its chord where none does.
//!
//! Points are grid cells, and a distance is measured in units of the
//! grid's extent: a step of one column is `1 / width` long, a step of one
//! row `1 / height`. Every distance that is compared here is therefore the
//! root of a ratio of integers, and every comparison is made exactly, on
//! the squares.

use vstd::prelude::*;
use crate::curve::{within, Curve, Pos};

verus! {

/// The distance `num / den` up to which a point may stand off a chord, in
/// units of the grid's extent.
#[derive(Clone, Copy, Debug)]
pub struct Tolerance {
    num: u32,
    den: u32,
}

impl Tolerance {
    pub closed spec fn num(self) -> int {
        self.num as int
    }

    pub closed spec fn den(self) -> int {
        self.den as int
    }

    /// The ratio has a divisor.
    pub open spec fn wf(self) -> bool {
        0 <= self.num() <= u32::MAX && 0 < self.den() <= u32::MAX
    }

    /// The tolerance `num / den`. A negative one is refused, and so is one
    /// without a divisor or with a part that does not fit 32 bits.
    pub fn new(num: i64, den: i64) -> (tolerance: Option<Self>)
        ensures
            tolerance.is_some() == (0 <= num <= u32::MAX && 0 < den <= u32::MAX),
            tolerance.is_some() ==> tolerance.unwrap().wf() && tolerance.unwrap().num() == num
                && tolerance.unwrap().den() == den,
    {
        if num < 0 || num > 0xffff_ffff || den <= 0 || den > 0xffff_ffff {
            None
        } else {
            Some(Self { num: num as u32, den: den as u32 })
        }
    }

    /// Whether this tolerance allows no more than `other` does.
    pub open spec fn at_most(self, other: Tolerance) -> bool {
        self.num() * other.den() <= other.num() * self.den()
    }
}

/// Whether the chord from `a` to `b` has no length.
pub open spec fn is_point(a: Pos, b: Pos) -> bool {
    a.x == b.x && a.y == b.y
}

/// The square of the distance at which `p` stands off the chord from `a` to
/// `b`, as a multiple of `1 / span(a, b, w, h)`. Off a chord with a length
/// this is the distance from the line through it; off a chord without
/// length, which gives no line, it is the distance from its one point.
pub open spec fn deviation(p: Pos, a: Pos, b: Pos, w: int, h: int) -> int {
    let dx = b.x - a.x;
    let dy = b.y - a.y;
    let px = a.x - p.x;
    let py = a.y - p.y;
    if is_point(a, b) {
        (px * h) * (px * h) + (py * w) * (py * w)
    } else {
        (dx * py - px * dy) * (dx * py - px * dy)
    }
}

/// The unit of `deviation` for the chord from `a` to `b`: the deviation
/// divided by this is the squared distance in units of the extent.
pub open spec fn span(a: Pos, b: Pos, w: int, h: int) -> int {
    let dx = b.x - a.x;
    let dy = b.y - a.y;
    if is_point(a, b) {
        (w * h) * (w * h)
    } else {
        (dx * h) * (dx * h) + (dy * w) * (dy * w)
    }
}

/// Whether a distance whose square is `deviation / span` is greater than
/// the tolerance.
pub open spec fn exceeds(deviation: int, span: int, tolerance: Tolerance) -> bool {
    deviation * (tolerance.den() * tolerance.den()) > (tolerance.num() * tolerance.num()) * span
}

/// The deviation of the point at `i` off the chord of the whole curve.
pub open spec fn deviation_at(s: Seq<Pos>, i: int, w: int, h: int) -> int {
    deviation(s[i], s[0], s.last(), w, h)
}

/// Among the points at 1 to `n`, the place of the first that deviates most
/// from the chord of the curve.
pub open spec fn peak_upto(s: Seq<Pos>, n: int, w: int, h: int) -> int
    decreases n,
{
    if n <= 1 {
        1
    } else {
        let k = peak_upto(s, n - 1, w, h);
        if deviation_at(s, n, w, h) > deviation_at(s, k, w, h) {
            n
        } else {
            k
        }
    }
}

/// Among the points between the ends of the curve, the place of the first
/// that deviates most from its chord.
pub open spec fn peak(s: Seq<Pos>, w: int, h: int) -> int {
    peak_upto(s, s.len() - 2, w, h)
}

/// Whether the curve is cut: it has a point between its ends, and its peak
/// stands farther off the chord than the tolerance allows.
pub open spec fn is_cut(s: Seq<Pos>, w: int, h: int, tolerance: Tolerance) -> bool {
    let k = peak(s, w, h);
    s.len() >= 3 && 1 <= k <= s.len() - 2 && exceeds(
        deviation_at(s, k, w, h),
        span(s[0], s.last(), w, h),
        tolerance,
    )
}

/// The simplified curve. A curve that is cut at its peak is the simplified
/// part up to the peak followed by the simplified part from it, with the
/// peak between them once. A curve of three or more points that is not cut
/// is its two ends. A shorter one stays as it is.
pub open spec fn simplified(s: Seq<Pos>, w: int, h: int, tolerance: Tolerance) -> Seq<Pos>
    decreases s.len(),
{
    if s.len() < 3 {
        s
    } else if is_cut(s, w, h, tolerance) {
        let k = peak(s, w, h);
        simplified(s.subrange(0, k + 1), w, h, tolerance) + simplified(
            s.subrange(k, s.len() as int),
            w,
            h,
            tolerance,
        ).skip(1)
    } else {
        seq![s[0], s.last()]
    }
}

/// The peak among the points at 1 to `n` is one of them, none deviates more
/// than it, and none before it as much.
pub proof fn peak_upto_is_first_greatest(s: Seq<Pos>, n: int, w: int, h: int)
    requires
        1 <= n,
    ensures
        1 <= peak_upto(s, n, w, h) <= n,
        forall|j: int|
            1 <= j <= n ==> #[trigger] deviation_at(s, j, w, h) <= deviation_at(
                s,
                peak_upto(s, n, w, h),
                w,
                h,
            ),
        forall|j: int|
            1 <= j < peak_upto(s, n, w, h) ==> #[trigger] deviation_at(s, j, w, h) < deviation_at(
                s,
                peak_upto(s, n, w, h),
                w,
                h,
            ),
    decreases n,
{
    if n > 1 {
        peak_upto_is_first_greatest(s, n - 1, w, h);
    }
}

/// A point that is the first to deviate most is the peak.
pub proof fn first_greatest_is_peak(s: Seq<Pos>, k: int, w: int, h: int)
    requires
        s.len() >= 3,
        1 <= k <= s.len() - 2,
        forall|j: int|
            1 <= j <= s.len() - 2 ==> #[trigger] deviation_at(s, j, w, h) <= deviation_at(
                s,
                k,
                w,
                h,
            ),
        forall|j: int|
            1 <= j < k ==> #[trigger] deviation_at(s, j, w, h) < deviation_at(s, k, w, h),
    ensures
        peak(s, w, h) == k,
{
    peak_upto_is_first_greatest(s, s.len() - 2, w, h);
    let q = peak(s, w, h);
    if q < k {
        assert(deviation_at(s, q, w, h) < deviation_at(s, k, w, h));
        assert(deviation_at(s, k, w, h) <= deviation_at(s, q, w, h));
    } else if k < q {
        assert(deviation_at(s, k, w, h) < deviation_at(s, q, w, h));
        assert(deviation_at(s, q, w, h) <= deviation_at(s, k, w, h));
    }
}

/// A simplified curve begins and ends where the curve does, and has no
/// more points than it; of a curve with two ends it keeps both.
pub proof fn simplified_keeps_ends(s: Seq<Pos>, w: int, h: int, tolerance: Tolerance)
    ensures
        simplified(s, w, h, tolerance).len() <= s.len(),
        s.len() >= 2 ==> simplified(s, w, h, tolerance).len() >= 2,
        s.len() >= 1 ==> simplified(s, w, h, tolerance).len() >= 1 && simplified(
            s,
            w,
            h,
            tolerance,
        )[0] == s[0] && simplified(s, w, h, tolerance).last() == s.last(),
    decreases s.len(),
{
    if s.len() >= 3 && is_cut(s, w, h, tolerance) {
        let k = peak(s, w, h);
        let left = s.subrange(0, k + 1);
        let right = s.subrange(k, s.len() as int);
        simplified_keeps_ends(left, w, h, tolerance);
        simplified_keeps_ends(right, w, h, tolerance);
    }
}

/// Whatever holds of every point between the ends of a curve holds of
/// every point between the ends of the simplified curve: it is made of
/// points of the curve.
pub proof fn simplified_keeps_inner(
    s: Seq<Pos>,
    w: int,
    h: int,
    tolerance: Tolerance,
    holds: spec_fn(Pos) -> bool,
)
    requires
        forall|j: int| 1 <= j < s.len() - 1 ==> holds(#[trigger] s[j]),
    ensures
        forall|i: int|
            1 <= i < simplified(s, w, h, tolerance).len() - 1 ==> holds(
                #[trigger] simplified(s, w, h, tolerance)[i],
            ),
    decreases s.len(),
{
    if s.len() >= 3 && is_cut(s, w, h, tolerance) {
        let k = peak(s, w, h);
        let left = s.subrange(0, k + 1);
        let right = s.subrange(k, s.len() as int);
        let a = simplified(left, w, h, tolerance);
        let b = simplified(right, w, h, tolerance);
        assert forall|j: int| 1 <= j < left.len() - 1 implies holds(#[trigger] left[j]) by {
            assert(left[j] == s[j]);
        }
        assert forall|j: int| 1 <= j < right.len() - 1 implies holds(#[trigger] right[j]) by {
            assert(right[j] == s[k + j]);
        }
        simplified_keeps_inner(left, w, h, tolerance, holds);
        simplified_keeps_inner(right, w, h, tolerance, holds);
        simplified_keeps_ends(left, w, h, tolerance);
        simplified_keeps_ends(right, w, h, tolerance);
        let r = simplified(s, w, h, tolerance);
        assert(r == a + b.skip(1));
        assert forall|i: int| 1 <= i < r.len() - 1 implies holds(#[trigger] r[i]) by {
            if i < a.len() - 1 {
                assert(r[i] == a[i]);
            } else if i == a.len() - 1 {
                assert(r[i] == a.last());
                assert(a.last() == left.last());
                assert(left.last() == s[k]);
            } else {
                assert(r[i] == b[i - a.len() + 1]);
            }
        }
    }
}

/// A deviation and a span are no less than nothing.
pub proof fn deviation_is_nonnegative(p: Pos, a: Pos, b: Pos, w: int, h: int)
    ensures
        deviation(p, a, b, w, h) >= 0,
        span(a, b, w, h) >= 0,
{
    assert forall|v: int| #[trigger] (v * v) >= 0 by {
        assert(v * v >= 0) by (nonlinear_arith);
    }
}

/// What exceeds a tolerance exceeds every smaller one.
pub proof fn exceeds_smaller(deviation: int, span: int, smaller: Tolerance, greater: Tolerance)
    requires
        smaller.wf(),
        greater.wf(),
        smaller.at_most(greater),
        span >= 0,
        exceeds(deviation, span, greater),
    ensures
        exceeds(deviation, span, smaller),
{
    let n1 = smaller.num();
    let d1 = smaller.den();
    let n2 = greater.num();
    let d2 = greater.den();
    assert((n1 * n1) * (d2 * d2) <= (n2 * n2) * (d1 * d1)) by (nonlinear_arith)
        requires
            0 <= n1 * d2 <= n2 * d1,
    {
        assert((n1 * d2) * (n1 * d2) <= (n2 * d1) * (n2 * d1));
    }
    assert(0 <= n1 * d2) by (nonlinear_arith)
        requires
            0 <= n1,
            0 < d2,
    ;
    let lhs = deviation * (d1 * d1);
    let rhs = (n1 * n1) * span;
    assert(lhs * (d2 * d2) > rhs * (d2 * d2)) by (nonlinear_arith)
        requires
            lhs == deviation * (d1 * d1),
            rhs == (n1 * n1) * span,
            deviation * (d2 * d2) > (n2 * n2) * span,
            (n1 * n1) * (d2 * d2) <= (n2 * n2) * (d1 * d1),
            span >= 0,
            d1 > 0,
    {
        assert((deviation * (d2 * d2)) * (d1 * d1) > ((n2 * n2) * span) * (d1 * d1));
        assert(((n1 * n1) * (d2 * d2)) * span <= ((n2 * n2) * (d1 * d1)) * span);
    }
    assert(lhs > rhs) by (nonlinear_arith)
        requires
            lhs * (d2 * d2) > rhs * (d2 * d2),
            d2 > 0,
    ;
}

/// Under a smaller tolerance a curve keeps at least as many points.
pub proof fn simplified_shrinks_with_tolerance(
    s: Seq<Pos>,
    w: int,
    h: int,
    smaller: Tolerance,
    greater: Tolerance,
)
    requires
        smaller.wf(),
        greater.wf(),
        smaller.at_most(greater),
    ensures
        simplified(s, w, h, smaller).len() >= simplified(s, w, h, greater).len(),
    decreases s.len(),
{
    if s.len() >= 3 {
        simplified_keeps_ends(s, w, h, smaller);
        if is_cut(s, w, h, greater) {
            let k = peak(s, w, h);
            deviation_is_nonnegative(s[k], s[0], s.last(), w, h);
            exceeds_smaller(
                deviation_at(s, k, w, h),
                span(s[0], s.last(), w, h),
                smaller,
                greater,
            );
            assert(is_cut(s, w, h, smaller));
            let left = s.subrange(0, k + 1);
            let right = s.subrange(k, s.len() as int);
            simplified_shrinks_with_tolerance(left, w, h, smaller, greater);
            simplified_shrinks_with_tolerance(right, w, h, smaller, greater);
            simplified_keeps_ends(right, w, h, smaller);
            simplified_keeps_ends(right, w, h, greater);
        }
    }
}

/// To simplify a simplified curve again, under the same tolerance, changes
/// nothing.
pub proof fn simplified_is_idempotent(s: Seq<Pos>, w: int, h: int, tolerance: Tolerance)
    ensures
        simplified(simplified(s, w, h, tolerance), w, h, tolerance) == simplified(
            s,
            w,
            h,
            tolerance,
        ),
    decreases s.len(),
{
    let r = simplified(s, w, h, tolerance);
    if s.len() >= 3 && is_cut(s, w, h, tolerance) {
        let k = peak(s, w, h);
        let left = s.subrange(0, k + 1);
        let right = s.subrange(k, s.len() as int);
        let a = simplified(left, w, h, tolerance);
        let b = simplified(right, w, h, tolerance);
        let top = deviation_at(s, k, w, h);
        simplified_keeps_ends(left, w, h, tolerance);
        simplified_keeps_ends(right, w, h, tolerance);
        simplified_keeps_ends(s, w, h, tolerance);
        simplified_is_idempotent(left, w, h, tolerance);
        simplified_is_idempotent(right, w, h, tolerance);
        peak_upto_is_first_greatest(s, s.len() - 2, w, h);
        let below = |p: Pos| deviation(p, s[0], s.last(), w, h) < top;
        let within = |p: Pos| deviation(p, s[0], s.last(), w, h) <= top;
        assert forall|j: int| 1 <= j < left.len() - 1 implies below(#[trigger] left[j]) by {
            assert(left[j] == s[j]);
            assert(deviation_at(s, j, w, h) < top);
        }
        assert forall|j: int| 1 <= j < right.len() - 1 implies within(#[trigger] right[j]) by {
            assert(right[j] == s[k + j]);
            assert(deviation_at(s, k + j, w, h) <= top);
        }
        simplified_keeps_inner(left, w, h, tolerance, below);
        simplified_keeps_inner(right, w, h, tolerance, within);
        let p = a.len() - 1;
        assert(r == a + b.skip(1));
        assert(r[0] == s[0]);
        assert(r.last() == s.last());
        assert(r[p] == s[k]) by {
            assert(r[p] == a.last());
            assert(left.last() == s[k]);
        }
        assert forall|j: int| 1 <= j <= r.len() - 2 implies #[trigger] deviation_at(r, j, w, h)
            <= deviation_at(r, p, w, h) by {
            if j < p {
                assert(r[j] == a[j]);
                assert(below(a[j]));
            } else if j > p {
                assert(r[j] == b[j - p]);
                assert(within(b[j - p]));
            }
        }
        assert forall|j: int| 1 <= j < p implies #[trigger] deviation_at(r, j, w, h)
            < deviation_at(r, p, w, h) by {
            assert(r[j] == a[j]);
            assert(below(a[j]));
        }
        first_greatest_is_peak(r, p, w, h);
        assert(is_cut(r, w, h, tolerance));
        assert(r.subrange(0, p + 1) =~= a);
        assert(r.subrange(p, r.len() as int) =~= b) by {
            assert(b[0] == right[0]);
            assert(right[0] == s[k]);
        }
    } else if s.len() >= 3 {
        assert(r.len() == 2);
    }
}

/// A product is as far from nothing as the product of its factors' bounds.
proof fn product_is_bounded(a: int, b: int, most_a: int, most_b: int)
    requires
        -most_a <= a <= most_a,
        -most_b <= b <= most_b,
    ensures
        -(most_a * most_b) <= a * b <= most_a * most_b,
{
    assert(-(most_a * most_b) <= a * b <= most_a * most_b) by (nonlinear_arith)
        requires
            -most_a <= a <= most_a,
            -most_b <= b <= most_b,
    {
        assert((most_a - a) * (most_b - b) >= 0);
        assert((most_a + a) * (most_b + b) >= 0);
        assert((most_a - a) * (most_b + b) >= 0);
        assert((most_a + a) * (most_b - b) >= 0);
    }
}

/// A square is no more than the square of a bound on its root.
proof fn square_is_bounded(a: int, most: int)
    requires
        -most <= a <= most,
    ensures
        0 <= a * a <= most * most,
{
    product_is_bounded(a, a, most, most);
    assert(a * a >= 0) by (nonlinear_arith);
}

/// How far `point` stands off the chord from `head` to `tail`, in a grid of
/// `width` columns and `height` rows: the deviation and the span whose
/// ratio is the square of the distance.
pub fn line_distance(point: Pos, head: Pos, tail: Pos, width: usize, height: usize) -> (distance: (
    u128,
    u128,
))
    requires
        width * height < i32::MAX,
        0 <= point.x < width && 0 <= point.y < height,
        0 <= head.x < width && 0 <= head.y < height,
        0 <= tail.x < width && 0 <= tail.y < height,
    ensures
        distance.0 == deviation(point, head, tail, width as int, height as int),
        distance.1 == span(head, tail, width as int, height as int),
        distance.0 < 0x1_0000_0000_0000_0000,
        0 < distance.1 < 0x8000_0000_0000_0000,
{
    let ghost cells: int = width * height;
    proof {
        assert(width <= width * height && height <= width * height) by (nonlinear_arith)
            requires
                width >= 1,
                height >= 1,
        ;
        assert(cells * cells < 0x4000_0000_0000_0000) by (nonlinear_arith)
            requires
                0 <= cells < 0x7fff_ffff,
        ;
        assert((2 * cells) * (2 * cells) < 0x1_0000_0000_0000_0000) by (nonlinear_arith)
            requires
                0 <= cells < 0x7fff_ffff,
        ;
    }
    let w: i64 = width as i64;
    let h: i64 = height as i64;
    let dx: i64 = tail.x as i64 - head.x as i64;
    let dy: i64 = tail.y as i64 - head.y as i64;
    let px: i64 = head.x as i64 - point.x as i64;
    let py: i64 = head.y as i64 - point.y as i64;
    if dx == 0 && dy == 0 {
        proof {
            product_is_bounded(px as int, h as int, w as int, h as int);
            product_is_bounded(py as int, w as int, h as int, w as int);
            assert(h * w == w * h) by (nonlinear_arith);
            product_is_bounded(w as int, h as int, w as int, h as int);
        }
        let across: i64 = px * h;
        let along: i64 = py * w;
        let whole: i64 = w * h;
        proof {
            square_is_bounded(across as int, cells);
            square_is_bounded(along as int, cells);
            square_is_bounded(whole as int, cells);
            assert(whole * whole > 0) by (nonlinear_arith)
                requires
                    whole >= 1,
            ;
        }
        let across_wide: u128 = (across as i128 * across as i128) as u128;
        let along_wide: u128 = (along as i128 * along as i128) as u128;
        let whole_wide: u128 = (whole as i128 * whole as i128) as u128;
        (across_wide + along_wide, whole_wide)
    } else {
        proof {
            product_is_bounded(dx as int, py as int, w as int, h as int);
            product_is_bounded(px as int, dy as int, w as int, h as int);
            product_is_bounded(dx as int, h as int, w as int, h as int);
            product_is_bounded(dy as int, w as int, h as int, w as int);
            assert(h * w == w * h) by (nonlinear_arith);
        }
        let cross: i64 = dx * py - px * dy;
        let across: i64 = dx * h;
        let along: i64 = dy * w;
        proof {
            square_is_bounded(cross as int, 2 * cells);
            square_is_bounded(across as int, cells);
            square_is_bounded(along as int, cells);
            assert(across * across + along * along > 0) by (nonlinear_arith)
                requires
                    across == dx * h,
                    along == dy * w,
                    dx != 0 || dy != 0,
                    w >= 1,
                    h >= 1,
            {
                if dx != 0 {
                    assert(dx * h != 0);
                    assert((dx * h) * (dx * h) > 0);
                    assert((dy * w) * (dy * w) >= 0);
                } else {
                    assert(dy * w != 0);
                    assert((dy * w) * (dy * w) > 0);
                    assert((dx * h) * (dx * h) >= 0);
                }
            }
        }
        let cross_wide: u128 = (cross as i128 * cross as i128) as u128;
        let across_wide: u128 = (across as i128 * across as i128) as u128;
        let along_wide: u128 = (along as i128 * along as i128) as u128;
        (cross_wide, across_wide + along_wide)
    }
}

/// Whether a distance whose square is `deviation / span` is greater than
/// the tolerance.
pub fn exceeds_tolerance(deviation: u128, span: u128, epsilon: &Tolerance) -> (more: bool)
    requires
        epsilon.wf(),
        deviation < 0x1_0000_0000_0000_0000,
        span < 0x8000_0000_0000_0000,
    ensures
        more == exceeds(deviation as int, span as int, *epsilon),
{
    let num: u128 = epsilon.num as u128;
    let den: u128 = epsilon.den as u128;
    proof {
        assert(num * num < 0x1_0000_0000_0000_0000 && den * den < 0x1_0000_0000_0000_0000)
            by (nonlinear_arith)
            requires
                0 <= num <= 0xffff_ffff,
                0 <= den <= 0xffff_ffff,
        ;
        assert(deviation * (den * den) <= 0xffff_ffff_ffff_ffff * 0xffff_ffff_ffff_ffff)
            by (nonlinear_arith)
            requires
                0 <= deviation <= 0xffff_ffff_ffff_ffff,
                0 <= den * den <= 0xffff_ffff_ffff_ffff,
        ;
        assert((num * num) * span <= 0xffff_ffff_ffff_ffff * 0xffff_ffff_ffff_ffff)
            by (nonlinear_arith)
            requires
                0 <= span <= 0xffff_ffff_ffff_ffff,
                0 <= num * num <= 0xffff_ffff_ffff_ffff,
        ;
    }
    deviation * (den * den) > (num * num) * span
}

/// Puts behind `out` the simplified stretch of `points` from `lo` to `hi`,
/// both ends included, but for its first point, which the caller has put
/// there.
fn simplify_range(
    points: &Vec<Pos>,
    lo: usize,
    hi: usize,
    epsilon: &Tolerance,
    width: usize,
    height: usize,
    out: &mut Vec<Pos>,
)
    requires
        lo < hi < points@.len(),
        epsilon.wf(),
        width * height < i32::MAX,
        within(points@, width as int, height as int),
    ensures
        final(out)@ == old(out)@ + simplified(
            points@.subrange(lo as int, hi + 1),
            width as int,
            height as int,
            *epsilon,
        ).skip(1),
    decreases hi - lo,
{
    let ghost w = width as int;
    let ghost h = height as int;
    let ghost stretch = points@.subrange(lo as int, hi + 1);
    if hi - lo < 2 {
        out.push(points[hi]);
        proof {
            assert(simplified(stretch, w, h, *epsilon).skip(1) =~= seq![points@[hi as int]]);
        }
        return ;
    }
    let first = points[lo];
    let last = points[hi];
    let mut index: usize = lo + 1;
    let at_first = line_distance(points[index], first, last, width, height);
    let mut dmax: u128 = at_first.0;
    let span_wide: u128 = at_first.1;
    let mut i: usize = lo + 2;
    while i < hi
        invariant
            lo + 1 <= index < i <= hi < points@.len(),
            stretch == points@.subrange(lo as int, hi + 1),
            first == points@[lo as int],
            last == points@[hi as int],
            width * height < i32::MAX,
            within(points@, width as int, height as int),
            w == width,
            h == height,
            index - lo == peak_upto(stretch, i - 1 - lo, w, h),
            dmax == deviation_at(stretch, index - lo, w, h),
            dmax < 0x1_0000_0000_0000_0000,
        decreases hi - i,
    {
        let d = line_distance(points[i], first, last, width, height);
        proof {
            assert(stretch[i - lo] == points@[i as int]);
            assert(stretch[0] == first);
            assert(stretch.last() == last);
        }
        if d.0 > dmax {
            index = i;
            dmax = d.0;
        }
        i += 1;
    }
    proof {
        assert(stretch[0] == first);
        assert(stretch.last() == last);
        assert(index - lo == peak(stretch, w, h));
    }
    if exceeds_tolerance(dmax, span_wide, epsilon) {
        let ghost left = points@.subrange(lo as int, index + 1);
        let ghost right = points@.subrange(index as int, hi + 1);
        proof {
            assert(is_cut(stretch, w, h, *epsilon));
            assert(stretch.subrange(0, index - lo + 1) =~= left);
            assert(stretch.subrange(index - lo, stretch.len() as int) =~= right);
            simplified_keeps_ends(left, w, h, *epsilon);
        }
        simplify_range(points, lo, index, epsilon, width, height, out);
        simplify_range(points, index, hi, epsilon, width, height, out);
        proof {
            let a = simplified(left, w, h, *epsilon);
            let b = simplified(right, w, h, *epsilon);
            assert(a.skip(1) + b.skip(1) =~= (a + b.skip(1)).skip(1));
            assert(out@ =~= old(out)@ + (a + b.skip(1)).skip(1));
        }
    } else {
        out.push(last);
        proof {
            assert(!is_cut(stretch, w, h, *epsilon));
            assert(simplified(stretch, w, h, *epsilon).skip(1) =~= seq![last]);
        }
    }
}

/// Simplifies a curve whose points are cells of a grid of `width` columns
/// and `height` rows.
pub fn simplify_curve(curve: Curve, epsilon: &Tolerance, width: usize, height: usize) -> (simple:
    Curve)
    requires
        epsilon.wf(),
        width * height < i32::MAX,
        within(curve@, width as int, height as int),
    ensures
        simple@ == simplified(curve@, width as int, height as int, *epsilon),
{
    if curve.len() < 3 {
        return curve;
    }
    let ghost whole = curve@;
    let points = curve.into_iter();
    let mut out: Vec<Pos> = Vec::new();
    out.push(points[0]);
    simplify_range(&points, 0, points.len() - 1, epsilon, width, height, &mut out);
    proof {
        assert(points@.subrange(0, points@.len() as int) =~= whole);
        simplified_keeps_ends(whole, width as int, height as int, *epsilon);
        let r = simplified(whole, width as int, height as int, *epsilon);
        assert(out@ =~= r);
    }
    Curve::new(out)
}

/// Simplifies each of the curves, in their order.
pub fn simplify_borders(
    curves: Vec<Curve>,
    epsilon: &Tolerance,
    width: usize,
    height: usize,
) -> (simple: Vec<Curve>)
    requires
        epsilon.wf(),
        width * height < i32::MAX,
        forall|i: int|
            0 <= i < curves@.len() ==> within(
                #[trigger] curves@[i]@,
                width as int,
                height as int,
            ),
    ensures
        simple@.len() == curves@.len(),
        forall|i: int|
            0 <= i < curves@.len() ==> (#[trigger] simple@[i])@ == simplified(
                curves@[i]@,
                width as int,
                height as int,
                *epsilon,
            ),
{
    let mut simple: Vec<Curve> = Vec::new();
    let mut i: usize = 0;
    while i < curves.len()
        invariant
            i <= curves@.len(),
            simple@.len() == i,
            epsilon.wf(),
            width * height < i32::MAX,
            forall|j: int|
                0 <= j < curves@.len() ==> within(
                    #[trigger] curves@[j]@,
                    width as int,
                    height as int,
                ),
            forall|j: int|
                0 <= j < i ==> (#[trigger] simple@[j])@ == simplified(
                    curves@[j]@,
                    width as int,
                    height as int,
                    *epsilon,
                ),
        decreases curves@.len() - i,
    {
        let curve = curves[i].clone();
        simple.push(simplify_curve(curve, epsilon, width, height));
        i += 1;
    }
    simple
}

} // verus!
