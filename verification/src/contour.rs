//! From a grid of intensity levels to its simplified border curves.

use vstd::prelude::*;
use crate::binary_image::{curve_views, runs, BinaryImage, Labels};
use crate::curve::{Curve, Pos};
use crate::simplify::{simplified, simplify_borders, Tolerance};
use crate::tracer::{trace_borders, traced};

verus! {

/// The labels of a grid of levels before any border is traced: 1 for a
/// level above the threshold, 0 for every other, one that equals the
/// threshold too.
pub open spec fn binary(levels: Seq<u64>, threshold: u64) -> Seq<i32> {
    Seq::new(
        levels.len(),
        |i: int|
            if levels[i] > threshold {
                1i32
            } else {
                0i32
            },
    )
}

/// Each of the curves simplified, in their order.
pub open spec fn simplified_each(
    curves: Seq<Seq<Pos>>,
    w: int,
    h: int,
    tolerance: Tolerance,
) -> Seq<Seq<Pos>> {
    Seq::new(curves.len(), |i: int| simplified(curves[i], w, h, tolerance))
}

/// The grid of labels that tracing starts from.
pub open spec fn untraced(levels: Seq<u64>, width: nat, height: nat, threshold: u64) -> Labels {
    Labels { width, height, cells: binary(levels, threshold), entries: Seq::empty() }
}

/// The border curves of a grid of levels: the grid is made binary, its
/// borders are traced, the entries written on the way are grouped into
/// curves, and each curve is simplified.
pub open spec fn outlines(
    levels: Seq<u64>,
    width: nat,
    height: nat,
    threshold: u64,
    tolerance: Tolerance,
) -> Seq<Seq<Pos>> {
    simplified_each(
        runs(traced(untraced(levels, width, height, threshold)).entries),
        width as int,
        height as int,
        tolerance,
    )
}

/// Makes a grid of levels binary. The levels may be on any scale of whole
/// numbers that keeps their order.
pub fn binarize(levels: &Vec<u64>, threshold: u64) -> (pixels: Vec<i32>)
    ensures
        pixels@ == binary(levels@, threshold),
{
    let mut pixels: Vec<i32> = Vec::new();
    let mut i: usize = 0;
    while i < levels.len()
        invariant
            i <= levels@.len(),
            pixels@.len() == i,
            forall|j: int| 0 <= j < i ==> pixels@[j] == binary(levels@, threshold)[j],
        decreases levels@.len() - i,
    {
        let pixel: i32 = if levels[i] > threshold {
            1
        } else {
            0
        };
        pixels.push(pixel);
        i += 1;
    }
    proof {
        assert(pixels@ =~= binary(levels@, threshold));
    }
    pixels
}

/// Traces the borders in a grid of levels, given in row-major order, and
/// returns them as simplified curves, in the order in which the scan met
/// them.
pub fn contours(
    levels: &Vec<u64>,
    width: usize,
    height: usize,
    threshold: u64,
    epsilon: &Tolerance,
) -> (curves: Vec<Curve>)
    requires
        levels@.len() == width * height,
        levels@.len() < i32::MAX,
        epsilon.wf(),
    ensures
        curve_views(curves@) == outlines(
            levels@,
            width as nat,
            height as nat,
            threshold,
            *epsilon,
        ),
{
    let mut image = BinaryImage::new(binarize(levels, threshold), width, height);
    trace_borders(&mut image);
    let borders = image.curves();
    let curves = simplify_borders(borders, epsilon, width, height);
    proof {
        assert(curve_views(curves@) =~= outlines(
            levels@,
            width as nat,
            height as nat,
            threshold,
            *epsilon,
        ));
    }
    curves
}

} // verus!
