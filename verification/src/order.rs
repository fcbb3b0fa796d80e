//! The order in which curves are drawn: the longest first, and none that is
//! shorter than a minimum.

use vstd::prelude::*;
use crate::curve::{within, Curve};
use crate::length::arc_length;

verus! {

/// Whether, of the curves with these lengths, the one at `i` goes before
/// the one at `j`: it is longer, or as long and stands earlier.
pub open spec fn goes_before(lengths: Seq<int>, i: int, j: int) -> bool {
    lengths[i] > lengths[j] || (lengths[i] == lengths[j] && i < j)
}

/// Whether `order` lists the curves to draw in their order: it holds the
/// place of every curve that is no shorter than `minimum` and of no other,
/// and each goes before all that come after it.
pub open spec fn is_order(lengths: Seq<int>, minimum: int, order: Seq<usize>) -> bool {
    &&& forall|k: int|
        0 <= k < order.len() ==> (#[trigger] order[k]) < lengths.len() && lengths[order[k] as int]
            >= minimum
    &&& forall|a: int, b: int|
        0 <= a < b < order.len() ==> goes_before(
            lengths,
            (#[trigger] order[a]) as int,
            (#[trigger] order[b]) as int,
        )
    &&& forall|i: int|
        0 <= i < lengths.len() && #[trigger] lengths[i] >= minimum ==> order.contains(i as usize)
}

/// The numbers of a sequence as mathematical integers.
pub open spec fn as_ints(s: Seq<u128>) -> Seq<int> {
    Seq::new(s.len(), |i: int| s[i] as int)
}

/// The lengths of the curves, in their order.
pub open spec fn lengths_of(curves: Seq<Curve>, w: int, h: int) -> Seq<int> {
    Seq::new(curves.len(), |i: int| arc_length(curves[i]@, w, h))
}

/// The places of the curves that are no shorter than `minimum`, the longest
/// first; of curves of one length the earlier one first.
pub fn length_order(lengths: &Vec<u128>, minimum: u128) -> (order: Vec<usize>)
    ensures
        is_order(as_ints(lengths@), minimum as int, order@),
{
    let ghost all = as_ints(lengths@);
    let mut order: Vec<usize> = Vec::new();
    let mut i: usize = 0;
    while i < lengths.len()
        invariant
            i <= lengths@.len(),
            all == as_ints(lengths@),
            order@.len() <= i,
            forall|k: int|
                0 <= k < order@.len() ==> (#[trigger] order@[k]) < i && all[order@[k] as int]
                    >= minimum,
            forall|a: int, b: int|
                0 <= a < b < order@.len() ==> goes_before(
                    all,
                    (#[trigger] order@[a]) as int,
                    (#[trigger] order@[b]) as int,
                ),
            forall|j: int|
                0 <= j < i && #[trigger] all[j] >= minimum ==> order@.contains(j as usize),
        decreases lengths@.len() - i,
    {
        let length = lengths[i];
        if length >= minimum {
            let mut place: usize = 0;
            while place < order.len() && lengths[order[place]] >= length
                invariant
                    place <= order@.len(),
                    i < lengths@.len(),
                    all == as_ints(lengths@),
                    length == lengths@[i as int],
                    forall|k: int| 0 <= k < order@.len() ==> (#[trigger] order@[k]) < i,
                    forall|q: int|
                        0 <= q < place ==> all[(#[trigger] order@[q]) as int] >= length,
                decreases order@.len() - place,
            {
                place += 1;
            }
            let ghost earlier = order@;
            order.insert(place, i);
            proof {
                let now = order@;
                assert forall|a: int, b: int| 0 <= a < b < now.len() implies goes_before(
                    all,
                    (#[trigger] now[a]) as int,
                    (#[trigger] now[b]) as int,
                ) by {
                    if b < place {
                        assert(now[a] == earlier[a] && now[b] == earlier[b]);
                    } else if b == place {
                        assert(now[a] == earlier[a]);
                    } else if a < place {
                        assert(now[a] == earlier[a] && now[b] == earlier[b - 1]);
                    } else if a == place {
                        assert(now[b] == earlier[b - 1]);
                        if place < b - 1 {
                            assert(goes_before(
                                all,
                                earlier[place as int] as int,
                                earlier[b - 1] as int,
                            ));
                        }
                    } else {
                        assert(now[a] == earlier[a - 1] && now[b] == earlier[b - 1]);
                    }
                }
                assert forall|k: int| 0 <= k < now.len() implies (#[trigger] now[k]) < i + 1
                    && all[now[k] as int] >= minimum by {
                    if k < place {
                        assert(now[k] == earlier[k]);
                    } else if k > place {
                        assert(now[k] == earlier[k - 1]);
                    }
                }
                assert forall|j: int|
                    0 <= j < i + 1 && #[trigger] all[j] >= minimum implies now.contains(
                    j as usize,
                ) by {
                    if j < i {
                        assert(earlier.contains(j as usize));
                        let k = choose|k: int| 0 <= k < earlier.len() && earlier[k] == j as usize;
                        if k < place {
                            assert(now[k] == j as usize);
                        } else {
                            assert(now[k + 1] == j as usize);
                        }
                    } else {
                        assert(now[place as int] == j as usize);
                    }
                }
            }
        }
        i += 1;
    }
    order
}

/// The places of the curves to draw, in the order in which to draw them:
/// those that are no shorter than `minimum` units, the longest first.
pub fn order_curves(curves: &Vec<Curve>, width: usize, height: usize, minimum: u128) -> (order:
    Vec<usize>)
    requires
        width * height < i32::MAX,
        forall|i: int|
            0 <= i < curves@.len() ==> within(
                #[trigger] curves@[i]@,
                width as int,
                height as int,
            ),
    ensures
        is_order(lengths_of(curves@, width as int, height as int), minimum as int, order@),
{
    let mut lengths: Vec<u128> = Vec::new();
    let mut i: usize = 0;
    while i < curves.len()
        invariant
            i <= curves@.len(),
            lengths@.len() == i,
            width * height < i32::MAX,
            forall|j: int|
                0 <= j < curves@.len() ==> within(
                    #[trigger] curves@[j]@,
                    width as int,
                    height as int,
                ),
            forall|j: int|
                0 <= j < i ==> #[trigger] lengths@[j] == arc_length(
                    curves@[j]@,
                    width as int,
                    height as int,
                ),
        decreases curves@.len() - i,
    {
        lengths.push(curves[i].curve_length(width, height));
        i += 1;
    }
    proof {
        assert(as_ints(lengths@) =~= lengths_of(curves@, width as int, height as int));
    }
    length_order(&lengths, minimum)
}

} // verus!
