use contour_trace::contour::{binarize, contours};
use contour_trace::curve::{Curve, Pos};
use contour_trace::simplify::{
    exceeds_tolerance, line_distance, simplify_borders, simplify_curve, Tolerance,
};

fn curve_of(points: &[(i32, i32)]) -> Curve {
    Curve::new(points.iter().map(|&(x, y)| Pos::new(x, y)).collect())
}

fn points_of(curve: Curve) -> Vec<(i32, i32)> {
    curve.into_iter().into_iter().map(|p| (p.x, p.y)).collect()
}

fn tolerance(num: i64, den: i64) -> Tolerance {
    Tolerance::new(num, den).unwrap()
}

const SQUARE: [(i32, i32); 8] = [(1, 1), (1, 2), (1, 3), (2, 3), (3, 3), (3, 2), (3, 1), (2, 1)];

#[test]
fn curve_basics() {
    let mut curve = curve_of(&[(0, 0), (1, 0), (2, 1)]);
    assert_eq!(curve.len(), 3);
    assert_eq!(*curve.index(2), Pos::new(2, 1));
    assert_eq!(points_of(curve.part(1, 3)), vec![(1, 0), (2, 1)]);
    assert_eq!(points_of(curve.part(1, 1)), vec![]);
    let mut other = curve_of(&[(5, 5)]);
    curve.append(&mut other);
    assert_eq!(other.len(), 0);
    assert_eq!(points_of(curve.clone()), vec![(0, 0), (1, 0), (2, 1), (5, 5)]);
    assert_eq!(points_of(curve), vec![(0, 0), (1, 0), (2, 1), (5, 5)]);
}

#[test]
fn negative_tolerance_is_refused() {
    assert!(Tolerance::new(-1, 100).is_none());
    assert!(Tolerance::new(1, 0).is_none());
    assert!(Tolerance::new(1, -3).is_none());
    assert!(Tolerance::new(1, 1 << 32).is_none());
    assert!(Tolerance::new(1 << 32, 1).is_none());
    assert!(Tolerance::new(0, 1).is_some());
    assert!(Tolerance::new(u32::MAX as i64, u32::MAX as i64).is_some());
}

#[test]
fn distance_from_a_chord_is_exact() {
    // two rows off a chord along a row of a grid of five rows: (2/5)^2 = 4/25
    assert_eq!(
        line_distance(Pos::new(1, 3), Pos::new(1, 1), Pos::new(2, 1), 5, 5),
        (4, 25)
    );
    // the same in a grid of 10 columns and 4 rows: 2/4, so 4 * 16 / (1 * 16 * 4)
    assert_eq!(
        line_distance(Pos::new(1, 3), Pos::new(1, 1), Pos::new(2, 1), 10, 4),
        (4, 16)
    );
    // a point of the chord's line
    assert_eq!(
        line_distance(Pos::new(3, 3), Pos::new(1, 1), Pos::new(2, 2), 5, 5).0,
        0
    );
    // a slanted chord
    assert_eq!(
        line_distance(Pos::new(3, 3), Pos::new(1, 3), Pos::new(2, 1), 5, 5),
        (16, 125)
    );
}

#[test]
fn distance_from_a_chord_without_length_is_that_from_its_point() {
    assert_eq!(
        line_distance(Pos::new(2, 3), Pos::new(1, 1), Pos::new(1, 1), 5, 4),
        (116, 400)
    );
    assert_eq!(
        line_distance(Pos::new(1, 1), Pos::new(1, 1), Pos::new(1, 1), 5, 4),
        (0, 400)
    );
}

#[test]
fn a_distance_that_equals_the_tolerance_does_not_exceed_it() {
    assert!(!exceeds_tolerance(4, 25, &tolerance(2, 5)));
    assert!(exceeds_tolerance(4, 25, &tolerance(399, 1000)));
    assert!(!exceeds_tolerance(4, 25, &tolerance(401, 1000)));
    assert!(!exceeds_tolerance(0, 25, &tolerance(0, 1)));
    assert!(exceeds_tolerance(1, 25, &tolerance(0, 1)));
    assert!(exceeds_tolerance(
        u64::MAX as u128,
        1,
        &tolerance(u32::MAX as i64, u32::MAX as i64)
    ));
}

#[test]
fn square_reduces_to_its_corners() {
    let simple = points_of(simplify_curve(curve_of(&SQUARE), &tolerance(1, 100), 5, 5));
    assert_eq!(simple, vec![(1, 1), (1, 3), (3, 3), (3, 1), (2, 1)]);
    for corner in [(1, 1), (1, 3), (3, 3), (3, 1)] {
        assert!(simple.contains(&corner));
    }
}

#[test]
fn a_curve_within_the_tolerance_is_its_chord() {
    let straight = curve_of(&[(0, 0), (1, 0), (2, 0), (3, 0)]);
    assert_eq!(points_of(simplify_curve(straight, &tolerance(0, 1), 5, 5)), vec![(0, 0), (3, 0)]);
    assert_eq!(
        points_of(simplify_curve(curve_of(&SQUARE), &tolerance(2, 5), 5, 5)),
        vec![(1, 1), (2, 1)]
    );
    // the first cut is made at 2/5 off the chord, the next would be at less
    assert_eq!(
        points_of(simplify_curve(curve_of(&SQUARE), &tolerance(399, 1000), 5, 5)),
        vec![(1, 1), (1, 3), (2, 1)]
    );
}

#[test]
fn short_curves_stay_as_they_are() {
    assert_eq!(points_of(simplify_curve(curve_of(&[]), &tolerance(1, 100), 5, 5)), vec![]);
    assert_eq!(
        points_of(simplify_curve(curve_of(&[(2, 2)]), &tolerance(1, 100), 5, 5)),
        vec![(2, 2)]
    );
    assert_eq!(
        points_of(simplify_curve(curve_of(&[(2, 2), (3, 3)]), &tolerance(1, 100), 5, 5)),
        vec![(2, 2), (3, 3)]
    );
}

#[test]
fn a_closed_curve_is_cut_at_its_farthest_point() {
    let closed = [(1, 1), (1, 2), (2, 2), (1, 1)];
    assert_eq!(
        points_of(simplify_curve(curve_of(&closed), &tolerance(1, 100), 5, 5)),
        closed.to_vec()
    );
    assert_eq!(
        points_of(simplify_curve(curve_of(&closed), &tolerance(1, 1), 5, 5)),
        vec![(1, 1), (1, 1)]
    );
    let spike = [(1, 1), (1, 2), (1, 3), (1, 2), (1, 1)];
    assert_eq!(
        points_of(simplify_curve(curve_of(&spike), &tolerance(1, 100), 5, 5)),
        vec![(1, 1), (1, 3), (1, 1)]
    );
}

#[test]
fn the_first_of_equally_far_points_is_the_cut() {
    let curve = [(0, 0), (1, 2), (2, 2), (3, 0)];
    assert_eq!(
        points_of(simplify_curve(curve_of(&curve), &tolerance(3, 10), 4, 4)),
        vec![(0, 0), (1, 2), (3, 0)]
    );
}

#[test]
fn ends_are_kept_and_points_are_not_added() {
    let zigzag = [(0, 0), (1, 3), (2, 0), (3, 3), (4, 0), (5, 2), (6, 1)];
    for (num, den) in [(0, 1), (1, 100), (1, 10), (1, 4), (1, 2), (1, 1), (5, 1)] {
        let simple = points_of(simplify_curve(curve_of(&zigzag), &tolerance(num, den), 8, 4));
        assert_eq!(simple.first(), zigzag.first());
        assert_eq!(simple.last(), zigzag.last());
        assert!(simple.len() <= zigzag.len());
        assert!(simple.len() >= 2);
    }
}

#[test]
fn a_greater_tolerance_keeps_no_more_points() {
    let zigzag = [(0, 0), (1, 3), (2, 0), (3, 3), (4, 0), (5, 2), (6, 1)];
    let tolerances = [(0, 1), (1, 100), (1, 10), (1, 4), (1, 2), (1, 1), (5, 1)];
    let counts: Vec<usize> = tolerances
        .iter()
        .map(|&(num, den)| simplify_curve(curve_of(&zigzag), &tolerance(num, den), 8, 4).len())
        .collect();
    for pair in counts.windows(2) {
        assert!(pair[0] >= pair[1]);
    }
    assert_eq!(counts[0], 7);
    assert_eq!(counts[6], 2);
}

#[test]
fn simplifying_again_changes_nothing() {
    let zigzag = [(0, 0), (1, 3), (2, 0), (3, 3), (4, 0), (5, 2), (6, 1)];
    for (num, den) in [(0, 1), (1, 100), (1, 10), (1, 4), (1, 2), (1, 1)] {
        let epsilon = tolerance(num, den);
        let once = simplify_curve(curve_of(&zigzag), &epsilon, 8, 4);
        let twice = simplify_curve(once.clone(), &epsilon, 8, 4);
        assert_eq!(points_of(once), points_of(twice));
    }
    let epsilon = tolerance(1, 100);
    let once = simplify_curve(curve_of(&SQUARE), &epsilon, 5, 5);
    let twice = simplify_curve(once.clone(), &epsilon, 5, 5);
    assert_eq!(points_of(once), points_of(twice));
}

#[test]
fn each_border_is_simplified_in_its_place() {
    let curves = vec![curve_of(&SQUARE), curve_of(&[(2, 2)]), curve_of(&[(0, 0), (1, 0), (2, 0)])];
    let simple: Vec<Vec<(i32, i32)>> = simplify_borders(curves, &tolerance(1, 100), 5, 5)
        .into_iter()
        .map(points_of)
        .collect();
    assert_eq!(
        simple,
        vec![
            vec![(1, 1), (1, 3), (3, 3), (3, 1), (2, 1)],
            vec![(2, 2)],
            vec![(0, 0), (2, 0)],
        ]
    );
}

#[test]
fn a_level_at_the_threshold_is_background() {
    assert_eq!(binarize(&vec![0, 4, 5, 6, u64::MAX], 5), vec![0, 0, 0, 1, 1]);
    assert_eq!(binarize(&Vec::new(), 5), Vec::<i32>::new());
}

#[test]
fn contours_of_a_square_of_levels() {
    let mut levels = vec![10u64; 25];
    for y in 1..4 {
        for x in 1..4 {
            levels[y * 5 + x] = 200;
        }
    }
    levels[0] = 128;
    let curves: Vec<Vec<(i32, i32)>> = contours(&levels, 5, 5, 128, &tolerance(1, 100))
        .into_iter()
        .map(points_of)
        .collect();
    assert_eq!(curves, vec![vec![(1, 1), (1, 3), (3, 3), (3, 1), (2, 1)]]);
    assert!(contours(&vec![0; 16], 4, 4, 128, &tolerance(1, 100)).is_empty());
    let mut lone = vec![0u64; 25];
    lone[12] = 129;
    let curves: Vec<Vec<(i32, i32)>> = contours(&lone, 5, 5, 128, &tolerance(1, 100))
        .into_iter()
        .map(points_of)
        .collect();
    assert_eq!(curves, vec![vec![(2, 2)]]);
}
