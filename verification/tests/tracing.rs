use contour_trace::binary_image::{same_border, BinaryImage};
use contour_trace::curve::Pos;
use contour_trace::neighbors::Neighbors;
use contour_trace::tracer::{
    contour_trace, contour_trace3, contour_trace4, contour_trace5, trace_borders,
};

fn points_of(image: &BinaryImage) -> Vec<Vec<(i32, i32)>> {
    image
        .curves()
        .into_iter()
        .map(|curve| curve.into_iter().into_iter().map(|p: Pos| (p.x, p.y)).collect())
        .collect()
}

fn labels_of(image: &BinaryImage) -> Vec<i32> {
    let mut labels = Vec::new();
    for y in 0..image.height() {
        for x in 0..image.width() {
            labels.push(image.get(x as i32, y as i32));
        }
    }
    labels
}

fn square_grid() -> Vec<i32> {
    let mut pixels = vec![0; 25];
    for y in 1..4 {
        for x in 1..4 {
            pixels[y * 5 + x] = 1;
        }
    }
    pixels
}

#[test]
fn neighbors_stand_in_cyclic_order() {
    let table = Neighbors::new();
    assert_eq!(table.len(), 8);
    let expected = [(-1, 0), (-1, -1), (0, -1), (1, -1), (1, 0), (1, 1), (0, 1), (-1, 1)];
    assert_eq!(table.values, expected);
    for (slot, offset) in expected.iter().enumerate() {
        assert_eq!(table.get(slot), *offset);
        assert_eq!(table.get(slot + 8), *offset);
        assert_eq!(Neighbors::lookup(*offset), slot);
    }
    assert_eq!(Neighbors::lookup((0, 0)), 8);
}

#[test]
fn reads_outside_the_grid_are_background() {
    let image = BinaryImage::new(vec![1, 1, 1, 1, 1, 1], 3, 2);
    assert_eq!(image.width(), 3);
    assert_eq!(image.height(), 2);
    assert_eq!(image.get(0, 0), 1);
    assert_eq!(image.get(2, 1), 1);
    assert_eq!(image.get(-1, 0), 0);
    assert_eq!(image.get(0, -1), 0);
    assert_eq!(image.get(3, 0), 0);
    assert_eq!(image.get(0, 2), 0);
    assert_eq!(image.index_of(2, 1), Some(5));
    assert_eq!(image.index_of(3, 1), None);
    assert_eq!(image.index_of(-1, 1), None);
}

#[test]
fn put_writes_the_cell_and_the_table() {
    let mut image = BinaryImage::new(vec![0; 6], 3, 2);
    image.put(1, 1, 7);
    image.put(5, 5, 9);
    image.put(-1, 0, 9);
    assert_eq!(labels_of(&image), vec![0, 0, 0, 0, 7, 0]);
    assert_eq!(points_of(&image), vec![vec![(1, 1)]]);
}

#[test]
fn curves_are_runs_of_one_border() {
    let mut image = BinaryImage::new(vec![0; 12], 4, 3);
    image.put(0, 0, 2);
    image.put(1, 0, -2);
    image.put(2, 0, 2);
    image.put(0, 1, 3);
    image.put(1, 1, -2);
    image.put(2, 1, 4);
    image.put(3, 1, -4);
    assert_eq!(
        points_of(&image),
        vec![
            vec![(0, 0), (1, 0), (2, 0)],
            vec![(0, 1)],
            vec![(1, 1)],
            vec![(2, 1), (3, 1)],
        ]
    );
    assert!(same_border(5, -5));
    assert!(same_border(-5, -5));
    assert!(!same_border(5, 6));
    assert!(!same_border(i32::MIN, 0));
}

#[test]
fn search_goes_against_the_order_from_before_the_arrival() {
    // the cell in the middle, reached from its eastern neighbour
    let mut pixels = vec![0; 9];
    pixels[4] = 1;
    pixels[5] = 1;
    let lone = BinaryImage::new(pixels.clone(), 3, 3);
    assert_eq!(contour_trace3(&lone, (1, 0), (0, 0), 1, 1), None);
    // north-east comes first, before north and the west
    pixels[2] = 1;
    pixels[1] = 1;
    pixels[3] = 1;
    let image = BinaryImage::new(pixels.clone(), 3, 3);
    assert_eq!(contour_trace3(&image, (1, 0), (0, 0), 1, 1), Some((1, -1)));
    pixels[2] = 0;
    let image = BinaryImage::new(pixels.clone(), 3, 3);
    assert_eq!(contour_trace3(&image, (1, 0), (0, 0), 1, 1), Some((0, -1)));
    pixels[1] = 0;
    let image = BinaryImage::new(pixels.clone(), 3, 3);
    assert_eq!(contour_trace3(&image, (1, 0), (0, 0), 1, 1), Some((-1, 0)));
    // south-east is the last to be looked at
    pixels[3] = 0;
    pixels[8] = 1;
    let image = BinaryImage::new(pixels, 3, 3);
    assert_eq!(contour_trace3(&image, (1, 0), (0, 0), 1, 1), Some((1, 1)));
}

#[test]
fn search_is_made_round_the_followed_cell() {
    let image = BinaryImage::new(square_grid(), 5, 5);
    // at (1, 2), come from the seed (1, 1) to its north: the next is south
    assert_eq!(contour_trace3(&image, (0, 0), (0, 1), 1, 1), Some((0, 2)));
    // at (1, 3), come from the north: the next is east
    assert_eq!(contour_trace3(&image, (0, 1), (0, 2), 1, 1), Some((1, 2)));
}

#[test]
fn relabel_depends_on_the_east_and_on_the_first_visit() {
    let mut image = BinaryImage::new(vec![1, 1, 0, 5, 1, 0], 3, 2);
    contour_trace4(&mut image, (0, 0), 0, 0, 2);
    assert_eq!(image.get(0, 0), 2);
    contour_trace4(&mut image, (1, 0), 0, 0, 2);
    assert_eq!(image.get(1, 0), -2);
    contour_trace4(&mut image, (0, 1), 0, 0, 2);
    assert_eq!(image.get(0, 1), 5);
    contour_trace4(&mut image, (2, 0), 0, 0, 2);
    assert_eq!(image.get(2, 0), -2);
    contour_trace4(&mut image, (7, 7), 0, 0, 2);
    assert_eq!(labels_of(&image), vec![2, -2, -2, 5, 1, 0]);
    assert_eq!(points_of(&image), vec![vec![(0, 0), (1, 0), (2, 0)]]);
}

#[test]
fn walk_ends_where_it_comes_round() {
    let mut follow = (1, 0);
    let mut start = (1, 1);
    assert!(!contour_trace5((0, 0), &mut follow, &mut start, (1, 0)));
    assert_eq!((follow, start), ((1, 0), (1, 1)));
    assert!(contour_trace5((0, 0), &mut follow, &mut start, (0, 1)));
    assert_eq!((follow, start), ((0, 0), (1, 0)));
    let mut follow = (1, 0);
    let mut start = (1, 1);
    assert!(contour_trace5((2, 0), &mut follow, &mut start, (1, 0)));
    assert_eq!((follow, start), ((2, 0), (1, 0)));
}

#[test]
fn solid_square_is_one_closed_border() {
    let mut image = BinaryImage::new(square_grid(), 5, 5);
    trace_borders(&mut image);
    let curves = points_of(&image);
    assert_eq!(
        curves,
        vec![vec![(1, 1), (1, 2), (1, 3), (2, 3), (3, 3), (3, 2), (3, 1), (2, 1)]]
    );
    assert_eq!(
        labels_of(&image),
        vec![
            0, 0, 0, 0, 0, //
            0, 2, 2, -2, 0, //
            0, 2, 1, -2, 0, //
            0, 2, 2, -2, 0, //
            0, 0, 0, 0, 0,
        ]
    );
}

#[test]
fn one_border_traced_from_its_seed() {
    let mut image = BinaryImage::new(square_grid(), 5, 5);
    contour_trace(&mut image, 1, 1, 9);
    assert_eq!(
        labels_of(&image),
        vec![
            0, 0, 0, 0, 0, //
            0, 9, 9, -9, 0, //
            0, 9, 1, -9, 0, //
            0, 9, 9, -9, 0, //
            0, 0, 0, 0, 0,
        ]
    );
    assert_eq!(points_of(&image).len(), 1);
    assert_eq!(points_of(&image)[0].len(), 8);
}

#[test]
fn background_has_no_border() {
    let mut image = BinaryImage::new(vec![0; 16], 4, 4);
    trace_borders(&mut image);
    assert!(image.curves().is_empty());
    assert_eq!(labels_of(&image), vec![0; 16]);
}

#[test]
fn isolated_pixel_is_a_border_of_one_point() {
    let mut pixels = vec![0; 25];
    pixels[2 * 5 + 2] = 1;
    let mut image = BinaryImage::new(pixels, 5, 5);
    trace_borders(&mut image);
    assert_eq!(points_of(&image), vec![vec![(2, 2)]]);
    assert_eq!(image.get(2, 2), -2);
}

#[test]
fn border_ids_are_minted_from_two_in_scan_order() {
    let mut pixels = vec![0; 35];
    pixels[1 * 7 + 1] = 1;
    pixels[1 * 7 + 5] = 1;
    pixels[3 * 7 + 3] = 1;
    let mut image = BinaryImage::new(pixels, 7, 5);
    trace_borders(&mut image);
    assert_eq!(image.get(1, 1), -2);
    assert_eq!(image.get(5, 1), -3);
    assert_eq!(image.get(3, 3), -4);
    assert_eq!(points_of(&image), vec![vec![(1, 1)], vec![(5, 1)], vec![(3, 3)]]);
}

#[test]
fn a_cell_in_the_first_column_can_be_a_seed() {
    let mut image = BinaryImage::new(vec![1, 0, 0, 0], 2, 2);
    trace_borders(&mut image);
    assert_eq!(labels_of(&image), vec![-2, 0, 0, 0]);
    assert_eq!(points_of(&image), vec![vec![(0, 0)]]);
}

#[test]
fn a_seed_with_one_neighbour_is_left_as_it_is() {
    let mut image = BinaryImage::new(vec![0, 0, 0, 0, 0, 1, 1, 0, 0, 0, 0, 0], 4, 3);
    trace_borders(&mut image);
    assert_eq!(labels_of(&image), vec![0, 0, 0, 0, 0, 1, 1, 0, 0, 0, 0, 0]);
    assert!(image.curves().is_empty());
}

#[test]
fn tracing_twice_gives_the_same_labels() {
    let mut pixels = square_grid();
    pixels[0] = 1;
    pixels[24] = 1;
    let mut first = BinaryImage::new(pixels.clone(), 5, 5);
    let mut second = BinaryImage::new(pixels, 5, 5);
    second.put(9, 9, 1);
    trace_borders(&mut first);
    trace_borders(&mut second);
    assert_eq!(labels_of(&first), labels_of(&second));
    assert_eq!(points_of(&first), points_of(&second));
}

#[test]
fn a_labelled_cell_is_never_background_again() {
    let pixels = square_grid();
    let mut image = BinaryImage::new(pixels.clone(), 5, 5);
    trace_borders(&mut image);
    let labels = labels_of(&image);
    for (before, after) in pixels.iter().zip(labels.iter()) {
        assert_eq!(*before == 0, *after == 0);
    }
}

#[test]
fn empty_grid_is_traced_to_nothing() {
    let mut image = BinaryImage::new(Vec::new(), 0, 3);
    trace_borders(&mut image);
    assert!(image.curves().is_empty());
    assert_eq!(image.get(0, 0), 0);
}
