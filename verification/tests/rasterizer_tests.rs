//! Tests for the shape rasterizer.

use screengrab::rasterizer::{
    generate_empty_circle_coordinates, generate_empty_rectangle_coordinates,
    generate_fill_circle_coordinates, generate_fill_rectangle_coordinates,
    generate_line_coordinates,
};

fn sorted(mut v: Vec<(usize, usize)>) -> Vec<(usize, usize)> {
    v.sort();
    v
}

#[test]
fn horizontal_line_renders_each_column_once() {
    // exactly the 11 pixels (0,0)..(10,0)
    let pixels = generate_line_coordinates((0, 0), (10, 0), 1);
    let expected: Vec<(usize, usize)> = (0..=10).map(|x| (x, 0)).collect();
    assert_eq!(sorted(pixels), expected);
}

#[test]
fn degenerate_line_is_empty() {
    let pixels = generate_line_coordinates((7, 7), (7, 7), 3);
    assert!(pixels.is_empty());
}

#[test]
fn vertical_line_spans_the_full_y_range() {
    let pixels = generate_line_coordinates((4, 1), (4, 5), 1);
    // a band of width 1 around column 4, both ends included
    let expected: Vec<(usize, usize)> = (1..=5).map(|y| (4usize, y)).collect();
    assert_eq!(sorted(pixels), expected);
}

#[test]
fn vertical_line_thickness_widens_horizontally() {
    let pixels = generate_line_coordinates((4, 1), (4, 3), 3);
    let mut expected: Vec<(usize, usize)> = Vec::new();
    for x in 3..=5 {
        for y in 1..=3 {
            expected.push((x, y));
        }
    }
    assert_eq!(sorted(pixels), sorted(expected));
}

#[test]
fn vertical_line_thickness_clamps_at_the_left_edge() {
    let pixels = generate_line_coordinates((0, 0), (0, 2), 5);
    // the band [0 - 2, 0 + 2] clamps to columns 0..=2
    let mut expected: Vec<(usize, usize)> = Vec::new();
    for x in 0..=2 {
        for y in 0..=2 {
            expected.push((x, y));
        }
    }
    assert_eq!(sorted(pixels), sorted(expected));
}

#[test]
fn diagonal_line_is_non_empty_and_stays_in_the_expanded_box() {
    let pixels = generate_line_coordinates((2, 3), (9, 6), 3);
    assert!(!pixels.is_empty());
    // shallow line: x stays in the corners' span, y may exceed it by
    // thickness / 2
    for &(x, y) in &pixels {
        assert!((2..=9).contains(&x));
        assert!((2..=7).contains(&y));
    }
}

#[test]
fn anti_diagonal_drag_keeps_its_orientation() {
    // dragged from bottom-left to top-right: the line must run through the
    // true corners, not their mirror image
    let pixels = generate_line_coordinates((0, 2), (2, 0), 1);
    assert!(pixels.contains(&(0, 2)));
    assert!(!pixels.contains(&(0, 0)));
}

#[test]
fn rectangle_outline_has_the_perimeter_pixel_count() {
    // the 12 perimeter pixels of a 4 x 4 box at offset (2,2), none interior
    let pixels = generate_empty_rectangle_coordinates((2, 2), (5, 5), 1);
    assert_eq!(pixels.len(), 12);
    for &(x, y) in &pixels {
        assert!((2..=5).contains(&x) && (2..=5).contains(&y));
        assert!(x == 2 || x == 5 || y == 2 || y == 5);
    }
}

#[test]
fn rectangle_outline_count_matches_the_formula() {
    // 2w + 2h - 4, with corners counted once
    for (w, h) in [(2usize, 2usize), (3, 7), (10, 4)] {
        let pixels = generate_empty_rectangle_coordinates((1, 1), (w, h), 1);
        assert_eq!(pixels.len(), 2 * w + 2 * h - 4);
    }
}

#[test]
fn rectangle_outline_normalizes_reversed_corners() {
    let a = sorted(generate_empty_rectangle_coordinates((5, 5), (2, 2), 1));
    let b = sorted(generate_empty_rectangle_coordinates((2, 2), (5, 5), 1));
    assert_eq!(a, b);
}

#[test]
fn filled_rectangle_covers_the_box() {
    let pixels = generate_fill_rectangle_coordinates((1, 2), (3, 4));
    assert_eq!(pixels.len(), 9);
    for x in 1..=3 {
        for y in 2..=4 {
            assert!(pixels.contains(&(x, y)));
        }
    }
}

#[test]
fn filled_circle_bounding_box_is_square() {
    // any dragged rectangle yields a true circle, never an ellipse
    for (s, e) in [((0usize, 0usize), (8usize, 2usize)), ((3, 1), (5, 9)), ((4, 4), (0, 0))] {
        let pixels = generate_fill_circle_coordinates(s, e);
        assert!(!pixels.is_empty());
        let min_x = pixels.iter().map(|p| p.0).min().unwrap();
        let max_x = pixels.iter().map(|p| p.0).max().unwrap();
        let min_y = pixels.iter().map(|p| p.1).min().unwrap();
        let max_y = pixels.iter().map(|p| p.1).max().unwrap();
        assert_eq!(max_x - min_x, max_y - min_y);
    }
}

#[test]
fn filled_circle_contains_centre_and_respects_radius() {
    // drag 0..4 in x, 0..2 in y: the box squares to side 4, centre (2,2),
    // radius 2
    let pixels = generate_fill_circle_coordinates((0, 0), (4, 2));
    assert!(pixels.contains(&(2, 2)));
    assert!(pixels.contains(&(0, 2)));
    assert!(pixels.contains(&(2, 0)));
    // the corner is further than the radius, rounded up
    assert!(!pixels.contains(&(0, 0)));
    for &(x, y) in &pixels {
        let dx = 2i64 - x as i64;
        let dy = 2i64 - y as i64;
        assert!(dx * dx + dy * dy <= 4);
    }
}

#[test]
fn circle_outline_is_a_ring() {
    let pixels = generate_empty_circle_coordinates((0, 0), (8, 8), 1);
    // the centre is not on the ring, the east point is
    assert!(!pixels.contains(&(4, 4)));
    assert!(pixels.contains(&(8, 4)));
    assert!(pixels.contains(&(4, 0)));
}

#[test]
fn tiny_circle_radius_floors_at_thickness() {
    // a very small drag still renders a visible ring: radius grows to the
    // thickness
    let pixels = generate_empty_circle_coordinates((10, 10), (11, 11), 3);
    assert!(!pixels.is_empty());
}
