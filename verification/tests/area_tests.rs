//! Tests for the area calculator.

use screengrab::area::{calculate_area, Area};

fn area(left: (u32, u32), width: u32, height: u32) -> Area {
    Area { left_corner: left, width, height }
}

#[test]
fn clamps_x_past_the_right_edge() {
    // a drag reaching past a 100 x 100 surface pulls x back to the edge
    let r = calculate_area((100, 100), (120, 50), (80, 20));
    assert_eq!(r, Some(area((80, 20), 20, 30)));
}

#[test]
fn clamps_negative_coordinates_to_zero() {
    let r = calculate_area((100, 100), (-30, -10), (40, 20));
    assert_eq!(r, Some(area((0, 0), 40, 20)));
}

#[test]
fn orders_corners_of_a_reverse_drag() {
    let r = calculate_area((640, 480), (300, 200), (100, 50));
    assert_eq!(r, Some(area((100, 50), 200, 150)));
}

#[test]
fn zero_size_drag_is_no_selection() {
    // degenerate geometry: the caller must treat this as a no-op
    assert_eq!(calculate_area((640, 480), (10, 10), (10, 10)), None);
    // two corners past the surface clamp to the same point and select nothing
    assert_eq!(calculate_area((100, 100), (120, 120), (200, 150)), None);
}

#[test]
fn area_always_fits_the_surface() {
    // the round trip: left corner plus extent never reaches past the surface
    let cases = [
        ((100u32, 100u32), (120i32, 50i32), (80i32, 20i32)),
        ((100, 100), (-5, -5), (200, 200)),
        ((1, 1), (7, 9), (-3, -4)),
        ((640, 480), (639, 479), (1, 2)),
    ];
    for ((w, h), s, e) in cases {
        let a = calculate_area((w, h), s, e).unwrap();
        assert!(a.left_corner.0 + a.width <= w);
        assert!(a.left_corner.1 + a.height <= h);
    }
}

#[test]
fn new_area_is_empty_at_origin() {
    let a = Area::new();
    assert_eq!(a, area((0, 0), 0, 0));
}
