//! Tests for the pixel-buffer compositor and its undo history.

use screengrab::canvas::{Canvas, Shape};

const RED: u32 = 0xff0000ff;
const BLUE: u32 = 0x0000ffff;

fn buffer(width: usize, height: usize, rgba: [u8; 4]) -> Vec<u8> {
    let mut v = Vec::with_capacity(width * height * 4);
    for _ in 0..width * height {
        v.extend_from_slice(&rgba);
    }
    v
}

fn pixel(buf: &[u8], width: usize, x: usize, y: usize) -> [u8; 4] {
    let base = 4 * (y * width + x);
    [buf[base], buf[base + 1], buf[base + 2], buf[base + 3]]
}

#[test]
fn new_canvas_defaults() {
    let c = Canvas::new();
    assert_eq!(c.get_shape(), Shape::NoShape);
    assert_eq!(c.get_color(), RED);
    assert!(!c.get_init_draw());
    assert!(!c.get_fill());
    assert!(c.modified_pixel.is_empty());
}

#[test]
fn draw_red_then_erase_restores_blue() {
    // draw red at (3,3) on an all-blue buffer, then erase a stencil covering
    // it: the pixel reads back blue, and its undo entry is gone
    let (w, h) = (8usize, 8usize);
    let mut canvas = Canvas::new();
    canvas.set_color(RED);
    canvas.set_fill(true);

    let buf = buffer(w, h, [0, 0, 0xff, 0xff]);
    let painted = canvas.draw_shape(buf, w, h, (3, 3), (3, 3), Shape::Rectangle, 1);
    assert_eq!(pixel(&painted, w, 3, 3), [0xff, 0, 0, 0xff]);
    assert_eq!(pixel(&painted, w, 2, 3), [0, 0, 0xff, 0xff]);
    assert!(canvas.modified_pixel.contains_key(&(3 * w + 3)));
    assert_eq!(canvas.modified_pixel[&(3 * w + 3)], BLUE);

    let erased = canvas.clear_pixel(painted, w, h, (2, 3), (5, 3), 1);
    let restored = erased.expect("the stencil covers a recorded pixel");
    assert_eq!(pixel(&restored, w, 3, 3), [0, 0, 0xff, 0xff]);
    assert!(!canvas.modified_pixel.contains_key(&(3 * w + 3)));
}

#[test]
fn erase_on_untouched_region_returns_none() {
    let (w, h) = (6usize, 6usize);
    let mut canvas = Canvas::new();
    let buf = buffer(w, h, [10, 20, 30, 0xff]);
    let erased = canvas.clear_pixel(buf, w, h, (0, 0), (5, 0), 1);
    assert!(erased.is_none());
}

#[test]
fn second_application_keeps_the_first_recorded_colour() {
    // compositing idempotence: paint the same pixels twice, erase once, and
    // the buffer is back to its state before the first application
    let (w, h) = (6usize, 6usize);
    let original = buffer(w, h, [7, 13, 19, 0xff]);
    let mut canvas = Canvas::new();
    canvas.set_color(RED);
    canvas.set_fill(true);

    let once = canvas.draw_shape(original.clone(), w, h, (1, 1), (2, 2), Shape::Rectangle, 1);
    let twice = canvas.draw_shape(once, w, h, (1, 1), (2, 2), Shape::Rectangle, 1);
    assert_eq!(canvas.modified_pixel[&(1 * w + 1)], 0x070d13ff);

    let erased = canvas
        .clear_pixel(twice, w, h, (0, 1), (4, 2), 1)
        .expect("the painted pixels are recorded");
    assert_eq!(erased, original);
}

#[test]
fn out_of_bounds_coordinates_are_ignored() {
    // a drag past the image edge paints only what is inside
    let (w, h) = (4usize, 3usize);
    let mut canvas = Canvas::new();
    canvas.set_color(RED);
    let buf = buffer(w, h, [0, 0, 0, 0xff]);
    let painted = canvas.draw_shape(buf, w, h, (0, 0), (10, 0), Shape::Line, 1);
    assert_eq!(painted.len(), 4 * w * h);
    for x in 0..w {
        assert_eq!(pixel(&painted, w, x, 0), [0xff, 0, 0, 0xff]);
    }
    assert_eq!(pixel(&painted, w, 0, 1), [0, 0, 0, 0xff]);
}

#[test]
fn outline_rectangle_leaves_the_interior() {
    let (w, h) = (8usize, 8usize);
    let mut canvas = Canvas::new();
    canvas.set_color(RED);
    canvas.set_fill(false);
    let buf = buffer(w, h, [1, 2, 3, 0xff]);
    let painted = canvas.draw_shape(buf, w, h, (2, 2), (5, 5), Shape::Rectangle, 1);
    assert_eq!(pixel(&painted, w, 2, 2), [0xff, 0, 0, 0xff]);
    assert_eq!(pixel(&painted, w, 3, 3), [1, 2, 3, 0xff]);
}

#[test]
fn filled_circle_paints_the_centre() {
    let (w, h) = (10usize, 10usize);
    let mut canvas = Canvas::new();
    canvas.set_color(RED);
    canvas.set_fill(true);
    let buf = buffer(w, h, [0, 0, 0, 0xff]);
    let painted = canvas.draw_shape(buf, w, h, (1, 1), (7, 7), Shape::Cirle, 1);
    assert_eq!(pixel(&painted, w, 4, 4), [0xff, 0, 0, 0xff]);
    assert_eq!(pixel(&painted, w, 1, 1), [0, 0, 0, 0xff]);
}

#[test]
fn apply_brush_paints_a_square_dab() {
    let (w, h) = (7usize, 7usize);
    let mut canvas = Canvas::new();
    canvas.set_color(RED);
    let buf = buffer(w, h, [0, 0, 0, 0xff]);
    let painted = canvas.apply_brush(buf, w, h, (3, 3), 3);
    for x in 2..=4 {
        for y in 2..=4 {
            assert_eq!(pixel(&painted, w, x, y), [0xff, 0, 0, 0xff]);
        }
    }
    assert_eq!(pixel(&painted, w, 1, 3), [0, 0, 0, 0xff]);
    assert_eq!(pixel(&painted, w, 5, 3), [0, 0, 0, 0xff]);
}

#[test]
fn apply_color_records_each_pixel_once() {
    let (w, h) = (5usize, 5usize);
    let mut canvas = Canvas::new();
    canvas.set_color(RED);
    let buf = buffer(w, h, [9, 9, 9, 0xff]);
    let coords = vec![(1usize, 1usize), (1, 1), (2, 1), (9, 9)];
    let painted = canvas.apply_color(buf, w, h, &coords);
    assert_eq!(pixel(&painted, w, 1, 1), [0xff, 0, 0, 0xff]);
    assert_eq!(pixel(&painted, w, 2, 1), [0xff, 0, 0, 0xff]);
    assert_eq!(canvas.modified_pixel.len(), 2);
    assert_eq!(canvas.modified_pixel[&(1 * w + 1)], 0x090909ff);
}

#[test]
fn set_shape_resets_the_stroke() {
    let mut canvas = Canvas::new();
    canvas.set_init_draw(true);
    canvas.set_shape(Shape::Free);
    assert_eq!(canvas.get_shape(), Shape::Free);
    assert!(!canvas.get_init_draw());
    assert_eq!(canvas.buf_point.len(), 0);
}
