//! Tests for the freehand stroke controller.

use screengrab::canvas::{Canvas, Shape};
use screengrab::stroke::StrokeBuf;

const RED: u32 = 0xff0000ff;

fn buffer(width: usize, height: usize, rgba: [u8; 4]) -> Vec<u8> {
    let mut v = Vec::with_capacity(width * height * 4);
    for _ in 0..width * height {
        v.extend_from_slice(&rgba);
    }
    v
}

fn pixel(buf: &[u8], width: usize, x: usize, y: usize) -> [u8; 4] {
    let base = 4 * (y * width + x);
    [buf[base], buf[base + 1], buf[base + 2], buf[base + 3]]
}

#[test]
fn first_sample_only_starts_the_chain() {
    let mut buf = StrokeBuf::new();
    assert_eq!(buf.len(), 0);
    let seg = buf.push_point((5, 5));
    assert_eq!(seg, None);
    assert_eq!(buf.len(), 1);
}

#[test]
fn later_samples_chain_into_segments() {
    let mut buf = StrokeBuf::new();
    assert_eq!(buf.push_point((1, 1)), None);
    assert_eq!(buf.push_point((4, 1)), Some(((1, 1), (4, 1))));
    // the newest point stays buffered as the next segment's start
    assert_eq!(buf.push_point((4, 3)), Some(((4, 1), (4, 3))));
    assert_eq!(buf.len(), 1);
}

#[test]
fn clear_breaks_the_chain() {
    let mut buf = StrokeBuf::new();
    buf.push_point((1, 1));
    buf.clear();
    assert_eq!(buf.len(), 0);
    assert_eq!(buf.push_point((9, 9)), None);
}

#[test]
fn freehand_move_draws_the_segment() {
    let (w, h) = (8usize, 4usize);
    let mut canvas = Canvas::new();
    canvas.set_color(RED);
    canvas.set_shape(Shape::Free);

    let first = canvas.stroke_move(buffer(w, h, [0, 0, 0, 0xff]), w, h, (1, 2), 1);
    assert!(first.is_none());

    let second = canvas
        .stroke_move(buffer(w, h, [0, 0, 0, 0xff]), w, h, (5, 2), 1)
        .expect("the second sample closes a segment");
    for x in 1..=5 {
        assert_eq!(pixel(&second, w, x, 2), [0xff, 0, 0, 0xff]);
    }
    assert_eq!(pixel(&second, w, 6, 2), [0, 0, 0, 0xff]);
}

#[test]
fn rubber_move_restores_drawn_pixels() {
    let (w, h) = (8usize, 4usize);
    let mut canvas = Canvas::new();
    canvas.set_color(RED);
    canvas.set_shape(Shape::Free);

    let base = buffer(w, h, [0, 0, 0x55, 0xff]);
    canvas.stroke_move(base.clone(), w, h, (1, 2), 1);
    let drawn = canvas
        .stroke_move(base, w, h, (5, 2), 1)
        .expect("the second sample draws");

    canvas.set_shape(Shape::Rubber);
    canvas.stroke_move(drawn.clone(), w, h, (0, 2), 1);
    let erased = canvas
        .stroke_move(drawn, w, h, (7, 2), 1)
        .expect("the stencil covers the drawn segment");
    for x in 1..=5 {
        assert_eq!(pixel(&erased, w, x, 2), [0, 0, 0x55, 0xff]);
    }
    assert!(canvas.modified_pixel.is_empty());
}

#[test]
fn rubber_move_with_no_history_reports_nothing() {
    let (w, h) = (8usize, 4usize);
    let mut canvas = Canvas::new();
    canvas.set_shape(Shape::Rubber);
    canvas.stroke_move(buffer(w, h, [1, 1, 1, 0xff]), w, h, (0, 1), 1);
    let second = canvas.stroke_move(buffer(w, h, [1, 1, 1, 0xff]), w, h, (6, 1), 1);
    assert!(second.is_none());
}
