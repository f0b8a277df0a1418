//! Tests for the post-capture buffer transforms.

use screengrab::area::Area;
use screengrab::canvas::{Canvas, Shape};
use screengrab::transform::{clear_highlight, crop_img, highlight_mask};

const RED: u32 = 0xff0000ff;

fn area(left: (u32, u32), width: u32, height: u32) -> Area {
    Area { left_corner: left, width, height }
}

fn buffer(width: usize, height: usize, rgba: [u8; 4]) -> Vec<u8> {
    let mut v = Vec::with_capacity(width * height * 4);
    for _ in 0..width * height {
        v.extend_from_slice(&rgba);
    }
    v
}

fn pixel(buf: &[u8], width: usize, x: usize, y: usize) -> [u8; 4] {
    let base = 4 * (y * width + x);
    [buf[base], buf[base + 1], buf[base + 2], buf[base + 3]]
}

#[test]
fn clear_highlight_resets_only_alpha() {
    let buf = buffer(3, 2, [10, 20, 30, 100]);
    let reset = clear_highlight(buf);
    for y in 0..2 {
        for x in 0..3 {
            assert_eq!(pixel(&reset, 3, x, y), [10, 20, 30, 255]);
        }
    }
}

#[test]
fn highlight_mask_darkens_the_selection() {
    let (w, h) = (6usize, 5usize);
    let buf = buffer(w, h, [10, 20, 30, 40]);
    let masked = highlight_mask(buf, w, h, &area((1, 2), 3, 2));
    // colour bytes are untouched everywhere; only alphas change
    assert_eq!(pixel(&masked, w, 0, 0), [10, 20, 30, 255]);
    assert_eq!(pixel(&masked, w, 1, 2), [10, 20, 30, 100]);
    assert_eq!(pixel(&masked, w, 3, 3), [10, 20, 30, 100]);
    // just outside the selection's right and bottom edges
    assert_eq!(pixel(&masked, w, 4, 2), [10, 20, 30, 255]);
    assert_eq!(pixel(&masked, w, 1, 4), [10, 20, 30, 255]);
}

#[test]
fn crop_copies_the_area_and_forces_it_opaque() {
    let (w, h) = (5usize, 4usize);
    let mut buf = buffer(w, h, [1, 1, 1, 9]);
    // mark the pixel the crop should carry to its origin
    let marked = 4 * (1 * w + 2);
    buf[marked] = 200;
    let out = crop_img(&buf, w, h, &area((2, 1), 2, 3));
    assert_eq!(out.len(), 4 * 2 * 3);
    assert_eq!(pixel(&out, 2, 0, 0), [200, 1, 1, 255]);
    assert_eq!(pixel(&out, 2, 1, 2), [1, 1, 1, 255]);
}

#[test]
fn crop_history_translates_the_undo_map() {
    let (w, h) = (8usize, 8usize);
    let mut canvas = Canvas::new();
    canvas.set_color(RED);
    canvas.set_fill(true);
    let buf = buffer(w, h, [0, 0, 0xff, 0xff]);
    // record history at (3,3) and at (0,0)
    let buf = canvas.draw_shape(buf, w, h, (3, 3), (3, 3), Shape::Rectangle, 1);
    let buf = canvas.draw_shape(buf, w, h, (0, 0), (0, 0), Shape::Rectangle, 1);

    // crop to the 4x4 box at (2,2): (3,3) moves to (1,1), (0,0) drops out
    let crop = area((2, 2), 4, 4);
    let cropped = crop_img(&buf, w, h, &crop);
    canvas.crop_history(w, h, &crop);
    assert_eq!(canvas.modified_pixel.len(), 1);
    assert_eq!(canvas.modified_pixel[&(1 * 4 + 1)], 0x0000ffff);

    // erasing on the cropped image still restores the pixel
    let erased = canvas
        .clear_pixel(cropped, 4, 4, (0, 1), (3, 1), 1)
        .expect("the translated entry is found");
    assert_eq!(pixel(&erased, 4, 1, 1), [0, 0, 0xff, 0xff]);
    assert!(canvas.modified_pixel.is_empty());
}

#[test]
fn empty_crop_clears_the_history() {
    let (w, h) = (4usize, 4usize);
    let mut canvas = Canvas::new();
    canvas.set_fill(true);
    let buf = buffer(w, h, [5, 5, 5, 0xff]);
    let _ = canvas.draw_shape(buf, w, h, (0, 0), (1, 1), Shape::Rectangle, 1);
    assert!(!canvas.modified_pixel.is_empty());
    canvas.crop_history(w, h, &area((2, 2), 0, 0));
    assert!(canvas.modified_pixel.is_empty());
}
