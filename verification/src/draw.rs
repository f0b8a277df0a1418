//! Selection-overlay painter: draws a shape outline in an explicit colour
//! straight onto the buffer, with no undo history. It backs the lightweight
//! canvas used while choosing a region, and shares the rasterizer with the
//! annotating canvas so both render identical outlines.

use vstd::prelude::*;

use crate::canvas::{lemma_chan_fits, lemma_key_bound, lemma_key_inverse, lemma_painted_insert, painted};
use crate::rasterizer::{
    circle_outline_member, generate_empty_circle_coordinates, generate_empty_rectangle_coordinates,
    rect_outline_member, MAX_COORD,
};

verus! {

broadcast use
    vstd::seq_lib::lemma_seq_contains_after_push,
    vstd::prelude::Seq::lemma_push_to_set_commute;

/// The overlay shapes a selection gesture can render.
#[derive(Debug, Clone, Copy, PartialEq, Eq, Structural)]
pub enum Shape {
    Rectangle,
    Cirle,
    NoShape,
}

/// The pixel set an overlay shape occupies between the two drag corners.
pub open spec fn overlay_member(
    shape: Shape,
    start: (usize, usize),
    end: (usize, usize),
    thickness: usize,
    p: (usize, usize),
) -> bool {
    match shape {
        Shape::Rectangle => rect_outline_member(start, end, thickness, p),
        Shape::Cirle => circle_outline_member(start, end, thickness, p),
        Shape::NoShape => false,
    }
}

/// The pixel set an overlay shape occupies, as a set.
pub open spec fn overlay_set(
    shape: Shape,
    start: (usize, usize),
    end: (usize, usize),
    thickness: usize,
) -> Set<(usize, usize)> {
    Set::new(|p: (usize, usize)| overlay_member(shape, start, end, thickness, p))
}

/// Pixel coordinates of the selection rectangle's outline; the same outline
/// the annotating canvas renders.
pub fn generate_rectangle_coordinates(
    start: (usize, usize),
    end: (usize, usize),
    thickness: usize,
) -> (res: Vec<(usize, usize)>)
    requires
        start.0 < MAX_COORD && start.1 < MAX_COORD && end.0 < MAX_COORD && end.1 < MAX_COORD,
    ensures
        res@.no_duplicates(),
        forall|p: (usize, usize)| #[trigger]
            res@.contains(p) <==> rect_outline_member(start, end, thickness, p),
{
    generate_empty_rectangle_coordinates(start, end, thickness)
}

/// Pixel coordinates of the selection circle's ring; the same ring the
/// annotating canvas renders.
pub fn generate_circle_coordinates(
    start: (usize, usize),
    end: (usize, usize),
    thickness: usize,
) -> (res: Vec<(usize, usize)>)
    requires
        start.0 < MAX_COORD && start.1 < MAX_COORD && end.0 < MAX_COORD && end.1 < MAX_COORD,
        thickness < MAX_COORD,
    ensures
        res@.no_duplicates(),
        forall|p: (usize, usize)| #[trigger]
            res@.contains(p) <==> circle_outline_member(start, end, thickness, p),
{
    generate_empty_circle_coordinates(start, end, thickness)
}

/// Draws the outline of `shape` between the two drag corners in `color`,
/// directly onto the buffer. In-bounds outline pixels take the colour's four
/// channel bytes; everything else is untouched, and no undo history is kept.
#[verifier::loop_isolation(false)]
#[verifier::rlimit(50)]
pub fn draw_shape(
    pixels: Vec<u8>,
    width: usize,
    height: usize,
    start: (usize, usize),
    end: (usize, usize),
    thickness: usize,
    color: u32,
    shape: Shape,
) -> (res: Vec<u8>)
    requires
        pixels@.len() == 4 * width * height,
        shape == Shape::Rectangle || shape == Shape::Cirle,
        start.0 < MAX_COORD && start.1 < MAX_COORD && end.0 < MAX_COORD && end.1 < MAX_COORD,
        thickness < MAX_COORD,
    ensures
        res@ == painted(pixels@, width as int, overlay_set(shape, start, end, thickness), color),
{
    let filled_pixels: Vec<(usize, usize)> = if shape == Shape::Rectangle {
        generate_rectangle_coordinates(start, end, thickness)
    } else {
        generate_circle_coordinates(start, end, thickness)
    };
    let ghost b0 = pixels@;
    let ghost cs = overlay_set(shape, start, end, thickness);
    proof {
        assert(filled_pixels@.to_set() =~= cs);
    }
    let mut pixels = pixels;
    proof {
        vstd::std_specs::vec::axiom_spec_len(&pixels);
        assert(pixels@.len() <= usize::MAX);
        assert(width * height <= usize::MAX && 4 * (width * height) == 4 * width * height)
            by (nonlinear_arith)
            requires
                4 * width * height <= usize::MAX,
        ;
    }
    let mut i: usize = 0;
    while i < filled_pixels.len()
        invariant
            0 <= i <= filled_pixels@.len(),
            pixels@.len() == b0.len(),
            pixels@ == painted(b0, width as int, filled_pixels@.take(i as int).to_set(), color),
        decreases filled_pixels@.len() - i,
    {
        let (x, y) = filled_pixels[i];
        let ghost s = filled_pixels@.take(i as int).to_set();
        let ghost p = (x, y);
        proof {
            assert(filled_pixels@.take(i as int + 1) =~= filled_pixels@.take(i as int).push(
                filled_pixels@[i as int],
            ));
            assert(filled_pixels@.take(i as int + 1).to_set() =~= s.insert(p));
        }
        if x < width && y < height {
            proof {
                vstd::arithmetic::mul::lemma_mul_is_associative(4, width as int, height as int);
                lemma_key_bound(width as int, height as int, x as int, y as int);
                lemma_key_inverse(width as int, x as int, y as int);
                lemma_chan_fits(color);
                lemma_painted_insert(b0, width as int, height as int, s, p, color);
            }
            let true_x = x * 4;
            let true_y = y * width * 4;
            pixels.set(true_x + true_y, ((color & 0xff000000) >> 24) as u8);
            pixels.set(true_x + true_y + 1, ((color & 0x00ff0000) >> 16) as u8);
            pixels.set(true_x + true_y + 2, ((color & 0x0000ff00) >> 8) as u8);
            pixels.set(true_x + true_y + 3, (color & 0x000000ff) as u8);
            proof {
                assert(true_x + true_y == 4 * ((y as int) * (width as int) + (x as int)));
                assert(pixels@ =~= painted(
                    b0,
                    width as int,
                    filled_pixels@.take(i as int + 1).to_set(),
                    color,
                ));
            }
        } else {
            proof {
                assert forall|ii: int| 0 <= ii < b0.len() implies crate::canvas::byte_pixel(
                    width as int,
                    ii,
                ) != p by {
                    vstd::arithmetic::mul::lemma_mul_is_associative(
                        4,
                        width as int,
                        height as int,
                    );
                    crate::canvas::lemma_byte_pixel_bounds(width as int, height as int, ii);
                }
                assert(pixels@ =~= painted(
                    b0,
                    width as int,
                    filled_pixels@.take(i as int + 1).to_set(),
                    color,
                ));
            }
        }
        i = i + 1;
    }
    proof {
        assert(filled_pixels@.take(filled_pixels@.len() as int) =~= filled_pixels@);
    }
    pixels
}

} // verus!
