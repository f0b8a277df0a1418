//! Pixel-buffer compositor: applies a packed colour to the coordinates
//! produced by the rasterizer, tracking an undo history, and restores
//! recorded pixels on erase.
//!
//! A buffer is `width * height` RGBA pixels, four bytes per pixel, row-major:
//! pixel `(x, y)` occupies bytes `4 * (y * width + x) ..+ 4`. The undo map
//! keys pixels by that row-major index and stores the packed colour a pixel
//! held before the current set of edits first touched it; entries are
//! inserted at most once per pixel and removed when the eraser restores the
//! pixel. Out-of-bounds coordinates are silently ignored: drags routinely
//! extend past the image edge.

use std::collections::HashMap;
use vstd::prelude::*;

use crate::rasterizer::{
    circle_fill_member, circle_outline_member, generate_empty_circle_coordinates,
    generate_empty_rectangle_coordinates, generate_fill_circle_coordinates,
    generate_fill_rectangle_coordinates, generate_line_coordinates, line_member,
    rect_fill_member, rect_outline_member, MAX_COORD,
};
use crate::stroke::StrokeBuf;

verus! {

broadcast use
    vstd::std_specs::hash::group_hash_axioms,
    vstd::seq_lib::lemma_seq_contains_after_push,
    vstd::prelude::Seq::lemma_push_to_set_commute;

/// The tool a gesture paints with. `Fill` and `Color` are tool-state toggles
/// rather than geometry; `Cut` designates crop selection; `NoShape` paints
/// nothing.
#[derive(Debug, Clone, Copy, PartialEq, Eq, Structural)]
pub enum Shape {
    Line,
    Cirle,
    Rectangle,
    Free,
    Rubber,
    Cut,
    NoShape,
    Fill,
    Color(u32),
}

/// Channel `j` (0 red, 1 green, 2 blue, 3 alpha) of the packed colour `c`.
pub open spec fn chan(c: u32, j: int) -> u8 {
    if j == 0 {
        ((c & 0xff000000) >> 24) as u8
    } else if j == 1 {
        ((c & 0x00ff0000) >> 16) as u8
    } else if j == 2 {
        ((c & 0x0000ff00) >> 8) as u8
    } else {
        (c & 0x000000ff) as u8
    }
}

/// The four channel bytes packed into one colour, `R,G,B,A` from the high
/// byte down.
pub open spec fn pack_rgba(b0: u8, b1: u8, b2: u8, b3: u8) -> u32 {
    ((b0 as u32) << 24) | ((b1 as u32) << 16) | ((b2 as u32) << 8) | (b3 as u32)
}

/// The packed colour of the pixel whose bytes start at `off`.
pub open spec fn packed_at(bytes: Seq<u8>, off: int) -> u32 {
    pack_rgba(bytes[off], bytes[off + 1], bytes[off + 2], bytes[off + 3])
}

/// Packing the four channel bytes and reading a channel back returns the
/// byte unchanged.
pub proof fn lemma_chan_pack(b0: u8, b1: u8, b2: u8, b3: u8)
    ensures
        chan(pack_rgba(b0, b1, b2, b3), 0) == b0,
        chan(pack_rgba(b0, b1, b2, b3), 1) == b1,
        chan(pack_rgba(b0, b1, b2, b3), 2) == b2,
        chan(pack_rgba(b0, b1, b2, b3), 3) == b3,
{
    assert((((((b0 as u32) << 24) | ((b1 as u32) << 16) | ((b2 as u32) << 8) | (b3 as u32))
        & 0xff000000) >> 24) as u8 == b0) by (bit_vector);
    assert((((((b0 as u32) << 24) | ((b1 as u32) << 16) | ((b2 as u32) << 8) | (b3 as u32))
        & 0x00ff0000) >> 16) as u8 == b1) by (bit_vector);
    assert((((((b0 as u32) << 24) | ((b1 as u32) << 16) | ((b2 as u32) << 8) | (b3 as u32))
        & 0x0000ff00) >> 8) as u8 == b2) by (bit_vector);
    assert(((((b0 as u32) << 24) | ((b1 as u32) << 16) | ((b2 as u32) << 8) | (b3 as u32))
        & 0x000000ff) as u8 == b3) by (bit_vector);
}

pub(crate) proof fn lemma_chan_fits(c: u32)
    ensures
        ((c & 0xff000000) >> 24) <= 0xff,
        ((c & 0x00ff0000) >> 16) <= 0xff,
        ((c & 0x0000ff00) >> 8) <= 0xff,
        (c & 0x000000ff) <= 0xff,
{
    assert(((c & 0xff000000) >> 24) <= 0xff) by (bit_vector);
    assert(((c & 0x00ff0000) >> 16) <= 0xff) by (bit_vector);
    assert(((c & 0x0000ff00) >> 8) <= 0xff) by (bit_vector);
    assert((c & 0x000000ff) <= 0xff) by (bit_vector);
}

/// The undo-map key of pixel `p`: its row-major index.
pub open spec fn pix_key(width: int, p: (usize, usize)) -> usize {
    (p.1 * width + p.0) as usize
}

/// The pixel a byte index belongs to.
pub open spec fn byte_pixel(width: int, i: int) -> (usize, usize) {
    ((((i / 4) % width) as usize), (((i / 4) / width) as usize))
}

/// The pixel an undo-map key denotes.
pub open spec fn key_pt(width: int, k: usize) -> (usize, usize) {
    (((k as int % width) as usize), ((k as int / width) as usize))
}

pub(crate) proof fn lemma_key_bound(width: int, height: int, x: int, y: int)
    requires
        0 <= x < width,
        0 <= y < height,
    ensures
        0 <= y * width + x,
        y * width + x < width * height,
{
    assert(0 <= y * width + x && y * width + x < width * height) by (nonlinear_arith)
        requires
            0 <= x < width,
            0 <= y < height,
    ;
}

pub(crate) proof fn lemma_key_inverse(width: int, x: int, y: int)
    requires
        0 <= x < width,
        0 <= y,
    ensures
        (y * width + x) % width == x,
        (y * width + x) / width == y,
{
    vstd::arithmetic::div_mod::lemma_fundamental_div_mod_converse_mod(y * width + x, width, y, x);
    vstd::arithmetic::div_mod::lemma_fundamental_div_mod_converse_div(y * width + x, width, y, x);
}

/// The buffer after the colour `c` is applied to every in-bounds coordinate
/// of `cs`; all other bytes are untouched.
pub open spec fn painted(bytes: Seq<u8>, width: int, cs: Set<(usize, usize)>, c: u32) -> Seq<u8> {
    Seq::new(
        bytes.len(),
        |i: int|
            if width > 0 && cs.contains(byte_pixel(width, i)) {
                chan(c, i % 4)
            } else {
                bytes[i]
            },
    )
}

/// The undo map after the coordinates `cs` are painted over `bytes`: every
/// in-bounds painted pixel that has no entry yet maps to the packed colour it
/// held before; existing entries are never overwritten.
pub open spec fn recorded_map(
    m: Map<usize, u32>,
    bytes: Seq<u8>,
    width: int,
    height: int,
    cs: Set<(usize, usize)>,
) -> Map<usize, u32> {
    Map::new(
        |k: usize| m.contains_key(k) || (k < width * height && cs.contains(key_pt(width, k))),
        |k: usize|
            if m.contains_key(k) {
                m[k]
            } else {
                packed_at(bytes, 4 * (k as int))
            },
    )
}

/// The buffer after the eraser visits the coordinates `cs`: every in-bounds
/// coordinate with a recorded entry reads its original colour back; all
/// other bytes are untouched.
pub open spec fn restored(bytes: Seq<u8>, width: int, m: Map<usize, u32>, cs: Set<(usize, usize)>) -> Seq<u8> {
    Seq::new(
        bytes.len(),
        |i: int|
            if width > 0 && cs.contains(byte_pixel(width, i)) && m.contains_key(((i / 4) as usize)) {
                chan(m[((i / 4) as usize)], i % 4)
            } else {
                bytes[i]
            },
    )
}

/// The undo map after the eraser visits the coordinates `cs`: entries of
/// restored pixels are deleted, the rest stay.
pub open spec fn erased_map(
    m: Map<usize, u32>,
    width: int,
    height: int,
    cs: Set<(usize, usize)>,
) -> Map<usize, u32> {
    Map::new(
        |k: usize| m.contains_key(k) && !(k < width * height && cs.contains(key_pt(width, k))),
        |k: usize| m[k],
    )
}

/// For an in-bounds pixel `p`, `pix_key` and `key_pt` invert each other,
/// and no other key below `width * height` denotes `p`.
pub(crate) proof fn lemma_key_pt_inverse(width: int, height: int, p: (usize, usize))
    requires
        0 <= p.0 < width,
        0 <= p.1 < height,
        width * height <= usize::MAX,
    ensures
        pix_key(width, p) < width * height,
        key_pt(width, pix_key(width, p)) == p,
        forall|kk: usize|
            kk != pix_key(width, p) && kk < width * height ==> #[trigger] key_pt(width, kk) != p,
{
    lemma_key_bound(width, height, p.0 as int, p.1 as int);
    lemma_key_inverse(width, p.0 as int, p.1 as int);
    assert(width <= width * height && height <= width * height) by (nonlinear_arith)
        requires
            1 <= width,
            1 <= height,
    ;
    let k = pix_key(width, p);
    assert(k as int == p.1 * width + p.0);
    assert(key_pt(width, k) == p);
    assert forall|kk: usize| kk != k && kk < width * height implies #[trigger] key_pt(width, kk)
        != p by {
        if key_pt(width, kk) == p {
            vstd::arithmetic::div_mod::lemma_mod_division_less_than_divisor(kk as int, width);
            vstd::arithmetic::div_mod::lemma_div_pos_is_pos(kk as int, width);
            vstd::arithmetic::div_mod::lemma_multiply_divide_lt(kk as int, width, height);
            vstd::arithmetic::div_mod::lemma_fundamental_div_mod(kk as int, width);
            vstd::arithmetic::mul::lemma_mul_is_commutative(width, p.1 as int);
            assert(kk as int % width == p.0 as int);
            assert(kk as int / width == p.1 as int);
        }
    }
}

/// Every byte index of the buffer belongs to an in-bounds pixel.
pub(crate) proof fn lemma_byte_pixel_bounds(width: int, height: int, i: int)
    requires
        1 <= width,
        1 <= height,
        width * height <= usize::MAX,
        0 <= i < 4 * width * height,
    ensures
        byte_pixel(width, i).0 < width,
        byte_pixel(width, i).1 < height,
        byte_pixel(width, i).0 as int == (i / 4) % width,
        byte_pixel(width, i).1 as int == (i / 4) / width,
{
    vstd::arithmetic::mul::lemma_mul_is_associative(4, width, height);
    assert(width <= width * height && height <= width * height) by (nonlinear_arith)
        requires
            1 <= width,
            1 <= height,
    ;
    vstd::arithmetic::div_mod::lemma_div_pos_is_pos(i, 4);
    assert(i < 4 * (width * height));
    vstd::arithmetic::div_mod::lemma_multiply_divide_lt(i, 4, width * height);
    vstd::arithmetic::div_mod::lemma_mod_division_less_than_divisor(i / 4, width);
    vstd::arithmetic::div_mod::lemma_div_pos_is_pos(i / 4, width);
    vstd::arithmetic::div_mod::lemma_multiply_divide_lt(i / 4, width, height);
}

/// A byte index belongs to the in-bounds pixel `p` exactly when its pixel
/// index is `p`'s key.
pub(crate) proof fn lemma_byte_pixel_eq(width: int, height: int, i: int, p: (usize, usize))
    requires
        0 <= p.0 < width,
        0 <= p.1 < height,
        width * height <= usize::MAX,
        0 <= i < 4 * width * height,
    ensures
        byte_pixel(width, i) == p <==> i / 4 == p.1 * width + p.0,
{
    lemma_byte_pixel_bounds(width, height, i);
    lemma_key_inverse(width, p.0 as int, p.1 as int);
    vstd::arithmetic::div_mod::lemma_fundamental_div_mod(i / 4, width);
    vstd::arithmetic::mul::lemma_mul_is_commutative(width, p.1 as int);
    vstd::arithmetic::mul::lemma_mul_is_commutative(width, (i / 4) / width);
}

/// Every undo-map key below `width * height` denotes an in-bounds pixel,
/// whose key it is.
pub(crate) proof fn lemma_key_pt_bounds(width: int, height: int, kk: usize)
    requires
        1 <= width,
        1 <= height,
        width * height <= usize::MAX,
        kk < width * height,
    ensures
        key_pt(width, kk).0 < width,
        key_pt(width, kk).1 < height,
        pix_key(width, key_pt(width, kk)) == kk,
{
    assert(width <= width * height && height <= width * height) by (nonlinear_arith)
        requires
            1 <= width,
            1 <= height,
    ;
    vstd::arithmetic::div_mod::lemma_mod_division_less_than_divisor(kk as int, width);
    vstd::arithmetic::div_mod::lemma_div_pos_is_pos(kk as int, width);
    vstd::arithmetic::div_mod::lemma_multiply_divide_lt(kk as int, width, height);
    vstd::arithmetic::div_mod::lemma_fundamental_div_mod(kk as int, width);
    vstd::arithmetic::mul::lemma_mul_is_commutative(width, kk as int / width);
}

/// Painting one more in-bounds pixel updates exactly its four bytes.
pub(crate) proof fn lemma_painted_insert(
    b0: Seq<u8>,
    width: int,
    height: int,
    s: Set<(usize, usize)>,
    p: (usize, usize),
    c: u32,
)
    requires
        b0.len() == 4 * width * height,
        0 <= p.0 < width,
        0 <= p.1 < height,
        width * height <= usize::MAX,
    ensures
        ({
            let k = p.1 * width + p.0;
            painted(b0, width, s.insert(p), c) =~= painted(b0, width, s, c).update(
                4 * k,
                chan(c, 0),
            ).update(4 * k + 1, chan(c, 1)).update(4 * k + 2, chan(c, 2)).update(
                4 * k + 3,
                chan(c, 3),
            )
        }),
{
    let k = p.1 * width + p.0;
    vstd::arithmetic::mul::lemma_mul_is_associative(4, width, height);
    lemma_key_bound(width, height, p.0 as int, p.1 as int);
    lemma_key_inverse(width, p.0 as int, p.1 as int);
    vstd::arithmetic::div_mod::lemma_div_multiples_vanish(k, 4);
    vstd::arithmetic::div_mod::lemma_fundamental_div_mod_converse_div(4 * k + 1, 4, k, 1);
    vstd::arithmetic::div_mod::lemma_fundamental_div_mod_converse_div(4 * k + 2, 4, k, 2);
    vstd::arithmetic::div_mod::lemma_fundamental_div_mod_converse_div(4 * k + 3, 4, k, 3);
    let lhs = painted(b0, width, s.insert(p), c);
    let rhs = painted(b0, width, s, c).update(4 * k, chan(c, 0)).update(
        4 * k + 1,
        chan(c, 1),
    ).update(4 * k + 2, chan(c, 2)).update(4 * k + 3, chan(c, 3));
    assert forall|i: int| 0 <= i < b0.len() implies lhs[i] == rhs[i] by {
        lemma_byte_pixel_eq(width, height, i, p);
        vstd::arithmetic::div_mod::lemma_fundamental_div_mod(i, 4);
        vstd::arithmetic::div_mod::lemma_mod_division_less_than_divisor(i, 4);
        if byte_pixel(width, i) == p {
            assert(i / 4 == k);
            assert(i == 4 * k + i % 4);
        } else {
            assert(i / 4 != k);
            assert(i != 4 * k && i != 4 * k + 1 && i != 4 * k + 2 && i != 4 * k + 3);
        }
    }
}

/// Recording one more in-bounds pixel either leaves the map unchanged (the
/// pixel already has an entry) or adds exactly its pre-edit colour.
pub(crate) proof fn lemma_recorded_insert(
    m0: Map<usize, u32>,
    b0: Seq<u8>,
    width: int,
    height: int,
    s: Set<(usize, usize)>,
    p: (usize, usize),
)
    requires
        0 <= p.0 < width,
        0 <= p.1 < height,
        width * height <= usize::MAX,
    ensures
        ({
            let k = pix_key(width, p);
            let before = recorded_map(m0, b0, width, height, s);
            recorded_map(m0, b0, width, height, s.insert(p)) =~= if before.contains_key(k) {
                before
            } else {
                before.insert(k, packed_at(b0, 4 * (k as int)))
            }
        }),
{
    lemma_key_pt_inverse(width, height, p);
}

/// Erasing one more in-bounds pixel removes exactly its entry.
pub(crate) proof fn lemma_erased_insert(
    m0: Map<usize, u32>,
    width: int,
    height: int,
    s: Set<(usize, usize)>,
    p: (usize, usize),
)
    requires
        0 <= p.0 < width,
        0 <= p.1 < height,
        width * height <= usize::MAX,
    ensures
        erased_map(m0, width, height, s.insert(p)) =~= erased_map(m0, width, height, s).remove(
            pix_key(width, p),
        ),
{
    lemma_key_pt_inverse(width, height, p);
}

/// The drawing canvas: the tool state of the current editing session and the
/// undo history of the image being annotated.
pub struct Canvas {
    pub shape: Shape,
    pub color: u32,
    pub init_draw: bool,
    /// Packed colour each pixel held before the current edits touched it,
    /// keyed by row-major pixel index.
    pub modified_pixel: HashMap<usize, u32>,
    /// Pending points of the freehand stroke in progress.
    pub buf_point: StrokeBuf,
    /// Top-left corner of the current crop selection.
    pub start_point_cut: (usize, usize),
    pub fill: bool,
}

impl Canvas {
    /// Everything but the undo history is unchanged.
    pub open spec fn same_tool(self, other: Canvas) -> bool {
        &&& self.shape == other.shape
        &&& self.color == other.color
        &&& self.init_draw == other.init_draw
        &&& self.buf_point == other.buf_point
        &&& self.start_point_cut == other.start_point_cut
        &&& self.fill == other.fill
    }

    /// A fresh canvas: no tool selected, opaque red, empty history.
    pub fn new() -> (c: Canvas)
        ensures
            c.shape == Shape::NoShape,
            c.color == 0xff0000ff,
            !c.init_draw,
            c.modified_pixel@ == Map::<usize, u32>::empty(),
            c.buf_point@ == Seq::<(usize, usize)>::empty(),
            c.buf_point.inv(),
            c.start_point_cut == (0usize, 0usize),
            !c.fill,
    {
        Canvas {
            shape: Shape::NoShape,
            color: 0xff0000ff,
            init_draw: false,
            modified_pixel: HashMap::new(),
            buf_point: StrokeBuf::new(),
            start_point_cut: (0, 0),
            fill: false,
        }
    }

    /// Selects a tool; any stroke in progress is abandoned.
    pub fn set_shape(&mut self, new_shape: Shape)
        ensures
            final(self).shape == new_shape,
            !final(self).init_draw,
            final(self).buf_point@ == Seq::<(usize, usize)>::empty(),
            final(self).buf_point.inv(),
            final(self).color == old(self).color,
            final(self).fill == old(self).fill,
            final(self).modified_pixel == old(self).modified_pixel,
            final(self).start_point_cut == old(self).start_point_cut,
    {
        self.shape = new_shape;
        self.init_draw = false;
        self.buf_point.clear();
    }

    /// The selected tool.
    pub fn get_shape(&self) -> (s: Shape)
        ensures
            s == self.shape,
    {
        self.shape
    }

    /// Sets the paint colour.
    pub fn set_color(&mut self, new_color: u32)
        ensures
            *final(self) == (Canvas { color: new_color, ..*old(self) }),
    {
        self.color = new_color;
    }

    /// The paint colour.
    pub fn get_color(&self) -> (c: u32)
        ensures
            c == self.color,
    {
        self.color
    }

    /// Marks whether an initial draw happened.
    pub fn set_init_draw(&mut self, new_value: bool)
        ensures
            *final(self) == (Canvas { init_draw: new_value, ..*old(self) }),
    {
        self.init_draw = new_value;
    }

    /// Whether an initial draw happened.
    pub fn get_init_draw(&self) -> (b: bool)
        ensures
            b == self.init_draw,
    {
        self.init_draw
    }

    /// Toggles between outline and solid rendering.
    pub fn set_fill(&mut self, val: bool)
        ensures
            *final(self) == (Canvas { fill: val, ..*old(self) }),
    {
        self.fill = val;
    }

    /// Whether shapes render solid.
    pub fn get_fill(&self) -> (b: bool)
        ensures
            b == self.fill,
    {
        self.fill
    }

    /// Applies the canvas colour to every in-bounds coordinate of `coords`,
    /// recording each pixel's previous colour in the undo map unless an
    /// entry for it already exists. Out-of-bounds coordinates are ignored.
    #[verifier::loop_isolation(false)]
    #[verifier::rlimit(50)]
    pub fn apply_color(
        &mut self,
        pixels: Vec<u8>,
        width: usize,
        height: usize,
        coords: &Vec<(usize, usize)>,
    ) -> (res: Vec<u8>)
        requires
            pixels@.len() == 4 * width * height,
        ensures
            res@ == painted(pixels@, width as int, coords@.to_set(), old(self).color),
            final(self).modified_pixel@ == recorded_map(
                old(self).modified_pixel@,
                pixels@,
                width as int,
                height as int,
                coords@.to_set(),
            ),
            final(self).same_tool(*old(self)),
    {
        let ghost b0 = pixels@;
        let ghost m0 = self.modified_pixel@;
        let mut pixels = pixels;
        proof {
            vstd::std_specs::vec::axiom_spec_len(&pixels);
            assert(pixels@.len() <= usize::MAX);
            assert(width * height <= usize::MAX && 4 * (width * height) == 4 * width * height)
                by (nonlinear_arith)
                requires
                    4 * width * height <= usize::MAX,
            ;
        }
        let mut i: usize = 0;
        while i < coords.len()
            invariant
                0 <= i <= coords@.len(),
                pixels@.len() == b0.len(),
                pixels@ == painted(b0, width as int, coords@.take(i as int).to_set(), self.color),
                self.modified_pixel@ == recorded_map(
                    m0,
                    b0,
                    width as int,
                    height as int,
                    coords@.take(i as int).to_set(),
                ),
                self.same_tool(*old(self)),
                self.color == old(self).color,
            decreases coords@.len() - i,
        {
            let (x, y) = coords[i];
            proof {
                assert(coords@.take(i as int + 1) =~= coords@.take(i as int).push(
                    coords@[i as int],
                ));
            }
            if x < width && y < height {
                proof {
                    lemma_key_bound(width as int, height as int, x as int, y as int);
                    lemma_key_inverse(width as int, x as int, y as int);
                    lemma_key_pt_inverse(width as int, height as int, (x, y));
                    lemma_chan_fits(self.color);
                }
                let k = y * width + x;
                let base = 4 * k;
                proof {
                    vstd::arithmetic::mul::lemma_mul_is_associative(
                        4,
                        width as int,
                        height as int,
                    );
                    assert(4 * (k as int) + 3 < b0.len());
                    vstd::arithmetic::div_mod::lemma_div_multiples_vanish(k as int, 4);
                    vstd::arithmetic::div_mod::lemma_fundamental_div_mod_converse_div(
                        4 * (k as int) + 1, 4, k as int, 1);
                    vstd::arithmetic::div_mod::lemma_fundamental_div_mod_converse_div(
                        4 * (k as int) + 2, 4, k as int, 2);
                    vstd::arithmetic::div_mod::lemma_fundamental_div_mod_converse_div(
                        4 * (k as int) + 3, 4, k as int, 3);
                    lemma_byte_pixel_eq(width as int, height as int, 4 * (k as int), (x, y));
                    lemma_byte_pixel_eq(width as int, height as int, 4 * (k as int) + 1, (x, y));
                    lemma_byte_pixel_eq(width as int, height as int, 4 * (k as int) + 2, (x, y));
                    lemma_byte_pixel_eq(width as int, height as int, 4 * (k as int) + 3, (x, y));
                    assert(byte_pixel(width as int, 4 * (k as int)) == (x, y));
                    assert(byte_pixel(width as int, 4 * (k as int) + 1) == (x, y));
                    assert(byte_pixel(width as int, 4 * (k as int) + 2) == (x, y));
                    assert(byte_pixel(width as int, 4 * (k as int) + 3) == (x, y));
                }
                let b0r = pixels[base];
                let b1r = pixels[base + 1];
                let b2r = pixels[base + 2];
                let b3r = pixels[base + 3];
                let old_color = ((b0r as u32) << 24) | ((b1r as u32) << 16) | ((b2r as u32) << 8)
                    | (b3r as u32);
                pixels.set(base, ((self.color & 0xff000000) >> 24) as u8);
                pixels.set(base + 1, ((self.color & 0x00ff0000) >> 16) as u8);
                pixels.set(base + 2, ((self.color & 0x0000ff00) >> 8) as u8);
                pixels.set(base + 3, (self.color & 0x000000ff) as u8);
                if !self.modified_pixel.contains_key(&k) {
                    self.modified_pixel.insert(k, old_color);
                }
                proof {
                    let s = coords@.take(i as int).to_set();
                    let p = (x, y);
                    lemma_painted_insert(b0, width as int, height as int, s, p, self.color);
                    lemma_recorded_insert(m0, b0, width as int, height as int, s, p);
                    // the four bytes read were still the pre-edit bytes unless
                    // this pixel was already painted this call
                    if !s.contains(p) {
                        assert(old_color == packed_at(b0, 4 * (k as int)));
                    } else {
                        assert(recorded_map(m0, b0, width as int, height as int, s).contains_key(
                            k,
                        ));
                    }
                    assert(coords@.take(i as int + 1).to_set() =~= s.insert(p));
                    assert(pixels@ =~= painted(
                        b0,
                        width as int,
                        coords@.take(i as int + 1).to_set(),
                        self.color,
                    ));
                    assert(self.modified_pixel@ =~= recorded_map(
                        m0,
                        b0,
                        width as int,
                        height as int,
                        coords@.take(i as int + 1).to_set(),
                    ));
                }
            } else {
                proof {
                    let s = coords@.take(i as int).to_set();
                    let p = (x, y);
                    assert(coords@.take(i as int + 1).to_set() =~= s.insert(p));
                    // an out-of-bounds coordinate touches no byte and no key
                    assert forall|ii: int| 0 <= ii < b0.len() implies byte_pixel(width as int, ii)
                        != p by {
                        lemma_byte_pixel_bounds(width as int, height as int, ii);
                    }
                    assert(painted(b0, width as int, s.insert(p), self.color) =~= painted(
                        b0,
                        width as int,
                        s,
                        self.color,
                    ));
                    assert forall|kk: usize| kk < width * height implies #[trigger] key_pt(
                        width as int,
                        kk,
                    ) != p by {
                        lemma_key_pt_bounds(width as int, height as int, kk);
                    }
                    assert(recorded_map(m0, b0, width as int, height as int, s.insert(p))
                        =~= recorded_map(m0, b0, width as int, height as int, s));
                }
            }
            i = i + 1;
        }
        proof {
            assert(coords@.take(coords@.len() as int) =~= coords@);
        }
        pixels
    }
}

/// The pixel set a paintable shape occupies between the two drag corners.
pub open spec fn drawn_member(
    shape: Shape,
    fill: bool,
    start: (usize, usize),
    end: (usize, usize),
    thickness: usize,
    p: (usize, usize),
) -> bool {
    match shape {
        Shape::Line => line_member(start, end, thickness, p),
        Shape::Cirle => if fill {
            circle_fill_member(start, end, p)
        } else {
            circle_outline_member(start, end, thickness, p)
        },
        Shape::Rectangle => if fill {
            rect_fill_member(start, end, p)
        } else {
            rect_outline_member(start, end, thickness, p)
        },
        _ => false,
    }
}

/// The pixel set a paintable shape occupies, as a set.
pub open spec fn drawn_set(
    shape: Shape,
    fill: bool,
    start: (usize, usize),
    end: (usize, usize),
    thickness: usize,
) -> Set<(usize, usize)> {
    Set::new(|p: (usize, usize)| drawn_member(shape, fill, start, end, thickness, p))
}

/// Whether some in-bounds coordinate of `cs` has a recorded undo entry — the
/// eraser restores something exactly on such a region.
pub open spec fn erases_any(
    m: Map<usize, u32>,
    width: int,
    height: int,
    cs: Set<(usize, usize)>,
) -> bool {
    exists|p: (usize, usize)|
        #[trigger] cs.contains(p) && p.0 < width && p.1 < height && m.contains_key(
            pix_key(width, p),
        )
}

/// Restoring one more in-bounds pixel updates exactly its four bytes when it
/// has a recorded entry, and nothing otherwise.
pub(crate) proof fn lemma_restored_insert(
    b0: Seq<u8>,
    width: int,
    height: int,
    m0: Map<usize, u32>,
    s: Set<(usize, usize)>,
    p: (usize, usize),
)
    requires
        b0.len() == 4 * width * height,
        0 <= p.0 < width,
        0 <= p.1 < height,
        width * height <= usize::MAX,
    ensures
        ({
            let k = p.1 * width + p.0;
            restored(b0, width, m0, s.insert(p)) =~= if m0.contains_key((p.1 * width
                + p.0) as usize) {
                restored(b0, width, m0, s).update(4 * k, chan(m0[(p.1 * width + p.0) as usize], 0))
                    .update(4 * k + 1, chan(m0[(p.1 * width + p.0) as usize], 1)).update(
                    4 * k + 2,
                    chan(m0[(p.1 * width + p.0) as usize], 2),
                ).update(4 * k + 3, chan(m0[(p.1 * width + p.0) as usize], 3))
            } else {
                restored(b0, width, m0, s)
            }
        }),
{
    let k = p.1 * width + p.0;
    vstd::arithmetic::mul::lemma_mul_is_associative(4, width, height);
    lemma_key_bound(width, height, p.0 as int, p.1 as int);
    lemma_key_inverse(width, p.0 as int, p.1 as int);
    vstd::arithmetic::div_mod::lemma_div_multiples_vanish(k, 4);
    vstd::arithmetic::div_mod::lemma_fundamental_div_mod_converse_div(4 * k + 1, 4, k, 1);
    vstd::arithmetic::div_mod::lemma_fundamental_div_mod_converse_div(4 * k + 2, 4, k, 2);
    vstd::arithmetic::div_mod::lemma_fundamental_div_mod_converse_div(4 * k + 3, 4, k, 3);
    if m0.contains_key(k as usize) {
        let rhs = restored(b0, width, m0, s).update(4 * k, chan(m0[k as usize], 0)).update(
            4 * k + 1,
            chan(m0[k as usize], 1),
        ).update(4 * k + 2, chan(m0[k as usize], 2)).update(4 * k + 3, chan(m0[k as usize], 3));
        assert forall|i: int| 0 <= i < b0.len() implies restored(b0, width, m0, s.insert(p))[i]
            == rhs[i] by {
            lemma_byte_pixel_eq(width, height, i, p);
            vstd::arithmetic::div_mod::lemma_fundamental_div_mod(i, 4);
            vstd::arithmetic::div_mod::lemma_mod_division_less_than_divisor(i, 4);
            if byte_pixel(width, i) == p {
                assert(i / 4 == k);
                assert(i == 4 * k + i % 4);
            } else {
                assert(i / 4 != k);
                assert(i != 4 * k && i != 4 * k + 1 && i != 4 * k + 2 && i != 4 * k + 3);
            }
        }
    } else {
        assert forall|i: int| 0 <= i < b0.len() implies restored(b0, width, m0, s.insert(p))[i]
            == restored(b0, width, m0, s)[i] by {
            lemma_byte_pixel_eq(width, height, i, p);
            if byte_pixel(width, i) == p {
                assert(i / 4 == k);
            }
        }
    }
}

impl Canvas {
    /// Rasterizes `shape` between the two drag corners — a line, or a circle
    /// or rectangle rendered solid or outlined after the canvas fill flag —
    /// and composites it onto the buffer with the canvas colour, recording
    /// the previous colour of each painted pixel in the undo map.
    #[verifier::rlimit(50)]
    pub fn draw_shape(
        &mut self,
        pixels: Vec<u8>,
        width: usize,
        height: usize,
        start: (usize, usize),
        end: (usize, usize),
        shape: Shape,
        thickness: usize,
    ) -> (res: Vec<u8>)
        requires
            pixels@.len() == 4 * width * height,
            shape == Shape::Line || shape == Shape::Cirle || shape == Shape::Rectangle,
            start.0 < MAX_COORD && start.1 < MAX_COORD && end.0 < MAX_COORD && end.1 < MAX_COORD,
            thickness < MAX_COORD,
        ensures
            res@ == painted(
                pixels@,
                width as int,
                drawn_set(shape, old(self).fill, start, end, thickness),
                old(self).color,
            ),
            final(self).modified_pixel@ == recorded_map(
                old(self).modified_pixel@,
                pixels@,
                width as int,
                height as int,
                drawn_set(shape, old(self).fill, start, end, thickness),
            ),
            final(self).same_tool(*old(self)),
    {
        let filled_pixels: Vec<(usize, usize)> = if shape == Shape::Line {
            generate_line_coordinates(start, end, thickness)
        } else if shape == Shape::Cirle {
            if self.fill {
                generate_fill_circle_coordinates(start, end)
            } else {
                generate_empty_circle_coordinates(start, end, thickness)
            }
        } else {
            if self.fill {
                generate_fill_rectangle_coordinates(start, end)
            } else {
                generate_empty_rectangle_coordinates(start, end, thickness)
            }
        };
        proof {
            assert(filled_pixels@.to_set() =~= drawn_set(shape, self.fill, start, end, thickness));
        }
        self.apply_color(pixels, width, height, &filled_pixels)
    }

    /// Paints a `thickness` by `thickness` square dab centred on `center`:
    /// one single-point application of the freehand brush.
    #[verifier::rlimit(50)]
    pub fn apply_brush(
        &mut self,
        pixels: Vec<u8>,
        width: usize,
        height: usize,
        center: (usize, usize),
        thickness: usize,
    ) -> (res: Vec<u8>)
        requires
            pixels@.len() == 4 * width * height,
            1 <= thickness,
            center.0 + thickness < MAX_COORD,
            center.1 + thickness < MAX_COORD,
        ensures
            res@ == painted(
                pixels@,
                width as int,
                brush_set(center, thickness),
                old(self).color,
            ),
            final(self).modified_pixel@ == recorded_map(
                old(self).modified_pixel@,
                pixels@,
                width as int,
                height as int,
                brush_set(center, thickness),
            ),
            final(self).same_tool(*old(self)),
    {
        let ht = thickness / 2;
        let corner = (
            if center.0 >= ht {
                center.0 - ht
            } else {
                0
            },
            if center.1 >= ht {
                center.1 - ht
            } else {
                0
            },
        );
        let far = (corner.0 + thickness - 1, corner.1 + thickness - 1);
        let coords = generate_fill_rectangle_coordinates(corner, far);
        proof {
            assert(coords@.to_set() =~= brush_set(center, thickness));
        }
        self.apply_color(pixels, width, height, &coords)
    }

    /// Erases along the segment from `start` to `end`: rasterizes an erase
    /// stencil — a line wider than the stroke by a fixed margin, so erasing
    /// reliably clears thick edges — and restores every stencil pixel with a
    /// recorded entry to its pre-edit colour, deleting the entry. Returns
    /// `None` exactly when no stencil pixel had an entry, so the caller can
    /// skip the repaint.
    #[verifier::loop_isolation(false)]
    #[verifier::rlimit(50)]
    pub fn clear_pixel(
        &mut self,
        pixels: Vec<u8>,
        width: usize,
        height: usize,
        start: (usize, usize),
        end: (usize, usize),
        thickness: usize,
    ) -> (res: Option<Vec<u8>>)
        requires
            pixels@.len() == 4 * width * height,
            start.0 < MAX_COORD && start.1 < MAX_COORD && end.0 < MAX_COORD && end.1 < MAX_COORD,
            thickness + ERASER_MARGIN < MAX_COORD,
        ensures
            ({
                let stencil = crate::rasterizer::line_set(
                    start,
                    end,
                    (thickness + ERASER_MARGIN) as usize,
                );
                &&& (res is Some <==> erases_any(
                    old(self).modified_pixel@,
                    width as int,
                    height as int,
                    stencil,
                ))
                &&& (res matches Some(bytes) ==> bytes@ == restored(
                    pixels@,
                    width as int,
                    old(self).modified_pixel@,
                    stencil,
                ) && final(self).modified_pixel@ == erased_map(
                    old(self).modified_pixel@,
                    width as int,
                    height as int,
                    stencil,
                ))
                &&& (res is None ==> final(self).modified_pixel@ == old(self).modified_pixel@)
            }),
            final(self).same_tool(*old(self)),
    {
        let ghost b0 = pixels@;
        let ghost m0 = self.modified_pixel@;
        let cleared_pixels = generate_line_coordinates(start, end, thickness + ERASER_MARGIN);
        let ghost stencil = crate::rasterizer::line_set(
            start,
            end,
            (thickness + ERASER_MARGIN) as usize,
        );
        proof {
            assert(cleared_pixels@.to_set() =~= stencil);
        }
        let mut pixels = pixels;
        proof {
            vstd::std_specs::vec::axiom_spec_len(&pixels);
            assert(pixels@.len() <= usize::MAX);
            assert(width * height <= usize::MAX && 4 * (width * height) == 4 * width * height)
                by (nonlinear_arith)
                requires
                    4 * width * height <= usize::MAX,
            ;
        }
        let mut modified = false;
        let mut i: usize = 0;
        while i < cleared_pixels.len()
            invariant
                0 <= i <= cleared_pixels@.len(),
                pixels@.len() == b0.len(),
                pixels@ == restored(
                    b0,
                    width as int,
                    m0,
                    cleared_pixels@.take(i as int).to_set(),
                ),
                self.modified_pixel@ == erased_map(
                    m0,
                    width as int,
                    height as int,
                    cleared_pixels@.take(i as int).to_set(),
                ),
                modified == erases_any(
                    m0,
                    width as int,
                    height as int,
                    cleared_pixels@.take(i as int).to_set(),
                ),
                cleared_pixels@.no_duplicates(),
                self.same_tool(*old(self)),
            decreases cleared_pixels@.len() - i,
        {
            let (x, y) = cleared_pixels[i];
            let ghost s = cleared_pixels@.take(i as int).to_set();
            let ghost p = (x, y);
            proof {
                assert(cleared_pixels@.take(i as int + 1) =~= cleared_pixels@.take(i as int).push(
                    cleared_pixels@[i as int],
                ));
                assert(cleared_pixels@.take(i as int + 1).to_set() =~= s.insert(p));
                // a fresh stencil pixel: duplicates never reach the stencil
                assert(!s.contains(p)) by {
                    if s.contains(p) {
                        assert(cleared_pixels@.take(i as int).contains(p));
                        let j = choose|j: int|
                            0 <= j < i && cleared_pixels@.take(i as int)[j] == p;
                        assert(cleared_pixels@[j] == cleared_pixels@[i as int]);
                    }
                }
            }
            if x < width && y < height {
                proof {
                    lemma_key_bound(width as int, height as int, x as int, y as int);
                    lemma_key_inverse(width as int, x as int, y as int);
                    lemma_key_pt_inverse(width as int, height as int, (x, y));
                    vstd::arithmetic::mul::lemma_mul_is_associative(
                        4,
                        width as int,
                        height as int,
                    );
                }
                let k = y * width + x;
                let got = match self.modified_pixel.get(&k) {
                    Some(v) => Some(*v),
                    Option::None => Option::None,
                };
                match got {
                    Some(color) => {
                        proof {
                            assert(m0.contains_key(k) && m0[k] == color);
                            assert(4 * (k as int) + 3 < b0.len());
                            lemma_chan_fits(color);
                            lemma_restored_insert(
                                b0,
                                width as int,
                                height as int,
                                m0,
                                s,
                                p,
                            );
                            lemma_erased_insert(m0, width as int, height as int, s, p);
                        }
                        modified = true;
                        pixels.set(4 * k, ((color & 0xff000000) >> 24) as u8);
                        pixels.set(4 * k + 1, ((color & 0x00ff0000) >> 16) as u8);
                        pixels.set(4 * k + 2, ((color & 0x0000ff00) >> 8) as u8);
                        pixels.set(4 * k + 3, (color & 0x000000ff) as u8);
                        self.modified_pixel.remove(&k);
                        proof {
                            assert(pixels@ =~= restored(
                                b0,
                                width as int,
                                m0,
                                cleared_pixels@.take(i as int + 1).to_set(),
                            ));
                            assert(self.modified_pixel@ =~= erased_map(
                                m0,
                                width as int,
                                height as int,
                                cleared_pixels@.take(i as int + 1).to_set(),
                            ));
                            assert(erases_any(
                                m0,
                                width as int,
                                height as int,
                                s.insert(p),
                            )) by {
                                assert(s.insert(p).contains(p));
                            }
                        }
                    }
                    Option::None => {
                        proof {
                            assert(!m0.contains_key(k));
                            lemma_restored_insert(
                                b0,
                                width as int,
                                height as int,
                                m0,
                                s,
                                p,
                            );
                            lemma_erased_insert(m0, width as int, height as int, s, p);
                            assert(pixels@ =~= restored(
                                b0,
                                width as int,
                                m0,
                                cleared_pixels@.take(i as int + 1).to_set(),
                            ));
                            assert(self.modified_pixel@ =~= erased_map(
                                m0,
                                width as int,
                                height as int,
                                cleared_pixels@.take(i as int + 1).to_set(),
                            )) by {
                                assert(erased_map(m0, width as int, height as int, s).remove(
                                    pix_key(width as int, p),
                                ) =~= erased_map(m0, width as int, height as int, s));
                            }
                            assert(erases_any(m0, width as int, height as int, s.insert(p))
                                == erases_any(m0, width as int, height as int, s)) by {
                                if erases_any(m0, width as int, height as int, s.insert(p)) {
                                    let q = choose|q: (usize, usize)|
                                        #[trigger] s.insert(p).contains(q) && q.0 < width && q.1
                                            < height && m0.contains_key(
                                            pix_key(width as int, q),
                                        );
                                    assert(q != p);
                                    assert(s.contains(q));
                                    assert(erases_any(m0, width as int, height as int, s));
                                }
                                if erases_any(m0, width as int, height as int, s) {
                                    let q = choose|q: (usize, usize)|
                                        #[trigger] s.contains(q) && q.0 < width && q.1 < height
                                            && m0.contains_key(pix_key(width as int, q));
                                    assert(s.insert(p).contains(q));
                                    assert(erases_any(
                                        m0,
                                        width as int,
                                        height as int,
                                        s.insert(p),
                                    ));
                                }
                            }
                        }
                    }
                }
            } else {
                proof {
                    assert forall|ii: int| 0 <= ii < b0.len() implies byte_pixel(
                        width as int,
                        ii,
                    ) != p by {
                        vstd::arithmetic::mul::lemma_mul_is_associative(
                            4,
                            width as int,
                            height as int,
                        );
                        lemma_byte_pixel_bounds(width as int, height as int, ii);
                    }
                    assert(pixels@ =~= restored(
                        b0,
                        width as int,
                        m0,
                        cleared_pixels@.take(i as int + 1).to_set(),
                    ));
                    assert(self.modified_pixel@ =~= erased_map(
                        m0,
                        width as int,
                        height as int,
                        cleared_pixels@.take(i as int + 1).to_set(),
                    )) by {
                        assert forall|kk: usize| kk < width * height implies #[trigger] key_pt(
                            width as int,
                            kk,
                        ) != p by {
                            lemma_key_pt_bounds(width as int, height as int, kk);
                        }
                    }
                    assert(erases_any(m0, width as int, height as int, s.insert(p)) == erases_any(
                        m0,
                        width as int,
                        height as int,
                        s,
                    )) by {
                        if erases_any(m0, width as int, height as int, s.insert(p)) {
                            let q = choose|q: (usize, usize)|
                                #[trigger] s.insert(p).contains(q) && q.0 < width && q.1 < height
                                    && m0.contains_key(pix_key(width as int, q));
                            assert(q != p);
                            assert(s.contains(q));
                            assert(erases_any(m0, width as int, height as int, s));
                        }
                        if erases_any(m0, width as int, height as int, s) {
                            let q = choose|q: (usize, usize)|
                                #[trigger] s.contains(q) && q.0 < width && q.1 < height
                                    && m0.contains_key(pix_key(width as int, q));
                            assert(s.insert(p).contains(q));
                            assert(erases_any(m0, width as int, height as int, s.insert(p)));
                        }
                    }
                }
            }
            i = i + 1;
        }
        proof {
            assert(cleared_pixels@.take(cleared_pixels@.len() as int) =~= cleared_pixels@);
            assert(cleared_pixels@.to_set() == stencil);
            if !modified {
                // nothing was recorded under the stencil, so nothing left it
                assert(self.modified_pixel@ =~= m0) by {
                    assert forall|k: usize| #[trigger] m0.contains_key(k) implies erased_map(
                        m0,
                        width as int,
                        height as int,
                        stencil,
                    ).contains_key(k) by {
                        if k < width * height && stencil.contains(key_pt(width as int, k)) {
                            assert(width >= 1 && height >= 1) by (nonlinear_arith)
                                requires
                                    k < width * height,
                                    0 <= width,
                                    0 <= height,
                            ;
                            lemma_key_pt_bounds(width as int, height as int, k);
                            assert(erases_any(m0, width as int, height as int, stencil));
                        }
                    }
                }
            }
        }
        if modified {
            Some(pixels)
        } else {
            Option::None
        }
    }

    /// One pointer-move sample of a freehand or eraser stroke, already mapped
    /// into image space. The first sample after the stroke buffer was cleared
    /// only starts the chain; each later sample draws (freehand) or erases
    /// (rubber) one segment from the buffered point to itself.
    #[verifier::rlimit(50)]
    pub fn stroke_move(
        &mut self,
        pixels: Vec<u8>,
        width: usize,
        height: usize,
        current: (usize, usize),
        thickness: usize,
    ) -> (res: Option<Vec<u8>>)
        requires
            old(self).shape == Shape::Free || old(self).shape == Shape::Rubber,
            old(self).buf_point.inv(),
            pixels@.len() == 4 * width * height,
            current.0 < MAX_COORD,
            current.1 < MAX_COORD,
            thickness + ERASER_MARGIN < MAX_COORD,
        ensures
            final(self).buf_point@ =~= seq![current],
            final(self).buf_point.inv(),
            final(self).shape == old(self).shape,
            final(self).color == old(self).color,
            final(self).fill == old(self).fill,
            final(self).init_draw == old(self).init_draw,
            final(self).start_point_cut == old(self).start_point_cut,
            old(self).buf_point@.len() == 0 ==> res is None && final(self).modified_pixel@ == old(
                self,
            ).modified_pixel@,
            old(self).buf_point@.len() == 1 && old(self).shape == Shape::Free ==> (res matches Some(
                bytes,
            ) && bytes@ == painted(
                pixels@,
                width as int,
                crate::rasterizer::line_set(old(self).buf_point@[0], current, thickness),
                old(self).color,
            ) && final(self).modified_pixel@ == recorded_map(
                old(self).modified_pixel@,
                pixels@,
                width as int,
                height as int,
                crate::rasterizer::line_set(old(self).buf_point@[0], current, thickness),
            )),
            old(self).buf_point@.len() == 1 && old(self).shape == Shape::Rubber ==> ({
                let stencil = crate::rasterizer::line_set(
                    old(self).buf_point@[0],
                    current,
                    (thickness + ERASER_MARGIN) as usize,
                );
                &&& (res is Some <==> erases_any(
                    old(self).modified_pixel@,
                    width as int,
                    height as int,
                    stencil,
                ))
                &&& (res matches Some(bytes) ==> bytes@ == restored(
                    pixels@,
                    width as int,
                    old(self).modified_pixel@,
                    stencil,
                ) && final(self).modified_pixel@ == erased_map(
                    old(self).modified_pixel@,
                    width as int,
                    height as int,
                    stencil,
                ))
                &&& (res is None ==> final(self).modified_pixel@ == old(self).modified_pixel@)
            }),
    {
        let seg = self.buf_point.push_point(current);
        match seg {
            Option::None => Option::None,
            Some((p1, p2)) => {
                proof {
                    assert(old(self).buf_point@[0].0 < MAX_COORD && old(self).buf_point@[0].1
                        < MAX_COORD);
                }
                if self.shape == Shape::Free {
                    let out = self.draw_shape(
                        pixels,
                        width,
                        height,
                        p1,
                        p2,
                        Shape::Line,
                        thickness,
                    );
                    proof {
                        assert(drawn_set(Shape::Line, old(self).fill, p1, p2, thickness)
                            =~= crate::rasterizer::line_set(p1, p2, thickness));
                    }
                    Some(out)
                } else {
                    self.clear_pixel(pixels, width, height, p1, p2, thickness)
                }
            }
        }
    }
}

/// Compositing idempotence: on a region with no prior history, applying a
/// colour to the same coordinates twice and then erasing once restores every
/// pixel to its value before the *first* application and clears its undo
/// entry — the undo map never overwrites its first-recorded entry, so the
/// second application records nothing.
pub proof fn lemma_apply_twice_erase_restores(
    b0: Seq<u8>,
    width: int,
    height: int,
    cs: Set<(usize, usize)>,
    c: u32,
    m0: Map<usize, u32>,
)
    requires
        0 <= width,
        0 <= height,
        b0.len() == 4 * width * height,
        width * height <= usize::MAX,
        forall|p: (usize, usize)|
            #[trigger] cs.contains(p) && p.0 < width && p.1 < height ==> !m0.contains_key(
                pix_key(width, p),
            ),
    ensures
        ({
            let b1 = painted(b0, width, cs, c);
            let m1 = recorded_map(m0, b0, width, height, cs);
            let b2 = painted(b1, width, cs, c);
            let m2 = recorded_map(m1, b1, width, height, cs);
            &&& m2 == m1
            &&& restored(b2, width, m2, cs) == b0
            &&& erased_map(m2, width, height, cs) == m0
        }),
{
    let b1 = painted(b0, width, cs, c);
    let m1 = recorded_map(m0, b0, width, height, cs);
    let b2 = painted(b1, width, cs, c);
    let m2 = recorded_map(m1, b1, width, height, cs);

    // the second application finds every touched pixel already recorded
    assert(m2 =~= m1);

    // erasing restores the bytes recorded before the first application
    assert forall|i: int| 0 <= i < b0.len() implies restored(b2, width, m2, cs)[i] == b0[i] by {
        assert(width >= 1 && height >= 1) by (nonlinear_arith)
            requires
                0 <= i < 4 * width * height,
                0 <= width,
                0 <= height,
        ;
        lemma_byte_pixel_bounds(width, height, i);
        let bp = byte_pixel(width, i);
        vstd::arithmetic::div_mod::lemma_fundamental_div_mod(i, 4);
        vstd::arithmetic::div_mod::lemma_mod_division_less_than_divisor(i, 4);
        if cs.contains(bp) {
            lemma_key_pt_inverse(width, height, bp);
            let k = pix_key(width, bp);
            assert(k as int == i / 4) by {
                lemma_key_bound(width, height, bp.0 as int, bp.1 as int);
                vstd::arithmetic::div_mod::lemma_fundamental_div_mod(i / 4, width);
                vstd::arithmetic::mul::lemma_mul_is_commutative(width, (i / 4) / width);
                vstd::arithmetic::mul::lemma_mul_is_commutative(width, bp.1 as int);
            }
            assert(key_pt(width, k) == bp);
            assert(!m0.contains_key(k));
            assert(m2.contains_key(k) && m2[k] == packed_at(b0, 4 * (k as int)));
            lemma_chan_pack(
                b0[4 * (k as int)],
                b0[4 * (k as int) + 1],
                b0[4 * (k as int) + 2],
                b0[4 * (k as int) + 3],
            );
            assert(i == 4 * (k as int) + i % 4);
            assert(restored(b2, width, m2, cs)[i] == chan(m2[k], i % 4));
        }
    }
    assert(restored(b2, width, m2, cs) =~= b0);

    // erasing deletes exactly the entries the first application added
    assert forall|k: usize| #[trigger] m0.contains_key(k) implies erased_map(
        m2,
        width,
        height,
        cs,
    ).contains_key(k) && erased_map(m2, width, height, cs)[k] == m0[k] by {
        if k < width * height && cs.contains(key_pt(width, k)) {
            assert(width >= 1 && height >= 1) by (nonlinear_arith)
                requires
                    k < width * height,
                    0 <= width,
                    0 <= height,
            ;
            lemma_key_pt_bounds(width, height, k);
        }
    }
    assert(erased_map(m2, width, height, cs) =~= m0);
}

/// The extra width, in pixels, the erase stencil adds around the stroke so
/// that erasing reliably clears thick or anti-aliased edges.
pub const ERASER_MARGIN: usize = 12;

/// The top-left corner of the brush dab centred on `center`.
pub open spec fn brush_corner(center: (usize, usize), thickness: usize) -> (usize, usize) {
    (
        crate::rasterizer::max0(center.0 - thickness / 2) as usize,
        crate::rasterizer::max0(center.1 - thickness / 2) as usize,
    )
}

/// The `thickness` by `thickness` square dab centred on `center`, as a set.
pub open spec fn brush_set(center: (usize, usize), thickness: usize) -> Set<(usize, usize)> {
    crate::rasterizer::rect_fill_set(
        brush_corner(center, thickness),
        (
            (brush_corner(center, thickness).0 + thickness - 1) as usize,
            (brush_corner(center, thickness).1 + thickness - 1) as usize,
        ),
    )
}

} // verus!
