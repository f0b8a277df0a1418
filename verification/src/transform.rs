//! Post-capture buffer transforms: the highlight mask shown while a region
//! is selected, the reset that removes it, and the crop that cuts the
//! selected area out — bytes and undo history alike, so erasing keeps
//! working on the cropped image.

use std::collections::HashMap;
use vstd::prelude::*;

use crate::area::Area;
use crate::canvas::{
    byte_pixel, key_pt, lemma_byte_pixel_eq, lemma_key_bound, lemma_key_inverse,
    lemma_key_pt_bounds, lemma_key_pt_inverse, pix_key, Canvas,
};

verus! {

broadcast use vstd::std_specs::hash::group_hash_axioms;

/// The buffer with every alpha byte forced opaque; colour bytes untouched.
pub open spec fn opaqued(bytes: Seq<u8>) -> Seq<u8> {
    Seq::new(
        bytes.len(),
        |i: int|
            if i % 4 == 3 {
                255u8
            } else {
                bytes[i]
            },
    )
}

/// Whether a pixel lies in the area.
pub open spec fn in_area(area: Area, p: (usize, usize)) -> bool {
    &&& area.left_corner.0 <= p.0 < area.left_corner.0 + area.width
    &&& area.left_corner.1 <= p.1 < area.left_corner.1 + area.height
}

/// The buffer under the highlight mask: colour bytes untouched, every pixel
/// opaque except the selection, whose alpha drops to 100.
pub open spec fn masked(bytes: Seq<u8>, width: int, area: Area) -> Seq<u8> {
    Seq::new(
        bytes.len(),
        |i: int|
            if i % 4 != 3 {
                bytes[i]
            } else if width > 0 && in_area(area, byte_pixel(width, i)) {
                100u8
            } else {
                255u8
            },
    )
}

/// The byte of the source buffer that byte `i` of the cropped buffer reads
/// from: the same channel of the source pixel the area maps it to.
pub open spec fn crop_src_byte(width: int, area: Area, i: int) -> int {
    let p = byte_pixel(area.width as int, i);
    4 * ((p.1 + area.left_corner.1) * width + (p.0 + area.left_corner.0)) + i % 4
}

/// The crop of a buffer to an area: a row-major copy of the area's pixels,
/// each forced opaque.
pub open spec fn cropped(bytes: Seq<u8>, width: int, area: Area) -> Seq<u8> {
    Seq::new(
        (4 * area.width * area.height) as nat,
        |i: int|
            if i % 4 == 3 {
                255u8
            } else {
                bytes[crop_src_byte(width, area, i)]
            },
    )
}

/// The key in the source image's undo map that a key of the cropped image
/// translates from.
pub open spec fn crop_src_key(width: int, area: Area, k: usize) -> usize {
    let p = key_pt(area.width as int, k);
    pix_key(
        width,
        (((p.0 + area.left_corner.0) as usize), ((p.1 + area.left_corner.1) as usize)),
    )
}

/// The undo map translated onto the cropped image: every recorded pixel
/// inside the area keeps its colour under its translated key; entries
/// outside the area are dropped.
pub open spec fn cropped_map(m: Map<usize, u32>, width: int, area: Area) -> Map<usize, u32> {
    Map::new(
        |k: usize| k < area.width * area.height && m.contains_key(crop_src_key(width, area, k)),
        |k: usize| m[crop_src_key(width, area, k)],
    )
}

/// Resets every pixel opaque, removing the highlight mask.
#[verifier::loop_isolation(false)]
pub fn clear_highlight(pixels: Vec<u8>) -> (res: Vec<u8>)
    requires
        pixels@.len() % 4 == 0,
    ensures
        res@ == opaqued(pixels@),
{
    let ghost b0 = pixels@;
    let mut pixels = pixels;
    let quarter = pixels.len() / 4;
    proof {
        vstd::std_specs::vec::axiom_spec_len(&pixels);
        vstd::arithmetic::div_mod::lemma_fundamental_div_mod(b0.len() as int, 4);
        assert(b0.len() == 4 * quarter);
    }
    let mut k: usize = 0;
    while k < quarter
        invariant
            0 <= k <= quarter,
            pixels@.len() == b0.len(),
            forall|j: int|
                0 <= j < b0.len() ==> pixels@[j] == (if j % 4 == 3 && j < 4 * k {
                    255u8
                } else {
                    b0[j]
                }),
        decreases quarter - k,
    {
        pixels.set(4 * k + 3, 255);
        proof {
            vstd::arithmetic::div_mod::lemma_fundamental_div_mod_converse_mod(
                4 * (k as int) + 3,
                4,
                k as int,
                3,
            );
            assert forall|j: int| 0 <= j < b0.len() implies pixels@[j] == (if j % 4 == 3 && j < 4
                * (k as int) + 4 {
                255u8
            } else {
                b0[j]
            }) by {
                vstd::arithmetic::div_mod::lemma_fundamental_div_mod(j, 4);
                vstd::arithmetic::div_mod::lemma_mod_division_less_than_divisor(j, 4);
            }
        }
        k = k + 1;
    }
    proof {
        assert(pixels@ =~= opaqued(b0));
    }
    pixels
}

/// Darkens the selected area for preview: every pixel turns opaque and the
/// selection's alpha drops to 100, so the chosen region shows through the
/// mask.
#[verifier::loop_isolation(false)]
#[verifier::rlimit(50)]
pub fn highlight_mask(pixels: Vec<u8>, width: usize, height: usize, area: &Area) -> (res: Vec<u8>)
    requires
        pixels@.len() == 4 * width * height,
        area.left_corner.0 + area.width <= width,
        area.left_corner.1 + area.height <= height,
    ensures
        res@ == masked(pixels@, width as int, *area),
{
    let ghost b0 = pixels@;
    proof {
        vstd::std_specs::vec::axiom_spec_len(&pixels);
        assert(width * height <= usize::MAX && 4 * (width * height) == 4 * width * height)
            by (nonlinear_arith)
            requires
                4 * width * height <= usize::MAX,
        ;
        vstd::arithmetic::mul::lemma_mul_is_commutative(4, (width as int) * (height as int));
        vstd::arithmetic::div_mod::lemma_fundamental_div_mod_converse_mod(
            4 * ((width as int) * (height as int)),
            4,
            (width as int) * (height as int),
            0,
        );
    }
    let mut pixels = clear_highlight(pixels);

    let w2 = area.width as usize;
    let h2 = area.height as usize;
    let off_x = area.left_corner.0 as usize;
    let off_y = area.left_corner.1 as usize;

    let mut r: usize = 0;
    while r < h2
        invariant
            0 <= r <= h2,
            pixels@.len() == b0.len(),
            forall|j: int| 0 <= j < b0.len() && j % 4 != 3 ==> pixels@[j] == b0[j],
            forall|j: int|
                0 <= j < b0.len() && j % 4 == 3 ==> pixels@[j] == (if in_area(
                    *area,
                    byte_pixel(width as int, j),
                ) && byte_pixel(width as int, j).1 < off_y + r {
                    100u8
                } else {
                    255u8
                }),
        decreases h2 - r,
    {
        let mut c: usize = 0;
        while c < w2
            invariant
                0 <= c <= w2,
                0 <= r < h2,
                pixels@.len() == b0.len(),
                forall|j: int| 0 <= j < b0.len() && j % 4 != 3 ==> pixels@[j] == b0[j],
                forall|j: int|
                    0 <= j < b0.len() && j % 4 == 3 ==> pixels@[j] == (if in_area(
                        *area,
                        byte_pixel(width as int, j),
                    ) && (byte_pixel(width as int, j).1 < off_y + r || (byte_pixel(
                        width as int,
                        j,
                    ).1 == off_y + r && byte_pixel(width as int, j).0 < off_x + c)) {
                        100u8
                    } else {
                        255u8
                    }),
            decreases w2 - c,
        {
            let x = off_x + c;
            let y = off_y + r;
            proof {
                lemma_key_bound(width as int, height as int, x as int, y as int);
                lemma_key_inverse(width as int, x as int, y as int);
            }
            let k = y * width + x;
            proof {
                vstd::arithmetic::div_mod::lemma_fundamental_div_mod_converse_div(
                    4 * (k as int) + 3,
                    4,
                    k as int,
                    3,
                );
                vstd::arithmetic::div_mod::lemma_fundamental_div_mod_converse_mod(
                    4 * (k as int) + 3,
                    4,
                    k as int,
                    3,
                );
                lemma_byte_pixel_eq(width as int, height as int, 4 * (k as int) + 3, (x, y));
                assert(byte_pixel(width as int, 4 * (k as int) + 3) == (x, y));
            }
            pixels.set(4 * k + 3, 100);
            proof {
                assert forall|j: int| 0 <= j < b0.len() && j % 4 == 3 implies pixels@[j] == (
                if in_area(*area, byte_pixel(width as int, j)) && (byte_pixel(
                    width as int,
                    j,
                ).1 < off_y + r || (byte_pixel(width as int, j).1 == off_y + r && byte_pixel(
                    width as int,
                    j,
                ).0 < off_x + c + 1)) {
                    100u8
                } else {
                    255u8
                }) by {
                    lemma_byte_pixel_eq(width as int, height as int, j, (x, y));
                    vstd::arithmetic::div_mod::lemma_fundamental_div_mod(j, 4);
                    if byte_pixel(width as int, j) == (x, y) {
                        assert(j == 4 * (k as int) + 3);
                    }
                }
            }
            c = c + 1;
        }
        r = r + 1;
    }
    proof {
        assert(pixels@ =~= masked(b0, width as int, *area));
    }
    pixels
}

/// Cuts the selected area out of the buffer: a row-major copy of its pixels
/// with every alpha byte forced opaque, sized `area.width` by `area.height`.
#[verifier::loop_isolation(false)]
#[verifier::rlimit(50)]
pub fn crop_img(pixels: &Vec<u8>, width: usize, height: usize, area: &Area) -> (res: Vec<u8>)
    requires
        pixels@.len() == 4 * width * height,
        area.left_corner.0 + area.width <= width,
        area.left_corner.1 + area.height <= height,
    ensures
        res@ == cropped(pixels@, width as int, *area),
{
    let w2 = area.width as usize;
    let h2 = area.height as usize;
    let off_x = area.left_corner.0 as usize;
    let off_y = area.left_corner.1 as usize;
    proof {
        vstd::std_specs::vec::axiom_spec_len(pixels);
        vstd::arithmetic::mul::lemma_mul_is_associative(4, width as int, height as int);
        assert(width * height <= usize::MAX && (w2 as int) * (h2 as int) <= (width as int) * (
        height as int)) by (nonlinear_arith)
            requires
                4 * width * height <= usize::MAX,
                0 <= w2 <= width,
                0 <= h2 <= height,
        ;
        vstd::arithmetic::mul::lemma_mul_is_associative(4, w2 as int, h2 as int);
    }

    let mut out: Vec<u8> = Vec::new();
    let mut r: usize = 0;
    while r < h2
        invariant
            0 <= r <= h2,
            out@.len() == 4 * (r * w2),
            r * w2 <= w2 * h2,
            forall|i: int| 0 <= i < out@.len() ==> out@[i] == cropped(pixels@, width as int, *area)[i],
        decreases h2 - r,
    {
        let mut c: usize = 0;
        while c < w2
            invariant
                0 <= c <= w2,
                0 <= r < h2,
                out@.len() == 4 * (r * w2 + c),
                r * w2 + c <= w2 * h2,
                forall|i: int|
                    0 <= i < out@.len() ==> out@[i] == cropped(pixels@, width as int, *area)[i],
            decreases w2 - c,
        {
            proof {
                lemma_key_bound(w2 as int, h2 as int, c as int, r as int);
                lemma_key_inverse(w2 as int, c as int, r as int);
                lemma_key_bound(
                    width as int,
                    height as int,
                    (c + off_x) as int,
                    (r + off_y) as int,
                );
            }
            let m = r * w2 + c;
            let src = 4 * ((r + off_y) * width + (c + off_x));
            proof {
                vstd::arithmetic::div_mod::lemma_div_multiples_vanish(m as int, 4);
                vstd::arithmetic::div_mod::lemma_fundamental_div_mod_converse_div(
                    4 * (m as int) + 1, 4, m as int, 1);
                vstd::arithmetic::div_mod::lemma_fundamental_div_mod_converse_div(
                    4 * (m as int) + 2, 4, m as int, 2);
                vstd::arithmetic::div_mod::lemma_fundamental_div_mod_converse_div(
                    4 * (m as int) + 3, 4, m as int, 3);
                vstd::arithmetic::div_mod::lemma_fundamental_div_mod_converse_mod(
                    4 * (m as int), 4, m as int, 0);
                vstd::arithmetic::div_mod::lemma_fundamental_div_mod_converse_mod(
                    4 * (m as int) + 1, 4, m as int, 1);
                vstd::arithmetic::div_mod::lemma_fundamental_div_mod_converse_mod(
                    4 * (m as int) + 2, 4, m as int, 2);
                vstd::arithmetic::div_mod::lemma_fundamental_div_mod_converse_mod(
                    4 * (m as int) + 3, 4, m as int, 3);
                assert(byte_pixel(w2 as int, 4 * (m as int)) == (c, r));
                assert(byte_pixel(w2 as int, 4 * (m as int) + 1) == (c, r));
                assert(byte_pixel(w2 as int, 4 * (m as int) + 2) == (c, r));
                assert(byte_pixel(w2 as int, 4 * (m as int) + 3) == (c, r));
            }
            out.push(pixels[src]);
            out.push(pixels[src + 1]);
            out.push(pixels[src + 2]);
            out.push(255);
            c = c + 1;
        }
        proof {
            assert((r as int + 1) * (w2 as int) == (r as int) * (w2 as int) + w2 as int)
                by (nonlinear_arith);
        }
        r = r + 1;
    }
    proof {
        assert((h2 as int) * (w2 as int) == (w2 as int) * (h2 as int)) by (nonlinear_arith);
        assert(out@ =~= cropped(pixels@, width as int, *area));
    }
    out
}

impl Canvas {
    /// Rebuilds the undo history for a cropped image: every recorded pixel
    /// inside the area keeps its pre-edit colour under its translated key,
    /// the rest are dropped, so erasing keeps working after a crop. The
    /// dimensions are those of the source image, whose pixels the old keys
    /// index, so their product must fit the key type.
    #[verifier::loop_isolation(false)]
    #[verifier::rlimit(50)]
    pub fn crop_history(&mut self, width: usize, height: usize, area: &Area)
        requires
            width * height <= usize::MAX,
            area.left_corner.0 + area.width <= width,
            area.left_corner.1 + area.height <= height,
        ensures
            final(self).modified_pixel@ == cropped_map(
                old(self).modified_pixel@,
                width as int,
                *area,
            ),
            final(self).same_tool(*old(self)),
    {
        let ghost m0 = self.modified_pixel@;
        let w2 = area.width as usize;
        let h2 = area.height as usize;
        let off_x = area.left_corner.0 as usize;
        let off_y = area.left_corner.1 as usize;
        proof {
            assert((w2 as int) * (h2 as int) <= (width as int) * (height as int))
                by (nonlinear_arith)
                requires
                    0 <= w2 <= width,
                    0 <= h2 <= height,
            ;
        }

        let mut fresh: HashMap<usize, u32> = HashMap::new();
        let mut r: usize = 0;
        while r < h2
            invariant
                0 <= r <= h2,
                self.modified_pixel@ == m0,
                self.same_tool(*old(self)),
                forall|k: usize| #[trigger]
                    fresh@.contains_key(k) <==> (k < w2 * h2 && key_pt(w2 as int, k).1 < r
                        && m0.contains_key(crop_src_key(width as int, *area, k))),
                forall|k: usize|
                    fresh@.contains_key(k) ==> fresh@[k] == m0[crop_src_key(width as int, *area, k)],
            decreases h2 - r,
        {
            let mut c: usize = 0;
            while c < w2
                invariant
                    0 <= c <= w2,
                    0 <= r < h2,
                    self.modified_pixel@ == m0,
                    self.same_tool(*old(self)),
                    forall|k: usize| #[trigger]
                        fresh@.contains_key(k) <==> (k < w2 * h2 && (key_pt(w2 as int, k).1 < r || (
                        key_pt(w2 as int, k).1 == r && key_pt(w2 as int, k).0 < c))
                            && m0.contains_key(crop_src_key(width as int, *area, k))),
                    forall|k: usize|
                        fresh@.contains_key(k) ==> fresh@[k] == m0[crop_src_key(
                            width as int,
                            *area,
                            k,
                        )],
                decreases w2 - c,
            {
                proof {
                    lemma_key_bound(w2 as int, h2 as int, c as int, r as int);
                    lemma_key_pt_inverse(w2 as int, h2 as int, (c, r));
                    lemma_key_bound(
                        width as int,
                        height as int,
                        (c + off_x) as int,
                        (r + off_y) as int,
                    );
                    lemma_key_inverse(width as int, (c + off_x) as int, (r + off_y) as int);
                }
                let old_key = (r + off_y) * width + (c + off_x);
                let new_key = r * w2 + c;
                proof {
                    assert(key_pt(w2 as int, new_key) == (c, r));
                    assert(crop_src_key(width as int, *area, new_key) == old_key);
                }
                let recorded = match self.modified_pixel.get(&old_key) {
                    Some(v) => Some(*v),
                    Option::None => Option::None,
                };
                match recorded {
                    Some(v) => {
                        fresh.insert(new_key, v);
                    },
                    Option::None => {},
                }
                proof {
                    assert forall|k: usize| #[trigger] fresh@.contains_key(k) <==> (k < w2 * h2 && (
                    key_pt(w2 as int, k).1 < r || (key_pt(w2 as int, k).1 == r && key_pt(
                        w2 as int,
                        k,
                    ).0 < c + 1)) && m0.contains_key(crop_src_key(width as int, *area, k))) by {
                        if k != new_key && k < w2 * h2 {
                            assert(key_pt(w2 as int, k) != (c, r));
                        }
                    }
                }
                c = c + 1;
            }
            r = r + 1;
        }
        self.modified_pixel = fresh;
        proof {
            assert forall|k: usize| #[trigger] self.modified_pixel@.contains_key(k)
                <==> cropped_map(m0, width as int, *area).contains_key(k) by {
                if k < w2 * h2 {
                    assert(w2 >= 1 && h2 >= 1) by (nonlinear_arith)
                        requires
                            k < w2 * h2,
                            0 <= w2,
                            0 <= h2,
                    ;
                    lemma_key_pt_bounds(w2 as int, h2 as int, k);
                }
            }
            assert(self.modified_pixel@ =~= cropped_map(m0, width as int, *area));
        }
    }
}

} // verus!
