//! Area calculator: normalizes two arbitrary corner points into a clamped
//! rectangular sub-region of a surface of known size.
//!
//! One routine serves two callers — the capture rectangle for a cropped
//! screenshot and the highlight rectangle over an already-captured image — so
//! both see identical clamping and ordering semantics.

use vstd::prelude::*;

verus! {

/// A clamped, normalized rectangular sub-region of a surface, given by its
/// top-left corner and its dimensions.
#[derive(Clone, Copy, Debug, PartialEq, Eq)]
pub struct Area {
    pub left_corner: (u32, u32),
    pub width: u32,
    pub height: u32,
}

impl Area {
    /// The area designates pixels of a `sw` by `sh` surface only.
    pub open spec fn fits(self, sw: u32, sh: u32) -> bool {
        &&& self.left_corner.0 + self.width <= sw
        &&& self.left_corner.1 + self.height <= sh
    }

    /// The empty area anchored at the origin.
    pub fn new() -> (a: Area)
        ensures
            a.left_corner == (0u32, 0u32),
            a.width == 0,
            a.height == 0,
    {
        Area { left_corner: (0, 0), width: 0, height: 0 }
    }
}

/// A coordinate pulled to the nearest edge of the range `0..=max`.
pub open spec fn clamped(v: i32, max: u32) -> u32 {
    if v < 0 {
        0
    } else if v > max {
        max
    } else {
        v as u32
    }
}

fn clamp_to(v: i32, max: u32) -> (r: u32)
    ensures
        r == clamped(v, max),
{
    if v < 0 {
        0
    } else {
        let u = v as u32;
        if u > max {
            max
        } else {
            u
        }
    }
}

/// The area that a drag from `start` to `end` selects on a `sw` by `sh`
/// surface: both corners are clamped onto the surface, then ordered.
pub open spec fn selected_area(sw: u32, sh: u32, start: (i32, i32), end: (i32, i32)) -> Area {
    let sx = clamped(start.0, sw);
    let ex = clamped(end.0, sw);
    let sy = clamped(start.1, sh);
    let ey = clamped(end.1, sh);
    Area {
        left_corner: (if sx <= ex { sx } else { ex }, if sy <= ey { sy } else { ey }),
        width: if sx <= ex { (ex - sx) as u32 } else { (sx - ex) as u32 },
        height: if sy <= ey { (ey - sy) as u32 } else { (sy - ey) as u32 },
    }
}

/// Computes the screenshot or crop area selected by a drag from
/// `start_coords` to `end_coords`.
///
/// Each coordinate is clamped independently onto the surface — points outside
/// are pulled to the nearest edge, never rejected — and the two corners are
/// then ordered, so the drag may run in any direction. A degenerate drag,
/// whose clamped corners coincide, selects nothing and yields `None`; the
/// caller must treat that as "no valid selection". Any other drag yields the
/// selected area, which always designates pixels of the surface:
/// `left_corner.0 + width <= screen.0` and `left_corner.1 + height <=
/// screen.1`.
pub fn calculate_area(
    screen: (u32, u32),
    start_coords: (i32, i32),
    end_coords: (i32, i32),
) -> (r: Option<Area>)
    ensures
        ({
            let a = selected_area(screen.0, screen.1, start_coords, end_coords);
            if a.width == 0 && a.height == 0 {
                r is None
            } else {
                r == Some(a)
            }
        }),
        r matches Some(a) ==> a.fits(screen.0, screen.1),
{
    let (screen_width, screen_height) = screen;
    let sx = clamp_to(start_coords.0, screen_width);
    let ex = clamp_to(end_coords.0, screen_width);
    let sy = clamp_to(start_coords.1, screen_height);
    let ey = clamp_to(end_coords.1, screen_height);

    // a zero-size drag is no valid selection
    if sx == ex && sy == ey {
        return None;
    }

    let mut left_corner: (u32, u32) = (0, 0);
    let width: u32;
    let height: u32;

    // from right to left
    if sx > ex {
        left_corner.0 = ex;
        width = sx - ex;
    } else {
        left_corner.0 = sx;
        width = ex - sx;
    }

    // from bottom to top
    if sy > ey {
        left_corner.1 = ey;
        height = sy - ey;
    } else {
        left_corner.1 = sy;
        height = ey - sy;
    }

    Some(Area { left_corner, width, height })
}

} // verus!
