//! Shape rasterizer: pure functions mapping a geometric primitive, a
//! thickness and a fill flag to the set of integer pixel coordinates the
//! shape occupies.
//!
//! Every function returns a duplicate-free vector of coordinates together
//! with an exact membership characterization, so later compositing steps
//! never double-paint or double-restore a pixel.

use vstd::prelude::*;

verus! {

broadcast use vstd::seq_lib::lemma_seq_contains_after_push;

/// Upper bound on corner coordinates and thickness accepted by the
/// rasterizer. It keeps every intermediate product (squared distances,
/// slope numerators) within the range of a 32-bit `usize`, so the code is
/// correct on any machine word size.
pub const MAX_COORD: usize = 16384;

/// The smaller of two coordinates.
pub open spec fn lo(a: usize, b: usize) -> usize {
    if a <= b {
        a
    } else {
        b
    }
}

/// The larger of two coordinates.
pub open spec fn hi(a: usize, b: usize) -> usize {
    if a <= b {
        b
    } else {
        a
    }
}

proof fn lemma_push_keeps_no_dup<A>(s: Seq<A>, e: A)
    requires
        s.no_duplicates(),
        !s.contains(e),
    ensures
        s.push(e).no_duplicates(),
{
    let t = s.push(e);
    assert forall|i: int, j: int|
        0 <= i < t.len() && 0 <= j < t.len() && i != j implies t[i] != t[j] by {
        if i < s.len() && j < s.len() {
        } else if j == s.len() {
            assert(s.contains(s[i]));
        } else {
            assert(s.contains(s[j]));
        }
    }
}

/// Membership in the outline of the rectangle dragged from `start` to `end`:
/// the points of the bounding box within `thickness` of one of its four
/// edges.
pub open spec fn rect_outline_member(
    start: (usize, usize),
    end: (usize, usize),
    thickness: usize,
    p: (usize, usize),
) -> bool {
    let x0 = lo(start.0, end.0);
    let x1 = hi(start.0, end.0);
    let y0 = lo(start.1, end.1);
    let y1 = hi(start.1, end.1);
    &&& x0 <= p.0 <= x1
    &&& y0 <= p.1 <= y1
    &&& (p.1 < y0 + thickness || p.1 + thickness > y1 || p.0 < x0 + thickness || p.0 + thickness
        > x1)
}

/// The outline of the rectangle dragged from `start` to `end`, as a set.
pub open spec fn rect_outline_set(
    start: (usize, usize),
    end: (usize, usize),
    thickness: usize,
) -> Set<(usize, usize)> {
    Set::new(|p: (usize, usize)| rect_outline_member(start, end, thickness, p))
}

/// Membership in the filled rectangle dragged from `start` to `end`: every
/// point of the bounding box.
pub open spec fn rect_fill_member(start: (usize, usize), end: (usize, usize), p: (usize, usize)) -> bool {
    &&& lo(start.0, end.0) <= p.0 <= hi(start.0, end.0)
    &&& lo(start.1, end.1) <= p.1 <= hi(start.1, end.1)
}

/// The filled rectangle dragged from `start` to `end`, as a set.
pub open spec fn rect_fill_set(start: (usize, usize), end: (usize, usize)) -> Set<(usize, usize)> {
    Set::new(|p: (usize, usize)| rect_fill_member(start, end, p))
}

/// Pixel coordinates of an outlined rectangle: the points of the bounding
/// box of `start` and `end` lying within `thickness` of one of the four
/// edges. Corner points satisfying several edge bands appear once.
#[verifier::loop_isolation(false)]
pub fn generate_empty_rectangle_coordinates(
    start: (usize, usize),
    end: (usize, usize),
    thickness: usize,
) -> (res: Vec<(usize, usize)>)
    requires
        start.0 < MAX_COORD && start.1 < MAX_COORD && end.0 < MAX_COORD && end.1 < MAX_COORD,
    ensures
        res@.no_duplicates(),
        forall|p: (usize, usize)| #[trigger]
            res@.contains(p) <==> rect_outline_member(start, end, thickness, p),
{
    let x0 = if start.0 <= end.0 { start.0 } else { end.0 };
    let x1 = if start.0 <= end.0 { end.0 } else { start.0 };
    let y0 = if start.1 <= end.1 { start.1 } else { end.1 };
    let y1 = if start.1 <= end.1 { end.1 } else { start.1 };

    let mut filled_pixels: Vec<(usize, usize)> = Vec::new();

    let mut y = y0;
    while y <= y1
        invariant
            y0 <= y,
            y <= y1 + 1,
            filled_pixels@.no_duplicates(),
            forall|p: (usize, usize)| #[trigger]
                filled_pixels@.contains(p) <==> rect_outline_member(start, end, thickness, p)
                    && p.1 < y,
        decreases y1 + 1 - y,
    {
        let mut x = x0;
        while x <= x1
            invariant
                x0 <= x,
                x <= x1 + 1,
                y0 <= y <= y1,
                filled_pixels@.no_duplicates(),
                forall|p: (usize, usize)| #[trigger]
                    filled_pixels@.contains(p) <==> rect_outline_member(start, end, thickness, p)
                        && (p.1 < y || (p.1 == y && p.0 < x)),
            decreases x1 + 1 - x,
        {
            if y - y0 < thickness || y1 - y < thickness || x - x0 < thickness || x1 - x
                < thickness {
                proof {
                    lemma_push_keeps_no_dup(filled_pixels@, (x, y));
                }
                filled_pixels.push((x, y));
            }
            x = x + 1;
        }
        y = y + 1;
    }

    filled_pixels
}

/// Pixel coordinates of a filled rectangle: every point of the bounding box
/// of `start` and `end`.
#[verifier::loop_isolation(false)]
pub fn generate_fill_rectangle_coordinates(start: (usize, usize), end: (usize, usize)) -> (res: Vec<
    (usize, usize),
>)
    requires
        start.0 < MAX_COORD && start.1 < MAX_COORD && end.0 < MAX_COORD && end.1 < MAX_COORD,
    ensures
        res@.no_duplicates(),
        forall|p: (usize, usize)| #[trigger] res@.contains(p) <==> rect_fill_member(start, end, p),
{
    let x0 = if start.0 <= end.0 { start.0 } else { end.0 };
    let x1 = if start.0 <= end.0 { end.0 } else { start.0 };
    let y0 = if start.1 <= end.1 { start.1 } else { end.1 };
    let y1 = if start.1 <= end.1 { end.1 } else { start.1 };

    let mut filled_pixels: Vec<(usize, usize)> = Vec::new();

    let mut y = y0;
    while y <= y1
        invariant
            y0 <= y,
            y <= y1 + 1,
            filled_pixels@.no_duplicates(),
            forall|p: (usize, usize)| #[trigger]
                filled_pixels@.contains(p) <==> rect_fill_member(start, end, p) && p.1 < y,
        decreases y1 + 1 - y,
    {
        let mut x = x0;
        while x <= x1
            invariant
                x0 <= x,
                x <= x1 + 1,
                y0 <= y <= y1,
                filled_pixels@.no_duplicates(),
                forall|p: (usize, usize)| #[trigger]
                    filled_pixels@.contains(p) <==> rect_fill_member(start, end, p) && (p.1 < y || (
                    p.1 == y && p.0 < x)),
            decreases x1 + 1 - x,
        {
            proof {
                lemma_push_keeps_no_dup(filled_pixels@, (x, y));
            }
            filled_pixels.push((x, y));
            x = x + 1;
        }
        y = y + 1;
    }

    filled_pixels
}

/// The side of the square bounding box a circle drag is forced onto: the
/// larger of the two drag extents.
pub open spec fn circle_side(start: (usize, usize), end: (usize, usize)) -> int {
    let dx = hi(start.0, end.0) - lo(start.0, end.0);
    let dy = hi(start.1, end.1) - lo(start.1, end.1);
    if dx < dy {
        dy as int
    } else {
        dx as int
    }
}

/// Squared Euclidean distance between `(cx, cy)` and `(x, y)`.
///
/// The rasterized circles keep a point when the distance to the centre,
/// rounded up, falls in a given range. For integers `d2 >= 0` and `k`, that
/// rounded distance obeys `ceil(sqrt(d2)) <= k <==> d2 <= k * k` and
/// `ceil(sqrt(d2)) >= k <==> k <= 0 || d2 > (k - 1) * (k - 1)`, so membership
/// is characterized exactly without leaving the integers.
pub open spec fn dist2(cx: int, cy: int, x: int, y: int) -> int {
    (cx - x) * (cx - x) + (cy - y) * (cy - y)
}

/// Membership in the filled circle dragged from `start` to `end`: the points
/// of the squared bounding box whose rounded-up distance to the centre is at
/// most the radius (half the square's side).
pub open spec fn circle_fill_member(start: (usize, usize), end: (usize, usize), p: (usize, usize)) -> bool {
    let x0 = lo(start.0, end.0) as int;
    let y0 = lo(start.1, end.1) as int;
    let s = circle_side(start, end);
    let cx = x0 + s / 2;
    let cy = y0 + s / 2;
    let r = s / 2;
    &&& x0 <= p.0 <= x0 + s
    &&& y0 <= p.1 <= y0 + s
    &&& dist2(cx, cy, p.0 as int, p.1 as int) <= r * r
}

/// Membership in the ring of the circle dragged from `start` to `end`: the
/// points of the squared bounding box whose rounded-up distance to the centre
/// lies between `radius - thickness` and `radius`. The radius is half the
/// square's side, floored at `thickness` so very small drags still render a
/// visible ring.
pub open spec fn circle_outline_member(
    start: (usize, usize),
    end: (usize, usize),
    thickness: usize,
    p: (usize, usize),
) -> bool {
    let x0 = lo(start.0, end.0) as int;
    let y0 = lo(start.1, end.1) as int;
    let s = circle_side(start, end);
    let cx = x0 + s / 2;
    let cy = y0 + s / 2;
    let r = if s / 2 < thickness {
        thickness as int
    } else {
        s / 2
    };
    let inner = r - thickness;
    &&& x0 <= p.0 <= x0 + s
    &&& y0 <= p.1 <= y0 + s
    &&& dist2(cx, cy, p.0 as int, p.1 as int) <= r * r
    &&& (inner <= 0 || dist2(cx, cy, p.0 as int, p.1 as int) > (inner - 1) * (inner - 1))
}

proof fn lemma_sq_monotone(a: int, b: int)
    requires
        0 <= a <= b,
    ensures
        a * a <= b * b,
{
    assert(a * a <= b * b) by (nonlinear_arith)
        requires
            0 <= a <= b,
    ;
}

proof fn lemma_abs_sq(a: int, b: int)
    requires
        b == if a >= 0 {
            a
        } else {
            -a
        },
    ensures
        a * a == b * b,
{
    assert(a * a == b * b) by (nonlinear_arith)
        requires
            b == if a >= 0 {
                a
            } else {
                -a
            },
    ;
}

/// Squared distance from the centre `(cx, cy)`, computed in `usize`.
#[verifier::loop_isolation(false)]
fn squared_distance(cx: usize, cy: usize, x: usize, y: usize) -> (d2: usize)
    requires
        cx < 2 * MAX_COORD,
        cy < 2 * MAX_COORD,
        x < 2 * MAX_COORD,
        y < 2 * MAX_COORD,
    ensures
        d2 == dist2(cx as int, cy as int, x as int, y as int),
{
    let adx = if cx >= x {
        cx - x
    } else {
        x - cx
    };
    let ady = if cy >= y {
        cy - y
    } else {
        y - cy
    };
    proof {
        lemma_sq_monotone(adx as int, 2 * MAX_COORD as int);
        lemma_sq_monotone(ady as int, 2 * MAX_COORD as int);
        lemma_abs_sq(cx - x, adx as int);
        lemma_abs_sq(cy - y, ady as int);
    }
    adx * adx + ady * ady
}

/// Pixel coordinates of a circle outline. The bounding box of `start` and
/// `end` is forced square by extending the shorter side, so a dragged
/// rectangle always yields a true circle biased toward the larger dimension.
#[verifier::loop_isolation(false)]
#[verifier::rlimit(100)]
pub fn generate_empty_circle_coordinates(
    start: (usize, usize),
    end: (usize, usize),
    thickness: usize,
) -> (res: Vec<(usize, usize)>)
    requires
        start.0 < MAX_COORD && start.1 < MAX_COORD && end.0 < MAX_COORD && end.1 < MAX_COORD,
        thickness < MAX_COORD,
    ensures
        res@.no_duplicates(),
        forall|p: (usize, usize)| #[trigger]
            res@.contains(p) <==> circle_outline_member(start, end, thickness, p),
{
    let x0 = if start.0 <= end.0 { start.0 } else { end.0 };
    let mut x1 = if start.0 <= end.0 { end.0 } else { start.0 };
    let y0 = if start.1 <= end.1 { start.1 } else { end.1 };
    let mut y1 = if start.1 <= end.1 { end.1 } else { start.1 };

    // Force the bounding box square, anchored at the fixed corner.
    if x1 - x0 < y1 - y0 {
        x1 = x1 + ((y1 - y0) - (x1 - x0));
    } else {
        y1 = y1 + ((x1 - x0) - (y1 - y0));
    }

    let center = ((x0 + x1) / 2, (y0 + y1) / 2);
    let mut radius = (x1 - x0) / 2;
    if radius < thickness {
        radius = thickness;
    }
    let inner = radius - thickness;

    // the ring condition over the computed frame, equal to the contract's
    // membership predicate
    let ghost ring = |p: (usize, usize)|
        {
            &&& x0 <= p.0 <= x1
            &&& y0 <= p.1 <= y1
            &&& dist2(center.0 as int, center.1 as int, p.0 as int, p.1 as int) <= (radius as int)
                * (radius as int)
            &&& (inner == 0 || dist2(center.0 as int, center.1 as int, p.0 as int, p.1 as int) > (
            inner as int - 1) * (inner as int - 1))
        };
    proof {
        lemma_sq_monotone(radius as int, MAX_COORD as int);
        if inner >= 1 {
            lemma_sq_monotone((inner - 1) as int, MAX_COORD as int);
        }
        assert forall|p: (usize, usize)|
            #[trigger] ring(p) == circle_outline_member(start, end, thickness, p) by {}
    }

    let mut filled_pixels: Vec<(usize, usize)> = Vec::new();

    let mut x = x0;
    while x <= x1
        invariant
            x0 <= x,
            x <= x1 + 1,
            filled_pixels@.no_duplicates(),
            forall|p: (usize, usize)| #[trigger]
                filled_pixels@.contains(p) <==> ring(p) && p.0 < x,
        decreases x1 + 1 - x,
    {
        let mut y = y0;
        while y <= y1
            invariant
                y0 <= y,
                y <= y1 + 1,
                x0 <= x <= x1,
                filled_pixels@.no_duplicates(),
                forall|p: (usize, usize)| #[trigger]
                    filled_pixels@.contains(p) <==> ring(p) && (p.0 < x || (p.0 == x && p.1 < y)),
            decreases y1 + 1 - y,
        {
            let d2 = squared_distance(center.0, center.1, x, y);
            if d2 <= radius * radius && (inner == 0 || d2 > (inner - 1) * (inner - 1)) {
                proof {
                    lemma_push_keeps_no_dup(filled_pixels@, (x, y));
                }
                filled_pixels.push((x, y));
            }
            y = y + 1;
        }
        x = x + 1;
    }
    proof {
        assert forall|p: (usize, usize)| #[trigger]
            filled_pixels@.contains(p) <==> circle_outline_member(start, end, thickness, p) by {
            assert(filled_pixels@.contains(p) <==> ring(p) && p.0 < x1 + 1);
        }
    }

    filled_pixels
}

/// Pixel coordinates of a filled circle over the squared bounding box of
/// `start` and `end`.
#[verifier::loop_isolation(false)]
#[verifier::rlimit(50)]
pub fn generate_fill_circle_coordinates(start: (usize, usize), end: (usize, usize)) -> (res: Vec<
    (usize, usize),
>)
    requires
        start.0 < MAX_COORD && start.1 < MAX_COORD && end.0 < MAX_COORD && end.1 < MAX_COORD,
    ensures
        res@.no_duplicates(),
        forall|p: (usize, usize)| #[trigger] res@.contains(p) <==> circle_fill_member(start, end, p),
{
    let x0 = if start.0 <= end.0 { start.0 } else { end.0 };
    let mut x1 = if start.0 <= end.0 { end.0 } else { start.0 };
    let y0 = if start.1 <= end.1 { start.1 } else { end.1 };
    let mut y1 = if start.1 <= end.1 { end.1 } else { start.1 };

    // Force the bounding box square, anchored at the fixed corner.
    if x1 - x0 < y1 - y0 {
        x1 = x1 + ((y1 - y0) - (x1 - x0));
    } else {
        y1 = y1 + ((x1 - x0) - (y1 - y0));
    }

    let center = ((x0 + x1) / 2, (y0 + y1) / 2);
    let radius = (x1 - x0) / 2;

    // the disc condition over the computed frame, equal to the contract's
    // membership predicate
    let ghost disc = |p: (usize, usize)|
        {
            &&& x0 <= p.0 <= x1
            &&& y0 <= p.1 <= y1
            &&& dist2(center.0 as int, center.1 as int, p.0 as int, p.1 as int) <= (radius as int)
                * (radius as int)
        };
    proof {
        lemma_sq_monotone(radius as int, MAX_COORD as int);
        assert forall|p: (usize, usize)|
            #[trigger] disc(p) == circle_fill_member(start, end, p) by {}
    }

    let mut filled_pixels: Vec<(usize, usize)> = Vec::new();

    let mut x = x0;
    while x <= x1
        invariant
            x0 <= x,
            x <= x1 + 1,
            filled_pixels@.no_duplicates(),
            forall|p: (usize, usize)| #[trigger]
                filled_pixels@.contains(p) <==> disc(p) && p.0 < x,
        decreases x1 + 1 - x,
    {
        let mut y = y0;
        while y <= y1
            invariant
                y0 <= y,
                y <= y1 + 1,
                x0 <= x <= x1,
                filled_pixels@.no_duplicates(),
                forall|p: (usize, usize)| #[trigger]
                    filled_pixels@.contains(p) <==> disc(p) && (p.0 < x || (p.0 == x && p.1 < y)),
            decreases y1 + 1 - y,
        {
            let d2 = squared_distance(center.0, center.1, x, y);
            if d2 <= radius * radius {
                proof {
                    lemma_push_keeps_no_dup(filled_pixels@, (x, y));
                }
                filled_pixels.push((x, y));
            }
            y = y + 1;
        }
        x = x + 1;
    }
    proof {
        assert forall|p: (usize, usize)| #[trigger]
            filled_pixels@.contains(p) <==> circle_fill_member(start, end, p) by {
            assert(filled_pixels@.contains(p) <==> disc(p) && p.0 < x1 + 1);
        }
    }

    filled_pixels
}

/// `a` floored at zero: underflowing offsets clamp to the image edge, they
/// never wrap.
pub open spec fn max0(a: int) -> int {
    if a >= 0 {
        a
    } else {
        0
    }
}

/// `ceil(a / b)` for `a >= 0`, `b > 0`.
pub open spec fn ceil_div(a: int, b: int) -> int {
    (a + b - 1) / b
}

proof fn lemma_ceil_div_ordered(a1: int, a2: int, b: int)
    requires
        0 <= a1 <= a2,
        1 <= b,
    ensures
        ceil_div(a1, b) <= ceil_div(a2, b),
{
    vstd::arithmetic::div_mod::lemma_div_is_ordered(a1 + b - 1, a2 + b - 1, b);
}

proof fn lemma_ceil_div_exact(x: int, b: int)
    requires
        0 <= x,
        1 <= b,
    ensures
        ceil_div(b * x, b) == x,
{
    vstd::arithmetic::div_mod::lemma_div_multiples_vanish_fancy(x, b - 1, b);
}

/// The digital-line backbone: the `y` of the centreline pixel in column `x`,
/// over corners normalized so that `x0 < x1` and `y0 <= y1`. It is the
/// ceiling of the line equation `y0 + (x - x0) * (y1 - y0) / (x1 - x0)`.
pub open spec fn backbone(x0: int, y0: int, x1: int, y1: int, x: int) -> int {
    y0 + ceil_div((x - x0) * (y1 - y0), x1 - x0)
}

proof fn lemma_backbone_monotone(x0: int, y0: int, x1: int, y1: int, xa: int, xb: int)
    requires
        x0 < x1,
        y0 <= y1,
        x0 <= xa <= xb,
    ensures
        backbone(x0, y0, x1, y1, xa) <= backbone(x0, y0, x1, y1, xb),
{
    vstd::arithmetic::mul::lemma_mul_inequality(xa - x0, xb - x0, y1 - y0);
    lemma_ceil_div_ordered((xa - x0) * (y1 - y0), (xb - x0) * (y1 - y0), x1 - x0);
}

proof fn lemma_backbone_range(x0: int, y0: int, x1: int, y1: int, x: int)
    requires
        x0 < x1,
        y0 <= y1,
        x0 <= x <= x1,
    ensures
        y0 <= backbone(x0, y0, x1, y1, x) <= y1,
{
    vstd::arithmetic::div_mod::lemma_div_pos_is_pos((x - x0) * (y1 - y0) + (x1 - x0) - 1, x1 - x0);
    lemma_backbone_monotone(x0, y0, x1, y1, x, x1);
    lemma_ceil_div_exact(y1 - y0, x1 - x0);
}

/// One column's contribution to a steep line: a horizontal band of width
/// `2 * ht` around column `x`, spanning the `y` gap between the backbone
/// points of columns `x` and `x + 1`.
pub open spec fn steep_col_member(
    x0: int,
    y0: int,
    x1: int,
    y1: int,
    ht: int,
    x: int,
    p: (usize, usize),
) -> bool {
    &&& max0(x - ht) <= p.0 <= x + ht
    &&& backbone(x0, y0, x1, y1, x) <= p.1 < backbone(x0, y0, x1, y1, x + 1)
}

/// Membership in a steep line (`|slope| > 1`): thickness is applied
/// horizontally, one band per pair of consecutive backbone points.
pub open spec fn steep_member(x0: int, y0: int, x1: int, y1: int, ht: int, p: (usize, usize)) -> bool {
    exists|x: int| x0 <= x < x1 && #[trigger] steep_col_member(x0, y0, x1, y1, ht, x, p)
}

/// Membership in a shallow line (`|slope| <= 1`): thickness is applied
/// vertically around each backbone pixel.
pub open spec fn shallow_member(x0: int, y0: int, x1: int, y1: int, ht: int, p: (usize, usize)) -> bool {
    &&& x0 <= p.0 <= x1
    &&& max0(backbone(x0, y0, x1, y1, p.0 as int) - ht) <= p.1
    &&& p.1 <= backbone(x0, y0, x1, y1, p.0 as int) + ht
}

/// Membership in the thick line before the orientation fix-up, over
/// normalized corners.
pub open spec fn line_base_member(
    start: (usize, usize),
    end: (usize, usize),
    thickness: usize,
    p: (usize, usize),
) -> bool {
    let x0 = lo(start.0, end.0) as int;
    let x1 = hi(start.0, end.0) as int;
    let y0 = lo(start.1, end.1) as int;
    let y1 = hi(start.1, end.1) as int;
    let ht = (thickness / 2) as int;
    if x0 == x1 {
        // vertical: a horizontal band of width `thickness` centred on the
        // line, spanning the full y-range
        max0(x0 - ht) <= p.0 <= x0 + ht && y0 <= p.1 <= y1
    } else if y1 - y0 > x1 - x0 {
        steep_member(x0, y0, x1, y1, ht, p)
    } else {
        shallow_member(x0, y0, x1, y1, ht, p)
    }
}

/// A drag from top-right to bottom-left (or the reverse) has its corners
/// swapped by normalization; the rendered pixels must be mirrored back.
pub open spec fn line_mirrored(start: (usize, usize), end: (usize, usize)) -> bool {
    (end.0 > start.0 && end.1 < start.1) || (end.0 < start.0 && end.1 > start.1)
}

/// The mirror image of `q` about the horizontal span of the line, clamped at
/// the left image edge: `xsum` is the sum of the two normalized corner `x`s.
pub open spec fn mirror_pt(xsum: int, q: (usize, usize)) -> (usize, usize) {
    (max0(xsum - q.0) as usize, q.1)
}

/// Membership in the thick line dragged from `start` to `end`: empty when
/// the drag is degenerate, the backbone bands otherwise, mirrored when the
/// drag ran against the normalized orientation.
pub open spec fn line_member(
    start: (usize, usize),
    end: (usize, usize),
    thickness: usize,
    p: (usize, usize),
) -> bool {
    if start == end {
        false
    } else if !line_mirrored(start, end) {
        line_base_member(start, end, thickness, p)
    } else {
        let xsum = lo(start.0, end.0) + hi(start.0, end.0);
        exists|q: (usize, usize)| #[trigger]
            line_base_member(start, end, thickness, q) && p == mirror_pt(xsum as int, q)
    }
}

/// The thick line dragged from `start` to `end`, as a set.
pub open spec fn line_set(start: (usize, usize), end: (usize, usize), thickness: usize) -> Set<
    (usize, usize),
> {
    Set::new(|p: (usize, usize)| line_member(start, end, thickness, p))
}

/// Every pixel of the line bands lies in the corners' bounding box, expanded
/// by half the thickness in the thickening direction only.
proof fn lemma_base_member_bounds(
    start: (usize, usize),
    end: (usize, usize),
    thickness: usize,
    p: (usize, usize),
)
    requires
        start != end,
        line_base_member(start, end, thickness, p),
    ensures
        ({
            let x0 = lo(start.0, end.0) as int;
            let x1 = hi(start.0, end.0) as int;
            let y0 = lo(start.1, end.1) as int;
            let y1 = hi(start.1, end.1) as int;
            let ht = (thickness / 2) as int;
            if y1 - y0 > x1 - x0 {
                max0(x0 - ht) <= p.0 <= x1 + ht && y0 <= p.1 <= y1
            } else {
                x0 <= p.0 <= x1 && max0(y0 - ht) <= p.1 <= y1 + ht
            }
        }),
{
    let x0 = lo(start.0, end.0) as int;
    let x1 = hi(start.0, end.0) as int;
    let y0 = lo(start.1, end.1) as int;
    let y1 = hi(start.1, end.1) as int;
    let ht = (thickness / 2) as int;
    if x0 == x1 {
    } else if y1 - y0 > x1 - x0 {
        let x = choose|x: int|
            x0 <= x < x1 && #[trigger] steep_col_member(x0, y0, x1, y1, ht, x, p);
        lemma_backbone_range(x0, y0, x1, y1, x);
        lemma_backbone_range(x0, y0, x1, y1, x + 1);
    } else {
        lemma_backbone_range(x0, y0, x1, y1, p.0 as int);
    }
}

/// For all valid corners with `start != end`, the rendered line is non-empty,
/// and every produced pixel lies within the axis-aligned bounding box of the
/// two corners expanded by `thickness / 2` in the thickening direction:
/// horizontally for steep and vertical lines, vertically for shallow ones.
pub proof fn lemma_line_nonempty_bounded(
    start: (usize, usize),
    end: (usize, usize),
    thickness: usize,
)
    requires
        start != end,
        start.0 < MAX_COORD && start.1 < MAX_COORD && end.0 < MAX_COORD && end.1 < MAX_COORD,
        thickness < MAX_COORD,
    ensures
        exists|p: (usize, usize)| #[trigger] line_member(start, end, thickness, p),
        forall|p: (usize, usize)| #[trigger]
            line_member(start, end, thickness, p) ==> ({
                let x0 = lo(start.0, end.0) as int;
                let x1 = hi(start.0, end.0) as int;
                let y0 = lo(start.1, end.1) as int;
                let y1 = hi(start.1, end.1) as int;
                let ht = (thickness / 2) as int;
                if y1 - y0 > x1 - x0 {
                    max0(x0 - ht) <= p.0 <= x1 + ht && y0 <= p.1 <= y1
                } else {
                    x0 <= p.0 <= x1 && max0(y0 - ht) <= p.1 <= y1 + ht
                }
            }),
{
    let x0 = lo(start.0, end.0) as int;
    let x1 = hi(start.0, end.0) as int;
    let y0 = lo(start.1, end.1) as int;
    let y1 = hi(start.1, end.1) as int;
    let ht = (thickness / 2) as int;
    let corner = (lo(start.0, end.0), lo(start.1, end.1));

    // the top-left backbone pixel is always rendered
    assert(line_base_member(start, end, thickness, corner)) by {
        if x0 == x1 {
        } else {
            vstd::arithmetic::div_mod::lemma_basic_div(x1 - x0 - 1, x1 - x0);
            assert(backbone(x0, y0, x1, y1, x0) == y0);
            if y1 - y0 > x1 - x0 {
                // the next backbone pixel sits at least one row lower
                assert((x0 + 1 - x0) * (y1 - y0) == y1 - y0) by (nonlinear_arith);
                vstd::arithmetic::div_mod::lemma_div_by_self(x1 - x0);
                vstd::arithmetic::div_mod::lemma_div_is_ordered(
                    x1 - x0,
                    (y1 - y0) + (x1 - x0) - 1,
                    x1 - x0,
                );
                assert(backbone(x0, y0, x1, y1, x0 + 1) >= y0 + 1);
                assert(steep_col_member(x0, y0, x1, y1, ht, x0, corner));
            }
        }
    }
    if !line_mirrored(start, end) {
        assert(line_member(start, end, thickness, corner));
    } else {
        let image = mirror_pt(x0 + x1, corner);
        assert(line_member(start, end, thickness, image));
    }

    assert forall|p: (usize, usize)| #[trigger] line_member(start, end, thickness, p) implies ({
        if y1 - y0 > x1 - x0 {
            max0(x0 - ht) <= p.0 <= x1 + ht && y0 <= p.1 <= y1
        } else {
            x0 <= p.0 <= x1 && max0(y0 - ht) <= p.1 <= y1 + ht
        }
    }) by {
        if !line_mirrored(start, end) {
            lemma_base_member_bounds(start, end, thickness, p);
        } else {
            let q = choose|q: (usize, usize)| #[trigger]
                line_base_member(start, end, thickness, q) && p == mirror_pt(x0 + x1, q);
            lemma_base_member_bounds(start, end, thickness, q);
            assert(p.1 == q.1);
            assert(p.0 == max0(x0 + x1 - q.0));
            assert(x0 < x1);
            if y1 - y0 > x1 - x0 {
                // the mirror maps the expanded horizontal span into itself
                if x0 - ht >= 0 {
                    assert(q.0 >= x0 - ht);
                    assert(x0 + x1 - q.0 <= x1 + ht);
                } else {
                    assert(x0 + x1 - q.0 <= x0 + x1);
                    assert(x0 + x1 <= x1 + ht);
                }
                if x0 + x1 - q.0 >= 0 {
                    assert(p.0 == x0 + x1 - q.0);
                    assert(p.0 >= x0 - ht);
                } else {
                    assert(q.0 > x0 + x1);
                    assert(x0 < ht);
                    assert(p.0 == 0);
                }
            } else {
                assert(x0 <= q.0 <= x1);
                assert(x0 <= x0 + x1 - q.0 <= x1);
            }
        }
    }
}

/// The row of pixels `(x, y)` with `xa <= x <= xb`.
spec fn row_set(xa: usize, xb: usize, y: usize) -> Set<(usize, usize)> {
    Set::new(|p: (usize, usize)| xa <= p.0 <= xb && p.1 == y)
}

/// The column of pixels `(x, y)` with `ya <= y <= yb`.
spec fn col_set(x: usize, ya: usize, yb: usize) -> Set<(usize, usize)> {
    Set::new(|p: (usize, usize)| p.0 == x && ya <= p.1 <= yb)
}

proof fn lemma_row_card(xa: usize, xb: usize, y: usize)
    requires
        xa <= xb,
    ensures
        row_set(xa, xb, y).finite(),
        row_set(xa, xb, y).len() == xb - xa + 1,
    decreases xb - xa,
{
    if xa == xb {
        assert(row_set(xa, xb, y) =~= Set::<(usize, usize)>::empty().insert((xa, y)));
    } else {
        lemma_row_card(xa, (xb - 1) as usize, y);
        assert(row_set(xa, xb, y) =~= row_set(xa, (xb - 1) as usize, y).insert((xb, y)));
    }
}

proof fn lemma_col_card(x: usize, ya: usize, yb: usize)
    ensures
        col_set(x, ya, yb).finite(),
        col_set(x, ya, yb).len() == if ya <= yb {
            yb - ya + 1
        } else {
            0
        },
    decreases (if ya <= yb {
        yb - ya + 1
    } else {
        0
    }),
{
    if ya > yb {
        assert(col_set(x, ya, yb) =~= Set::<(usize, usize)>::empty());
    } else if ya == yb {
        assert(col_set(x, ya, yb) =~= Set::<(usize, usize)>::empty().insert((x, ya)));
    } else {
        lemma_col_card(x, ya, (yb - 1) as usize);
        assert(col_set(x, ya, yb) =~= col_set(x, ya, (yb - 1) as usize).insert((x, yb)));
    }
}

/// For a box at least two pixels wide and high, the outline of thickness 1
/// holds exactly the perimeter pixel count `2 * w + 2 * h - 4`: the set
/// semantics never double-counts a corner.
pub proof fn lemma_rect_outline_perimeter_count(start: (usize, usize), end: (usize, usize))
    requires
        lo(start.0, end.0) < hi(start.0, end.0),
        lo(start.1, end.1) < hi(start.1, end.1),
    ensures
        rect_outline_set(start, end, 1).finite(),
        ({
            let w = hi(start.0, end.0) - lo(start.0, end.0) + 1;
            let h = hi(start.1, end.1) - lo(start.1, end.1) + 1;
            rect_outline_set(start, end, 1).len() == 2 * w + 2 * h - 4
        }),
{
    broadcast use vstd::set_lib::lemma_set_disjoint_lens;

    let x0 = lo(start.0, end.0);
    let x1 = hi(start.0, end.0);
    let y0 = lo(start.1, end.1);
    let y1 = hi(start.1, end.1);
    let top = row_set(x0, x1, y0);
    let bottom = row_set(x0, x1, y1);
    let left = col_set(x0, (y0 + 1) as usize, (y1 - 1) as usize);
    let right = col_set(x1, (y0 + 1) as usize, (y1 - 1) as usize);
    lemma_row_card(x0, x1, y0);
    lemma_row_card(x0, x1, y1);
    lemma_col_card(x0, (y0 + 1) as usize, (y1 - 1) as usize);
    lemma_col_card(x1, (y0 + 1) as usize, (y1 - 1) as usize);
    assert(rect_outline_set(start, end, 1) =~= top + bottom + left + right);
    assert(top.disjoint(bottom));
    assert((top + bottom).disjoint(left));
    assert((top + bottom + left).disjoint(right));
    assert((top + bottom).len() == top.len() + bottom.len());
    assert((top + bottom + left).len() == (top + bottom).len() + left.len());
    assert((top + bottom + left + right).len() == (top + bottom + left).len() + right.len());
}

/// A dragged circle always fills a true circle over a square bounding box:
/// the filled set contains the box centre (so it is non-empty) and is
/// symmetric under swapping the two coordinate offsets from the box corner.
/// Applying the swap twice gives the original pixel back, so membership is
/// preserved in both directions, and the rendered set's bounding box has
/// equal width and height for any input rectangle.
pub proof fn lemma_circle_fill_square(start: (usize, usize), end: (usize, usize))
    requires
        start.0 < MAX_COORD && start.1 < MAX_COORD && end.0 < MAX_COORD && end.1 < MAX_COORD,
    ensures
        circle_fill_member(
            start,
            end,
            (
                (lo(start.0, end.0) + circle_side(start, end) / 2) as usize,
                (lo(start.1, end.1) + circle_side(start, end) / 2) as usize,
            ),
        ),
        forall|p: (usize, usize)| #[trigger]
            circle_fill_member(start, end, p) ==> circle_fill_member(
                start,
                end,
                (
                    (lo(start.0, end.0) + (p.1 - lo(start.1, end.1))) as usize,
                    (lo(start.1, end.1) + (p.0 - lo(start.0, end.0))) as usize,
                ),
            ),
{
    let x0 = lo(start.0, end.0) as int;
    let y0 = lo(start.1, end.1) as int;
    let s = circle_side(start, end);
    let cx = x0 + s / 2;
    let cy = y0 + s / 2;
    assert forall|p: (usize, usize)| #[trigger] circle_fill_member(start, end, p) implies
        circle_fill_member(
        start,
        end,
        ((x0 + (p.1 - y0)) as usize, (y0 + (p.0 - x0)) as usize),
    ) by {
        let q = ((x0 + (p.1 - y0)) as usize, (y0 + (p.0 - x0)) as usize);
        assert(cx - q.0 == cy - p.1);
        assert(cy - q.1 == cx - p.0);
        assert(dist2(cx, cy, q.0 as int, q.1 as int) == dist2(cx, cy, p.0 as int, p.1 as int));
    }
}

/// The `y` of the backbone pixel in column `x`, executable.
fn backbone_at(x0: usize, y0: usize, x1: usize, y1: usize, x: usize) -> (y: usize)
    requires
        x0 < x1,
        y0 <= y1,
        x0 <= x <= x1,
        x1 < 2 * MAX_COORD,
        y1 < 2 * MAX_COORD,
    ensures
        y == backbone(x0 as int, y0 as int, x1 as int, y1 as int, x as int),
        y0 <= y <= y1,
{
    proof {
        lemma_mul_le(x as int - x0 as int, y1 as int - y0 as int, 2 * MAX_COORD as int);
        lemma_backbone_range(x0 as int, y0 as int, x1 as int, y1 as int, x as int);
    }
    y0 + ((x - x0) * (y1 - y0) + (x1 - x0) - 1) / (x1 - x0)
}

proof fn lemma_mul_le(a: int, b: int, c: int)
    requires
        0 <= a <= c,
        0 <= b <= c,
    ensures
        a * b <= c * c,
{
    assert(a * b <= c * c) by (nonlinear_arith)
        requires
            0 <= a <= c,
            0 <= b <= c,
    ;
}

/// Linear scan for a coordinate pair.
#[verifier::loop_isolation(false)]
fn contains_coord(v: &Vec<(usize, usize)>, p: (usize, usize)) -> (found: bool)
    ensures
        found == v@.contains(p),
{
    let mut i: usize = 0;
    while i < v.len()
        invariant
            0 <= i <= v.len(),
            forall|j: int| 0 <= j < i ==> v@[j] != p,
        decreases v.len() - i,
    {
        let q = v[i];
        if q.0 == p.0 && q.1 == p.1 {
            assert(v@[i as int] == p);
            return true;
        }
        i = i + 1;
    }
    assert(!v@.contains(p)) by {
        if v@.contains(p) {
            let j = choose|j: int| 0 <= j < v@.len() && v@[j] == p;
        }
    }
    false
}

/// Vertical line: a horizontal band of width `2 * ht` centred on column
/// `x0`, spanning the full y-range `y0..=y1`.
#[verifier::loop_isolation(false)]
fn vertical_band(x0: usize, y0: usize, y1: usize, ht: usize) -> (res: Vec<(usize, usize)>)
    requires
        y0 <= y1,
        x0 < MAX_COORD,
        y1 < MAX_COORD,
        ht < MAX_COORD,
    ensures
        res@.no_duplicates(),
        forall|p: (usize, usize)| #[trigger]
            res@.contains(p) <==> (max0(x0 as int - ht as int) <= p.0 <= x0 + ht && y0 <= p.1
                <= y1),
{
    let min_x = if x0 >= ht {
        x0 - ht
    } else {
        0
    };
    let mut res: Vec<(usize, usize)> = Vec::new();
    let mut xt = min_x;
    while xt <= x0 + ht
        invariant
            min_x <= xt <= x0 + ht + 1,
            res@.no_duplicates(),
            forall|p: (usize, usize)| #[trigger]
                res@.contains(p) <==> (max0(x0 as int - ht as int) <= p.0 && p.0 < xt && y0 <= p.1
                    <= y1),
        decreases x0 + ht + 1 - xt,
    {
        let mut y = y0;
        while y <= y1
            invariant
                y0 <= y,
                y <= y1 + 1,
                min_x <= xt <= x0 + ht,
                res@.no_duplicates(),
                forall|p: (usize, usize)| #[trigger]
                    res@.contains(p) <==> (max0(x0 as int - ht as int) <= p.0 && y0 <= p.1 <= y1
                        && (p.0 < xt || (p.0 == xt && p.1 < y))),
            decreases y1 + 1 - y,
        {
            proof {
                lemma_push_keeps_no_dup(res@, (xt, y));
            }
            res.push((xt, y));
            y = y + 1;
        }
        xt = xt + 1;
    }
    res
}

/// Steep line: for each pair of consecutive backbone points, a horizontal
/// band of width `2 * ht` across the `y` span between them.
#[verifier::loop_isolation(false)]
#[verifier::rlimit(50)]
fn steep_band(x0: usize, y0: usize, x1: usize, y1: usize, ht: usize) -> (res: Vec<(usize, usize)>)
    requires
        x0 < x1,
        y0 <= y1,
        x1 < MAX_COORD,
        y1 < MAX_COORD,
        ht < MAX_COORD,
    ensures
        res@.no_duplicates(),
        forall|p: (usize, usize)| #[trigger]
            res@.contains(p) <==> steep_member(x0 as int, y0 as int, x1 as int, y1 as int, ht as int, p),
{
    let ghost gx0 = x0 as int;
    let ghost gy0 = y0 as int;
    let ghost gx1 = x1 as int;
    let ghost gy1 = y1 as int;
    let ghost ght = ht as int;
    let mut res: Vec<(usize, usize)> = Vec::new();
    let mut x = x0;
    while x < x1
        invariant
            x0 <= x <= x1,
            res@.no_duplicates(),
            forall|p: (usize, usize)| #[trigger]
                res@.contains(p) <==> exists|xx: int|
                    gx0 <= xx < x && #[trigger] steep_col_member(gx0, gy0, gx1, gy1, ght, xx, p),
        decreases x1 - x,
    {
        let y_lo = backbone_at(x0, y0, x1, y1, x);
        let y_hi = backbone_at(x0, y0, x1, y1, x + 1);
        let min_x = if x >= ht {
            x - ht
        } else {
            0
        };
        let mut xt = min_x;
        while xt <= x + ht
            invariant
                min_x <= xt <= x + ht + 1,
                x0 <= x < x1,
                y_lo == backbone(gx0, gy0, gx1, gy1, x as int),
                y_hi == backbone(gx0, gy0, gx1, gy1, x as int + 1),
                y0 <= y_lo <= y1,
                y0 <= y_hi <= y1,
                res@.no_duplicates(),
                forall|p: (usize, usize)| #[trigger]
                    res@.contains(p) <==> (exists|xx: int|
                        gx0 <= xx < x && #[trigger] steep_col_member(gx0, gy0, gx1, gy1, ght, xx, p))
                        || (steep_col_member(gx0, gy0, gx1, gy1, ght, x as int, p) && p.0 < xt),
            decreases x + ht + 1 - xt,
        {
            let mut y = y_lo;
            while y < y_hi
                invariant
                    y_lo <= y,
                    y <= y_hi || y == y_lo,
                    min_x <= xt <= x + ht,
                    x0 <= x < x1,
                    y_lo == backbone(gx0, gy0, gx1, gy1, x as int),
                    y_hi == backbone(gx0, gy0, gx1, gy1, x as int + 1),
                    res@.no_duplicates(),
                    forall|p: (usize, usize)| #[trigger]
                        res@.contains(p) <==> (exists|xx: int|
                            gx0 <= xx < x && #[trigger] steep_col_member(
                                gx0,
                                gy0,
                                gx1,
                                gy1,
                                ght,
                                xx,
                                p,
                            )) || (steep_col_member(gx0, gy0, gx1, gy1, ght, x as int, p) && (p.0
                            < xt || (p.0 == xt && p.1 < y))),
                decreases y_hi - y,
            {
                proof {
                    assert forall|xx: int| gx0 <= xx < x implies !steep_col_member(
                        gx0,
                        gy0,
                        gx1,
                        gy1,
                        ght,
                        xx,
                        (xt, y),
                    ) by {
                        lemma_backbone_monotone(gx0, gy0, gx1, gy1, xx + 1, x as int);
                    }
                    lemma_push_keeps_no_dup(res@, (xt, y));
                }
                res.push((xt, y));
                y = y + 1;
            }
            xt = xt + 1;
        }
        proof {
            assert forall|p: (usize, usize)| #[trigger] res@.contains(p) implies (exists|xx: int|
                gx0 <= xx < x + 1 && #[trigger] steep_col_member(
                    gx0,
                    gy0,
                    gx1,
                    gy1,
                    ght,
                    xx,
                    p,
                )) by {
                if steep_col_member(gx0, gy0, gx1, gy1, ght, x as int, p) {
                    assert(gx0 <= x as int && (x as int) < (x as int) + 1);
                }
            }
        }
        x = x + 1;
    }
    res
}

/// Shallow line: a vertical band of width `2 * ht` around each backbone
/// pixel.
#[verifier::loop_isolation(false)]
#[verifier::rlimit(50)]
fn shallow_band(x0: usize, y0: usize, x1: usize, y1: usize, ht: usize) -> (res: Vec<(usize, usize)>)
    requires
        x0 < x1,
        y0 <= y1,
        x1 < MAX_COORD,
        y1 < MAX_COORD,
        ht < MAX_COORD,
    ensures
        res@.no_duplicates(),
        forall|p: (usize, usize)| #[trigger]
            res@.contains(p) <==> shallow_member(
                x0 as int,
                y0 as int,
                x1 as int,
                y1 as int,
                ht as int,
                p,
            ),
{
    let ghost gx0 = x0 as int;
    let ghost gy0 = y0 as int;
    let ghost gx1 = x1 as int;
    let ghost gy1 = y1 as int;
    let ghost ght = ht as int;
    let mut res: Vec<(usize, usize)> = Vec::new();
    let mut x = x0;
    while x <= x1
        invariant
            x0 <= x <= x1 + 1,
            res@.no_duplicates(),
            forall|p: (usize, usize)| #[trigger]
                res@.contains(p) <==> shallow_member(gx0, gy0, gx1, gy1, ght, p) && p.0 < x,
        decreases x1 + 1 - x,
    {
        let yb = backbone_at(x0, y0, x1, y1, x);
        let min_y = if yb >= ht {
            yb - ht
        } else {
            0
        };
        let mut yt = min_y;
        while yt <= yb + ht
            invariant
                min_y <= yt <= yb + ht + 1,
                x0 <= x <= x1,
                yb == backbone(gx0, gy0, gx1, gy1, x as int),
                y0 <= yb <= y1,
                res@.no_duplicates(),
                forall|p: (usize, usize)| #[trigger]
                    res@.contains(p) <==> shallow_member(gx0, gy0, gx1, gy1, ght, p) && (p.0 < x
                        || (p.0 == x && p.1 < yt)),
            decreases yb + ht + 1 - yt,
        {
            proof {
                lemma_push_keeps_no_dup(res@, (x, yt));
            }
            res.push((x, yt));
            yt = yt + 1;
        }
        x = x + 1;
    }
    res
}

/// Pixel coordinates of a thick line dragged from `start` to `end`.
///
/// A degenerate drag (`start == end`) renders nothing. Otherwise the corners
/// are normalized, one centreline pixel is computed per column of the
/// bounding box, and thickness is applied vertically for shallow lines,
/// horizontally for steep and vertical ones; offsets that would leave the
/// image clamp to its edge. A drag against the normalized orientation has
/// every pixel mirrored about the line's horizontal span, so the line always
/// follows the true drag direction.
#[verifier::loop_isolation(false)]
#[verifier::rlimit(50)]
pub fn generate_line_coordinates(
    start: (usize, usize),
    end: (usize, usize),
    thickness: usize,
) -> (res: Vec<(usize, usize)>)
    requires
        start.0 < MAX_COORD && start.1 < MAX_COORD && end.0 < MAX_COORD && end.1 < MAX_COORD,
        thickness < MAX_COORD,
    ensures
        res@.no_duplicates(),
        forall|p: (usize, usize)| #[trigger]
            res@.contains(p) <==> line_member(start, end, thickness, p),
{
    if start.0 == end.0 && start.1 == end.1 {
        let res: Vec<(usize, usize)> = Vec::new();
        assert(start == end);
        return res;
    }
    let x0 = if start.0 <= end.0 { start.0 } else { end.0 };
    let x1 = if start.0 <= end.0 { end.0 } else { start.0 };
    let y0 = if start.1 <= end.1 { start.1 } else { end.1 };
    let y1 = if start.1 <= end.1 { end.1 } else { start.1 };
    let ht = thickness / 2;

    let base: Vec<(usize, usize)> = if x0 == x1 {
        vertical_band(x0, y0, y1, ht)
    } else if y1 - y0 > x1 - x0 {
        steep_band(x0, y0, x1, y1, ht)
    } else {
        shallow_band(x0, y0, x1, y1, ht)
    };
    assert(forall|p: (usize, usize)| #[trigger]
        base@.contains(p) <==> line_base_member(start, end, thickness, p));

    let mirrored = (end.0 > start.0 && end.1 < start.1) || (end.0 < start.0 && end.1 > start.1);
    if !mirrored {
        return base;
    }

    // Orientation fix-up: mirror every produced x about the horizontal span.
    let ghost gxs = x0 as int + x1 as int;
    let xsum = x0 + x1;
    let mut out: Vec<(usize, usize)> = Vec::new();
    let mut i: usize = 0;
    while i < base.len()
        invariant
            0 <= i <= base.len(),
            out@.no_duplicates(),
            forall|p: (usize, usize)| #[trigger]
                out@.contains(p) <==> exists|j: int| 0 <= j < i && p == mirror_pt(gxs, #[trigger] base@[j]),
        decreases base.len() - i,
    {
        let q = base[i];
        let m: (usize, usize) = (if xsum >= q.0 { xsum - q.0 } else { 0 }, q.1);
        assert(m == mirror_pt(gxs, base@[i as int]));
        if !contains_coord(&out, m) {
            proof {
                lemma_push_keeps_no_dup(out@, m);
            }
            out.push(m);
        }
        i = i + 1;
    }
    proof {
        assert forall|p: (usize, usize)| #[trigger] out@.contains(p) implies line_member(
            start,
            end,
            thickness,
            p,
        ) by {
            let j = choose|j: int| 0 <= j < base@.len() && p == mirror_pt(gxs, #[trigger] base@[j]);
            assert(base@.contains(base@[j]));
        }
        assert forall|p: (usize, usize)| line_member(start, end, thickness, p) implies #[trigger]
            out@.contains(p) by {
            let q = choose|q: (usize, usize)| #[trigger]
                line_base_member(start, end, thickness, q) && p == mirror_pt(gxs, q);
            assert(base@.contains(q));
            let j = choose|j: int| 0 <= j < base@.len() && base@[j] == q;
            assert(p == mirror_pt(gxs, base@[j]));
        }
    }
    out
}

} // verus!
