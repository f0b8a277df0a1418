//! Freehand stroke controller: turns a stream of pointer-move samples into a
//! chain of short segments.
//!
//! The buffer holds the pending points of the stroke in progress — at most
//! two at any instant, and at most one between calls. Each new sample either
//! starts the chain or closes a segment from the previously buffered point.
//! The buffer is cleared whenever a stroke starts or ends, so the next stroke
//! begins a fresh chain rather than connecting to a stale point.

use vstd::prelude::*;

use crate::rasterizer::MAX_COORD;

verus! {

/// The ordered queue of pending stroke points.
pub struct StrokeBuf {
    points: Vec<(usize, usize)>,
}

impl View for StrokeBuf {
    type V = Seq<(usize, usize)>;

    closed spec fn view(&self) -> Seq<(usize, usize)> {
        self.points@
    }
}

impl StrokeBuf {
    /// Between calls the buffer holds at most one pending point, and every
    /// pending point lies within the rasterizer's coordinate range.
    pub open spec fn inv(self) -> bool {
        &&& self@.len() <= 1
        &&& forall|j: int|
            0 <= j < self@.len() ==> (#[trigger] self@[j]).0 < MAX_COORD && self@[j].1 < MAX_COORD
    }

    /// An empty stroke buffer.
    pub fn new() -> (b: StrokeBuf)
        ensures
            b@ == Seq::<(usize, usize)>::empty(),
            b.inv(),
    {
        StrokeBuf { points: Vec::new() }
    }

    /// Drops all pending points; the next sample starts a fresh chain.
    pub fn clear(&mut self)
        ensures
            final(self)@ == Seq::<(usize, usize)>::empty(),
            final(self).inv(),
    {
        self.points.clear();
    }

    /// How many points are pending.
    pub fn len(&self) -> (n: usize)
        ensures
            n == self@.len(),
    {
        self.points.len()
    }

    /// Feeds one pointer sample to the stroke in progress.
    ///
    /// The first sample after a clear is buffered and draws nothing. Every
    /// later sample closes the segment from the buffered point to itself and
    /// stays buffered as the sole pending point, so consecutive samples chain
    /// into connected segments.
    pub fn push_point(&mut self, p: (usize, usize)) -> (seg: Option<
        ((usize, usize), (usize, usize)),
    >)
        requires
            old(self).inv(),
            p.0 < MAX_COORD,
            p.1 < MAX_COORD,
        ensures
            final(self).inv(),
            final(self)@ =~= seq![p],
            old(self)@.len() == 0 ==> seg is None,
            old(self)@.len() == 1 ==> seg == Some((old(self)@[0], p)),
    {
        self.points.push(p);
        if self.points.len() >= 2 {
            let p1 = self.points.remove(0);
            let p2 = self.points[0];
            Some((p1, p2))
        } else {
            None
        }
    }
}

} // verus!
