use vstd::prelude::*;
use crate::pos::Pos;

verus! {

/// Largest width or height of a frame, in pixels.
pub const FRAME_MAX: i32 = 1000000;

/// The rectangle `[0, w] x [0, h]` (in pixels) that an image covers.
#[derive(Clone, Copy, Debug, PartialEq, Eq, Structural)]
pub struct Frame {
    pub w: i32,
    pub h: i32,
}

/// `p` lies in the closed rectangle of the frame (positions count hundredths).
pub open spec fn inside_spec(f: Frame, p: Pos) -> bool {
    0 <= p.0 <= 100 * f.w && 0 <= p.1 <= 100 * f.h
}

/// The midpoint of the frame.
pub open spec fn center_spec(f: Frame) -> Pos {
    Pos((50 * f.w) as i32, (50 * f.h) as i32)
}

impl Frame {
    /// Width and height are positive and small enough for exact geometry.
    pub open spec fn wf(&self) -> bool {
        0 < self.w <= FRAME_MAX && 0 < self.h <= FRAME_MAX
    }

    /// A frame of the given size, or `None` unless both sides are in `1..=FRAME_MAX`.
    pub fn new(w: i32, h: i32) -> (r: Option<Frame>)
        ensures
            r is Some <==> (0 < w <= FRAME_MAX && 0 < h <= FRAME_MAX),
            r matches Some(f) ==> f.wf() && f.w == w && f.h == h,
    {
        if 0 < w && w <= FRAME_MAX && 0 < h && h <= FRAME_MAX {
            Some(Frame { w, h })
        } else {
            None
        }
    }

    /// Whether `p` lies in the frame, borders included.
    pub fn is_inside(&self, p: Pos) -> (r: bool)
        requires
            self.wf(),
        ensures
            r == inside_spec(*self, p),
    {
        0 <= p.0 && p.0 <= 100 * self.w && 0 <= p.1 && p.1 <= 100 * self.h
    }

    /// The geometric center of the frame.
    pub fn center(&self) -> (r: Pos)
        requires
            self.wf(),
        ensures
            r == center_spec(*self),
            inside_spec(*self, r),
    {
        Pos(50 * self.w, 50 * self.h)
    }
}

} // verus!
