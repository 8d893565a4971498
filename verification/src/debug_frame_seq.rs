//! Labels for coded frames, by which the lines of a trace are told apart.
use vstd::prelude::*;

verus! {

/// A running counter of coded frames and the label of the frame at hand.
#[derive(Debug, Clone, Copy, PartialEq, Eq, Structural)]
pub struct FrameSeq {
    seq: u64,
    active: u64,
}

impl FrameSeq {
    /// The label that the next frame gets.
    pub closed spec fn upcoming(self) -> u64 {
        self.seq
    }

    /// The label of the frame at hand.
    pub closed spec fn label(self) -> u64 {
        self.active
    }

    /// A counter at zero.
    pub fn new() -> (r: Self)
        ensures
            r.upcoming() == 0,
            r.label() == 0,
    {
        FrameSeq { seq: 0, active: 0 }
    }
}

/// Starts the next frame: returns its label, which stays the label of the frame at hand
/// until the next call. Counting starts again behind the largest label.
pub fn next(s: &mut FrameSeq) -> (r: u64)
    ensures
        r == old(s).upcoming(),
        final(s).label() == r,
        final(s).upcoming() == if r == u64::MAX {
            0
        } else {
            (r + 1) as u64
        },
{
    let n: u64 = s.seq;
    s.seq = n.wrapping_add(1);
    s.active = n;
    n
}

/// The label of the frame at hand.
pub fn current(s: &FrameSeq) -> (r: u64)
    ensures
        r == s.label(),
{
    s.active
}

} // verus!
