//! Animation clips.
//!
//! A clip is immutable animation data: a positive duration and a list of
//! key poses, each a full SoA buffer.  Sampling at a ratio `r` in
//! `[0, SCALE]` picks the key pose whose slot contains `r`: the clip's
//! ratio range is split into `frames.len()` equal slots.  The decoder that
//! produces clips from on-disk archives is outside the core; the core
//! consumes the decoded data.

use vstd::prelude::*;
use crate::fixed::{SCALE, fx_ok};
use crate::soa::{SoaTransform, buf_wf};

verus! {

#[derive(Debug)]
pub struct AnimationClip {
    /// Playback length in fixed-point seconds; must be positive for the
    /// clip to be sampled.
    pub duration: i64,
    /// Key poses, each one full SoA buffer.
    pub frames: Vec<Vec<SoaTransform>>,
}

impl AnimationClip {
    /// Every key pose holds only in-range values.
    pub open spec fn wf(self) -> bool {
        &&& fx_ok(self.duration)
        &&& forall|f: int| 0 <= f < self.frames@.len() ==> buf_wf((#[trigger] self.frames@[f])@)
    }

    /// The clip can be sampled into a buffer of length `out_len`.
    pub open spec fn samplable(self, out_len: int) -> bool {
        &&& self.duration > 0
        &&& self.frames@.len() > 0
        &&& forall|f: int| 0 <= f < self.frames@.len() ==> (#[trigger] self.frames@[f])@.len()
            == out_len
    }

    /// The key pose slot a ratio falls in.
    pub open spec fn spec_frame_index(self, ratio: int) -> int {
        let n = self.frames@.len() as int;
        let q = ratio * n / (SCALE as int);
        if q < n {
            q
        } else {
            n - 1
        }
    }
}

} // verus!
