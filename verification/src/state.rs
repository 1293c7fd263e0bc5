//! Animation states.
//!
//! A `SimpleState` evaluates one clip at a phase derived from the host's
//! elapsed clock, filling an owned SoA output buffer.  The elapsed clock,
//! not a per-state playback clock, drives the phase: this mirrors the
//! documented semantics and its known limitation (no per-state pausing or
//! speed multipliers).

use vstd::prelude::*;
use vstd::arithmetic::mul::lemma_mul_inequality;
use crate::clip::AnimationClip;
use crate::error::AnimError;
use crate::fixed::{SCALE, fx_ok, lemma_div_le, lemma_div_nonneg};
use crate::soa::{SoaTransform, buf_wf, identity_buffer, copy_buffer};

verus! {

/// The sampling phase for an elapsed clock against a clip duration:
/// `(elapsed mod duration) / duration`, scaled to `[0, SCALE]`.
/// A negative elapsed clock reads as zero.
pub open spec fn spec_ratio(elapsed: i64, d: i64) -> int {
    if d <= 0 {
        0
    } else {
        let e = if elapsed < 0 {
            0
        } else {
            elapsed as int
        };
        (e % (d as int)) * (SCALE as int) / (d as int)
    }
}

/// Simple state containing a single clip.
#[derive(Debug)]
pub struct SimpleState {
    /// The clip this state samples.
    pub clip: AnimationClip,
    /// The owned SoA output buffer; its length is fixed at construction.
    pub output: Vec<SoaTransform>,
    /// The ratio passed to the most recent successful sampling.
    pub ratio: i64,
}

/// How a successful `SimpleState::update` relates the new state to the
/// old one: the clip is untouched, the ratio is the clip phase of the
/// elapsed clock, and the output buffer holds the key pose that phase
/// selects.
pub open spec fn simple_updated(o: SimpleState, n: SimpleState, elapsed: i64) -> bool {
    &&& n.clip == o.clip
    &&& n.ratio == spec_ratio(elapsed, o.clip.duration)
    &&& n.output@.len() == o.output@.len()
    &&& n.output@ == o.clip.frames@[o.clip.spec_frame_index(spec_ratio(elapsed, o.clip.duration))]@
}

impl SimpleState {
    /// Clip data and the sampled output are in the fixed-point range.
    pub open spec fn wf(self) -> bool {
        &&& self.clip.wf()
        &&& buf_wf(self.output@)
        &&& 0 <= self.ratio <= SCALE
    }

    /// Create a state that samples `clip` into an output buffer of
    /// `joint_count` SoA records, initially the rest pose.
    pub fn new(clip: AnimationClip, joint_count: usize) -> (r: SimpleState)
        ensures
            r.clip == clip,
            r.output@.len() == joint_count,
            r.ratio == 0,
            clip.wf() ==> r.wf(),
    {
        SimpleState { clip, output: identity_buffer(joint_count), ratio: 0 }
    }

    /// The state's stable output buffer.
    pub fn get_output_pointer(&self) -> (r: &Vec<SoaTransform>)
        ensures
            r@ == self.output@,
    {
        &self.output
    }

    /// Sample the clip at the phase of the elapsed clock.  Fails with
    /// `SamplingFailed`, leaving the state untouched, exactly when the
    /// clip cannot fill this state's buffer.
    pub fn update(&mut self, elapsed: i64) -> (r: Result<(), AnimError>)
        ensures
            final(self).clip == old(self).clip,
            final(self).output@.len() == old(self).output@.len(),
            old(self).clip.samplable(old(self).output@.len() as int) ==> r == Ok::<(), AnimError>(
                (),
            ) && simple_updated(*old(self), *final(self), elapsed),
            !old(self).clip.samplable(old(self).output@.len() as int) ==> r == Err::<
                (),
                AnimError,
            >(AnimError::SamplingFailed) && *final(self) == *old(self),
            old(self).wf() ==> final(self).wf(),
    {
        let d = self.clip.duration;
        let nf = self.clip.frames.len();
        let out_len = self.output.len();
        if d <= 0 || nf == 0 {
            return Err(AnimError::SamplingFailed);
        }
        let mut f: usize = 0;
        while f < nf
            invariant
                f <= nf,
                nf == self.clip.frames@.len(),
                out_len == self.output@.len(),
                *self == *old(self),
                forall|j: int| 0 <= j < f ==> (#[trigger] self.clip.frames@[j])@.len() == out_len,
            decreases nf - f,
        {
            if self.clip.frames[f].len() != out_len {
                return Err(AnimError::SamplingFailed);
            }
            f = f + 1;
        }
        let e: u64 = if elapsed < 0 {
            0
        } else {
            elapsed as u64
        };
        let m: u64 = e % (d as u64);
        proof {
            lemma_mul_inequality(m as int, d as int, SCALE as int);
            lemma_div_le((m as int) * (SCALE as int), d as int, SCALE as int);
            lemma_div_nonneg((m as int) * (SCALE as int), d as int);
        }
        let q: u128 = (m as u128) * (SCALE as u128) / (d as u128);
        let ratio: i64 = q as i64;
        proof {
            lemma_mul_inequality(ratio as int, SCALE as int, nf as int);
            lemma_div_le((ratio as int) * (nf as int), SCALE as int, nf as int);
            lemma_div_nonneg((ratio as int) * (nf as int), SCALE as int);
        }
        let qi: u128 = (ratio as u128) * (nf as u128) / (SCALE as u128);
        let idx: usize = if qi >= nf as u128 {
            nf - 1
        } else {
            qi as usize
        };
        self.ratio = ratio;
        self.output = copy_buffer(&self.clip.frames[idx]);
        Ok(())
    }

    /// Whether the clip can fill this state's buffer.
    pub fn check_samplable(&self) -> (b: bool)
        ensures
            b == self.clip.samplable(self.output@.len() as int),
    {
        if self.clip.duration <= 0 || self.clip.frames.len() == 0 {
            return false;
        }
        let out_len = self.output.len();
        let nf = self.clip.frames.len();
        let mut f: usize = 0;
        while f < nf
            invariant
                f <= nf,
                nf == self.clip.frames@.len(),
                out_len == self.output@.len(),
                forall|j: int| 0 <= j < f ==> (#[trigger] self.clip.frames@[j])@.len() == out_len,
            decreases nf - f,
        {
            if self.clip.frames[f].len() != out_len {
                return false;
            }
            f = f + 1;
        }
        true
    }

    /// The ratio handed to the most recent successful sampling.
    pub fn last_ratio(&self) -> (r: i64)
        ensures
            r == self.ratio,
    {
        self.ratio
    }
}

/// State containing a blend tree.
#[derive(Debug)]
pub struct BlendState {
    pub blend_tree: crate::blend_tree::BlendTree,
}

impl BlendState {
    pub open spec fn wf(self) -> bool {
        self.blend_tree.wf()
    }

    pub fn new(blend_tree: crate::blend_tree::BlendTree) -> (r: BlendState)
        ensures
            r.blend_tree == blend_tree,
    {
        BlendState { blend_tree }
    }

    /// Evaluate the wrapped blend tree for this tick.
    pub fn update(&mut self, elapsed: i64, params: &crate::parameters::Parameters) -> (r: Result<
        (),
        AnimError,
    >)
        requires
            old(self).wf(),
            params.wf(),
        ensures
            final(self).wf(),
            match r {
                Ok(()) => crate::blend_tree::tree_err(old(self).blend_tree, *params) is None
                    && crate::blend_tree::tree_updated(
                    old(self).blend_tree,
                    final(self).blend_tree,
                    elapsed,
                    *params,
                ),
                Err(e) => crate::blend_tree::tree_err(old(self).blend_tree, *params) == Some(e)
                    && *final(self) == *old(self),
            },
    {
        self.blend_tree.update(elapsed, params)
    }

    /// The tree's stable output buffer.
    pub fn get_output_pointer(&self) -> (r: &Vec<SoaTransform>)
        ensures
            r@ == self.blend_tree.output@,
    {
        self.blend_tree.get_output_pointer()
    }
}

/// A state of a layer's state machine: a leaf clip or a blend tree.
#[derive(Debug)]
pub enum AnimationState {
    Simple(SimpleState),
    Blend(BlendState),
}

/// The contents of a state's output buffer.
pub open spec fn state_output(s: AnimationState) -> Seq<SoaTransform> {
    match s {
        AnimationState::Simple(st) => st.output@,
        AnimationState::Blend(b) => b.blend_tree.output@,
    }
}

/// The error a state would report this tick, if any.
pub open spec fn state_err(s: AnimationState, p: crate::parameters::Parameters) -> Option<
    AnimError,
> {
    match s {
        AnimationState::Simple(st) => if st.clip.samplable(st.output@.len() as int) {
            None
        } else {
            Some(AnimError::SamplingFailed)
        },
        AnimationState::Blend(b) => crate::blend_tree::tree_err(b.blend_tree, p),
    }
}

/// How a successful state update relates the new state to the old one.
pub open spec fn state_updated(
    o: AnimationState,
    n: AnimationState,
    elapsed: i64,
    p: crate::parameters::Parameters,
) -> bool {
    match o {
        AnimationState::Simple(os) => n matches AnimationState::Simple(ns) && simple_updated(
            os,
            ns,
            elapsed,
        ),
        AnimationState::Blend(ob) => n matches AnimationState::Blend(nb)
            && crate::blend_tree::tree_updated(ob.blend_tree, nb.blend_tree, elapsed, p),
    }
}

impl AnimationState {
    pub open spec fn wf(self) -> bool {
        match self {
            AnimationState::Simple(st) => st.wf(),
            AnimationState::Blend(b) => b.blend_tree.wf(),
        }
    }

    /// Evaluate this state for the tick, dispatching on the variant.
    /// Simple variants ignore the parameter store.
    pub fn update(&mut self, elapsed: i64, params: &crate::parameters::Parameters) -> (r: Result<
        (),
        AnimError,
    >)
        requires
            old(self).wf(),
            params.wf(),
        ensures
            final(self).wf(),
            match r {
                Ok(()) => state_err(*old(self), *params) is None && state_updated(
                    *old(self),
                    *final(self),
                    elapsed,
                    *params,
                ),
                Err(e) => state_err(*old(self), *params) == Some(e) && *final(self) == *old(self),
            },
    {
        match self {
            AnimationState::Simple(st) => st.update(elapsed),
            AnimationState::Blend(b) => b.blend_tree.update(elapsed, params),
        }
    }

    /// The state's stable output buffer.
    pub fn get_output_pointer(&self) -> (r: &Vec<SoaTransform>)
        ensures
            r@ == state_output(*self),
    {
        match self {
            AnimationState::Simple(st) => &st.output,
            AnimationState::Blend(b) => &b.blend_tree.output,
        }
    }

    /// Whether this tick's update would fail, without touching anything.
    pub fn check(&self, params: &crate::parameters::Parameters) -> (r: Option<AnimError>)
        requires
            self.wf(),
            params.wf(),
        ensures
            r == state_err(*self, *params),
    {
        match self {
            AnimationState::Simple(st) => {
                if st.check_samplable() {
                    None
                } else {
                    Some(AnimError::SamplingFailed)
                }
            },
            AnimationState::Blend(b) => b.blend_tree.check_update(params),
        }
    }
}

} // verus!
