//! Errors surfaced by the animator core.

use vstd::prelude::*;

verus! {

/// Error kinds the core surfaces from `update`.
#[derive(Clone, Copy, Debug, PartialEq, Eq, Structural)]
pub enum AnimError {
    /// The clip sampler was asked to run against an unusable clip: no
    /// frames, a non-positive duration, or a frame whose length does not
    /// match the state's output buffer.
    SamplingFailed,
    /// A blending step found an input buffer whose length does not match
    /// its output buffer.
    BlendFailed,
    /// A layer with the Additive blend type reached the final blend;
    /// additive composition is declared but not supported.
    AdditiveNotSupported,
}

impl AnimError {
    /// A short human-readable description.
    pub fn describe(&self) -> (r: &'static str)
        ensures
            r@ == match *self {
                AnimError::SamplingFailed => "sampling failed"@,
                AnimError::BlendFailed => "blend failed"@,
                AnimError::AdditiveNotSupported => "additive blending is not supported"@,
            },
    {
        match self {
            AnimError::SamplingFailed => "sampling failed",
            AnimError::BlendFailed => "blend failed",
            AnimError::AdditiveNotSupported => "additive blending is not supported",
        }
    }
}

} // verus!
