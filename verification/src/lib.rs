//! Animator controller core: a data-driven runtime that evaluates a hierarchy
//! of animation graphs (state machines whose states are leaf clips or blend
//! trees) against a rigid skeleton and publishes, each tick, a set of
//! local-space joint transforms ready for skinning.
//!
//! All scalar quantities (seconds, blend parameters, thresholds, weights and
//! pose components) are fixed-point values: `i64` counts of `1 / SCALE` units.
//! The host converts to and from its own floating-point domain at the
//! boundary.

pub mod assoc;
pub mod blend;
pub mod blend_tree;
pub mod clip;
pub mod controller;
pub mod error;
pub mod fixed;
pub mod laws;
pub mod layer;
pub mod parameters;
pub mod skeleton;
pub mod soa;
pub mod state;

pub use blend_tree::{BlendTree, BlendTreeType, MotionThreshold, BlendMotionState, MotionData};
pub use clip::AnimationClip;
pub use controller::AnimatorController;
pub use layer::{AnimationLayer, LayerBlendType, Transition, TransitionCondition, CompareType};
pub use skeleton::Skeleton;
pub use error::AnimError;
pub use fixed::{SCALE, FX_MAX};
pub use state::{SimpleState, BlendState, AnimationState};
pub use parameters::Parameters;
pub use soa::{SoaTransform, OzzTransform, Vec3Fx, QuatFx};
