//! Structure-of-arrays joint transforms.
//!
//! Local pose is a sequence of packed quartets: one `SoaTransform` holds the
//! transforms of four consecutive joints in parallel lanes.  A record has 10
//! channels of 4 lanes each, laid out channel-major in a flat array of 40
//! fixed-point values: translation x/y/z, rotation x/y/z/w, scale x/y/z.
//! A buffer for a skeleton of `J` joints has `ceil(J / 4)` records.

use vstd::prelude::*;
use crate::fixed::{SCALE, fx_ok};

verus! {

/// Lanes per channel: four consecutive joints share one record.
pub const SOA_LANES: usize = 4;

/// Flat values per record: 10 channels of 4 lanes.
pub const SOA_VALS: usize = 40;

/// Channel indices into a record (each spans 4 lanes).
pub const CH_TX: usize = 0;

pub const CH_TY: usize = 1;

pub const CH_TZ: usize = 2;

pub const CH_RX: usize = 3;

pub const CH_RY: usize = 4;

pub const CH_RZ: usize = 5;

pub const CH_RW: usize = 6;

pub const CH_SX: usize = 7;

pub const CH_SY: usize = 8;

pub const CH_SZ: usize = 9;

/// One packed quartet of joint transforms.
#[derive(Clone, Copy, Debug)]
pub struct SoaTransform {
    pub vals: [i64; 40],
}

/// All lanes of a record are in the fixed-point range.
pub open spec fn soa_wf(t: SoaTransform) -> bool {
    forall|k: int| 0 <= k < 40 ==> fx_ok(#[trigger] t.vals@[k])
}

/// All records of a buffer are well formed.
pub open spec fn buf_wf(b: Seq<SoaTransform>) -> bool {
    forall|i: int| 0 <= i < b.len() ==> soa_wf(#[trigger] b[i])
}

/// Lane `k` of the identity (rest) record: rotation w and the scales are
/// one, everything else is zero.
pub open spec fn identity_val(k: int) -> i64 {
    if 24 <= k < 40 {
        SCALE
    } else {
        0
    }
}

pub open spec fn is_identity_soa(t: SoaTransform) -> bool {
    forall|k: int| 0 <= k < 40 ==> #[trigger] t.vals@[k] == identity_val(k)
}

impl SoaTransform {
    /// The identity (rest) quartet: zero translation, unit quaternion,
    /// unit scale in every lane.
    pub fn identity() -> (r: SoaTransform)
        ensures
            is_identity_soa(r),
            soa_wf(r),
    {
        let vals: [i64; 40] = [
            0, 0, 0, 0,
            0, 0, 0, 0,
            0, 0, 0, 0,
            0, 0, 0, 0,
            0, 0, 0, 0,
            0, 0, 0, 0,
            SCALE, SCALE, SCALE, SCALE,
            SCALE, SCALE, SCALE, SCALE,
            SCALE, SCALE, SCALE, SCALE,
            SCALE, SCALE, SCALE, SCALE,
        ];
        SoaTransform { vals }
    }
}

/// A buffer of `n` identity records.
pub fn identity_buffer(n: usize) -> (r: Vec<SoaTransform>)
    ensures
        r@.len() == n,
        forall|i: int| 0 <= i < n ==> is_identity_soa(#[trigger] r@[i]),
        buf_wf(r@),
{
    let mut r: Vec<SoaTransform> = Vec::new();
    let ident = SoaTransform::identity();
    let mut i: usize = 0;
    while i < n
        invariant
            i <= n,
            r@.len() == i,
            is_identity_soa(ident),
            soa_wf(ident),
            forall|j: int| 0 <= j < i ==> is_identity_soa(#[trigger] r@[j]),
            buf_wf(r@),
        decreases n - i,
    {
        r.push(ident);
        i = i + 1;
    }
    r
}

/// An exact copy of a buffer.
pub fn copy_buffer(src: &Vec<SoaTransform>) -> (r: Vec<SoaTransform>)
    ensures
        r@ == src@,
{
    let mut r: Vec<SoaTransform> = Vec::new();
    let mut i: usize = 0;
    while i < src.len()
        invariant
            i <= src@.len(),
            r@ == src@.subrange(0, i as int),
        decreases src@.len() - i,
    {
        r.push(src[i]);
        i = i + 1;
    }
    proof {
        assert(r@ =~= src@);
    }
    r
}

/// A fixed-point 3-vector.
#[derive(Clone, Copy, Debug, PartialEq, Eq, Structural)]
pub struct Vec3Fx {
    pub x: i64,
    pub y: i64,
    pub z: i64,
}

/// A fixed-point quaternion, components in x/y/z/w order.
#[derive(Clone, Copy, Debug, PartialEq, Eq, Structural)]
pub struct QuatFx {
    pub x: i64,
    pub y: i64,
    pub z: i64,
    pub w: i64,
}

/// One published joint transform, decoded from the SoA output.
#[derive(Clone, Copy, Debug, PartialEq, Eq, Structural)]
pub struct OzzTransform {
    pub scale: Vec3Fx,
    pub rotation: QuatFx,
    pub position: Vec3Fx,
}

/// The transform of joint `i` as read from a SoA buffer: record `i / 4`,
/// lane `i % 4` of each channel.
pub open spec fn joint_of(buf: Seq<SoaTransform>, i: int) -> OzzTransform {
    let v = buf[i / 4].vals@;
    let l = i % 4;
    (OzzTransform {
        scale: (Vec3Fx { x: v[28 + l], y: v[32 + l], z: v[36 + l] }),
        rotation: (QuatFx { x: v[12 + l], y: v[16 + l], z: v[20 + l], w: v[24 + l] }),
        position: (Vec3Fx { x: v[0 + l], y: v[4 + l], z: v[8 + l] }),
    })
}

/// Decode the transform of joint `i` from a SoA buffer.
pub fn read_joint(buf: &Vec<SoaTransform>, i: usize) -> (r: OzzTransform)
    requires
        i / 4 < buf@.len(),
    ensures
        r == joint_of(buf@, i as int),
{
    let s: usize = i / 4;
    let l: usize = i % 4;
    let v = &buf[s].vals;
    OzzTransform {
        scale: Vec3Fx { x: v[28 + l], y: v[32 + l], z: v[36 + l] },
        rotation: QuatFx { x: v[12 + l], y: v[16 + l], z: v[20 + l], w: v[24 + l] },
        position: Vec3Fx { x: v[0 + l], y: v[4 + l], z: v[8 + l] },
    }
}

} // verus!
