//! Blend trees.
//!
//! A blend tree combines several child motions — each a sampling state or
//! a nested blend tree — by a weight vector computed from one or two
//! blend parameters.  Weights follow the thresholds attached to the
//! children: 1D trees interpolate between the two thresholds bracketing
//! the parameter; 2D trees use barycentric coordinates over declaration-
//! order triangles of thresholds, falling back to the nearest child when
//! no triangle contains the point.  The arithmetic is exact fixed-point:
//! a triangle is degenerate exactly when its denominator is zero, and no
//! epsilon snapping of near-zero weights is needed, since one unit is
//! already coarser than any such epsilon.

use vstd::prelude::*;
use vstd::arithmetic::mul::lemma_mul_inequality;
use crate::blend::{MAX_BLEND_ENTRIES, entries_view, entries_wf, is_blended, run_blend};
use crate::error::AnimError;
use crate::fixed::{SCALE, FX_MAX, fx_ok, div_trunc, div_trunc_i128, lemma_div_le, lemma_div_nonneg, lemma_mul_abs_bound};
use crate::parameters::Parameters;
use crate::skeleton::Skeleton;
use crate::soa::{SoaTransform, buf_wf, identity_buffer, copy_buffer};
use crate::state::{SimpleState, BlendState, simple_updated};

verus! {

/// How a blend tree turns parameters into weights.
#[derive(Debug, Clone)]
pub enum BlendTreeType {
    /// One-dimensional blending, driven by a single float parameter.
    Simple1D(String),
    /// Two-dimensional blending, driven by two float parameters.
    Directional2D(String, String),
}

/// A motion threshold, matching the blend tree's mode.
#[derive(Debug, Clone, Copy, PartialEq, Eq, Structural)]
pub enum MotionThreshold {
    /// 1D threshold with a single value.
    Simple1D(i64),
    /// 2D threshold with two values.
    Directional2D(i64, i64),
}

/// A child motion: a leaf sampling state or a nested blend tree.
#[derive(Debug)]
pub enum BlendMotionState {
    Animation(SimpleState),
    SubTree(Box<BlendState>),
}

/// A child motion paired with its threshold.
#[derive(Debug)]
pub struct MotionData {
    pub motion: BlendMotionState,
    pub threshold: MotionThreshold,
}

/// The scalar threshold of a 1D child.
pub open spec fn th1(md: MotionData) -> i64 {
    md.threshold->Simple1D_0
}

/// The 2D threshold of a 2D child.
pub open spec fn th2x(md: MotionData) -> i64 {
    md.threshold->Directional2D_0
}

pub open spec fn th2y(md: MotionData) -> i64 {
    md.threshold->Directional2D_1
}

/// Weight vectors hold values in `[0, SCALE]`.
pub open spec fn weights_wf(w: Seq<i64>) -> bool {
    forall|i: int| 0 <= i < w.len() ==> 0 <= #[trigger] w[i] <= SCALE
}

/// Weight `SCALE` on child `j`, zero elsewhere.
pub open spec fn unit_weights(n: int, j: int) -> Seq<i64> {
    Seq::new(n as nat, |i: int| if i == j { SCALE } else { 0i64 })
}

/// The first declaration-order interval `[th(i), th(i+1)]` of positive
/// width that contains `v`, scanning from `i`.
pub open spec fn find_interval(ms: Seq<MotionData>, v: i64, i: int) -> Option<int>
    decreases ms.len() - i,
{
    if i < 0 || i >= ms.len() - 1 {
        None
    } else if th1(ms[i]) <= v && v <= th1(ms[i + 1]) && th1(ms[i]) < th1(ms[i + 1]) {
        Some(i)
    } else {
        find_interval(ms, v, i + 1)
    }
}

/// The interpolation fraction of `v` inside interval `i`, scaled to
/// `[0, SCALE]`.
pub open spec fn alpha_of(ms: Seq<MotionData>, v: i64, i: int) -> int {
    (v - th1(ms[i])) * (SCALE as int) / (th1(ms[i + 1]) - th1(ms[i]))
}

/// The 1D weight rule: one child takes it all; a parameter at or outside
/// the first or last threshold selects that end; otherwise the bracketing
/// interval splits the weight linearly.  Thresholds are taken in
/// declaration order and assumed sorted non-decreasing; if no interval
/// brackets the parameter the previous weights are kept.
pub open spec fn weights_1d_spec(ms: Seq<MotionData>, v: i64, prev: Seq<i64>) -> Seq<i64> {
    let n = ms.len() as int;
    if n == 0 {
        prev
    } else if n == 1 {
        unit_weights(1, 0)
    } else if v <= th1(ms[0]) {
        unit_weights(n, 0)
    } else if v >= th1(ms[n - 1]) {
        unit_weights(n, n - 1)
    } else {
        match find_interval(ms, v, 0) {
            Some(i) => Seq::new(
                n as nat,
                |x: int|
                    if x == i {
                        (SCALE - alpha_of(ms, v, i)) as i64
                    } else if x == i + 1 {
                        alpha_of(ms, v, i) as i64
                    } else {
                        0i64
                    },
            ),
            None => prev,
        }
    }
}

/// Barycentric denominator of the triangle over children `i`, `j`, `k`.
pub open spec fn bary_den(ms: Seq<MotionData>, i: int, j: int, k: int) -> int {
    (th2y(ms[j]) - th2y(ms[k])) * (th2x(ms[i]) - th2x(ms[k])) + (th2x(ms[k]) - th2x(ms[j])) * (
    th2y(ms[i]) - th2y(ms[k]))
}

/// First barycentric coordinate of the point in that triangle, scaled.
pub open spec fn bary_w1(ms: Seq<MotionData>, px: i64, py: i64, i: int, j: int, k: int) -> int {
    div_trunc(
        ((th2y(ms[j]) - th2y(ms[k])) * (px - th2x(ms[k])) + (th2x(ms[k]) - th2x(ms[j])) * (py
            - th2y(ms[k]))) * (SCALE as int),
        bary_den(ms, i, j, k),
    )
}

/// Second barycentric coordinate of the point in that triangle, scaled.
pub open spec fn bary_w2(ms: Seq<MotionData>, px: i64, py: i64, i: int, j: int, k: int) -> int {
    div_trunc(
        ((th2y(ms[k]) - th2y(ms[i])) * (px - th2x(ms[k])) + (th2x(ms[i]) - th2x(ms[k])) * (py
            - th2y(ms[k]))) * (SCALE as int),
        bary_den(ms, i, j, k),
    )
}

/// The triangle over `i`, `j`, `k` contains the point: it is not
/// degenerate and all three barycentric coordinates are non-negative.
pub open spec fn tri_inside(ms: Seq<MotionData>, px: i64, py: i64, i: int, j: int, k: int) -> bool {
    &&& bary_den(ms, i, j, k) != 0
    &&& bary_w1(ms, px, py, i, j, k) >= 0
    &&& bary_w2(ms, px, py, i, j, k) >= 0
    &&& bary_w1(ms, px, py, i, j, k) + bary_w2(ms, px, py, i, j, k) <= SCALE
}

/// The first triple `(i, j, k)`, `i < j < k`, in declaration order whose
/// triangle contains the point, scanning from the given position.
pub open spec fn find_tri(
    ms: Seq<MotionData>,
    px: i64,
    py: i64,
    i: int,
    j: int,
    k: int,
) -> Option<(int, int, int)>
    decreases ms.len() + 3 - i, ms.len() + 3 - j, ms.len() + 3 - k,
{
    if i < 0 || j < i || k < j {
        None
    } else if i >= ms.len() {
        None
    } else if j >= ms.len() {
        find_tri(ms, px, py, i + 1, i + 2, i + 3)
    } else if k >= ms.len() {
        find_tri(ms, px, py, i, j + 1, j + 2)
    } else if tri_inside(ms, px, py, i, j, k) {
        Some((i, j, k))
    } else {
        find_tri(ms, px, py, i, j, k + 1)
    }
}

/// Squared Euclidean distance from the point to child `i`'s threshold.
pub open spec fn dist2(ms: Seq<MotionData>, px: i64, py: i64, i: int) -> int {
    (px - th2x(ms[i])) * (px - th2x(ms[i])) + (py - th2y(ms[i])) * (py - th2y(ms[i]))
}

/// The child among the first `c` whose threshold is nearest the point;
/// the earliest wins ties.
pub open spec fn nearest_upto(ms: Seq<MotionData>, px: i64, py: i64, c: int) -> int
    decreases c,
{
    if c <= 1 {
        0
    } else {
        let b = nearest_upto(ms, px, py, c - 1);
        if dist2(ms, px, py, c - 1) < dist2(ms, px, py, b) {
            c - 1
        } else {
            b
        }
    }
}

/// The 2D weight rule: all weights are recomputed each time.  Fewer than
/// three children give everything to the first; otherwise the first
/// containing triangle takes the barycentric weights, and if none
/// contains the point, the nearest child takes it all.
pub open spec fn weights_2d_spec(ms: Seq<MotionData>, px: i64, py: i64) -> Seq<i64> {
    let n = ms.len() as int;
    if n == 0 {
        Seq::<i64>::empty()
    } else if n < 3 {
        unit_weights(n, 0)
    } else {
        match find_tri(ms, px, py, 0, 1, 2) {
            Some(t) => Seq::new(
                n as nat,
                |x: int|
                    if x == t.0 {
                        bary_w1(ms, px, py, t.0, t.1, t.2) as i64
                    } else if x == t.1 {
                        bary_w2(ms, px, py, t.0, t.1, t.2) as i64
                    } else if x == t.2 {
                        (SCALE - bary_w1(ms, px, py, t.0, t.1, t.2) - bary_w2(
                            ms,
                            px,
                            py,
                            t.0,
                            t.1,
                            t.2,
                        )) as i64
                    } else {
                        0i64
                    },
            ),
            None => unit_weights(n, nearest_upto(ms, px, py, n)),
        }
    }
}

/// The scalar threshold of a 1D child.
fn th1_exec(md: &MotionData) -> (t: i64)
    requires
        md.threshold is Simple1D,
    ensures
        t == th1(*md),
{
    match md.threshold {
        MotionThreshold::Simple1D(t) => t,
        MotionThreshold::Directional2D(_, _) => 0,
    }
}

/// The 2D threshold of a 2D child.
fn th2_exec(md: &MotionData) -> (t: (i64, i64))
    requires
        md.threshold is Directional2D,
    ensures
        t.0 == th2x(*md),
        t.1 == th2y(*md),
{
    match md.threshold {
        MotionThreshold::Simple1D(_) => (0, 0),
        MotionThreshold::Directional2D(x, y) => (x, y),
    }
}

/// Thresholds all match the 1D mode and are in range.
pub open spec fn thresholds_1d_ok(ms: Seq<MotionData>) -> bool {
    forall|i: int|
        0 <= i < ms.len() ==> (#[trigger] ms[i]).threshold is Simple1D && fx_ok(th1(ms[i]))
}

/// Thresholds all match the 2D mode and are in range.
pub open spec fn thresholds_2d_ok(ms: Seq<MotionData>) -> bool {
    forall|i: int|
        0 <= i < ms.len() ==> (#[trigger] ms[i]).threshold is Directional2D && fx_ok(th2x(ms[i]))
            && fx_ok(th2y(ms[i]))
}

/// Scan for the first bracketing interval, from position `i`.
fn find_interval_exec(ms: &Vec<MotionData>, v: i64, i: usize) -> (r: Option<usize>)
    requires
        thresholds_1d_ok(ms@),
    ensures
        match r {
            Some(x) => find_interval(ms@, v, i as int) == Some(x as int) && x + 1 < ms@.len(),
            None => find_interval(ms@, v, i as int) is None,
        },
    decreases ms@.len() - i,
{
    if i >= ms.len() {
        return None;
    }
    if i + 1 >= ms.len() {
        return None;
    }
    let a = th1_exec(&ms[i]);
    let b = th1_exec(&ms[i + 1]);
    if a <= v && v <= b && a < b {
        Some(i)
    } else {
        find_interval_exec(ms, v, i + 1)
    }
}

/// Compute the 1D weight vector for parameter value `v`.
pub fn compute_weights_1d(ms: &Vec<MotionData>, v: i64, prev: &Vec<i64>) -> (r: Vec<i64>)
    requires
        thresholds_1d_ok(ms@),
        fx_ok(v),
        prev@.len() == ms@.len(),
        weights_wf(prev@),
    ensures
        r@ == weights_1d_spec(ms@, v, prev@),
        r@.len() == ms@.len(),
        weights_wf(r@),
{
    let n = ms.len();
    let mut r: Vec<i64> = Vec::new();
    if n == 0 {
        proof {
            assert(r@ =~= prev@);
        }
        return r;
    }
    if n == 1 {
        r.push(SCALE);
        proof {
            assert(r@ =~= unit_weights(1, 0));
        }
        return r;
    }
    let t0 = th1_exec(&ms[0]);
    let tl = th1_exec(&ms[n - 1]);
    if v <= t0 {
        return unit_weights_exec(n, 0);
    }
    if v >= tl {
        return unit_weights_exec(n, n - 1);
    }
    match find_interval_exec(ms, v, 0) {
        Some(i) => {
            proof {
                lemma_find_interval_props(ms@, v, 0, i as int);
            }
            let a = th1_exec(&ms[i]);
            let b = th1_exec(&ms[i + 1]);
            proof {
                lemma_mul_inequality((v - a) as int, (b - a) as int, SCALE as int);
                lemma_div_le((v - a) * (SCALE as int), (b - a) as int, SCALE as int);
                lemma_div_nonneg((v - a) * (SCALE as int), (b - a) as int);
            }
            let num: u128 = ((v - a) as u128) * (SCALE as u128);
            let den: u128 = (b - a) as u128;
            let alpha: i64 = (num / den) as i64;
            assert(alpha == alpha_of(ms@, v, i as int));
            let ghost target = weights_1d_spec(ms@, v, prev@);
            let mut x: usize = 0;
            while x < n
                invariant
                    x <= n,
                    n == ms@.len(),
                    i + 1 < n,
                    0 <= alpha <= SCALE,
                    alpha == alpha_of(ms@, v, i as int),
                    target == weights_1d_spec(ms@, v, prev@),
                    target == Seq::new(
                        n as nat,
                        |y: int|
                            if y == i {
                                (SCALE - alpha_of(ms@, v, i as int)) as i64
                            } else if y == i + 1 {
                                alpha_of(ms@, v, i as int) as i64
                            } else {
                                0i64
                            },
                    ),
                    r@.len() == x,
                    forall|y: int| 0 <= y < x ==> r@[y] == target[y],
                    weights_wf(r@),
                decreases n - x,
            {
                if x == i {
                    r.push(SCALE - alpha);
                } else if x == i + 1 {
                    r.push(alpha);
                } else {
                    r.push(0);
                }
                x = x + 1;
            }
            proof {
                assert(r@ =~= target);
            }
            r
        },
        None => {
            let mut x: usize = 0;
            while x < n
                invariant
                    x <= n,
                    n == prev@.len(),
                    r@ =~= prev@.take(x as int),
                decreases n - x,
            {
                r.push(prev[x]);
                x = x + 1;
            }
            proof {
                assert(r@ =~= prev@);
            }
            r
        },
    }
}

/// What a successful interval search reports about its result.
pub proof fn lemma_find_interval_props(ms: Seq<MotionData>, v: i64, j: int, i: int)
    requires
        find_interval(ms, v, j) == Some(i),
        0 <= j,
    ensures
        j <= i,
        i + 1 < ms.len(),
        th1(ms[i]) <= v <= th1(ms[i + 1]),
        th1(ms[i]) < th1(ms[i + 1]),
    decreases ms.len() - j,
{
    if j >= ms.len() - 1 {
    } else if th1(ms[j]) <= v && v <= th1(ms[j + 1]) && th1(ms[j]) < th1(ms[j + 1]) {
    } else {
        lemma_find_interval_props(ms, v, j + 1, i);
    }
}

/// Barycentric evaluation of the point against the triangle over
/// children `i`, `j`, `k`: the denominator and the first two scaled
/// coordinates.
fn bary_eval(ms: &Vec<MotionData>, px: i64, py: i64, i: usize, j: usize, k: usize) -> (r: (
    i128,
    i128,
    i128,
))
    requires
        thresholds_2d_ok(ms@),
        fx_ok(px),
        fx_ok(py),
        i < ms@.len(),
        j < ms@.len(),
        k < ms@.len(),
    ensures
        r.0 == bary_den(ms@, i as int, j as int, k as int),
        r.0 != 0 ==> r.1 == bary_w1(ms@, px, py, i as int, j as int, k as int),
        r.0 != 0 ==> r.2 == bary_w2(ms@, px, py, i as int, j as int, k as int),
{
    let (x1, y1) = th2_exec(&ms[i]);
    let (x2, y2) = th2_exec(&ms[j]);
    let (x3, y3) = th2_exec(&ms[k]);
    proof {
        lemma_mul_abs_bound((y2 - y3) as int, (x1 - x3) as int, 2 * FX_MAX as int, 2 * FX_MAX as int);
        lemma_mul_abs_bound((x3 - x2) as int, (y1 - y3) as int, 2 * FX_MAX as int, 2 * FX_MAX as int);
        lemma_mul_abs_bound((y2 - y3) as int, (px - x3) as int, 2 * FX_MAX as int, 2 * FX_MAX as int);
        lemma_mul_abs_bound((x3 - x2) as int, (py - y3) as int, 2 * FX_MAX as int, 2 * FX_MAX as int);
        lemma_mul_abs_bound((y3 - y1) as int, (px - x3) as int, 2 * FX_MAX as int, 2 * FX_MAX as int);
        lemma_mul_abs_bound((x1 - x3) as int, (py - y3) as int, 2 * FX_MAX as int, 2 * FX_MAX as int);
    }
    let den: i128 = ((y2 - y3) as i128) * ((x1 - x3) as i128) + ((x3 - x2) as i128) * ((y1 - y3)
        as i128);
    if den == 0 {
        return (0, 0, 0);
    }
    let n1: i128 = ((y2 - y3) as i128) * ((px - x3) as i128) + ((x3 - x2) as i128) * ((py - y3)
        as i128);
    let n2: i128 = ((y3 - y1) as i128) * ((px - x3) as i128) + ((x1 - x3) as i128) * ((py - y3)
        as i128);
    proof {
        lemma_mul_abs_bound(
            n1 as int,
            SCALE as int,
            8 * FX_MAX as int * FX_MAX as int,
            SCALE as int,
        );
        lemma_mul_abs_bound(
            n2 as int,
            SCALE as int,
            8 * FX_MAX as int * FX_MAX as int,
            SCALE as int,
        );
    }
    let w1 = div_trunc_i128(n1 * (SCALE as i128), den);
    let w2 = div_trunc_i128(n2 * (SCALE as i128), den);
    (den, w1, w2)
}

/// Squared distance from the point to child `c`'s threshold.
fn dist2_exec(ms: &Vec<MotionData>, px: i64, py: i64, c: usize) -> (r: i128)
    requires
        thresholds_2d_ok(ms@),
        fx_ok(px),
        fx_ok(py),
        c < ms@.len(),
    ensures
        r == dist2(ms@, px, py, c as int),
{
    let (x, y) = th2_exec(&ms[c]);
    proof {
        lemma_mul_abs_bound((px - x) as int, (px - x) as int, 2 * FX_MAX as int, 2 * FX_MAX as int);
        lemma_mul_abs_bound((py - y) as int, (py - y) as int, 2 * FX_MAX as int, 2 * FX_MAX as int);
    }
    ((px - x) as i128) * ((px - x) as i128) + ((py - y) as i128) * ((py - y) as i128)
}

/// Compute the 2D weight vector for the parameter point `(px, py)`.
pub fn compute_weights_2d(ms: &Vec<MotionData>, px: i64, py: i64) -> (r: Vec<i64>)
    requires
        thresholds_2d_ok(ms@),
        fx_ok(px),
        fx_ok(py),
    ensures
        r@ == weights_2d_spec(ms@, px, py),
        r@.len() == ms@.len(),
        weights_wf(r@),
{
    let n = ms.len();
    if n == 0 {
        let r: Vec<i64> = Vec::new();
        proof {
            assert(r@ =~= weights_2d_spec(ms@, px, py));
        }
        return r;
    }
    if n < 3 {
        return unit_weights_exec(n, 0);
    }
    let mut i: usize = 0;
    while i < n
        invariant
            i <= n,
            n == ms@.len(),
            3 <= n,
            thresholds_2d_ok(ms@),
            fx_ok(px),
            fx_ok(py),
            find_tri(ms@, px, py, 0, 1, 2) == find_tri(ms@, px, py, i as int, i + 1, i + 2),
        decreases n - i,
    {
        let mut j: usize = i + 1;
        while j < n
            invariant
                i < n,
                i + 1 <= j <= n,
                n == ms@.len(),
                3 <= n,
                thresholds_2d_ok(ms@),
                fx_ok(px),
                fx_ok(py),
                find_tri(ms@, px, py, 0, 1, 2) == find_tri(ms@, px, py, i as int, j as int, j + 1),
            decreases n - j,
        {
            let mut k: usize = j + 1;
            while k < n
                invariant
                    i < j < k <= n,
                    j < n,
                    i < n,
                    n == ms@.len(),
                    3 <= n,
                    thresholds_2d_ok(ms@),
                    fx_ok(px),
                    fx_ok(py),
                    find_tri(ms@, px, py, 0, 1, 2) == find_tri(
                        ms@,
                        px,
                        py,
                        i as int,
                        j as int,
                        k as int,
                    ),
                decreases n - k,
            {
                let (den, w1, w2) = bary_eval(ms, px, py, i, j, k);
                if den != 0 && w1 >= 0 && w2 >= 0 && w1 <= SCALE as i128 && w2 <= SCALE as i128
                    && w1 + w2 <= SCALE as i128 {
                    assert(tri_inside(ms@, px, py, i as int, j as int, k as int));
                    assert(find_tri(ms@, px, py, 0, 1, 2) == Some(
                        (i as int, j as int, k as int),
                    ));
                    let ghost target = weights_2d_spec(ms@, px, py);
                    let w1e: i64 = w1 as i64;
                    let w2e: i64 = w2 as i64;
                    let w3e: i64 = SCALE - w1e - w2e;
                    let mut r: Vec<i64> = Vec::new();
                    let mut x: usize = 0;
                    while x < n
                        invariant
                            x <= n,
                            n == ms@.len(),
                            i < j < k < n,
                            0 <= w1e,
                            0 <= w2e,
                            w1e + w2e <= SCALE,
                            w3e == SCALE - w1e - w2e,
                            w1e == bary_w1(ms@, px, py, i as int, j as int, k as int),
                            w2e == bary_w2(ms@, px, py, i as int, j as int, k as int),
                            target == weights_2d_spec(ms@, px, py),
                            find_tri(ms@, px, py, 0, 1, 2) == Some((i as int, j as int, k as int)),
                            target == Seq::new(
                                n as nat,
                                |y: int|
                                    if y == i {
                                        w1e
                                    } else if y == j {
                                        w2e
                                    } else if y == k {
                                        w3e
                                    } else {
                                        0i64
                                    },
                            ),
                            r@.len() == x,
                            forall|y: int| 0 <= y < x ==> r@[y] == target[y],
                            weights_wf(r@),
                        decreases n - x,
                    {
                        if x == i {
                            r.push(w1e);
                        } else if x == j {
                            r.push(w2e);
                        } else if x == k {
                            r.push(w3e);
                        } else {
                            r.push(0);
                        }
                        x = x + 1;
                    }
                    proof {
                        assert(r@ =~= target);
                    }
                    return r;
                }
                proof {
                    assert(!tri_inside(ms@, px, py, i as int, j as int, k as int));
                }
                k = k + 1;
            }
            j = j + 1;
        }
        i = i + 1;
    }
    assert(find_tri(ms@, px, py, 0, 1, 2) is None);
    let mut best: usize = 0;
    let mut bd: i128 = dist2_exec(ms, px, py, 0);
    let mut c: usize = 1;
    while c < n
        invariant
            1 <= c <= n,
            n == ms@.len(),
            thresholds_2d_ok(ms@),
            fx_ok(px),
            fx_ok(py),
            best < c,
            best as int == nearest_upto(ms@, px, py, c as int),
            bd == dist2(ms@, px, py, best as int),
        decreases n - c,
    {
        let d = dist2_exec(ms, px, py, c);
        if d < bd {
            best = c;
            bd = d;
        }
        c = c + 1;
    }
    unit_weights_exec(n, best)
}

/// The weight vector that gives everything to child `j`.
fn unit_weights_exec(n: usize, j: usize) -> (r: Vec<i64>)
    requires
        j < n,
    ensures
        r@ == unit_weights(n as int, j as int),
        r@.len() == n,
        weights_wf(r@),
{
    let mut r: Vec<i64> = Vec::new();
    let mut x: usize = 0;
    while x < n
        invariant
            x <= n,
            j < n,
            r@.len() == x,
            forall|y: int| 0 <= y < x ==> r@[y] == unit_weights(n as int, j as int)[y],
            weights_wf(r@),
        decreases n - x,
    {
        if x == j {
            r.push(SCALE);
        } else {
            r.push(0);
        }
        x = x + 1;
    }
    proof {
        assert(r@ =~= unit_weights(n as int, j as int));
    }
    r
}

/// A blend tree: a mode, its children with thresholds, the current
/// weight vector and an owned output buffer of stable length.
#[derive(Debug)]
pub struct BlendTree {
    pub blend_type: BlendTreeType,
    pub motions: Vec<MotionData>,
    pub weights: Vec<i64>,
    pub output: Vec<SoaTransform>,
}

/// A child motion is well formed.
pub open spec fn motion_wf(m: BlendMotionState) -> bool
    decreases m,
{
    match m {
        BlendMotionState::Animation(s) => s.wf(),
        BlendMotionState::SubTree(b) => b.blend_tree.wf(),
    }
}

/// The contents of a child motion's output buffer.
pub open spec fn child_output(m: BlendMotionState) -> Seq<SoaTransform> {
    match m {
        BlendMotionState::Animation(s) => s.output@,
        BlendMotionState::SubTree(b) => b.blend_tree.output@,
    }
}

impl BlendTree {
    /// Structure and bounds: one weight per child in `[0, SCALE]`,
    /// thresholds matching the mode and in range, children recursively
    /// well formed.
    pub open spec fn wf(self) -> bool
        decreases self,
    {
        &&& self.weights@.len() == self.motions@.len()
        &&& weights_wf(self.weights@)
        &&& buf_wf(self.output@)
        &&& self.motions@.len() <= MAX_BLEND_ENTRIES
        &&& match self.blend_type {
            BlendTreeType::Simple1D(_) => thresholds_1d_ok(self.motions@),
            BlendTreeType::Directional2D(_, _) => thresholds_2d_ok(self.motions@),
        }
        &&& forall|i: int|
            0 <= i < self.motions@.len() ==> motion_wf((#[trigger] self.motions@[i]).motion)
    }

    /// The weight vector this tree would adopt under the given
    /// parameters: absent parameters leave the previous weights in
    /// place.
    pub open spec fn new_weights(self, p: Parameters) -> Seq<i64> {
        match self.blend_type {
            BlendTreeType::Simple1D(name) => match p.spec_float(name@) {
                Some(v) => weights_1d_spec(self.motions@, v, self.weights@),
                None => self.weights@,
            },
            BlendTreeType::Directional2D(nx, ny) => {
                if p.spec_float(nx@) is Some && p.spec_float(ny@) is Some {
                    weights_2d_spec(
                        self.motions@,
                        p.spec_float(nx@)->Some_0,
                        p.spec_float(ny@)->Some_0,
                    )
                } else {
                    self.weights@
                }
            },
        }
    }
}

/// The blend entries a tree hands its blending job: each child's output
/// buffer under its weight, in declaration order.
pub open spec fn tree_entries(ws: Seq<i64>, ms: Seq<MotionData>) -> Seq<(i64, Seq<SoaTransform>)> {
    Seq::new(ms.len(), |i: int| (ws[i], child_output(ms[i].motion)))
}

/// The error a child motion would report this tick, if any.
pub open spec fn motion_err(m: BlendMotionState, p: Parameters) -> Option<AnimError>
    decreases m, 0int,
{
    match m {
        BlendMotionState::Animation(s) => if s.clip.samplable(s.output@.len() as int) {
            None
        } else {
            Some(AnimError::SamplingFailed)
        },
        BlendMotionState::SubTree(b) => tree_err(b.blend_tree, p),
    }
}

/// The first error among the active children, scanning from `i`.
pub open spec fn children_err(t: BlendTree, p: Parameters, w: Seq<i64>, i: int) -> Option<
    AnimError,
>
    decreases t, t.motions@.len() - i,
{
    if i < 0 || i >= t.motions@.len() {
        None
    } else {
        let e = if w[i] > 0 {
            motion_err(t.motions@[i].motion, p)
        } else {
            None
        };
        if e is Some {
            e
        } else {
            children_err(t, p, w, i + 1)
        }
    }
}

/// The error a tree update would report this tick: the first error of an
/// active child in declaration order, else a blend size mismatch, else
/// none.
pub open spec fn tree_err(t: BlendTree, p: Parameters) -> Option<AnimError>
    decreases t, t.motions@.len() + 2,
{
    match children_err(t, p, t.new_weights(p), 0) {
        Some(e) => Some(e),
        None => {
            if exists|i: int|
                0 <= i < t.motions@.len() && child_output((#[trigger] t.motions@[i]).motion).len()
                    != t.output@.len() {
                Some(AnimError::BlendFailed)
            } else {
                None
            }
        },
    }
}

/// How a successful child update relates the new child to the old one.
pub open spec fn motion_updated(
    om: BlendMotionState,
    nm: BlendMotionState,
    elapsed: i64,
    p: Parameters,
) -> bool
    decreases om, 0int,
{
    match om {
        BlendMotionState::Animation(os) => nm matches BlendMotionState::Animation(ns)
            && simple_updated(os, ns, elapsed),
        BlendMotionState::SubTree(ob) => nm matches BlendMotionState::SubTree(nb) && tree_updated(
            ob.blend_tree,
            nb.blend_tree,
            elapsed,
            p,
        ),
    }
}

/// How a successful tree update relates the new tree to the old one:
/// the weights are recomputed from the parameters, exactly the children
/// with positive weight are updated, and the output buffer is the blend
/// of the children's buffers under the new weights.
pub open spec fn tree_updated(o: BlendTree, n: BlendTree, elapsed: i64, p: Parameters) -> bool
    decreases o, o.motions@.len() + 2,
{
    &&& n.blend_type == o.blend_type
    &&& n.motions@.len() == o.motions@.len()
    &&& n.weights@ == o.new_weights(p)
    &&& forall|i: int|
        0 <= i < o.motions@.len() ==> (#[trigger] n.motions@[i]).threshold
            == o.motions@[i].threshold
    &&& forall|i: int|
        0 <= i < o.motions@.len() ==> if o.new_weights(p)[i] > 0 {
            motion_updated(o.motions@[i].motion, (#[trigger] n.motions@[i]).motion, elapsed, p)
        } else {
            n.motions@[i].motion == o.motions@[i].motion
        }
    &&& n.output@.len() == o.output@.len()
    &&& is_blended(tree_entries(n.weights@, n.motions@), n.output@, o.output@.len() as int)
}

/// An exact copy of a weight vector.
pub fn copy_weights(src: &Vec<i64>) -> (r: Vec<i64>)
    ensures
        r@ == src@,
{
    let mut r: Vec<i64> = Vec::new();
    let mut i: usize = 0;
    while i < src.len()
        invariant
            i <= src@.len(),
            r@ == src@.subrange(0, i as int),
        decreases src@.len() - i,
    {
        r.push(src[i]);
        i = i + 1;
    }
    proof {
        assert(r@ =~= src@);
    }
    r
}

/// The output buffer of a child motion.
fn motion_output(m: &BlendMotionState) -> (r: &Vec<SoaTransform>)
    ensures
        r@ == child_output(*m),
{
    match m {
        BlendMotionState::Animation(s) => &s.output,
        BlendMotionState::SubTree(b) => &b.blend_tree.output,
    }
}

/// If no active child reports an error from `0`, none does from any
/// position.
proof fn lemma_children_err_none(t: BlendTree, p: Parameters, w: Seq<i64>, i: int)
    requires
        children_err(t, p, w, 0) is None,
        0 <= i < t.motions@.len(),
        w[i] > 0,
    ensures
        motion_err(t.motions@[i].motion, p) is None,
    decreases i,
{
    lemma_children_err_none_from(t, p, w, 0, i);
}

/// Scanning from `j <= i` with no error implies child `i` is error-free.
proof fn lemma_children_err_none_from(t: BlendTree, p: Parameters, w: Seq<i64>, j: int, i: int)
    requires
        children_err(t, p, w, j) is None,
        0 <= j <= i < t.motions@.len(),
        w[i] > 0,
    ensures
        motion_err(t.motions@[i].motion, p) is None,
    decreases i - j,
{
    if j < i {
        lemma_children_err_none_from(t, p, w, j + 1, i);
    }
}

impl BlendTree {
    /// Build a tree over the given children; one blend entry per child,
    /// initially with weight zero, and an output buffer sized for the
    /// skeleton.
    pub fn new(skeleton: &Skeleton, blend_type: BlendTreeType, motions: Vec<MotionData>) -> (r:
        BlendTree)
        requires
            skeleton.wf(),
            motions@.len() <= MAX_BLEND_ENTRIES,
            match blend_type {
                BlendTreeType::Simple1D(_) => thresholds_1d_ok(motions@),
                BlendTreeType::Directional2D(_, _) => thresholds_2d_ok(motions@),
            },
            forall|i: int| 0 <= i < motions@.len() ==> motion_wf((#[trigger] motions@[i]).motion),
        ensures
            r.wf(),
            r.blend_type == blend_type,
            r.motions@ == motions@,
            r.weights@.len() == motions@.len(),
            forall|i: int| 0 <= i < r.weights@.len() ==> (#[trigger] r.weights@[i]) == 0,
            r.output@.len() == skeleton.spec_num_soa_joints(),
    {
        let n = motions.len();
        let mut weights: Vec<i64> = Vec::new();
        let mut i: usize = 0;
        while i < n
            invariant
                i <= n,
                weights@.len() == i,
                forall|j: int| 0 <= j < i ==> (#[trigger] weights@[j]) == 0,
            decreases n - i,
        {
            weights.push(0);
            i = i + 1;
        }
        let output = identity_buffer(skeleton.num_soa_joints());
        BlendTree { blend_type, motions, weights, output }
    }

    /// The weight vector this tree would adopt under the parameters.
    fn compute_new_weights(&self, params: &Parameters) -> (w: Vec<i64>)
        requires
            self.wf(),
            params.wf(),
        ensures
            w@ == self.new_weights(*params),
            w@.len() == self.motions@.len(),
            weights_wf(w@),
    {
        match &self.blend_type {
            BlendTreeType::Simple1D(name) => {
                match params.get_float(name.as_str()) {
                    Some(v) => compute_weights_1d(&self.motions, v, &self.weights),
                    None => copy_weights(&self.weights),
                }
            },
            BlendTreeType::Directional2D(nx, ny) => {
                let x = params.get_float(nx.as_str());
                let y = params.get_float(ny.as_str());
                match (x, y) {
                    (Some(px), Some(py)) => compute_weights_2d(&self.motions, px, py),
                    _ => copy_weights(&self.weights),
                }
            },
        }
    }

    /// Check whether this tick's update would fail, without touching
    /// anything.
    pub(crate) fn check_update(&self, params: &Parameters) -> (r: Option<AnimError>)
        requires
            self.wf(),
            params.wf(),
        ensures
            r == tree_err(*self, *params),
        decreases *self,
    {
        let w = self.compute_new_weights(params);
        let n = self.motions.len();
        let mut i: usize = 0;
        while i < n
            invariant
                i <= n,
                n == self.motions@.len(),
                self.wf(),
                params.wf(),
                w@ == self.new_weights(*params),
                children_err(*self, *params, w@, 0) == children_err(*self, *params, w@, i as int),
            decreases n - i,
        {
            if w[i] > 0 {
                let e: Option<AnimError> = match &self.motions[i].motion {
                    BlendMotionState::Animation(s) => {
                        if s.check_samplable() {
                            None
                        } else {
                            Some(AnimError::SamplingFailed)
                        }
                    },
                    BlendMotionState::SubTree(b) => {
                        proof {
                            assert(motion_wf(self.motions@[i as int].motion));
                        }
                        b.blend_tree.check_update(params)
                    },
                };
                if let Some(err) = e {
                    assert(motion_err(self.motions@[i as int].motion, *params) == Some(err));
                    assert(children_err(*self, *params, w@, i as int) == Some(err));
                    return Some(err);
                }
                assert(motion_err(self.motions@[i as int].motion, *params) is None);
            }
            assert(children_err(*self, *params, w@, i as int) == children_err(
                *self,
                *params,
                w@,
                i + 1,
            ));
            i = i + 1;
        }
        assert(children_err(*self, *params, w@, 0) is None);
        let out_len = self.output.len();
        let mut j: usize = 0;
        while j < n
            invariant
                j <= n,
                n == self.motions@.len(),
                out_len == self.output@.len(),
                children_err(*self, *params, self.new_weights(*params), 0) is None,
                forall|x: int|
                    0 <= x < j ==> child_output((#[trigger] self.motions@[x]).motion).len()
                        == out_len,
            decreases n - j,
        {
            if motion_output(&self.motions[j].motion).len() != out_len {
                proof {
                    assert(child_output(self.motions@[j as int].motion).len() != out_len as int);
                }
                return Some(AnimError::BlendFailed);
            }
            j = j + 1;
        }
        assert(!(exists|i: int|
            0 <= i < self.motions@.len() && child_output((#[trigger] self.motions@[i]).motion).len()
                != self.output@.len()));
        None
    }

    /// Perform a validated update: recompute weights, update the active
    /// children, and run the blend into the output buffer.
    fn apply(&mut self, elapsed: i64, params: &Parameters)
        requires
            old(self).wf(),
            params.wf(),
            tree_err(*old(self), *params) is None,
        ensures
            final(self).wf(),
            tree_updated(*old(self), *final(self), elapsed, *params),
        decreases *old(self),
    {
        let w = self.compute_new_weights(params);
        let ghost w0 = w@;
        self.weights = w;
        let n = self.motions.len();
        let mut i: usize = 0;
        while i < n
            invariant
                i <= n,
                n == self.motions@.len(),
                n == old(self).motions@.len(),
                params.wf(),
                old(self).wf(),
                tree_err(*old(self), *params) is None,
                w0 == old(self).new_weights(*params),
                weights_wf(w0),
                w0.len() == n,
                self.blend_type == old(self).blend_type,
                self.weights@ == w0,
                self.output@ == old(self).output@,
                forall|j: int| i <= j < n ==> (#[trigger] self.motions@[j]) == old(self).motions@[j],
                forall|j: int|
                    0 <= j < i ==> (#[trigger] self.motions@[j]).threshold
                        == old(self).motions@[j].threshold,
                forall|j: int|
                    0 <= j < i ==> if w0[j] > 0 {
                        motion_updated(
                            old(self).motions@[j].motion,
                            (#[trigger] self.motions@[j]).motion,
                            elapsed,
                            *params,
                        )
                    } else {
                        self.motions@[j].motion == old(self).motions@[j].motion
                    },
                forall|j: int|
                    0 <= j < n ==> motion_wf((#[trigger] self.motions@[j]).motion),
                forall|j: int|
                    0 <= j < n ==> child_output((#[trigger] self.motions@[j]).motion).len()
                        == child_output(old(self).motions@[j].motion).len(),
            decreases n - i,
        {
            let wi = self.weights[i];
            if wi > 0 {
                proof {
                    lemma_children_err_none(*old(self), *params, w0, i as int);
                    assert(motion_err(old(self).motions@[i as int].motion, *params) is None);
                }
                let md = &mut self.motions[i];
                match &mut md.motion {
                    BlendMotionState::Animation(s) => {
                        let res = s.update(elapsed);
                        proof {
                            if res is Err {
                                assert(false);
                            }
                        }
                    },
                    BlendMotionState::SubTree(b) => {
                        proof {
                            assert(tree_err(b.blend_tree, *params) is None);
                        }
                        b.blend_tree.apply(elapsed, params);
                    },
                }
            }
            i = i + 1;
        }
        let out_len = self.output.len();
        let mut entries: Vec<(i64, Vec<SoaTransform>)> = Vec::new();
        let mut j: usize = 0;
        while j < n
            invariant
                j <= n,
                n == self.motions@.len(),
                n == old(self).motions@.len(),
                n <= MAX_BLEND_ENTRIES,
                out_len == self.output@.len(),
                out_len == old(self).output@.len(),
                self.weights@ == w0,
                w0.len() == n,
                weights_wf(w0),
                entries@.len() == j,
                forall|x: int|
                    0 <= x < j ==> (#[trigger] entries@[x]).0 == w0[x] && entries@[x].1@
                        == child_output(self.motions@[x].motion),
                forall|x: int|
                    0 <= x < n ==> motion_wf((#[trigger] self.motions@[x]).motion),
                forall|x: int|
                    0 <= x < n ==> child_output((#[trigger] self.motions@[x]).motion).len()
                        == child_output(old(self).motions@[x].motion).len(),
                tree_err(*old(self), *params) is None,
            decreases n - j,
        {
            let wj = self.weights[j];
            let buf = copy_buffer(motion_output(&self.motions[j].motion));
            entries.push((wj, buf));
            j = j + 1;
        }
        proof {
            assert forall|x: int| 0 <= x < n implies child_output(
                (#[trigger] old(self).motions@[x]).motion,
            ).len() == out_len by {
                assert(!(exists|y: int|
                    0 <= y < old(self).motions@.len() && child_output(
                        (#[trigger] old(self).motions@[y]).motion,
                    ).len() != old(self).output@.len()));
            }
            assert forall|x: int| 0 <= x < n implies buf_wf(
                child_output((#[trigger] self.motions@[x]).motion),
            ) by {
                assert(motion_wf(self.motions@[x].motion));
                match self.motions@[x].motion {
                    BlendMotionState::Animation(s) => {},
                    BlendMotionState::SubTree(b) => {},
                }
            }
            assert(entries_wf(entries_view(entries@), out_len as int));
        }
        let blended = run_blend(&entries, out_len);
        self.output = blended;
        proof {
            assert(entries_view(entries@) =~= tree_entries(self.weights@, self.motions@));
            assert(tree_updated(*old(self), *self, elapsed, *params));
        }
    }

    /// Evaluate the tree for this tick: recompute weights from the
    /// parameters, update exactly the children with positive weight, and
    /// blend their outputs into this tree's buffer.  On error nothing is
    /// changed.
    pub fn update(&mut self, elapsed: i64, params: &Parameters) -> (r: Result<(), AnimError>)
        requires
            old(self).wf(),
            params.wf(),
        ensures
            final(self).wf(),
            match r {
                Ok(()) => tree_err(*old(self), *params) is None && tree_updated(
                    *old(self),
                    *final(self),
                    elapsed,
                    *params,
                ),
                Err(e) => tree_err(*old(self), *params) == Some(e) && *final(self) == *old(self),
            },
    {
        if let Some(e) = self.check_update(params) {
            return Err(e);
        }
        self.apply(elapsed, params);
        Ok(())
    }

    /// The tree's current child weights.
    pub fn weights(&self) -> (r: &Vec<i64>)
        ensures
            r@ == self.weights@,
    {
        &self.weights
    }

    /// The tree's stable output buffer.
    pub fn get_output_pointer(&self) -> (r: &Vec<SoaTransform>)
        ensures
            r@ == self.output@,
    {
        &self.output
    }
}

} // verus!
