//! Properties of the animator core, stated and proved over the update
//! relations and the component invariants.

use vstd::prelude::*;
use crate::blend_tree::{BlendTree, BlendTreeType, BlendMotionState, MotionData, motion_updated, tree_updated, th1, alpha_of, bary_den, bary_w1, bary_w2, dist2, find_interval, find_tri, tri_inside, nearest_upto, unit_weights, weights_1d_spec, weights_2d_spec};
use crate::blend::is_blended;
use crate::blend_tree::{child_output, tree_entries};
use crate::controller::{AnimatorController, layers_updated, flag_cleared, layer_entries, published_ok};
use crate::layer::{state_exists, state_at, lemma_state_at};
use crate::soa::SoaTransform;
use crate::state::state_output;
use crate::fixed::{SCALE, spec_clamp_nonneg};
use crate::layer::{AnimationLayer, layer_updated, stage_dur, stage_time, stage_fade, stage_complete, stage_next};
use crate::parameters::Parameters;
use crate::state::{AnimationState, SimpleState, simple_updated, state_updated};

verus! {

broadcast use vstd::array::group_array_axioms;

/// A child motion's buffers all have the given SoA length.
pub open spec fn motion_sized(m: BlendMotionState, s: int) -> bool
    decreases m, 0int,
{
    match m {
        BlendMotionState::Animation(st) => st.output@.len() == s,
        BlendMotionState::SubTree(b) => tree_sized(b.blend_tree, s),
    }
}

/// A tree's output buffer and all buffers below it have the given SoA
/// length.
pub open spec fn tree_sized(t: BlendTree, s: int) -> bool
    decreases t, 1int,
{
    &&& t.output@.len() == s
    &&& forall|i: int|
        0 <= i < t.motions@.len() ==> motion_sized((#[trigger] t.motions@[i]).motion, s)
}

/// A state's buffers all have the given SoA length.
pub open spec fn state_sized(st: AnimationState, s: int) -> bool {
    match st {
        AnimationState::Simple(ss) => ss.output@.len() == s,
        AnimationState::Blend(b) => tree_sized(b.blend_tree, s),
    }
}

/// A layer's cross-fade buffer and every buffer of every state have the
/// given SoA length.
pub open spec fn layer_sized(l: AnimationLayer, s: int) -> bool {
    &&& l.blend_job_output@.len() == s
    &&& forall|j: int| 0 <= j < l.states@.len() ==> state_sized((#[trigger] l.states@[j]).1, s)
}

/// Every buffer in every component of the controller has the skeleton's
/// SoA length.
pub open spec fn controller_sized(c: AnimatorController) -> bool {
    &&& c.blending_output@.len() == c.skeleton.spec_num_soa_joints()
    &&& forall|i: int|
        0 <= i < c.layers@.len() ==> layer_sized(
            #[trigger] c.layers@[i],
            c.skeleton.spec_num_soa_joints(),
        )
}

/// An updated child keeps the SoA length of all its buffers.
pub proof fn lemma_motion_updated_sized(
    om: BlendMotionState,
    nm: BlendMotionState,
    elapsed: i64,
    p: Parameters,
    s: int,
)
    requires
        motion_updated(om, nm, elapsed, p),
        motion_sized(om, s),
    ensures
        motion_sized(nm, s),
    decreases om, 0int,
{
    match om {
        BlendMotionState::Animation(os) => {},
        BlendMotionState::SubTree(ob) => {
            lemma_tree_updated_sized(ob.blend_tree, nm->SubTree_0.blend_tree, elapsed, p, s);
        },
    }
}

/// An updated tree keeps the SoA length of all its buffers.
pub proof fn lemma_tree_updated_sized(
    o: BlendTree,
    n: BlendTree,
    elapsed: i64,
    p: Parameters,
    s: int,
)
    requires
        tree_updated(o, n, elapsed, p),
        tree_sized(o, s),
    ensures
        tree_sized(n, s),
    decreases o, 1int,
{
    assert forall|i: int| 0 <= i < n.motions@.len() implies motion_sized(
        (#[trigger] n.motions@[i]).motion,
        s,
    ) by {
        assert(motion_sized(o.motions@[i].motion, s));
        if o.new_weights(p)[i] > 0 {
            assert(motion_updated(o.motions@[i].motion, n.motions@[i].motion, elapsed, p));
            lemma_motion_updated_sized(o.motions@[i].motion, n.motions@[i].motion, elapsed, p, s);
        } else {
            assert(n.motions@[i].motion == o.motions@[i].motion);
        }
    }
}

/// An updated state keeps the SoA length of all its buffers.
pub proof fn lemma_state_updated_sized(
    o: AnimationState,
    n: AnimationState,
    elapsed: i64,
    p: Parameters,
    s: int,
)
    requires
        state_updated(o, n, elapsed, p),
        state_sized(o, s),
    ensures
        state_sized(n, s),
{
    match o {
        AnimationState::Simple(os) => {},
        AnimationState::Blend(ob) => {
            lemma_tree_updated_sized(ob.blend_tree, n->Blend_0.blend_tree, elapsed, p, s);
        },
    }
}

/// An updated layer keeps the SoA length of all its buffers.
pub proof fn lemma_layer_updated_sized(
    o: AnimationLayer,
    n: AnimationLayer,
    dt: i64,
    elapsed: i64,
    p: Parameters,
    s: int,
)
    requires
        layer_updated(o, n, dt, elapsed, p),
        layer_sized(o, s),
    ensures
        layer_sized(n, s),
{
    assert forall|j: int| 0 <= j < n.states@.len() implies state_sized(
        (#[trigger] n.states@[j]).1,
        s,
    ) by {
        assert(state_sized(o.states@[j].1, s));
        if o.states@[j].0@ == o.current_state@ {
            lemma_state_updated_sized(o.states@[j].1, n.states@[j].1, elapsed, p, s);
        } else if stage_fade(o, p, dt) && stage_next(o, p)->Some_0 == o.states@[j].0@ {
            lemma_state_updated_sized(o.states@[j].1, n.states@[j].1, elapsed, p, s);
        } else {
            assert(n.states@[j].1 == o.states@[j].1);
        }
    }
    if stage_fade(o, p, dt) && crate::layer::state_exists(o.states@, o.current_state@) {
        assert(n.blend_job_output@.len() == o.blend_job_output@.len());
    } else {
        assert(n.blend_job_output@ == o.blend_job_output@);
    }
}

/// Every buffer in every component keeps the skeleton's SoA length
/// across a successful controller update.
pub proof fn lemma_update_preserves_sizes(
    c1: AnimatorController,
    c2: AnimatorController,
    dt: i64,
    elapsed: i64,
)
    requires
        controller_sized(c1),
        layers_updated(c1.layers@, c2.layers@, dt, elapsed, c1.parameters),
        c2.skeleton == c1.skeleton,
        c2.blending_output@.len() == c1.skeleton.spec_num_soa_joints(),
    ensures
        controller_sized(c2),
{
    let s = c1.skeleton.spec_num_soa_joints();
    assert forall|i: int| 0 <= i < c2.layers@.len() implies layer_sized(
        #[trigger] c2.layers@[i],
        s,
    ) by {
        assert(layer_sized(c1.layers@[i], s));
        let mid = choose|mid: AnimationLayer|
            layer_updated(c1.layers@[i], mid, dt, elapsed, c1.parameters) && c2.layers@[i]
                == flag_cleared(mid);
        lemma_layer_updated_sized(c1.layers@[i], mid, dt, elapsed, c1.parameters, s);
        assert(layer_sized(c2.layers@[i], s));
    }
}

/// The sum of a weight vector.
pub open spec fn sum_seq(s: Seq<i64>) -> int
    decreases s.len(),
{
    if s.len() == 0 {
        0
    } else {
        sum_seq(s.drop_last()) + s.last()
    }
}

/// Sums of pointwise-equal sequences are equal.
pub proof fn lemma_sum_congruent(a: Seq<i64>, b: Seq<i64>)
    requires
        a.len() == b.len(),
        forall|i: int| 0 <= i < a.len() ==> a[i] == b[i],
    ensures
        sum_seq(a) == sum_seq(b),
    decreases a.len(),
{
    if a.len() > 0 {
        assert(forall|i: int|
            0 <= i < a.drop_last().len() ==> a.drop_last()[i] == a[i] && b.drop_last()[i] == b[i]);
        lemma_sum_congruent(a.drop_last(), b.drop_last());
    }
}

/// The sum of the final blend's weights equals the sum of the layers'
/// base weights: layer weights are not renormalized.
pub proof fn lemma_final_blend_weight_sum(c: AnimatorController)
    requires
        c.wf(),
    ensures
        sum_seq(c.final_weights@) == sum_seq(
            Seq::new(c.layers@.len(), |i: int| c.layers@[i].layer_weight),
        ),
{
    lemma_sum_congruent(
        c.final_weights@,
        Seq::new(c.layers@.len(), |i: int| c.layers@[i].layer_weight),
    );
}

/// After the triggers are cleared, every trigger reads false.
pub proof fn lemma_triggers_consumed(p: Parameters)
    requires
        p.triggers_v() == Map::<Seq<char>, bool>::empty(),
    ensures
        forall|n: Seq<char>| !p.spec_trigger(n),
{
}

/// Within a tick, a blend tree updates a child exactly when that
/// child's new weight is strictly positive; the rest are untouched.
pub proof fn lemma_child_updates_follow_weights(
    o: BlendTree,
    n: BlendTree,
    elapsed: i64,
    p: Parameters,
)
    requires
        tree_updated(o, n, elapsed, p),
    ensures
        forall|i: int|
            0 <= i < o.motions@.len() && o.new_weights(p)[i] > 0 ==> motion_updated(
                (#[trigger] o.motions@[i]).motion,
                n.motions@[i].motion,
                elapsed,
                p,
            ),
        forall|i: int|
            0 <= i < o.motions@.len() && o.new_weights(p)[i] <= 0 ==> (
            #[trigger] n.motions@[i]).motion == o.motions@[i].motion,
{
}

/// A 1D parameter at or below the first threshold gives all weight to
/// the first child.
pub proof fn lemma_weights_1d_low(ms: Seq<MotionData>, v: i64, prev: Seq<i64>)
    requires
        ms.len() >= 1,
        v <= th1(ms[0]),
    ensures
        weights_1d_spec(ms, v, prev) == unit_weights(ms.len() as int, 0),
{
    if ms.len() == 1 {
        assert(weights_1d_spec(ms, v, prev) == unit_weights(1, 0));
    }
}

/// A 1D parameter at or above the last threshold gives all weight to
/// the last child.
pub proof fn lemma_weights_1d_high(ms: Seq<MotionData>, v: i64, prev: Seq<i64>)
    requires
        ms.len() >= 1,
        v >= th1(ms[ms.len() - 1]),
        ms.len() == 1 || v > th1(ms[0]),
    ensures
        weights_1d_spec(ms, v, prev) == unit_weights(ms.len() as int, ms.len() - 1),
{
    if ms.len() == 1 {
        assert(weights_1d_spec(ms, v, prev) == unit_weights(1, 0));
    }
}

/// A transition of zero duration completes within the tick it fires:
/// the layer lands in the target state and no cross-fade runs.
pub proof fn lemma_zero_duration_transition(
    o: AnimationLayer,
    n: AnimationLayer,
    dt: i64,
    elapsed: i64,
    p: Parameters,
)
    requires
        layer_updated(o, n, dt, elapsed, p),
        o.spec_fired(p) is Some,
        spec_clamp_nonneg(o.spec_fired(p)->Some_0.1) == 0,
        0 <= dt,
    ensures
        n.current_state@ == o.spec_fired(p)->Some_0.0,
        n.next_state is None,
        !n.is_transitioning,
        n.blend_job_output@ == o.blend_job_output@,
{
    assert(stage_dur(o, p) == 0);
    assert(stage_time(o, p, dt) >= 0);
    assert(stage_complete(o, p, dt));
    assert(!stage_fade(o, p, dt));
}

/// A 2D tree with fewer than three children gives all weight to the
/// first.
pub proof fn lemma_2d_few_children(ms: Seq<MotionData>, px: i64, py: i64)
    requires
        1 <= ms.len() < 3,
    ensures
        weights_2d_spec(ms, px, py) == unit_weights(ms.len() as int, 0),
{
}

/// When every triangle of thresholds is degenerate, the scan finds none.
proof fn lemma_find_tri_degenerate(ms: Seq<MotionData>, px: i64, py: i64, i: int, j: int, k: int)
    requires
        forall|a: int, b: int, c: int|
            0 <= a < b && b < c && c < ms.len() ==> bary_den(ms, a, b, c) == 0,
        0 <= i < j < k,
    ensures
        find_tri(ms, px, py, i, j, k) is None,
    decreases ms.len() + 3 - i, ms.len() + 3 - j, ms.len() + 3 - k,
{
    if i >= ms.len() {
    } else if j >= ms.len() {
        lemma_find_tri_degenerate(ms, px, py, i + 1, i + 2, i + 3);
    } else if k >= ms.len() {
        lemma_find_tri_degenerate(ms, px, py, i, j + 1, j + 2);
    } else {
        assert(bary_den(ms, i, j, k) == 0);
        assert(!tri_inside(ms, px, py, i, j, k));
        lemma_find_tri_degenerate(ms, px, py, i, j, k + 1);
    }
}

/// A 2D blend whose children are all collinear (every triangle has a
/// zero denominator) falls back to the nearest child.
pub proof fn lemma_2d_degenerate_nearest(ms: Seq<MotionData>, px: i64, py: i64)
    requires
        ms.len() >= 3,
        forall|a: int, b: int, c: int|
            0 <= a < b && b < c && c < ms.len() ==> bary_den(ms, a, b, c) == 0,
    ensures
        weights_2d_spec(ms, px, py) == unit_weights(
            ms.len() as int,
            nearest_upto(ms, px, py, ms.len() as int),
        ),
{
    lemma_find_tri_degenerate(ms, px, py, 0, 1, 2);
}

/// Threshold-for-threshold equal children drive the interval search the
/// same way.
proof fn lemma_find_interval_congruent(
    ms1: Seq<MotionData>,
    ms2: Seq<MotionData>,
    v: i64,
    i: int,
)
    requires
        ms1.len() == ms2.len(),
        forall|x: int|
            0 <= x < ms1.len() ==> (#[trigger] ms1[x]).threshold == ms2[x].threshold,
    ensures
        find_interval(ms1, v, i) == find_interval(ms2, v, i),
    decreases ms1.len() - i,
{
    if i < 0 || i >= ms1.len() - 1 {
    } else {
        lemma_find_interval_congruent(ms1, ms2, v, i + 1);
    }
}

/// Threshold-for-threshold equal children give the same 1D weights, for
/// the same previous weights.
proof fn lemma_weights_1d_congruent(
    ms1: Seq<MotionData>,
    ms2: Seq<MotionData>,
    v: i64,
    prev: Seq<i64>,
)
    requires
        ms1.len() == ms2.len(),
        forall|x: int|
            0 <= x < ms1.len() ==> (#[trigger] ms1[x]).threshold == ms2[x].threshold,
    ensures
        weights_1d_spec(ms1, v, prev) == weights_1d_spec(ms2, v, prev),
{
    lemma_find_interval_congruent(ms1, ms2, v, 0);
    let n = ms1.len() as int;
    if n >= 1 {
        assert(th1(ms1[0]) == th1(ms2[0]));
        assert(th1(ms1[n - 1]) == th1(ms2[n - 1]));
    }
    if n >= 2 && !(v <= th1(ms1[0])) && !(v >= th1(ms1[n - 1])) {
        match find_interval(ms1, v, 0) {
            Some(i) => {
                crate::blend_tree::lemma_find_interval_props(ms1, v, 0, i);
                assert(th1(ms1[i]) == th1(ms2[i]));
                assert(th1(ms1[i + 1]) == th1(ms2[i + 1]));
                assert(alpha_of(ms1, v, i) == alpha_of(ms2, v, i));
                let w1 = weights_1d_spec(ms1, v, prev);
                let w2 = weights_1d_spec(ms2, v, prev);
                assert forall|x: int| 0 <= x < w1.len() implies w1[x] == w2[x] by {}
                assert(w1 =~= w2);
            },
            None => {},
        }
    }
}

/// Threshold-for-threshold equal children drive the triangle search the
/// same way.
proof fn lemma_find_tri_congruent(
    ms1: Seq<MotionData>,
    ms2: Seq<MotionData>,
    px: i64,
    py: i64,
    i: int,
    j: int,
    k: int,
)
    requires
        ms1.len() == ms2.len(),
        forall|x: int|
            0 <= x < ms1.len() ==> (#[trigger] ms1[x]).threshold == ms2[x].threshold,
    ensures
        find_tri(ms1, px, py, i, j, k) == find_tri(ms2, px, py, i, j, k),
    decreases ms1.len() + 3 - i, ms1.len() + 3 - j, ms1.len() + 3 - k,
{
    if i < 0 || j < i || k < j {
    } else if i >= ms1.len() {
    } else if j >= ms1.len() {
        lemma_find_tri_congruent(ms1, ms2, px, py, i + 1, i + 2, i + 3);
    } else if k >= ms1.len() {
        lemma_find_tri_congruent(ms1, ms2, px, py, i, j + 1, j + 2);
    } else {
        assert(bary_den(ms1, i, j, k) == bary_den(ms2, i, j, k));
        assert(tri_inside(ms1, px, py, i, j, k) == tri_inside(ms2, px, py, i, j, k));
        if !tri_inside(ms1, px, py, i, j, k) {
            lemma_find_tri_congruent(ms1, ms2, px, py, i, j, k + 1);
        }
    }
}

/// Threshold-for-threshold equal children agree on the nearest child.
proof fn lemma_nearest_congruent(
    ms1: Seq<MotionData>,
    ms2: Seq<MotionData>,
    px: i64,
    py: i64,
    c: int,
)
    requires
        ms1.len() == ms2.len(),
        forall|x: int|
            0 <= x < ms1.len() ==> (#[trigger] ms1[x]).threshold == ms2[x].threshold,
        c <= ms1.len(),
    ensures
        nearest_upto(ms1, px, py, c) == nearest_upto(ms2, px, py, c),
    decreases c,
{
    if c > 1 {
        lemma_nearest_congruent(ms1, ms2, px, py, c - 1);
        lemma_nearest_bounds(ms1, px, py, c - 1);
        let b = nearest_upto(ms1, px, py, c - 1);
        assert(dist2(ms1, px, py, c - 1) == dist2(ms2, px, py, c - 1));
        assert(dist2(ms1, px, py, b) == dist2(ms2, px, py, b));
    }
}

/// The nearest-child scan stays inside the prefix it scanned.
proof fn lemma_nearest_bounds(ms: Seq<MotionData>, px: i64, py: i64, c: int)
    requires
        c >= 1,
    ensures
        0 <= nearest_upto(ms, px, py, c) < c,
    decreases c,
{
    if c > 1 {
        lemma_nearest_bounds(ms, px, py, c - 1);
    }
}

/// Threshold-for-threshold equal children give the same 2D weights.
proof fn lemma_weights_2d_congruent(ms1: Seq<MotionData>, ms2: Seq<MotionData>, px: i64, py: i64)
    requires
        ms1.len() == ms2.len(),
        forall|x: int|
            0 <= x < ms1.len() ==> (#[trigger] ms1[x]).threshold == ms2[x].threshold,
    ensures
        weights_2d_spec(ms1, px, py) == weights_2d_spec(ms2, px, py),
{
    let n = ms1.len() as int;
    if n >= 3 {
        lemma_find_tri_congruent(ms1, ms2, px, py, 0, 1, 2);
        match find_tri(ms1, px, py, 0, 1, 2) {
            Some(t) => {
                lemma_find_tri_props(ms1, px, py, 0, 1, 2, t);
                assert(ms1[t.0].threshold == ms2[t.0].threshold);
                assert(ms1[t.1].threshold == ms2[t.1].threshold);
                assert(ms1[t.2].threshold == ms2[t.2].threshold);
                let w1 = weights_2d_spec(ms1, px, py);
                let w2 = weights_2d_spec(ms2, px, py);
                assert forall|x: int| 0 <= x < w1.len() implies w1[x] == w2[x] by {
                    assert(bary_w1(ms1, px, py, t.0, t.1, t.2) == bary_w1(
                        ms2,
                        px,
                        py,
                        t.0,
                        t.1,
                        t.2,
                    ));
                    assert(bary_w2(ms1, px, py, t.0, t.1, t.2) == bary_w2(
                        ms2,
                        px,
                        py,
                        t.0,
                        t.1,
                        t.2,
                    ));
                }
                assert(w1 =~= w2);
            },
            None => {
                lemma_nearest_congruent(ms1, ms2, px, py, n);
            },
        }
    }
}

/// What a successful triangle search reports about its result.
proof fn lemma_find_tri_props(
    ms: Seq<MotionData>,
    px: i64,
    py: i64,
    i: int,
    j: int,
    k: int,
    t: (int, int, int),
)
    requires
        find_tri(ms, px, py, i, j, k) == Some(t),
        0 <= i < j < k,
    ensures
        0 <= t.0 < t.1 < t.2 < ms.len(),
    decreases ms.len() + 3 - i, ms.len() + 3 - j, ms.len() + 3 - k,
{
    if i < 0 || j < i || k < j {
    } else if i >= ms.len() {
    } else if j >= ms.len() {
        lemma_find_tri_props(ms, px, py, i + 1, i + 2, i + 3, t);
    } else if k >= ms.len() {
        lemma_find_tri_props(ms, px, py, i, j + 1, j + 2, t);
    } else if tri_inside(ms, px, py, i, j, k) {
    } else {
        lemma_find_tri_props(ms, px, py, i, j, k + 1, t);
    }
}

/// Two parameter stores with the same float map drive the same weights.
pub open spec fn floats_eq(p: Parameters, q: Parameters) -> bool {
    p.floats_v() == q.floats_v()
}

/// An updated tree is a fixed point of the update relation: running the
/// same tick again, under any parameters with the same floats, changes
/// nothing.
pub proof fn lemma_tree_updated_fixed(
    o: BlendTree,
    n: BlendTree,
    elapsed: i64,
    p: Parameters,
    q: Parameters,
)
    requires
        tree_updated(o, n, elapsed, p),
        floats_eq(p, q),
    ensures
        tree_updated(n, n, elapsed, q),
    decreases o, 1int,
{
    assert forall|x: int|
        0 <= x < n.motions@.len() implies (#[trigger] n.motions@[x]).threshold
        == o.motions@[x].threshold by {}
    match o.blend_type {
        BlendTreeType::Simple1D(name) => {
            assert(q.spec_float(name@) == p.spec_float(name@));
            match p.spec_float(name@) {
                Some(v) => {
                    lemma_weights_1d_congruent(n.motions@, o.motions@, v, n.weights@);
                    lemma_weights_1d_congruent(o.motions@, o.motions@, v, n.weights@);
                    // Case on the branch the 1D rule takes: every branch
                    // except the kept-previous ones ignores the previous
                    // weights; in those, the first tick already returned
                    // them unchanged.
                    let ms = o.motions@;
                    let nn = ms.len() as int;
                    if nn == 0 {
                        assert(n.new_weights(q) == n.weights@);
                    } else if nn == 1 {
                    } else if v <= th1(ms[0]) {
                    } else if v >= th1(ms[nn - 1]) {
                    } else {
                        match find_interval(ms, v, 0) {
                            Some(i) => {
                                assert(weights_1d_spec(ms, v, n.weights@) == weights_1d_spec(
                                    ms,
                                    v,
                                    o.weights@,
                                ));
                            },
                            None => {
                                assert(n.weights@ == o.weights@);
                            },
                        }
                    }
                    assert(n.new_weights(q) == n.weights@);
                },
                None => {
                    assert(n.new_weights(q) == n.weights@);
                },
            }
        },
        BlendTreeType::Directional2D(nx, ny) => {
            assert(q.spec_float(nx@) == p.spec_float(nx@));
            assert(q.spec_float(ny@) == p.spec_float(ny@));
            if p.spec_float(nx@) is Some && p.spec_float(ny@) is Some {
                lemma_weights_2d_congruent(
                    n.motions@,
                    o.motions@,
                    p.spec_float(nx@)->Some_0,
                    p.spec_float(ny@)->Some_0,
                );
                assert(n.new_weights(q) == n.weights@);
            } else {
                assert(n.new_weights(q) == n.weights@);
            }
        },
    }
    assert forall|i: int| 0 <= i < n.motions@.len() implies (if n.new_weights(q)[i] > 0 {
        motion_updated((#[trigger] n.motions@[i]).motion, n.motions@[i].motion, elapsed, q)
    } else {
        n.motions@[i].motion == n.motions@[i].motion
    }) by {
        if n.new_weights(q)[i] > 0 {
            assert(o.new_weights(p)[i] > 0);
            assert(motion_updated(o.motions@[i].motion, n.motions@[i].motion, elapsed, p));
            lemma_motion_updated_fixed(
                o.motions@[i].motion,
                n.motions@[i].motion,
                elapsed,
                p,
                q,
            );
        }
    }
}

/// An updated child motion is a fixed point of its update relation.
pub proof fn lemma_motion_updated_fixed(
    om: BlendMotionState,
    nm: BlendMotionState,
    elapsed: i64,
    p: Parameters,
    q: Parameters,
)
    requires
        motion_updated(om, nm, elapsed, p),
        floats_eq(p, q),
    ensures
        motion_updated(nm, nm, elapsed, q),
    decreases om, 0int,
{
    match om {
        BlendMotionState::Animation(os) => {},
        BlendMotionState::SubTree(ob) => {
            lemma_tree_updated_fixed(ob.blend_tree, nm->SubTree_0.blend_tree, elapsed, p, q);
        },
    }
}


/// Blending the same entries twice gives the same buffer.
proof fn lemma_blended_deterministic(
    es: Seq<(i64, Seq<SoaTransform>)>,
    o1: Seq<SoaTransform>,
    o2: Seq<SoaTransform>,
    len: int,
)
    requires
        is_blended(es, o1, len),
        is_blended(es, o2, len),
    ensures
        o1 == o2,
{
    assert forall|s: int| 0 <= s < len implies o1[s] == o2[s] by {
        assert forall|k: int| 0 <= k < 40 implies o1[s].vals@[k] == o2[s].vals@[k] by {}
        assert(o1[s].vals =~= o2[s].vals);
    }
    assert(o1 =~= o2);
}

/// Updating the same child twice for the same tick gives the same
/// output contents.
proof fn lemma_motion_updated_deterministic(
    om: BlendMotionState,
    n1: BlendMotionState,
    n2: BlendMotionState,
    elapsed: i64,
    p: Parameters,
)
    requires
        motion_updated(om, n1, elapsed, p),
        motion_updated(om, n2, elapsed, p),
    ensures
        child_output(n1) == child_output(n2),
    decreases om, 0int,
{
    match om {
        BlendMotionState::Animation(os) => {},
        BlendMotionState::SubTree(ob) => {
            lemma_tree_updated_deterministic(
                ob.blend_tree,
                n1->SubTree_0.blend_tree,
                n2->SubTree_0.blend_tree,
                elapsed,
                p,
            );
        },
    }
}

/// Updating the same tree twice for the same tick gives the same
/// weights and output contents.
proof fn lemma_tree_updated_deterministic(
    o: BlendTree,
    n1: BlendTree,
    n2: BlendTree,
    elapsed: i64,
    p: Parameters,
)
    requires
        tree_updated(o, n1, elapsed, p),
        tree_updated(o, n2, elapsed, p),
    ensures
        n1.output@ == n2.output@,
        n1.weights@ == n2.weights@,
    decreases o, 1int,
{
    assert forall|i: int| 0 <= i < o.motions@.len() implies child_output(
        (#[trigger] n1.motions@[i]).motion,
    ) == child_output(n2.motions@[i].motion) by {
        if o.new_weights(p)[i] > 0 {
            lemma_motion_updated_deterministic(
                o.motions@[i].motion,
                n1.motions@[i].motion,
                n2.motions@[i].motion,
                elapsed,
                p,
            );
        } else {
            assert(n1.motions@[i].motion == o.motions@[i].motion);
            assert(n2.motions@[i].motion == o.motions@[i].motion);
        }
    }
    assert(tree_entries(n1.weights@, n1.motions@) =~= tree_entries(n2.weights@, n2.motions@));
    lemma_blended_deterministic(
        tree_entries(n1.weights@, n1.motions@),
        n1.output@,
        n2.output@,
        o.output@.len() as int,
    );
}

/// An updated state is a fixed point of its update relation under any
/// parameters with the same floats.
pub proof fn lemma_state_updated_fixed(
    o: AnimationState,
    n: AnimationState,
    elapsed: i64,
    p: Parameters,
    q: Parameters,
)
    requires
        state_updated(o, n, elapsed, p),
        floats_eq(p, q),
    ensures
        state_updated(n, n, elapsed, q),
{
    match o {
        AnimationState::Simple(os) => {},
        AnimationState::Blend(ob) => {
            lemma_tree_updated_fixed(ob.blend_tree, n->Blend_0.blend_tree, elapsed, p, q);
        },
    }
}

/// Updating the same state twice for the same tick gives the same
/// output contents.
proof fn lemma_state_updated_deterministic(
    o: AnimationState,
    n1: AnimationState,
    n2: AnimationState,
    elapsed: i64,
    p: Parameters,
)
    requires
        state_updated(o, n1, elapsed, p),
        state_updated(o, n2, elapsed, p),
    ensures
        state_output(n1) == state_output(n2),
{
    match o {
        AnimationState::Simple(os) => {},
        AnimationState::Blend(ob) => {
            lemma_tree_updated_deterministic(
                ob.blend_tree,
                n1->Blend_0.blend_tree,
                n2->Blend_0.blend_tree,
                elapsed,
                p,
            );
        },
    }
}

/// A stable layer republishes the same output when the tick repeats
/// with the same elapsed clock: no transition is pending or fires on
/// either tick, and the parameters' floats are unchanged.
pub proof fn lemma_stable_layer_republishes(
    l0: AnimationLayer,
    mid1: AnimationLayer,
    l1: AnimationLayer,
    mid2: AnimationLayer,
    l2: AnimationLayer,
    dt1: i64,
    dt2: i64,
    elapsed: i64,
    p0: Parameters,
    p1: Parameters,
)
    requires
        l0.wf(),
        !l0.is_transitioning,
        l0.spec_fired(p0) is None,
        layer_updated(l0, mid1, dt1, elapsed, p0),
        l1 == flag_cleared(mid1),
        l1.spec_fired(p1) is None,
        floats_eq(p0, p1),
        layer_updated(l1, mid2, dt2, elapsed, p1),
        l2 == flag_cleared(mid2),
    ensures
        l2.spec_output() == l1.spec_output(),
{
    let cur = l0.current_state@;
    assert(stage_next(l0, p0) is None);
    assert(!l1.is_transitioning);
    assert(l1.current_state@ == cur);
    assert(stage_next(l1, p1) is None);
    assert(!l2.is_transitioning);
    assert(l2.current_state@ == cur);
    assert(l2.blend_job_output@ == l1.blend_job_output@);
    assert forall|x: int, y: int| 0 <= x < y < l1.states@.len() implies (
    #[trigger] l1.states@[x]).0@ != (#[trigger] l1.states@[y]).0@ by {
        assert(l1.states@[x].0 == l0.states@[x].0 && l1.states@[y].0 == l0.states@[y].0);
    }
    assert forall|x: int, y: int| 0 <= x < y < l2.states@.len() implies (
    #[trigger] l2.states@[x]).0@ != (#[trigger] l2.states@[y]).0@ by {
        assert(l2.states@[x].0 == l0.states@[x].0 && l2.states@[y].0 == l0.states@[y].0);
    }
    if state_exists(l1.states@, cur) {
        let j = choose|j: int| 0 <= j < l1.states@.len() && (#[trigger] l1.states@[j]).0@ == cur;
        lemma_state_at(l1.states@, cur, j);
        lemma_state_at(l2.states@, cur, j);
        assert(l0.states@[j].0@ == cur);
        assert(state_updated(l0.states@[j].1, l1.states@[j].1, elapsed, p0));
        assert(state_updated(l1.states@[j].1, l2.states@[j].1, elapsed, p1));
        lemma_state_updated_fixed(l0.states@[j].1, l1.states@[j].1, elapsed, p0, p1);
        lemma_state_updated_deterministic(
            l1.states@[j].1,
            l2.states@[j].1,
            l1.states@[j].1,
            elapsed,
            p1,
        );
        assert(state_exists(l2.states@, cur));
        assert(l2.spec_output() == state_output(l2.states@[j].1));
        assert(l1.spec_output() == state_output(l1.states@[j].1));
    } else {
        assert forall|j: int| 0 <= j < l2.states@.len() implies (#[trigger] l2.states@[j]).0@
            != cur by {
            assert(l1.states@[j].0@ == l2.states@[j].0@);
        }
        assert(!state_exists(l2.states@, cur));
    }
}

/// Repeating an update with the same elapsed clock on a stable graph
/// publishes an identical joint list: no layer is mid-transition, no
/// transition fires on either tick, and the float parameters are
/// unchanged.  `dt` may differ between the ticks; with the second tick
/// at `dt = 0` this is the idempotence of `update(0)`.
pub proof fn lemma_stable_update_republishes(
    c0: AnimatorController,
    c1: AnimatorController,
    c2: AnimatorController,
    dt1: i64,
    dt2: i64,
    elapsed: i64,
)
    requires
        c0.wf(),
        layers_updated(c0.layers@, c1.layers@, dt1, elapsed, c0.parameters),
        is_blended(
            layer_entries(c0.final_weights@, c1.layers@),
            c1.blending_output@,
            c0.skeleton.spec_num_soa_joints(),
        ),
        published_ok(c1.bone_trans@, c1.blending_output@, c0.skeleton.spec_num_joints()),
        floats_eq(c0.parameters, c1.parameters),
        c1.final_weights@ == c0.final_weights@,
        c1.skeleton == c0.skeleton,
        forall|i: int|
            0 <= i < c0.layers@.len() ==> !(#[trigger] c0.layers@[i]).is_transitioning
                && c0.layers@[i].spec_fired(c0.parameters) is None,
        forall|i: int|
            0 <= i < c1.layers@.len() ==> (#[trigger] c1.layers@[i]).spec_fired(
                c1.parameters,
            ) is None,
        layers_updated(c1.layers@, c2.layers@, dt2, elapsed, c1.parameters),
        is_blended(
            layer_entries(c1.final_weights@, c2.layers@),
            c2.blending_output@,
            c1.skeleton.spec_num_soa_joints(),
        ),
        published_ok(c2.bone_trans@, c2.blending_output@, c1.skeleton.spec_num_joints()),
    ensures
        c2.bone_trans@ == c1.bone_trans@,
{
    assert forall|i: int| 0 <= i < c2.layers@.len() implies (#[trigger] c2.layers@[i]).spec_output()
        == c1.layers@[i].spec_output() by {
        let mid1 = choose|mid: AnimationLayer|
            layer_updated(c0.layers@[i], mid, dt1, elapsed, c0.parameters) && c1.layers@[i]
                == flag_cleared(mid);
        let mid2 = choose|mid: AnimationLayer|
            layer_updated(c1.layers@[i], mid, dt2, elapsed, c1.parameters) && c2.layers@[i]
                == flag_cleared(mid);
        lemma_stable_layer_republishes(
            c0.layers@[i],
            mid1,
            c1.layers@[i],
            mid2,
            c2.layers@[i],
            dt1,
            dt2,
            elapsed,
            c0.parameters,
            c1.parameters,
        );
    }
    assert(layer_entries(c1.final_weights@, c2.layers@) =~= layer_entries(
        c0.final_weights@,
        c1.layers@,
    ));
    lemma_blended_deterministic(
        layer_entries(c0.final_weights@, c1.layers@),
        c1.blending_output@,
        c2.blending_output@,
        c0.skeleton.spec_num_soa_joints(),
    );
    assert forall|i: int| 0 <= i < c0.skeleton.spec_num_joints() implies (
    #[trigger] c2.bone_trans@[i]) == c1.bone_trans@[i] by {}
    assert(c2.bone_trans@ =~= c1.bone_trans@);
}

} // verus!
