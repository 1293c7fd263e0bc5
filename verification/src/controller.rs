//! The animator controller.
//!
//! An ordered stack of layers with per-layer weights, a final blending
//! step over the layers' outputs, and a published per-joint transform
//! list decoded from the final SoA buffer.  The final blend keeps one
//! entry per layer, in layer order, whose weight is the layer's base
//! weight at the time the entry was built; layer weights are not
//! renormalized.  Additive layers are declared but not supported: an
//! update over a stack containing one fails with
//! `AdditiveNotSupported` and refreshes nothing.

use vstd::prelude::*;
use crate::blend::{MAX_BLEND_ENTRIES, entries_view, entries_wf, is_blended, run_blend};
use crate::error::AnimError;
use crate::fixed::SCALE;
use crate::layer::{AnimationLayer, LayerBlendType, layer_err, layer_updated, lemma_state_at};
use crate::parameters::Parameters;
use crate::skeleton::Skeleton;
use crate::soa::{SoaTransform, OzzTransform, buf_wf, identity_buffer, copy_buffer, joint_of, read_joint};

verus! {

pub struct AnimatorController {
    /// The shared skeleton.
    pub skeleton: Skeleton,
    /// Animation layers, in composition order.
    pub layers: Vec<AnimationLayer>,
    /// Parameters for the animator.
    pub parameters: Parameters,
    /// The final blend's weight per layer, fixed when the entry is
    /// built.
    pub final_weights: Vec<i64>,
    /// The final blend's output buffer.
    pub blending_output: Vec<SoaTransform>,
    /// The published per-joint transforms, refreshed after each
    /// successful update.
    pub bone_trans: Vec<OzzTransform>,
}

/// Some layer uses the Additive blend type.
pub open spec fn has_additive(ls: Seq<AnimationLayer>) -> bool {
    exists|i: int|
        0 <= i < ls.len() && (#[trigger] ls[i]).layer_blend_type == LayerBlendType::Additive
}

/// The first error any layer would report this tick, scanning from `i`.
pub open spec fn layers_err(ls: Seq<AnimationLayer>, p: Parameters, dt: i64, i: int) -> Option<
    AnimError,
>
    decreases ls.len() - i,
{
    if i < 0 || i >= ls.len() {
        None
    } else {
        match layer_err(ls[i], p, dt) {
            Some(e) => Some(e),
            None => layers_err(ls, p, dt, i + 1),
        }
    }
}

/// A layer with its output-changed flag cleared.
pub open spec fn flag_cleared(l: AnimationLayer) -> AnimationLayer {
    AnimationLayer { output_source_changed: false, ..l }
}

/// Every layer was updated for the tick and had its flag cleared by the
/// rebinding pass.
pub open spec fn layers_updated(
    ols: Seq<AnimationLayer>,
    nls: Seq<AnimationLayer>,
    dt: i64,
    elapsed: i64,
    p: Parameters,
) -> bool {
    &&& nls.len() == ols.len()
    &&& forall|i: int|
        0 <= i < ols.len() ==> exists|mid: AnimationLayer|
            layer_updated(ols[i], mid, dt, elapsed, p) && (#[trigger] nls[i]) == flag_cleared(mid)
}

/// The final blend's inputs: each layer's output under its cached
/// weight, in layer order.
pub open spec fn layer_entries(ws: Seq<i64>, ls: Seq<AnimationLayer>) -> Seq<(
    i64,
    Seq<SoaTransform>,
)> {
    Seq::new(ls.len(), |i: int| (ws[i], ls[i].spec_output()))
}

/// The published joint list decodes the buffer, one entry per joint.
pub open spec fn published_ok(bt: Seq<OzzTransform>, buf: Seq<SoaTransform>, j: int) -> bool {
    &&& bt.len() == j
    &&& forall|i: int| 0 <= i < j ==> (#[trigger] bt[i]) == joint_of(buf, i)
}

impl AnimatorController {
    /// Consistent composition state: well-formed pieces, one cached
    /// final-blend weight per layer equal to that layer's base weight,
    /// and a final buffer sized for the skeleton.
    pub open spec fn wf(self) -> bool {
        &&& self.skeleton.wf()
        &&& self.parameters.wf()
        &&& self.layers@.len() <= MAX_BLEND_ENTRIES
        &&& forall|i: int| 0 <= i < self.layers@.len() ==> (#[trigger] self.layers@[i]).wf()
        &&& self.final_weights@.len() == self.layers@.len()
        &&& forall|i: int|
            0 <= i < self.layers@.len() ==> (#[trigger] self.final_weights@[i])
                == self.layers@[i].layer_weight
        &&& buf_wf(self.blending_output@)
        &&& self.blending_output@.len() == self.skeleton.spec_num_soa_joints()
    }

    /// Create a controller over the given layers, with one final-blend
    /// entry per layer carrying the layer's base weight.
    pub fn new(skeleton: Skeleton, layers: Vec<AnimationLayer>, parameters: Parameters) -> (r:
        AnimatorController)
        requires
            skeleton.wf(),
            parameters.wf(),
            layers@.len() <= MAX_BLEND_ENTRIES,
            forall|i: int| 0 <= i < layers@.len() ==> (#[trigger] layers@[i]).wf(),
        ensures
            r.wf(),
            r.skeleton == skeleton,
            r.layers == layers,
            r.parameters == parameters,
            r.bone_trans@.len() == 0,
            r.blending_output@.len() == skeleton.spec_num_soa_joints(),
            forall|i: int|
                0 <= i < layers@.len() ==> (#[trigger] r.final_weights@[i])
                    == layers@[i].layer_weight,
    {
        let n = layers.len();
        let mut final_weights: Vec<i64> = Vec::new();
        let mut i: usize = 0;
        while i < n
            invariant
                i <= n,
                n == layers@.len(),
                forall|j: int| 0 <= j < layers@.len() ==> (#[trigger] layers@[j]).wf(),
                final_weights@.len() == i,
                forall|j: int|
                    0 <= j < i ==> (#[trigger] final_weights@[j]) == layers@[j].layer_weight,
            decreases n - i,
        {
            final_weights.push(layers[i].layer_weight);
            i = i + 1;
        }
        let blending_output = identity_buffer(skeleton.num_soa_joints());
        AnimatorController {
            skeleton,
            layers,
            parameters,
            final_weights,
            blending_output,
            bone_trans: Vec::new(),
        }
    }

    /// Append a layer; its final-blend entry carries its current base
    /// weight.
    pub fn add_layer(&mut self, layer: AnimationLayer)
        requires
            old(self).wf(),
            layer.wf(),
            old(self).layers@.len() < MAX_BLEND_ENTRIES,
        ensures
            final(self).wf(),
            final(self).layers@ == old(self).layers@.push(layer),
            final(self).final_weights@ == old(self).final_weights@.push(layer.layer_weight),
            final(self).parameters == old(self).parameters,
            final(self).skeleton == old(self).skeleton,
            final(self).blending_output == old(self).blending_output,
            final(self).bone_trans == old(self).bone_trans,
    {
        self.final_weights.push(layer.layer_weight);
        self.layers.push(layer);
    }

    /// Rebuild the final blend's entries from the current layers,
    /// failing fast on an Additive layer.
    pub fn build_blending_layers(&mut self) -> (r: Result<(), AnimError>)
        requires
            old(self).wf(),
        ensures
            final(self).wf(),
            final(self).layers == old(self).layers,
            final(self).parameters == old(self).parameters,
            final(self).skeleton == old(self).skeleton,
            final(self).blending_output == old(self).blending_output,
            final(self).bone_trans == old(self).bone_trans,
            match r {
                Ok(()) => !has_additive(old(self).layers@),
                Err(e) => e == AnimError::AdditiveNotSupported && has_additive(old(self).layers@)
                    && *final(self) == *old(self),
            },
    {
        if self.find_additive() {
            return Err(AnimError::AdditiveNotSupported);
        }
        let n = self.layers.len();
        let mut final_weights: Vec<i64> = Vec::new();
        let mut i: usize = 0;
        while i < n
            invariant
                i <= n,
                n == self.layers@.len(),
                self.wf(),
                final_weights@.len() == i,
                forall|j: int|
                    0 <= j < i ==> (#[trigger] final_weights@[j]) == self.layers@[j].layer_weight,
            decreases n - i,
        {
            final_weights.push(self.layers[i].layer_weight);
            i = i + 1;
        }
        self.final_weights = final_weights;
        Ok(())
    }

    /// Whether any layer uses the Additive blend type.
    fn find_additive(&self) -> (r: bool)
        ensures
            r == has_additive(self.layers@),
    {
        let n = self.layers.len();
        let mut i: usize = 0;
        while i < n
            invariant
                i <= n,
                n == self.layers@.len(),
                forall|j: int|
                    0 <= j < i ==> (#[trigger] self.layers@[j]).layer_blend_type
                        != LayerBlendType::Additive,
            decreases n - i,
        {
            match self.layers[i].layer_blend_type {
                LayerBlendType::Additive => {
                    return true;
                },
                LayerBlendType::Override => {},
            }
            i = i + 1;
        }
        false
    }

    /// Decode the final blend's output into the published per-joint
    /// transform list: for joint `i`, record `i / 4`, lane `i % 4`.
    pub fn update_bones(&mut self)
        requires
            old(self).wf(),
        ensures
            final(self).wf(),
            *final(self) == (AnimatorController { bone_trans: final(self).bone_trans, ..*old(self) }),
            published_ok(
                final(self).bone_trans@,
                old(self).blending_output@,
                old(self).skeleton.spec_num_joints(),
            ),
    {
        let j = self.skeleton.num_joints();
        let mut bones: Vec<OzzTransform> = Vec::new();
        let mut i: usize = 0;
        while i < j
            invariant
                i <= j,
                j == self.skeleton.spec_num_joints(),
                self.blending_output@.len() == self.skeleton.spec_num_soa_joints(),
                j <= crate::skeleton::MAX_JOINTS,
                bones@.len() == i,
                forall|x: int| 0 <= x < i ==> (#[trigger] bones@[x]) == joint_of(
                    self.blending_output@,
                    x,
                ),
            decreases j - i,
        {
            let t = read_joint(&self.blending_output, i);
            bones.push(t);
            i = i + 1;
        }
        self.bone_trans = bones;
    }

    /// Advance the whole controller one tick.
    ///
    /// The additive check comes first; then every layer is validated,
    /// so a failing tick leaves the layers untouched.  Whatever the
    /// outcome, pending triggers are consumed: they are cleared before
    /// the update returns.  The published joint list is refreshed only
    /// on success; on failure downstream consumers keep the previous
    /// tick's transforms.
    pub fn update(&mut self, dt: i64, elapsed: i64) -> (r: Result<(), AnimError>)
        requires
            old(self).wf(),
            0 <= dt,
        ensures
            final(self).wf(),
            final(self).skeleton == old(self).skeleton,
            final(self).final_weights == old(self).final_weights,
            final(self).parameters.triggers_v() == Map::<Seq<char>, bool>::empty(),
            final(self).parameters.bools_v() == old(self).parameters.bools_v(),
            final(self).parameters.floats_v() == old(self).parameters.floats_v(),
            final(self).parameters.ints_v() == old(self).parameters.ints_v(),
            has_additive(old(self).layers@) ==> r == Err::<(), AnimError>(
                AnimError::AdditiveNotSupported,
            ) && final(self).layers == old(self).layers && final(self).blending_output
                == old(self).blending_output && final(self).bone_trans == old(self).bone_trans,
            !has_additive(old(self).layers@) && layers_err(
                old(self).layers@,
                old(self).parameters,
                dt,
                0,
            ) is Some ==> r == Err::<(), AnimError>(
                layers_err(old(self).layers@, old(self).parameters, dt, 0)->Some_0,
            ) && final(self).layers == old(self).layers && final(self).blending_output
                == old(self).blending_output && final(self).bone_trans == old(self).bone_trans,
            !has_additive(old(self).layers@) && layers_err(
                old(self).layers@,
                old(self).parameters,
                dt,
                0,
            ) is None ==> {
                &&& layers_updated(
                    old(self).layers@,
                    final(self).layers@,
                    dt,
                    elapsed,
                    old(self).parameters,
                )
                &&& match r {
                    Ok(()) => {
                        &&& is_blended(
                            layer_entries(old(self).final_weights@, final(self).layers@),
                            final(self).blending_output@,
                            old(self).skeleton.spec_num_soa_joints(),
                        )
                        &&& published_ok(
                            final(self).bone_trans@,
                            final(self).blending_output@,
                            old(self).skeleton.spec_num_joints(),
                        )
                    },
                    Err(e) => {
                        &&& e == AnimError::BlendFailed
                        &&& exists|i: int|
                            0 <= i < final(self).layers@.len() && (
                            #[trigger] final(self).layers@[i]).spec_output().len()
                                != old(self).skeleton.spec_num_soa_joints()
                        &&& final(self).blending_output == old(self).blending_output
                        &&& final(self).bone_trans == old(self).bone_trans
                    },
                }
            },
    {
        let ghost o = *old(self);
        if self.find_additive() {
            self.parameters.reset_triggers();
            return Err(AnimError::AdditiveNotSupported);
        }
        let n = self.layers.len();
        let mut i: usize = 0;
        while i < n
            invariant
                i <= n,
                n == self.layers@.len(),
                self.wf(),
                *self == *old(self),
                0 <= dt,
                !has_additive(self.layers@),
                layers_err(self.layers@, self.parameters, dt, 0) == layers_err(
                    self.layers@,
                    self.parameters,
                    dt,
                    i as int,
                ),
            decreases n - i,
        {
            if let Some(e) = self.layers[i].check_update(dt, &self.parameters) {
                proof {
                    assert(layers_err(self.layers@, self.parameters, dt, i as int) == Some(e));
                }
                self.parameters.reset_triggers();
                return Err(e);
            }
            i = i + 1;
        }
        proof {
            assert(layers_err(o.layers@, o.parameters, dt, 0) is None);
        }
        i = 0;
        while i < n
            invariant
                i <= n,
                n == self.layers@.len(),
                n == o.layers@.len(),
                n <= MAX_BLEND_ENTRIES,
                0 <= dt,
                o.wf(),
                o == *old(self),
                !has_additive(o.layers@),
                layers_err(o.layers@, o.parameters, dt, 0) is None,
                self.parameters == o.parameters,
                self.skeleton == o.skeleton,
                self.final_weights == o.final_weights,
                self.blending_output == o.blending_output,
                self.bone_trans == o.bone_trans,
                forall|j: int| i <= j < n ==> (#[trigger] self.layers@[j]) == o.layers@[j],
                forall|j: int|
                    0 <= j < i ==> exists|mid: AnimationLayer|
                        layer_updated(o.layers@[j], mid, dt, elapsed, o.parameters) && (
                        #[trigger] self.layers@[j]) == flag_cleared(mid),
                forall|j: int| 0 <= j < n ==> (#[trigger] self.layers@[j]).wf(),
                forall|j: int|
                    0 <= j < n ==> (#[trigger] self.layers@[j]).layer_weight
                        == o.layers@[j].layer_weight,
            decreases n - i,
        {
            proof {
                lemma_layers_err_none(o.layers@, o.parameters, dt, i as int);
                assert(layer_err(self.layers@[i as int], o.parameters, dt) is None);
            }
            let layers_ref = &mut self.layers;
            let params_ref = &self.parameters;
            let res = layers_ref[i].update(dt, elapsed, params_ref);
            proof {
                if res is Err {
                    assert(false);
                }
            }
            if self.layers[i].has_output_changed() {
                self.layers[i].clear_output_changed();
            }
            proof {
                let mid = AnimationLayer {
                    output_source_changed: true,
                    ..self.layers@[i as int]
                };
                if layer_updated(o.layers@[i as int], mid, dt, elapsed, o.parameters) {
                    assert(self.layers@[i as int] == flag_cleared(mid));
                    assert(exists|m: AnimationLayer|
                        layer_updated(o.layers@[i as int], m, dt, elapsed, o.parameters)
                            && self.layers@[i as int] == flag_cleared(m));
                } else {
                    let mid2 = AnimationLayer {
                        output_source_changed: false,
                        ..self.layers@[i as int]
                    };
                    assert(self.layers@[i as int] == flag_cleared(mid2));
                    assert(layer_updated(o.layers@[i as int], mid2, dt, elapsed, o.parameters));
                    assert(exists|m: AnimationLayer|
                        layer_updated(o.layers@[i as int], m, dt, elapsed, o.parameters)
                            && self.layers@[i as int] == flag_cleared(m));
                }
            }
            i = i + 1;
        }
        self.parameters.reset_triggers();
        let out_len = self.blending_output.len();
        let mut entries: Vec<(i64, Vec<SoaTransform>)> = Vec::new();
        let mut k: usize = 0;
        while k < n
            invariant
                k <= n,
                n == self.layers@.len(),
                n == self.final_weights@.len(),
                n <= MAX_BLEND_ENTRIES,
                out_len == self.blending_output@.len(),
                o == *old(self),
                o.wf(),
                0 <= dt,
                !has_additive(o.layers@),
                layers_err(o.layers@, o.parameters, dt, 0) is None,
                layers_updated(o.layers@, self.layers@, dt, elapsed, o.parameters),
                self.skeleton == o.skeleton,
                self.final_weights == o.final_weights,
                self.blending_output == o.blending_output,
                self.bone_trans == o.bone_trans,
                self.parameters.wf(),
                self.parameters.triggers_v() == Map::<Seq<char>, bool>::empty(),
                self.parameters.bools_v() == o.parameters.bools_v(),
                self.parameters.floats_v() == o.parameters.floats_v(),
                self.parameters.ints_v() == o.parameters.ints_v(),
                out_len == o.skeleton.spec_num_soa_joints(),
                forall|j: int| 0 <= j < n ==> (#[trigger] self.layers@[j]).wf(),
                forall|j: int|
                    0 <= j < n ==> (#[trigger] self.layers@[j]).layer_weight
                        == o.layers@[j].layer_weight,
                forall|j: int|
                    0 <= j < n ==> 0 <= (#[trigger] self.final_weights@[j]) <= SCALE,
                entries@.len() == k,
                forall|j: int|
                    0 <= j < k ==> (#[trigger] entries@[j]).0 == self.final_weights@[j]
                        && entries@[j].1@ == self.layers@[j].spec_output(),
                forall|j: int| 0 <= j < k ==> entries@[j].1@.len() == out_len as int,
            decreases n - k,
        {
            let w = self.final_weights[k];
            let buf = copy_buffer(self.layers[k].get_output_pointer());
            if buf.len() != out_len {
                proof {
                    assert(self.layers@[k as int].spec_output().len() != out_len as int);
                }
                return Err(AnimError::BlendFailed);
            }
            entries.push((w, buf));
            k = k + 1;
        }
        proof {
            assert forall|j: int| 0 <= j < n implies buf_wf(
                (#[trigger] entries@[j]).1@,
            ) by {
                lemma_layer_output_wf(self.layers@[j]);
            }
            assert(entries_wf(entries_view(entries@), out_len as int));
        }
        let out = run_blend(&entries, out_len);
        self.blending_output = out;
        proof {
            assert(entries_view(entries@) =~= layer_entries(o.final_weights@, self.layers@));
        }
        self.update_bones();
        Ok(())
    }
}

/// If no layer reports an error from `0`, none does from any position.
proof fn lemma_layers_err_none(ls: Seq<AnimationLayer>, p: Parameters, dt: i64, i: int)
    requires
        layers_err(ls, p, dt, 0) is None,
        0 <= i < ls.len(),
    ensures
        layer_err(ls[i], p, dt) is None,
    decreases i,
{
    lemma_layers_err_none_from(ls, p, dt, 0, i);
}

proof fn lemma_layers_err_none_from(ls: Seq<AnimationLayer>, p: Parameters, dt: i64, j: int, i: int)
    requires
        layers_err(ls, p, dt, j) is None,
        0 <= j <= i < ls.len(),
    ensures
        layer_err(ls[i], p, dt) is None,
    decreases i - j,
{
    if j < i {
        lemma_layers_err_none_from(ls, p, dt, j + 1, i);
    }
}

/// A well-formed layer exposes a well-formed output buffer.
proof fn lemma_layer_output_wf(l: AnimationLayer)
    requires
        l.wf(),
    ensures
        buf_wf(l.spec_output()),
{
    if !l.is_transitioning && crate::layer::state_exists(l.states@, l.current_state@) {
        let k = l.current_state@;
        let j = choose|j: int| 0 <= j < l.states@.len() && (#[trigger] l.states@[j]).0@ == k;
        lemma_state_at(l.states@, k, j);
        match crate::layer::state_at(l.states@, k) {
            crate::state::AnimationState::Simple(st) => {},
            crate::state::AnimationState::Blend(b) => {},
        }
    }
}

} // verus!
