//! Animation layers.
//!
//! A layer runs one state at a time, fires guarded transitions, and plays
//! a fired transition out as a timed cross-fade into an owned output
//! buffer.  Transitions are keyed by the from-state name and walked in
//! declaration order; all of a transition's conditions must hold, and a
//! transition naming a missing state is skipped.  Equality of float
//! parameters is exact: one fixed-point unit is already coarser than any
//! useful comparison tolerance.

use vstd::prelude::*;
use crate::assoc::{amap, keys_distinct, assoc_find, assoc_set, lemma_amap_index, lemma_amap_absent, lemma_amap_update, lemma_amap_push};
use crate::blend::{entries_view, entries_wf, is_blended, run_blend, MAX_BLEND_ENTRIES};
use crate::error::AnimError;
use crate::fixed::{SCALE, FX_MAX, fx_ok, spec_clamp_nonneg, spec_clamp_int, fx_clamp_nonneg, lemma_div_le, lemma_div_nonneg};
use crate::parameters::Parameters;
use crate::skeleton::Skeleton;
use crate::soa::{SoaTransform, buf_wf, identity_buffer, copy_buffer};
use crate::state::{AnimationState, state_output, state_err, state_updated};
use vstd::arithmetic::mul::lemma_mul_inequality;

verus! {

/// The type of blending a layer contributes to the final composition.
#[derive(Debug, Clone, Copy, PartialEq, Eq, Structural)]
pub enum LayerBlendType {
    Override,
    Additive,
}

/// How a condition compares a parameter against its reference value.
#[derive(Debug, Clone, Copy, PartialEq, Eq, Structural)]
pub enum CompareType {
    Greater,
    Less,
    Equals,
    NotEqual,
}

/// Condition for state transitions; conditions of a transition are ANDed.
#[derive(Debug, Clone)]
pub enum TransitionCondition {
    Bool(String, bool),
    Float(String, i64, CompareType),
    Int(String, i32, CompareType),
    Trigger(String),
}

/// A guarded edge of the state machine.  `has_exit_time` and `exit_time`
/// are carried but not evaluated; they are reserved.
#[derive(Debug)]
pub struct Transition {
    pub to_state: String,
    pub duration: i64,
    pub conditions: Vec<TransitionCondition>,
    pub has_exit_time: bool,
    pub exit_time: i64,
}

pub open spec fn cmp_i64(a: i64, b: i64, c: CompareType) -> bool {
    match c {
        CompareType::Greater => a > b,
        CompareType::Less => a < b,
        CompareType::Equals => a == b,
        CompareType::NotEqual => a != b,
    }
}

pub open spec fn cmp_i32(a: i32, b: i32, c: CompareType) -> bool {
    match c {
        CompareType::Greater => a > b,
        CompareType::Less => a < b,
        CompareType::Equals => a == b,
        CompareType::NotEqual => a != b,
    }
}

/// When a condition holds: a missing parameter makes it false, never an
/// error.
pub open spec fn cond_true(c: TransitionCondition, p: Parameters) -> bool {
    match c {
        TransitionCondition::Bool(n, v) => p.bools_v().contains_key(n@) && p.bools_v()[n@] == v,
        TransitionCondition::Float(n, v, ct) => p.spec_float(n@) is Some && cmp_i64(
            p.spec_float(n@)->Some_0,
            v,
            ct,
        ),
        TransitionCondition::Int(n, v, ct) => p.ints_v().contains_key(n@) && cmp_i32(
            p.ints_v()[n@],
            v,
            ct,
        ),
        TransitionCondition::Trigger(n) => p.spec_trigger(n@),
    }
}

pub open spec fn conds_true(cs: Seq<TransitionCondition>, p: Parameters) -> bool {
    forall|i: int| 0 <= i < cs.len() ==> cond_true(#[trigger] cs[i], p)
}

/// A state of the given name exists.
pub open spec fn state_exists(ss: Seq<(String, AnimationState)>, k: Seq<char>) -> bool {
    exists|j: int| 0 <= j < ss.len() && (#[trigger] ss[j]).0@ == k
}

/// The state stored under a name (well defined when keys are distinct).
pub open spec fn state_at(ss: Seq<(String, AnimationState)>, k: Seq<char>) -> AnimationState {
    ss[choose|j: int| 0 <= j < ss.len() && (#[trigger] ss[j]).0@ == k].1
}

/// The first transition in the list, scanning from `i`, whose conditions
/// all hold and whose target state exists.
pub open spec fn first_fired(
    ts: Seq<Transition>,
    ss: Seq<(String, AnimationState)>,
    p: Parameters,
    i: int,
) -> Option<int>
    decreases ts.len() - i,
{
    if i < 0 || i >= ts.len() {
        None
    } else if conds_true(ts[i].conditions@, p) && state_exists(ss, ts[i].to_state@) {
        Some(i)
    } else {
        first_fired(ts, ss, p, i + 1)
    }
}

/// The name view of an optional state name.
pub open spec fn opt_name(o: Option<String>) -> Option<Seq<char>> {
    match o {
        Some(s) => Some(s@),
        None => None,
    }
}

/// Represents a layer in the animator.
#[derive(Debug)]
pub struct AnimationLayer {
    pub name: String,
    pub layer_blend_type: LayerBlendType,
    pub layer_weight: i64,
    pub default_state_name: String,
    pub states: Vec<(String, AnimationState)>,
    pub transitions: Vec<(String, Vec<Transition>)>,
    pub current_state: String,
    pub next_state: Option<String>,
    pub transition_time: i64,
    pub transition_duration: i64,
    pub is_transitioning: bool,
    pub blend_job_output: Vec<SoaTransform>,
    pub output_source_changed: bool,
}

impl AnimationLayer {
    /// Distinct state and transition keys, well-formed states, weights
    /// and clocks in range, and a consistent transition triple: the layer
    /// is mid-transition exactly when a next state is recorded, and that
    /// state exists.
    pub open spec fn wf(self) -> bool {
        &&& keys_distinct(self.states@)
        &&& keys_distinct(self.transitions@)
        &&& 0 <= self.layer_weight <= SCALE
        &&& buf_wf(self.blend_job_output@)
        &&& forall|j: int| 0 <= j < self.states@.len() ==> (#[trigger] self.states@[j]).1.wf()
        &&& 0 <= self.transition_time <= FX_MAX
        &&& 0 <= self.transition_duration <= FX_MAX
        &&& (self.is_transitioning <==> self.next_state is Some)
        &&& (self.next_state matches Some(nm) ==> state_exists(self.states@, nm@))
    }

    /// The transition list for a from-state, as a map view.
    pub open spec fn trans_map(self) -> Map<Seq<char>, Vec<Transition>> {
        amap(self.transitions@)
    }

    /// The states as a map view.
    pub open spec fn states_map(self) -> Map<Seq<char>, AnimationState> {
        amap(self.states@)
    }

    /// The transition the layer fires this tick, if any: none while
    /// already transitioning, else the first declaration-order transition
    /// from the current state whose conditions hold and whose target
    /// exists.  Reported as the target's name and the duration.
    pub open spec fn spec_fired(self, p: Parameters) -> Option<(Seq<char>, i64)> {
        if self.is_transitioning {
            None
        } else if !state_exists_trans(self.transitions@, self.current_state@) {
            None
        } else {
            let ts = trans_at(self.transitions@, self.current_state@)@;
            match first_fired(ts, self.states@, p, 0) {
                Some(i) => Some((ts[i].to_state@, ts[i].duration)),
                None => None,
            }
        }
    }

    /// The contents of the buffer `get_output_pointer` exposes: the
    /// cross-fade buffer while transitioning or when the current state is
    /// missing, else the current state's output.
    pub open spec fn spec_output(self) -> Seq<SoaTransform> {
        if self.is_transitioning {
            self.blend_job_output@
        } else if state_exists(self.states@, self.current_state@) {
            state_output(state_at(self.states@, self.current_state@))
        } else {
            self.blend_job_output@
        }
    }
}

/// A transition list under the given from-state name exists.
pub open spec fn state_exists_trans(ts: Seq<(String, Vec<Transition>)>, k: Seq<char>) -> bool {
    exists|j: int| 0 <= j < ts.len() && (#[trigger] ts[j]).0@ == k
}

/// The transition list stored under a from-state name.
pub open spec fn trans_at(ts: Seq<(String, Vec<Transition>)>, k: Seq<char>) -> Vec<Transition> {
    ts[choose|j: int| 0 <= j < ts.len() && (#[trigger] ts[j]).0@ == k].1
}

/// The staged values a layer update computes before touching anything:
/// the pending target and duration after transition evaluation, and the
/// advanced transition clock.
pub open spec fn stage_next(l: AnimationLayer, p: Parameters) -> Option<Seq<char>> {
    match l.spec_fired(p) {
        Some(f) => Some(f.0),
        None => opt_name(l.next_state),
    }
}

pub open spec fn stage_dur(l: AnimationLayer, p: Parameters) -> i64 {
    match l.spec_fired(p) {
        Some(f) => spec_clamp_nonneg(f.1),
        None => l.transition_duration,
    }
}

pub open spec fn stage_time(l: AnimationLayer, p: Parameters, dt: i64) -> i64 {
    let t0: i64 = if l.spec_fired(p) is Some {
        0
    } else {
        l.transition_time
    };
    if stage_next(l, p) is Some {
        spec_clamp_int(t0 + dt)
    } else {
        t0
    }
}

/// The transition completes this tick: the advanced clock reaches the
/// duration (immediately, for a zero duration).
pub open spec fn stage_complete(l: AnimationLayer, p: Parameters, dt: i64) -> bool {
    stage_next(l, p) is Some && stage_time(l, p, dt) >= stage_dur(l, p)
}

/// A cross-fade runs this tick.
pub open spec fn stage_fade(l: AnimationLayer, p: Parameters, dt: i64) -> bool {
    stage_next(l, p) is Some && stage_time(l, p, dt) < stage_dur(l, p)
}

/// The cross-fade fraction, scaled to `[0, SCALE]`.
pub open spec fn stage_t(l: AnimationLayer, p: Parameters, dt: i64) -> int {
    (stage_time(l, p, dt) as int) * (SCALE as int) / (stage_dur(l, p) as int)
}

/// The error a layer update would report this tick: the current state's
/// error, else (when a cross-fade runs into a distinct next state) that
/// state's error, else a cross-fade size mismatch.
pub open spec fn layer_err(l: AnimationLayer, p: Parameters, dt: i64) -> Option<AnimError> {
    let cur = l.current_state@;
    let cur_err: Option<AnimError> = if state_exists(l.states@, cur) {
        state_err(state_at(l.states@, cur), p)
    } else {
        None
    };
    if cur_err is Some {
        cur_err
    } else if stage_fade(l, p, dt) && stage_next(l, p)->Some_0 != cur && state_exists(
        l.states@,
        stage_next(l, p)->Some_0,
    ) && state_err(state_at(l.states@, stage_next(l, p)->Some_0), p) is Some {
        state_err(state_at(l.states@, stage_next(l, p)->Some_0), p)
    } else if stage_fade(l, p, dt) && state_exists(l.states@, cur) && state_exists(
        l.states@,
        stage_next(l, p)->Some_0,
    ) && (state_output(state_at(l.states@, cur)).len() != l.blend_job_output@.len() || state_output(
        state_at(l.states@, stage_next(l, p)->Some_0),
    ).len() != l.blend_job_output@.len()) {
        Some(AnimError::BlendFailed)
    } else {
        None
    }
}

/// How a successful layer update relates the new layer to the old one.
pub open spec fn layer_updated(
    o: AnimationLayer,
    n: AnimationLayer,
    dt: i64,
    elapsed: i64,
    p: Parameters,
) -> bool {
    let fired = o.spec_fired(p);
    let next1 = stage_next(o, p);
    let dur1 = stage_dur(o, p);
    let time2 = stage_time(o, p, dt);
    let complete = stage_complete(o, p, dt);
    let fade = stage_fade(o, p, dt);
    let cur = o.current_state@;
    &&& n.name == o.name
    &&& n.layer_blend_type == o.layer_blend_type
    &&& n.layer_weight == o.layer_weight
    &&& n.default_state_name == o.default_state_name
    &&& n.transitions == o.transitions
    &&& n.states@.len() == o.states@.len()
    &&& forall|j: int|
        0 <= j < o.states@.len() ==> (#[trigger] n.states@[j]).0 == o.states@[j].0
    &&& forall|j: int|
        0 <= j < o.states@.len() ==> {
            if o.states@[j].0@ == cur {
                state_updated(o.states@[j].1, (#[trigger] n.states@[j]).1, elapsed, p)
            } else if fade && next1->Some_0 == o.states@[j].0@ {
                state_updated(o.states@[j].1, n.states@[j].1, elapsed, p)
            } else {
                n.states@[j].1 == o.states@[j].1
            }
        }
    &&& if complete {
        &&& n.current_state@ == next1->Some_0
        &&& n.next_state is None
        &&& !n.is_transitioning
        &&& n.output_source_changed
        &&& n.transition_time == time2
        &&& n.transition_duration == dur1
    } else if next1 is Some {
        &&& n.current_state@ == cur
        &&& opt_name(n.next_state) == next1
        &&& n.is_transitioning
        &&& n.transition_time == time2
        &&& n.transition_duration == dur1
        &&& n.output_source_changed == (o.output_source_changed || fired is Some)
    } else {
        &&& n.current_state@ == cur
        &&& n.next_state is None
        &&& !n.is_transitioning
        &&& n.transition_time == o.transition_time
        &&& n.transition_duration == o.transition_duration
        &&& n.output_source_changed == o.output_source_changed
    }
    &&& if fade && state_exists(o.states@, cur) {
        is_blended(
            seq![
                ((SCALE - stage_t(o, p, dt)) as i64, state_output(state_at(n.states@, cur))),
                (stage_t(o, p, dt) as i64, state_output(state_at(n.states@, next1->Some_0))),
            ],
            n.blend_job_output@,
            o.blend_job_output@.len() as int,
        )
    } else {
        n.blend_job_output@ == o.blend_job_output@
    }
}

impl AnimationLayer {
    /// Create a layer with no states or transitions, resting in the
    /// default state, with a cross-fade buffer sized for the skeleton.
    /// The base weight is saturated into `[0, SCALE]`.
    pub fn new(
        name: String,
        layer_blend_type: LayerBlendType,
        layer_weight: i64,
        skeleton: &Skeleton,
        default_state_name: String,
    ) -> (r: AnimationLayer)
        requires
            skeleton.wf(),
        ensures
            r.wf(),
            r.name == name,
            r.layer_blend_type == layer_blend_type,
            r.layer_weight == clamp_weight(layer_weight),
            r.states@.len() == 0,
            r.transitions@.len() == 0,
            r.current_state@ == default_state_name@,
            r.default_state_name == default_state_name,
            r.next_state is None,
            !r.is_transitioning,
            r.output_source_changed,
            r.blend_job_output@.len() == skeleton.spec_num_soa_joints(),
    {
        let current_state = default_state_name.clone();
        let w = if layer_weight < 0 {
            0
        } else if layer_weight > SCALE {
            SCALE
        } else {
            layer_weight
        };
        AnimationLayer {
            name,
            layer_blend_type,
            layer_weight: w,
            default_state_name,
            states: Vec::new(),
            transitions: Vec::new(),
            current_state,
            next_state: None,
            transition_time: 0,
            transition_duration: 0,
            is_transitioning: false,
            blend_job_output: identity_buffer(skeleton.num_soa_joints()),
            output_source_changed: true,
        }
    }

    /// Add (or replace) a state under a name.
    pub fn add_state(&mut self, name: String, state: AnimationState)
        requires
            old(self).wf(),
            state.wf(),
        ensures
            final(self).wf(),
            final(self).states_map() == old(self).states_map().insert(name@, state),
            final(self).transitions == old(self).transitions,
            final(self).current_state == old(self).current_state,
            final(self).next_state == old(self).next_state,
            final(self).is_transitioning == old(self).is_transitioning,
            final(self).blend_job_output@ == old(self).blend_job_output@,
            final(self).layer_weight == old(self).layer_weight,
            final(self).layer_blend_type == old(self).layer_blend_type,
            state_exists(final(self).states@, name@),
            forall|k: Seq<char>|
                state_exists(old(self).states@, k) ==> state_exists(final(self).states@, k),
    {
        let ghost s0 = self.states@;
        assoc_set(&mut self.states, name.as_str(), state);
        proof {
            assert forall|k: Seq<char>|
                state_exists(s0, k) implies state_exists(self.states@, k) by {
                let j = choose|j: int| 0 <= j < s0.len() && (#[trigger] s0[j]).0@ == k;
                lemma_amap_index(s0, j);
                if k == name@ {
                    lemma_state_exists_from_map(self.states@, k);
                } else {
                    lemma_state_exists_from_map(self.states@, k);
                }
            }
            lemma_state_exists_from_map(self.states@, name@);
            assert forall|j: int|
                0 <= j < self.states@.len() implies (#[trigger] self.states@[j]).1.wf() by {
                lemma_amap_index(self.states@, j);
            }
            if self.next_state is Some {
                let nm = self.next_state->Some_0;
                assert(state_exists(s0, nm@));
                assert(state_exists(self.states@, nm@));
            }
        }
    }

    /// Append a transition to the list for a from-state.
    pub fn add_transition(&mut self, from_state: String, transition: Transition)
        requires
            old(self).wf(),
        ensures
            final(self).wf(),
            final(self).states == old(self).states,
            final(self).current_state == old(self).current_state,
            final(self).trans_map().contains_key(from_state@),
            final(self).trans_map()[from_state@]@ == (if old(self).trans_map().contains_key(
                from_state@,
            ) {
                old(self).trans_map()[from_state@]@.push(transition)
            } else {
                seq![transition]
            }),
    {
        let ghost s0 = self.transitions@;
        match assoc_find(&self.transitions, from_state.as_str()) {
            Some(i) => {
                proof {
                    lemma_amap_index(s0, i as int);
                }
                let pair = &mut self.transitions[i];
                let ghost list0 = pair.1@;
                pair.1.push(transition);
                proof {
                    assert(self.transitions@ =~= s0.update(
                        i as int,
                        (s0[i as int].0, self.transitions@[i as int].1),
                    ));
                    lemma_amap_update(s0, i as int, self.transitions@[i as int].1);
                    assert forall|x: int, y: int|
                        0 <= x < y < self.transitions@.len() implies (#[trigger] self.transitions@[x]).0@
                        != (#[trigger] self.transitions@[y]).0@ by {
                        assert(self.transitions@[x].0@ == s0[x].0@ && self.transitions@[y].0@
                            == s0[y].0@);
                    }
                }
            },
            None => {
                proof {
                    lemma_amap_absent(s0, from_state@);
                }
                let mut list: Vec<Transition> = Vec::new();
                list.push(transition);
                let ghost l = list@;
                self.transitions.push((from_state, list));
                proof {
                    lemma_amap_push(s0, self.transitions@.last());
                    assert(self.transitions@ == s0.push(self.transitions@.last()));
                    assert forall|x: int, y: int|
                        0 <= x < y < self.transitions@.len() implies (#[trigger] self.transitions@[x]).0@
                        != (#[trigger] self.transitions@[y]).0@ by {
                        if y == s0.len() {
                            assert(self.transitions@[x].0@ == s0[x].0@);
                        } else {
                            assert(self.transitions@[x].0@ == s0[x].0@ && self.transitions@[y].0@
                                == s0[y].0@);
                        }
                    }
                    assert(l =~= seq![transition]);
                }
            },
        }
    }

    /// Set the layer's base weight, saturated into `[0, SCALE]`.
    pub fn set_weight(&mut self, weight: i64)
        requires
            old(self).wf(),
        ensures
            final(self).wf(),
            final(self).layer_weight == clamp_weight(weight),
            *final(self) == (AnimationLayer { layer_weight: clamp_weight(weight), ..*old(self) }),
    {
        self.layer_weight = if weight < 0 {
            0
        } else if weight > SCALE {
            SCALE
        } else {
            weight
        };
    }

    /// Whether the source of this layer's output changed since the flag
    /// was last cleared.
    pub fn has_output_changed(&self) -> (r: bool)
        ensures
            r == self.output_source_changed,
    {
        self.output_source_changed
    }

    pub fn clear_output_changed(&mut self)
        requires
            old(self).wf(),
        ensures
            final(self).wf(),
            *final(self) == (AnimationLayer { output_source_changed: false, ..*old(self) }),
    {
        self.output_source_changed = false;
    }

    /// The layer's stable output: the cross-fade buffer while
    /// transitioning (or when the current state is missing), else the
    /// current state's output.
    pub fn get_output_pointer(&self) -> (r: &Vec<SoaTransform>)
        requires
            self.wf(),
        ensures
            r@ == self.spec_output(),
    {
        if self.is_transitioning {
            &self.blend_job_output
        } else {
            match assoc_find(&self.states, self.current_state.as_str()) {
                Some(i) => {
                    proof {
                        lemma_state_at(self.states@, self.current_state@, i as int);
                    }
                    self.states[i].1.get_output_pointer()
                },
                None => {
                    proof {
                        assert(!state_exists(self.states@, self.current_state@));
                    }
                    &self.blend_job_output
                },
            }
        }
    }

    /// The current state's name.
    pub fn current_state_name(&self) -> (r: &String)
        ensures
            r == self.current_state,
    {
        &self.current_state
    }

    /// Look a state up by name.
    pub fn state(&self, name: &str) -> (r: Option<&AnimationState>)
        requires
            self.wf(),
        ensures
            match r {
                Some(s) => state_exists(self.states@, name@) && *s == state_at(
                    self.states@,
                    name@,
                ),
                None => !state_exists(self.states@, name@),
            },
    {
        match assoc_find(&self.states, name) {
            Some(i) => {
                proof {
                    lemma_state_at(self.states@, name@, i as int);
                }
                Some(&self.states[i].1)
            },
            None => None,
        }
    }
}

impl AnimationLayer {
    /// Evaluate one transition condition against the parameters.
    fn evaluate_condition(&self, condition: &TransitionCondition, parameters: &Parameters) -> (r:
        bool)
        requires
            parameters.wf(),
        ensures
            r == cond_true(*condition, *parameters),
    {
        match condition {
            TransitionCondition::Bool(name, value) => {
                match parameters.get_bool(name.as_str()) {
                    Some(b) => b == *value,
                    None => false,
                }
            },
            TransitionCondition::Float(name, value, compare_type) => {
                match parameters.get_float(name.as_str()) {
                    Some(param_value) => match compare_type {
                        CompareType::Greater => param_value > *value,
                        CompareType::Less => param_value < *value,
                        CompareType::Equals => param_value == *value,
                        CompareType::NotEqual => param_value != *value,
                    },
                    None => false,
                }
            },
            TransitionCondition::Int(name, value, compare_type) => {
                match parameters.get_int(name.as_str()) {
                    Some(param_value) => match compare_type {
                        CompareType::Greater => param_value > *value,
                        CompareType::Less => param_value < *value,
                        CompareType::Equals => param_value == *value,
                        CompareType::NotEqual => param_value != *value,
                    },
                    None => false,
                }
            },
            TransitionCondition::Trigger(name) => parameters.get_trigger(name.as_str()),
        }
    }

    /// A transition fires only when every condition evaluates true.
    fn evaluate_transition(&self, transition: &Transition, parameters: &Parameters) -> (r: bool)
        requires
            parameters.wf(),
        ensures
            r == conds_true(transition.conditions@, *parameters),
    {
        let n = transition.conditions.len();
        let mut i: usize = 0;
        while i < n
            invariant
                i <= n,
                n == transition.conditions@.len(),
                parameters.wf(),
                forall|j: int|
                    0 <= j < i ==> cond_true(#[trigger] transition.conditions@[j], *parameters),
            decreases n - i,
        {
            if !self.evaluate_condition(&transition.conditions[i], parameters) {
                return false;
            }
            i = i + 1;
        }
        true
    }

    /// Find the transition that would fire this tick, without touching
    /// anything: the target's name and the duration.
    fn probe_fired(&self, parameters: &Parameters) -> (r: Option<(String, i64)>)
        requires
            self.wf(),
            parameters.wf(),
        ensures
            match (r, self.spec_fired(*parameters)) {
                (Some(f), Some(g)) => f.0@ == g.0 && f.1 == g.1 && state_exists(
                    self.states@,
                    f.0@,
                ),
                (None, None) => true,
                _ => false,
            },
    {
        if self.is_transitioning {
            return None;
        }
        let ti = match assoc_find(&self.transitions, self.current_state.as_str()) {
            Some(ti) => ti,
            None => {
                proof {
                    assert(!state_exists_trans(self.transitions@, self.current_state@));
                }
                return None;
            },
        };
        proof {
            lemma_trans_at(self.transitions@, self.current_state@, ti as int);
        }
        let n = self.transitions[ti].1.len();
        let ghost list = self.transitions@[ti as int].1@;
        let mut i: usize = 0;
        while i < n
            invariant
                i <= n,
                self.wf(),
                parameters.wf(),
                !self.is_transitioning,
                ti < self.transitions@.len(),
                self.transitions@[ti as int].0@ == self.current_state@,
                list == self.transitions@[ti as int].1@,
                n == list.len(),
                first_fired(list, self.states@, *parameters, 0) == first_fired(
                    list,
                    self.states@,
                    *parameters,
                    i as int,
                ),
            decreases n - i,
        {
            let cond_ok = self.evaluate_transition(&self.transitions[ti].1[i], parameters);
            if cond_ok {
                match assoc_find(&self.states, self.transitions[ti].1[i].to_state.as_str()) {
                    Some(si) => {
                        proof {
                            lemma_trans_at(self.transitions@, self.current_state@, ti as int);
                            assert(self.states@[si as int].0@ == list[i as int].to_state@);
                            assert(state_exists(self.states@, list[i as int].to_state@));
                            assert(first_fired(list, self.states@, *parameters, i as int) == Some(
                                i as int,
                            ));
                            assert(self.spec_fired(*parameters) == Some(
                                (list[i as int].to_state@, list[i as int].duration),
                            ));
                        }
                        return Some(
                            (self.transitions[ti].1[i].to_state.clone(), self.transitions[ti].1[i].duration),
                        );
                    },
                    None => {
                        proof {
                            assert(!state_exists(self.states@, list[i as int].to_state@));
                        }
                    },
                }
            }
            i = i + 1;
        }
        None
    }

    /// Evaluate the transitions for the current state and record the
    /// first that fires.  Returns whether one fired.
    fn check_transitions(&mut self, parameters: &Parameters) -> (fired: bool)
        requires
            old(self).wf(),
            parameters.wf(),
        ensures
            final(self).wf(),
            match old(self).spec_fired(*parameters) {
                Some(f) => {
                    &&& fired
                    &&& opt_name(final(self).next_state) == Some(f.0)
                    &&& final(self).transition_time == 0
                    &&& final(self).transition_duration == spec_clamp_nonneg(f.1)
                    &&& final(self).is_transitioning
                    &&& final(self).output_source_changed
                    &&& final(self).states == old(self).states
                    &&& final(self).transitions == old(self).transitions
                    &&& final(self).current_state == old(self).current_state
                    &&& final(self).name == old(self).name
                    &&& final(self).layer_blend_type == old(self).layer_blend_type
                    &&& final(self).layer_weight == old(self).layer_weight
                    &&& final(self).default_state_name == old(self).default_state_name
                    &&& final(self).blend_job_output == old(self).blend_job_output
                },
                None => !fired && *final(self) == *old(self),
            },
    {
        match self.probe_fired(parameters) {
            Some(f) => {
                let (nm, dur) = f;
                proof {
                    assert(state_exists(self.states@, nm@));
                }
                self.next_state = Some(nm);
                self.transition_time = 0;
                self.transition_duration = fx_clamp_nonneg(dur);
                self.is_transitioning = true;
                self.output_source_changed = true;
                true
            },
            None => false,
        }
    }

    /// Check whether this tick's update would fail, without touching
    /// anything.
    pub(crate) fn check_update(&self, dt: i64, parameters: &Parameters) -> (r: Option<AnimError>)
        requires
            self.wf(),
            parameters.wf(),
            0 <= dt,
        ensures
            r == layer_err(*self, *parameters, dt),
    {
        let cur_err: Option<AnimError> = match assoc_find(
            &self.states,
            self.current_state.as_str(),
        ) {
            Some(ci) => {
                proof {
                    lemma_state_at(self.states@, self.current_state@, ci as int);
                }
                self.states[ci].1.check(parameters)
            },
            None => {
                proof {
                    assert(!state_exists(self.states@, self.current_state@));
                }
                None
            },
        };
        if let Some(e) = cur_err {
            return Some(e);
        }
        let fired = self.probe_fired(parameters);
        let (next_name, dur1, time1): (Option<String>, i64, i64) = match fired {
            Some((nm, d)) => (Some(nm), fx_clamp_nonneg(d), 0),
            None => {
                match &self.next_state {
                    Some(nm) => (Some(nm.clone()), self.transition_duration, self.transition_time),
                    None => (None, self.transition_duration, self.transition_time),
                }
            },
        };
        let nm = match next_name {
            Some(nm) => nm,
            None => {
                return None;
            },
        };
        let dtc = if dt > FX_MAX {
            FX_MAX
        } else {
            dt
        };
        let t2 = time1 + dtc;
        let time2 = if t2 > FX_MAX {
            FX_MAX
        } else {
            t2
        };
        proof {
            assert(time2 == stage_time(*self, *parameters, dt));
        }
        if time2 >= dur1 {
            return None;
        }
        if !(nm == self.current_state) {
            match assoc_find(&self.states, nm.as_str()) {
                Some(ni) => {
                    proof {
                        lemma_state_at(self.states@, nm@, ni as int);
                    }
                    if let Some(e) = self.states[ni].1.check(parameters) {
                        return Some(e);
                    }
                },
                None => {
                    proof {
                        assert(false);
                    }
                },
            }
        }
        match assoc_find(&self.states, self.current_state.as_str()) {
            Some(ci) => {
                proof {
                    lemma_state_at(self.states@, self.current_state@, ci as int);
                }
                let cur_len = self.states[ci].1.get_output_pointer().len();
                let ni = match assoc_find(&self.states, nm.as_str()) {
                    Some(x) => x,
                    None => {
                        proof {
                            assert(false);
                        }
                        0
                    },
                };
                proof {
                    lemma_state_at(self.states@, nm@, ni as int);
                }
                let next_len = self.states[ni].1.get_output_pointer().len();
                if cur_len != self.blend_job_output.len() || next_len
                    != self.blend_job_output.len() {
                    return Some(AnimError::BlendFailed);
                }
            },
            None => {},
        }
        None
    }
}

impl AnimationLayer {
    /// Perform a validated update: fire transitions, update the current
    /// state, advance and resolve any pending transition, cross-fading
    /// into the layer's own buffer while one is in flight.
    #[verifier::rlimit(100)]
    fn apply(&mut self, dt: i64, elapsed: i64, parameters: &Parameters)
        requires
            old(self).wf(),
            parameters.wf(),
            0 <= dt,
            layer_err(*old(self), *parameters, dt) is None,
        ensures
            final(self).wf(),
            layer_updated(*old(self), *final(self), dt, elapsed, *parameters),
    {
        let ghost o = *old(self);
        let ghost p = *parameters;
        let fired = self.check_transitions(parameters);
        let ghost l1 = *self;
        proof {
            assert(stage_next(o, p) == opt_name(l1.next_state));
            assert(stage_dur(o, p) == l1.transition_duration);
            assert(if o.spec_fired(p) is Some {
                l1.transition_time == 0
            } else {
                l1.transition_time == o.transition_time
            });
        }
        let ghost cur = o.current_state@;
        match assoc_find(&self.states, self.current_state.as_str()) {
            Some(ci) => {
                proof {
                    lemma_state_at(o.states@, cur, ci as int);
                    assert(state_err(state_at(o.states@, cur), p) is None);
                }
                let pair = &mut self.states[ci];
                let res = pair.1.update(elapsed, parameters);
                proof {
                    if res is Err {
                        assert(false);
                    }
                }
            },
            None => {
                proof {
                    assert(!state_exists(o.states@, cur));
                }
            },
        }
        let ghost l2 = *self;
        proof {
            assert(l2.states@.len() == o.states@.len());
            assert(forall|j: int|
                0 <= j < o.states@.len() ==> (#[trigger] l2.states@[j]).0 == o.states@[j].0);
            assert forall|j: int| 0 <= j < o.states@.len() implies (#[trigger] l2.states@[j]).1.wf()
                by {}
        }
        let has_next = self.next_state.is_some();
        if has_next {
            let dtc = if dt > FX_MAX {
                FX_MAX
            } else {
                dt
            };
            let t2 = self.transition_time + dtc;
            self.transition_time = if t2 > FX_MAX {
                FX_MAX
            } else {
                t2
            };
            proof {
                assert(self.transition_time == stage_time(o, p, dt));
            }
            if self.transition_time >= self.transition_duration {
                let ns = self.next_state.take();
                match ns {
                    Some(nm) => {
                        self.current_state = nm;
                    },
                    None => {},
                }
                self.is_transitioning = false;
                self.output_source_changed = true;
                proof {
                    assert(stage_complete(o, p, dt));
                    assert(self.current_state@ == stage_next(o, p)->Some_0);
                    let nmv = self.current_state@;
                    assert(state_exists(l1.states@, nmv));
                    let j = choose|j: int|
                        0 <= j < l1.states@.len() && (#[trigger] l1.states@[j]).0@ == nmv;
                    assert(self.states@[j].0 == o.states@[j].0);
                    assert(l1.states@[j].0 == o.states@[j].0);
                    assert(self.states@[j].0@ == nmv);
                    assert(state_exists(self.states@, nmv));
                    assert(layer_updated(o, *self, dt, elapsed, p));
                }
            } else {
                proof {
                    assert(stage_fade(o, p, dt));
                }
                let nm: String = match &self.next_state {
                    Some(x) => x.clone(),
                    None => String::new(),
                };
                proof {
                    assert(nm@ == stage_next(o, p)->Some_0);
                }
                if !(nm == self.current_state) {
                    match assoc_find(&self.states, nm.as_str()) {
                        Some(ni) => {
                            proof {
                                lemma_state_at(l2.states@, nm@, ni as int);
                                lemma_state_at(o.states@, nm@, ni as int);
                                assert(l2.states@[ni as int].1 == o.states@[ni as int].1);
                                assert(state_err(state_at(o.states@, nm@), p) is None);
                            }
                            let pair = &mut self.states[ni];
                            let res = pair.1.update(elapsed, parameters);
                            proof {
                                if res is Err {
                                    assert(false);
                                }
                            }
                        },
                        None => {
                            proof {
                                assert(state_exists(l1.states@, nm@));
                                let j = choose|j: int|
                                    0 <= j < l1.states@.len() && (#[trigger] l1.states@[j]).0@
                                        == nm@;
                                assert(self.states@[j].0 == o.states@[j].0);
                                assert(l1.states@[j].0 == o.states@[j].0);
                                assert(self.states@[j].0@ == nm@);
                                assert(false);
                            }
                        },
                    }
                }
                match assoc_find(&self.states, self.current_state.as_str()) {
                    Some(ci2) => {
                        proof {
                            lemma_state_at(self.states@, cur, ci2 as int);
                            lemma_state_at(o.states@, cur, ci2 as int);
                        }
                        let dur = self.transition_duration;
                        let time = self.transition_time;
                        proof {
                            lemma_mul_inequality(time as int, dur as int, SCALE as int);
                            lemma_div_le((time as int) * (SCALE as int), dur as int, SCALE as int);
                            lemma_div_nonneg((time as int) * (SCALE as int), dur as int);
                        }
                        let tq: u128 = (time as u128) * (SCALE as u128) / (dur as u128);
                        let t: i64 = tq as i64;
                        proof {
                            assert(t == stage_t(o, p, dt));
                        }
                        let ni2 = match assoc_find(&self.states, nm.as_str()) {
                            Some(x) => x,
                            None => {
                                proof {
                                    assert(false);
                                }
                                0
                            },
                        };
                        proof {
                            lemma_state_at(self.states@, nm@, ni2 as int);
                        }
                        let cur_buf = copy_buffer(self.states[ci2].1.get_output_pointer());
                        let next_buf = copy_buffer(self.states[ni2].1.get_output_pointer());
                        let mut entries: Vec<(i64, Vec<SoaTransform>)> = Vec::new();
                        entries.push((SCALE - t, cur_buf));
                        entries.push((t, next_buf));
                        proof {
                            lemma_layer_fade_lens(o, *self, p, dt, elapsed, ci2 as int, ni2 as int);
                            assert(entries_wf(
                                entries_view(entries@),
                                self.blend_job_output@.len() as int,
                            ));
                        }
                        let out_len = self.blend_job_output.len();
                        let out = run_blend(&entries, out_len);
                        self.blend_job_output = out;
                        proof {
                            assert(entries_view(entries@) =~= seq![
                                (
                                    (SCALE - stage_t(o, p, dt)) as i64,
                                    state_output(state_at(self.states@, cur)),
                                ),
                                (
                                    stage_t(o, p, dt) as i64,
                                    state_output(state_at(self.states@, stage_next(o, p)->Some_0)),
                                ),
                            ]);
                            assert(layer_updated(o, *self, dt, elapsed, p));
                        }
                    },
                    None => {
                        proof {
                            assert forall|j: int| 0 <= j < o.states@.len() implies (
                            #[trigger] o.states@[j]).0@ != cur by {
                                assert(self.states@[j].0 == o.states@[j].0);
                                assert(self.states@[j].0@ != cur);
                            }
                            assert(!state_exists(o.states@, cur));
                            assert(layer_updated(o, *self, dt, elapsed, p));
                        }
                    },
                }
            }
        } else {
            proof {
                assert(stage_next(o, p) is None);
                assert(o.spec_fired(p) is None);
                assert(layer_updated(o, *self, dt, elapsed, p));
            }
        }
    }

    /// Advance the layer one tick: evaluate transitions, update the
    /// current state, and play out any pending cross-fade.  On error
    /// nothing is changed.
    pub fn update(&mut self, dt: i64, elapsed: i64, parameters: &Parameters) -> (r: Result<
        (),
        AnimError,
    >)
        requires
            old(self).wf(),
            parameters.wf(),
            0 <= dt,
        ensures
            final(self).wf(),
            match r {
                Ok(()) => layer_err(*old(self), *parameters, dt) is None && layer_updated(
                    *old(self),
                    *final(self),
                    dt,
                    elapsed,
                    *parameters,
                ),
                Err(e) => layer_err(*old(self), *parameters, dt) == Some(e) && *final(self)
                    == *old(self),
            },
    {
        if let Some(e) = self.check_update(dt, parameters) {
            return Err(e);
        }
        self.apply(dt, elapsed, parameters);
        Ok(())
    }
}

/// During a cross-fade, the two blend inputs have well-formed contents
/// of the cross-fade buffer's length.
proof fn lemma_layer_fade_lens(
    o: AnimationLayer,
    l: AnimationLayer,
    p: Parameters,
    dt: i64,
    elapsed: i64,
    ci: int,
    ni: int,
)
    requires
        o.wf(),
        layer_err(o, p, dt) is None,
        stage_fade(o, p, dt),
        0 <= ci < l.states@.len(),
        0 <= ni < l.states@.len(),
        l.states@.len() == o.states@.len(),
        l.blend_job_output@ == o.blend_job_output@,
        keys_distinct(l.states@),
        l.states@[ci].0@ == o.current_state@,
        l.states@[ni].0@ == stage_next(o, p)->Some_0,
        forall|j: int| 0 <= j < l.states@.len() ==> (#[trigger] l.states@[j]).0 == o.states@[j].0,
        forall|j: int| 0 <= j < l.states@.len() ==> (#[trigger] l.states@[j]).1.wf(),
        forall|j: int|
            0 <= j < l.states@.len() ==> state_output((#[trigger] l.states@[j]).1).len()
                == state_output(o.states@[j].1).len(),
    ensures
        state_output(l.states@[ci].1).len() == l.blend_job_output@.len(),
        state_output(l.states@[ni].1).len() == l.blend_job_output@.len(),
        buf_wf(state_output(l.states@[ci].1)),
        buf_wf(state_output(l.states@[ni].1)),
{
    lemma_state_at(o.states@, o.current_state@, ci);
    lemma_state_at(o.states@, stage_next(o, p)->Some_0, ni);
    assert(state_output(state_at(o.states@, o.current_state@)).len()
        == o.blend_job_output@.len());
    assert(state_output(state_at(o.states@, stage_next(o, p)->Some_0)).len()
        == o.blend_job_output@.len());
    lemma_state_wf_output(l.states@[ci].1);
    lemma_state_wf_output(l.states@[ni].1);
}

/// A well-formed state has a well-formed output buffer.
proof fn lemma_state_wf_output(s: AnimationState)
    requires
        s.wf(),
    ensures
        buf_wf(state_output(s)),
{
    match s {
        AnimationState::Simple(st) => {},
        AnimationState::Blend(b) => {},
    }
}

/// A base weight saturated into `[0, SCALE]`.
pub open spec fn clamp_weight(w: i64) -> i64 {
    if w < 0 {
        0
    } else if w > SCALE {
        SCALE
    } else {
        w
    }
}

/// With distinct keys, an entry holding a key is the entry `state_at`
/// denotes.
pub proof fn lemma_state_at(ss: Seq<(String, AnimationState)>, k: Seq<char>, i: int)
    requires
        keys_distinct(ss),
        0 <= i < ss.len(),
        ss[i].0@ == k,
    ensures
        state_exists(ss, k),
        state_at(ss, k) == ss[i].1,
{
    assert(state_exists(ss, k));
    let j = choose|j: int| 0 <= j < ss.len() && (#[trigger] ss[j]).0@ == k;
    if i != j {
        assert(ss[i].0@ != ss[j].0@);
    }
}

/// With distinct keys, an entry holding a from-state name is the entry
/// `trans_at` denotes.
pub proof fn lemma_trans_at(ts: Seq<(String, Vec<Transition>)>, k: Seq<char>, i: int)
    requires
        keys_distinct(ts),
        0 <= i < ts.len(),
        ts[i].0@ == k,
    ensures
        state_exists_trans(ts, k),
        trans_at(ts, k) == ts[i].1,
{
    assert(state_exists_trans(ts, k));
    let j = choose|j: int| 0 <= j < ts.len() && (#[trigger] ts[j]).0@ == k;
    if i != j {
        assert(ts[i].0@ != ts[j].0@);
    }
}

/// A key visible in the state map names an existing entry.
pub proof fn lemma_state_exists_from_map(ss: Seq<(String, AnimationState)>, k: Seq<char>)
    requires
        amap(ss).contains_key(k),
    ensures
        state_exists(ss, k),
    decreases ss.len(),
{
    if ss.len() > 0 {
        if ss.last().0@ == k {
            assert(ss[ss.len() - 1].0@ == k);
        } else {
            assert(forall|i: int|
                0 <= i < ss.drop_last().len() ==> (#[trigger] ss.drop_last()[i]) == ss[i]);
            lemma_state_exists_from_map(ss.drop_last(), k);
            let j = choose|j: int|
                0 <= j < ss.drop_last().len() && (#[trigger] ss.drop_last()[j]).0@ == k;
            assert(ss[j].0@ == k);
        }
    }
}

} // verus!
