use animator_core::{
    AnimationClip, AnimationLayer, AnimationState, AnimatorController, AnimError, BlendState,
    BlendTree, BlendTreeType, CompareType, LayerBlendType, MotionData, MotionThreshold,
    BlendMotionState, Parameters, SimpleState, Skeleton, SoaTransform, Transition,
    TransitionCondition, SCALE, FX_MAX,
};
use animator_core::skeleton::NO_PARENT;

fn chain_skeleton() -> Skeleton {
    // Four joints in a chain: J = 4, soaJ = 1.
    let parents = vec![NO_PARENT, 0, 1, 2];
    let names = vec![
        "root".to_string(),
        "spine".to_string(),
        "arm".to_string(),
        "hand".to_string(),
    ];
    Skeleton::new(parents, names)
}

fn uniform_record(v: i64) -> SoaTransform {
    SoaTransform { vals: [v; 40] }
}

fn uniform_clip(duration: i64, v: i64) -> AnimationClip {
    AnimationClip { duration, frames: vec![vec![uniform_record(v)]] }
}

fn simple_state(duration: i64, v: i64) -> AnimationState {
    AnimationState::Simple(SimpleState::new(uniform_clip(duration, v), 1))
}

#[test]
fn parameters_round_trip() {
    let mut p = Parameters::new();
    assert_eq!(p.get_bool("walk"), None);
    assert_eq!(p.get_float("speed"), None);
    assert_eq!(p.get_int("count"), None);
    assert!(!p.get_trigger("jump"));

    p.set_bool("walk", true);
    p.set_float("speed", 250_000);
    p.set_int("count", -3);
    p.set_trigger("jump");

    assert_eq!(p.get_bool("walk"), Some(true));
    assert_eq!(p.get_float("speed"), Some(250_000));
    assert_eq!(p.get_int("count"), Some(-3));
    assert!(p.get_trigger("jump"));

    p.set_bool("walk", false);
    assert_eq!(p.get_bool("walk"), Some(false));

    p.reset_triggers();
    assert!(!p.get_trigger("jump"));
    assert_eq!(p.get_float("speed"), Some(250_000));
}

#[test]
fn parameters_saturate_floats() {
    let mut p = Parameters::new();
    p.set_float("big", i64::MAX);
    assert_eq!(p.get_float("big"), Some(FX_MAX));
    p.set_float("small", i64::MIN);
    assert_eq!(p.get_float("small"), Some(-FX_MAX));
}

#[test]
fn skeleton_counts_and_leaves() {
    let sk = chain_skeleton();
    assert_eq!(sk.num_joints(), 4);
    assert_eq!(sk.num_soa_joints(), 1);
    assert_eq!(sk.joint_parent(0), NO_PARENT);
    assert_eq!(sk.joint_parent(3), 2);
    assert!(!sk.is_leaf(0));
    assert!(sk.is_leaf(3));
    assert_eq!(sk.joint_names().len(), 4);

    let five = Skeleton::new(
        vec![NO_PARENT, 0, 1, 2, 3],
        vec![
            "a".to_string(),
            "b".to_string(),
            "c".to_string(),
            "d".to_string(),
            "e".to_string(),
        ],
    );
    assert_eq!(five.num_soa_joints(), 2);
}

#[test]
fn sampling_picks_the_phase_frame() {
    // Two key poses over a 2-second clip: the first slot covers phases
    // below one half, the second the rest.
    let clip = AnimationClip {
        duration: 2_000_000,
        frames: vec![vec![uniform_record(111)], vec![uniform_record(222)]],
    };
    let mut st = SimpleState::new(clip, 1);
    assert!(st.update(500_000).is_ok());
    assert_eq!(st.last_ratio(), 250_000);
    assert_eq!(st.get_output_pointer()[0].vals[0], 111);
    assert!(st.update(1_500_000).is_ok());
    assert_eq!(st.last_ratio(), 750_000);
    assert_eq!(st.get_output_pointer()[0].vals[0], 222);
}

#[test]
fn sampling_wraps_with_the_elapsed_clock() {
    let mut st = SimpleState::new(uniform_clip(2_000_000, 7), 1);
    assert!(st.update(4_500_000).is_ok());
    assert_eq!(st.last_ratio(), 250_000);
}

#[test]
fn sampling_rejects_unusable_clips() {
    let mut zero_duration = SimpleState::new(uniform_clip(0, 1), 1);
    assert_eq!(zero_duration.update(0), Err(AnimError::SamplingFailed));

    let mut no_frames = SimpleState::new(
        AnimationClip { duration: 1_000_000, frames: vec![] },
        1,
    );
    assert_eq!(no_frames.update(0), Err(AnimError::SamplingFailed));

    let mut wrong_len = SimpleState::new(uniform_clip(1_000_000, 1), 2);
    assert_eq!(wrong_len.update(0), Err(AnimError::SamplingFailed));
}

fn one_d_tree(skeleton: &Skeleton, param: &str) -> BlendTree {
    let motions = vec![
        MotionData {
            motion: BlendMotionState::Animation(SimpleState::new(uniform_clip(1_000_000, 100), 1)),
            threshold: MotionThreshold::Simple1D(0),
        },
        MotionData {
            motion: BlendMotionState::Animation(SimpleState::new(uniform_clip(1_000_000, 300), 1)),
            threshold: MotionThreshold::Simple1D(1_000_000),
        },
    ];
    BlendTree::new(skeleton, BlendTreeType::Simple1D(param.to_string()), motions)
}

#[test]
fn one_d_blend_interpolates() {
    let sk = chain_skeleton();
    let mut tree = one_d_tree(&sk, "speed");
    let mut p = Parameters::new();
    p.set_float("speed", 250_000);
    assert!(tree.update(0, &p).is_ok());
    assert_eq!(tree.weights().as_slice(), &[750_000, 250_000]);
    // Weighted average of the two children's poses.
    assert_eq!(tree.get_output_pointer()[0].vals[0], 150);

    p.set_float("speed", -100_000);
    assert!(tree.update(0, &p).is_ok());
    assert_eq!(tree.weights().as_slice(), &[SCALE, 0]);

    p.set_float("speed", 5_000_000);
    assert!(tree.update(0, &p).is_ok());
    assert_eq!(tree.weights().as_slice(), &[0, SCALE]);
}

#[test]
fn one_d_blend_keeps_weights_without_the_parameter() {
    let sk = chain_skeleton();
    let mut tree = one_d_tree(&sk, "speed");
    let mut p = Parameters::new();
    p.set_float("speed", 250_000);
    assert!(tree.update(0, &p).is_ok());
    assert_eq!(tree.weights().as_slice(), &[750_000, 250_000]);

    // A store without the parameter: the previous weights remain.
    let other = Parameters::new();
    assert!(tree.update(0, &other).is_ok());
    assert_eq!(tree.weights().as_slice(), &[750_000, 250_000]);
}

#[test]
fn blend_with_no_weight_yields_the_rest_pose() {
    let sk = chain_skeleton();
    let mut tree = one_d_tree(&sk, "speed");
    // No parameter was ever set: all weights stay zero and the blend
    // falls back to the rest pose.
    let p = Parameters::new();
    assert!(tree.update(0, &p).is_ok());
    assert_eq!(tree.weights().as_slice(), &[0, 0]);
    let out = &tree.get_output_pointer()[0];
    assert_eq!(out.vals[0], 0); // translation lane
    assert_eq!(out.vals[24], SCALE); // rotation w lane
    assert_eq!(out.vals[28], SCALE); // scale x lane
}

fn two_d_tree(skeleton: &Skeleton, vals: [i64; 3], thresholds: [(i64, i64); 3]) -> BlendTree {
    let motions = thresholds
        .iter()
        .zip(vals.iter())
        .map(|(&(x, y), &v)| MotionData {
            motion: BlendMotionState::Animation(SimpleState::new(uniform_clip(1_000_000, v), 1)),
            threshold: MotionThreshold::Directional2D(x, y),
        })
        .collect();
    BlendTree::new(
        skeleton,
        BlendTreeType::Directional2D("x".to_string(), "y".to_string()),
        motions,
    )
}

#[test]
fn two_d_blend_inside_triangle() {
    let sk = chain_skeleton();
    let mut tree = two_d_tree(&sk, [0, 0, 0], [(0, 0), (1_000_000, 0), (0, 1_000_000)]);
    let mut p = Parameters::new();
    p.set_float("x", 250_000);
    p.set_float("y", 250_000);
    assert!(tree.update(0, &p).is_ok());
    assert_eq!(tree.weights().as_slice(), &[500_000, 250_000, 250_000]);
}

#[test]
fn two_d_blend_with_fewer_than_three_children() {
    let sk = chain_skeleton();
    let motions = vec![
        MotionData {
            motion: BlendMotionState::Animation(SimpleState::new(uniform_clip(1_000_000, 1), 1)),
            threshold: MotionThreshold::Directional2D(0, 0),
        },
        MotionData {
            motion: BlendMotionState::Animation(SimpleState::new(uniform_clip(1_000_000, 2), 1)),
            threshold: MotionThreshold::Directional2D(1_000_000, 0),
        },
    ];
    let mut tree = BlendTree::new(
        &sk,
        BlendTreeType::Directional2D("x".to_string(), "y".to_string()),
        motions,
    );
    let mut p = Parameters::new();
    p.set_float("x", 900_000);
    p.set_float("y", 900_000);
    assert!(tree.update(0, &p).is_ok());
    assert_eq!(tree.weights().as_slice(), &[SCALE, 0]);
}

#[test]
fn two_d_blend_collinear_falls_back_to_nearest() {
    let sk = chain_skeleton();
    // All three children on the x axis: every triangle is degenerate.
    let mut tree = two_d_tree(&sk, [0, 0, 0], [(0, 0), (500_000, 0), (1_000_000, 0)]);
    let mut p = Parameters::new();
    p.set_float("x", 450_000);
    p.set_float("y", 10_000);
    assert!(tree.update(0, &p).is_ok());
    assert_eq!(tree.weights().as_slice(), &[0, SCALE, 0]);
}

#[test]
fn nested_tree_updates_only_active_children() {
    let sk = chain_skeleton();
    let inner = one_d_tree(&sk, "inner");
    let motions = vec![
        MotionData {
            motion: BlendMotionState::Animation(SimpleState::new(uniform_clip(1_000_000, 40), 1)),
            threshold: MotionThreshold::Simple1D(0),
        },
        MotionData {
            motion: BlendMotionState::SubTree(Box::new(BlendState::new(inner))),
            threshold: MotionThreshold::Simple1D(1_000_000),
        },
    ];
    let mut tree = BlendTree::new(&sk, BlendTreeType::Simple1D("outer".to_string()), motions);
    let mut p = Parameters::new();
    p.set_float("outer", 0);
    p.set_float("inner", 0);
    assert!(tree.update(0, &p).is_ok());
    assert_eq!(tree.weights().as_slice(), &[SCALE, 0]);
    // The nested tree carried zero weight, so it was skipped: its own
    // weights are untouched.
    match &tree.motions[1].motion {
        BlendMotionState::SubTree(b) => {
            assert_eq!(b.blend_tree.weights().as_slice(), &[0, 0]);
        }
        BlendMotionState::Animation(_) => panic!("expected a nested tree"),
    }
    p.set_float("outer", 1_000_000);
    assert!(tree.update(0, &p).is_ok());
    assert_eq!(tree.weights().as_slice(), &[0, SCALE]);
    match &tree.motions[1].motion {
        BlendMotionState::SubTree(b) => {
            assert_eq!(b.blend_tree.weights().as_slice(), &[SCALE, 0]);
        }
        BlendMotionState::Animation(_) => panic!("expected a nested tree"),
    }
}

#[test]
fn tree_rejects_mismatched_child_buffers() {
    let sk = chain_skeleton();
    let motions = vec![MotionData {
        // The child's buffer is two records long; the tree's is one.
        motion: BlendMotionState::Animation(SimpleState::new(
            AnimationClip {
                duration: 1_000_000,
                frames: vec![vec![uniform_record(1), uniform_record(2)]],
            },
            2,
        )),
        threshold: MotionThreshold::Simple1D(0),
    }];
    let mut tree = BlendTree::new(&sk, BlendTreeType::Simple1D("v".to_string()), motions);
    let p = Parameters::new();
    assert_eq!(tree.update(0, &p), Err(AnimError::BlendFailed));
}

#[test]
fn single_clip_controller_tick() {
    // One layer with one simple state on a 2-second clip.
    let sk = chain_skeleton();
    let mut layer = AnimationLayer::new(
        "base".to_string(),
        LayerBlendType::Override,
        SCALE,
        &sk,
        "idle".to_string(),
    );
    layer.add_state("idle".to_string(), simple_state(2_000_000, 420_000));
    let mut c = AnimatorController::new(sk, vec![layer], Parameters::new());
    assert!(c.update(500_000, 500_000).is_ok());
    // The sampler ran at a quarter of the clip.
    match c.layers[0].state("idle") {
        Some(AnimationState::Simple(st)) => assert_eq!(st.last_ratio(), 250_000),
        _ => panic!("missing state"),
    }
    // One published transform per joint.
    assert_eq!(c.bone_trans.len(), 4);
    assert_eq!(c.bone_trans[0].position.x, 420_000);
    assert_eq!(c.bone_trans[3].scale.z, 420_000);
}

fn cross_fade_controller() -> AnimatorController {
    let sk = chain_skeleton();
    let mut layer = AnimationLayer::new(
        "base".to_string(),
        LayerBlendType::Override,
        SCALE,
        &sk,
        "A".to_string(),
    );
    layer.add_state("A".to_string(), simple_state(1_000_000, 1_000_000));
    layer.add_state("B".to_string(), simple_state(1_000_000, 0));
    layer.add_transition(
        "A".to_string(),
        Transition {
            to_state: "B".to_string(),
            duration: 1_000_000,
            conditions: vec![TransitionCondition::Bool("go".to_string(), true)],
            has_exit_time: false,
            exit_time: 0,
        },
    );
    AnimatorController::new(sk, vec![layer], Parameters::new())
}

#[test]
fn cross_fade_runs_and_completes() {
    let mut c = cross_fade_controller();
    c.parameters.set_bool("go", false);
    assert!(c.update(250_000, 0).is_ok());
    assert!(!c.layers[0].is_transitioning);
    assert_eq!(c.layers[0].current_state_name().as_str(), "A");

    c.parameters.set_bool("go", true);
    assert!(c.update(250_000, 0).is_ok());
    assert!(c.layers[0].is_transitioning);
    // Cross-fade at t = 0.25: 0.75 * A + 0.25 * B on every lane.
    assert_eq!(c.layers[0].blend_job_output[0].vals[0], 750_000);
    assert_eq!(c.bone_trans[0].position.x, 750_000);

    assert!(c.update(250_000, 0).is_ok());
    assert!(c.update(250_000, 0).is_ok());
    assert!(c.update(250_000, 0).is_ok());
    assert!(!c.layers[0].is_transitioning);
    assert_eq!(c.layers[0].current_state_name().as_str(), "B");
    assert_eq!(c.layers[0].next_state, None);
    assert_eq!(c.bone_trans[0].position.x, 0);
}

#[test]
fn trigger_fires_exactly_once() {
    let sk = chain_skeleton();
    let mut layer = AnimationLayer::new(
        "base".to_string(),
        LayerBlendType::Override,
        SCALE,
        &sk,
        "A".to_string(),
    );
    layer.add_state("A".to_string(), simple_state(1_000_000, 1));
    layer.add_state("B".to_string(), simple_state(1_000_000, 2));
    layer.add_transition(
        "A".to_string(),
        Transition {
            to_state: "B".to_string(),
            duration: 0,
            conditions: vec![TransitionCondition::Trigger("jump".to_string())],
            has_exit_time: false,
            exit_time: 0,
        },
    );
    // A symmetric edge back, also on the trigger: it must not fire on
    // the tick after the trigger was consumed.
    layer.add_transition(
        "B".to_string(),
        Transition {
            to_state: "A".to_string(),
            duration: 0,
            conditions: vec![TransitionCondition::Trigger("jump".to_string())],
            has_exit_time: false,
            exit_time: 0,
        },
    );
    let mut c = AnimatorController::new(sk, vec![layer], Parameters::new());

    c.parameters.set_trigger("jump");
    assert!(c.update(100_000, 0).is_ok());
    // Zero duration: the fired transition completed within the tick.
    assert_eq!(c.layers[0].current_state_name().as_str(), "B");
    assert!(!c.layers[0].is_transitioning);
    assert!(!c.parameters.get_trigger("jump"));

    assert!(c.update(100_000, 0).is_ok());
    assert_eq!(c.layers[0].current_state_name().as_str(), "B");
}

#[test]
fn int_and_float_conditions_gate_transitions() {
    let sk = chain_skeleton();
    let mut layer = AnimationLayer::new(
        "base".to_string(),
        LayerBlendType::Override,
        SCALE,
        &sk,
        "A".to_string(),
    );
    layer.add_state("A".to_string(), simple_state(1_000_000, 1));
    layer.add_state("B".to_string(), simple_state(1_000_000, 2));
    layer.add_transition(
        "A".to_string(),
        Transition {
            to_state: "B".to_string(),
            duration: 0,
            conditions: vec![
                TransitionCondition::Int("hits".to_string(), 3, CompareType::Greater),
                TransitionCondition::Float("speed".to_string(), 500_000, CompareType::Less),
            ],
            has_exit_time: false,
            exit_time: 0,
        },
    );
    let mut c = AnimatorController::new(sk, vec![layer], Parameters::new());

    // Missing parameters: conditions read false; nothing fires.
    assert!(c.update(0, 0).is_ok());
    assert_eq!(c.layers[0].current_state_name().as_str(), "A");

    c.parameters.set_int("hits", 4);
    c.parameters.set_float("speed", 600_000);
    assert!(c.update(0, 0).is_ok());
    assert_eq!(c.layers[0].current_state_name().as_str(), "A");

    c.parameters.set_float("speed", 400_000);
    assert!(c.update(0, 0).is_ok());
    assert_eq!(c.layers[0].current_state_name().as_str(), "B");
}

#[test]
fn missing_target_state_is_skipped() {
    let sk = chain_skeleton();
    let mut layer = AnimationLayer::new(
        "base".to_string(),
        LayerBlendType::Override,
        SCALE,
        &sk,
        "A".to_string(),
    );
    layer.add_state("A".to_string(), simple_state(1_000_000, 1));
    layer.add_state("C".to_string(), simple_state(1_000_000, 3));
    // The first transition names a state that does not exist; the
    // second is taken instead.
    layer.add_transition(
        "A".to_string(),
        Transition {
            to_state: "missing".to_string(),
            duration: 0,
            conditions: vec![],
            has_exit_time: false,
            exit_time: 0,
        },
    );
    layer.add_transition(
        "A".to_string(),
        Transition {
            to_state: "C".to_string(),
            duration: 0,
            conditions: vec![],
            has_exit_time: false,
            exit_time: 0,
        },
    );
    let mut c = AnimatorController::new(sk, vec![layer], Parameters::new());
    assert!(c.update(0, 0).is_ok());
    assert_eq!(c.layers[0].current_state_name().as_str(), "C");
}

#[test]
fn additive_layers_are_rejected() {
    let sk = chain_skeleton();
    let mut base = AnimationLayer::new(
        "base".to_string(),
        LayerBlendType::Override,
        SCALE,
        &sk,
        "idle".to_string(),
    );
    base.add_state("idle".to_string(), simple_state(1_000_000, 5));
    let mut extra = AnimationLayer::new(
        "extra".to_string(),
        LayerBlendType::Additive,
        SCALE,
        &sk,
        "idle".to_string(),
    );
    extra.add_state("idle".to_string(), simple_state(1_000_000, 6));
    let mut c = AnimatorController::new(sk, vec![base, extra], Parameters::new());
    assert_eq!(c.update(100_000, 100_000), Err(AnimError::AdditiveNotSupported));
    // The published joint list was not refreshed.
    assert_eq!(c.bone_trans.len(), 0);
    assert_eq!(c.build_blending_layers(), Err(AnimError::AdditiveNotSupported));
}

#[test]
fn failed_update_keeps_the_previous_publication() {
    let sk = chain_skeleton();
    let mut layer = AnimationLayer::new(
        "base".to_string(),
        LayerBlendType::Override,
        SCALE,
        &sk,
        "good".to_string(),
    );
    layer.add_state("good".to_string(), simple_state(1_000_000, 777));
    layer.add_state("bad".to_string(), simple_state(0, 1));
    layer.add_transition(
        "good".to_string(),
        Transition {
            to_state: "bad".to_string(),
            duration: 0,
            conditions: vec![TransitionCondition::Bool("break".to_string(), true)],
            has_exit_time: false,
            exit_time: 0,
        },
    );
    let mut c = AnimatorController::new(sk, vec![layer], Parameters::new());
    assert!(c.update(100_000, 0).is_ok());
    assert_eq!(c.bone_trans.len(), 4);

    // Jump into the state with the unusable clip; the zero-duration
    // transition completes within this tick.
    c.parameters.set_bool("break", true);
    assert!(c.update(100_000, 0).is_ok());
    assert_eq!(c.layers[0].current_state_name().as_str(), "bad");
    let published = c.bone_trans.clone();

    // Its sampling now fails and the published list stays as it was.
    assert_eq!(c.update(100_000, 0), Err(AnimError::SamplingFailed));
    assert_eq!(c.bone_trans, published);
}

#[test]
fn layered_composition_averages_by_base_weight() {
    let sk = chain_skeleton();
    let mut a = AnimationLayer::new(
        "a".to_string(),
        LayerBlendType::Override,
        SCALE,
        &sk,
        "s".to_string(),
    );
    a.add_state("s".to_string(), simple_state(1_000_000, 1_000_000));
    let mut b = AnimationLayer::new(
        "b".to_string(),
        LayerBlendType::Override,
        SCALE / 2,
        &sk,
        "s".to_string(),
    );
    b.add_state("s".to_string(), simple_state(1_000_000, 400_000));
    let mut c = AnimatorController::new(sk, vec![a, b], Parameters::new());
    assert!(c.update(0, 0).is_ok());
    // (1.0 * 1_000_000 + 0.5 * 400_000) / 1.5
    assert_eq!(c.bone_trans[0].position.x, 800_000);
}

#[test]
fn repeating_a_tick_republishes_the_same_pose() {
    let mut c = cross_fade_controller();
    c.parameters.set_float("unused", 1);
    assert!(c.update(250_000, 750_000).is_ok());
    let first = c.bone_trans.clone();
    // Same elapsed clock, stable graph: the published list is
    // identical, whatever dt is.
    assert!(c.update(250_000, 750_000).is_ok());
    assert_eq!(c.bone_trans, first);
    assert!(c.update(0, 750_000).is_ok());
    assert_eq!(c.bone_trans, first);
}

#[test]
fn layer_weight_is_saturated() {
    let sk = chain_skeleton();
    let mut layer = AnimationLayer::new(
        "base".to_string(),
        LayerBlendType::Override,
        7_000_000,
        &sk,
        "idle".to_string(),
    );
    assert_eq!(layer.layer_weight, SCALE);
    layer.set_weight(-5);
    assert_eq!(layer.layer_weight, 0);
    layer.set_weight(123);
    assert_eq!(layer.layer_weight, 123);
}

#[test]
fn error_descriptions_are_stable() {
    assert_eq!(AnimError::SamplingFailed.describe(), "sampling failed");
    assert_eq!(AnimError::BlendFailed.describe(), "blend failed");
    assert_eq!(
        AnimError::AdditiveNotSupported.describe(),
        "additive blending is not supported"
    );
}

#[test]
fn every_buffer_has_the_soa_length() {
    let sk = chain_skeleton();
    let soa = sk.num_soa_joints();
    let tree = one_d_tree(&sk, "speed");
    assert_eq!(tree.get_output_pointer().len(), soa);
    for motion in &tree.motions {
        match &motion.motion {
            BlendMotionState::Animation(st) => {
                assert_eq!(st.get_output_pointer().len(), soa)
            }
            BlendMotionState::SubTree(b) => {
                assert_eq!(b.get_output_pointer().len(), soa)
            }
        }
    }
    let mut layer = AnimationLayer::new(
        "base".to_string(),
        LayerBlendType::Override,
        SCALE,
        &sk,
        "t".to_string(),
    );
    layer.add_state("t".to_string(), AnimationState::Blend(BlendState::new(tree)));
    assert_eq!(layer.blend_job_output.len(), soa);
    let mut c = AnimatorController::new(sk, vec![layer], Parameters::new());
    assert_eq!(c.blending_output.len(), soa);
    c.parameters.set_float("speed", 500_000);
    assert!(c.update(100_000, 100_000).is_ok());
    assert_eq!(c.blending_output.len(), soa);
    assert_eq!(c.layers[0].blend_job_output.len(), soa);
}

#[test]
fn final_blend_weights_sum_to_the_base_weights() {
    let sk = chain_skeleton();
    let mut a = AnimationLayer::new(
        "a".to_string(),
        LayerBlendType::Override,
        SCALE,
        &sk,
        "s".to_string(),
    );
    a.add_state("s".to_string(), simple_state(1_000_000, 1));
    let mut b = AnimationLayer::new(
        "b".to_string(),
        LayerBlendType::Override,
        300_000,
        &sk,
        "s".to_string(),
    );
    b.add_state("s".to_string(), simple_state(1_000_000, 2));
    let base_sum: i64 = a.layer_weight + b.layer_weight;
    let mut c = AnimatorController::new(sk, vec![a, b], Parameters::new());
    assert!(c.update(0, 0).is_ok());
    let final_sum: i64 = c.final_weights.iter().sum();
    assert_eq!(final_sum, base_sum);
    assert_eq!(final_sum, SCALE + 300_000);
}
