use glam::{Quat, Vec3};
use skelanim::clip::{
    coarsen, fraction, hermite_weights, locate, sample_quat, sample_vec3, AnimationClip, Channel,
    Fraction, HermiteWeights, Interpolation, Keyframe, Place, Sample, FINE_LIMIT,
};

/// Seconds to microseconds.
fn us(seconds: f64) -> i64 {
    (seconds * 1_000_000.0).round() as i64
}

/// Works a sample of vectors out with `glam`.
fn eval_vec3(sample: Sample<Vec3>) -> Vec3 {
    match sample {
        Sample::Exact(v) => v,
        Sample::Linear { from, to, at } => from.lerp(to, at.num as f32 / at.den as f32),
        Sample::Hermite { from, from_tangent, to, to_tangent, at } => {
            let w = hermite_weights(at);
            let dt = at.den as f32 / 1_000_000.0;
            let part = |count: i128| (count as f64 / w.scale as f64) as f32;
            from * part(w.h00)
                + from_tangent * dt * part(w.h10)
                + to * part(w.h01)
                + to_tangent * dt * part(w.h11)
        }
        Sample::Spherical { .. } => panic!("vectors are not blended along an arc"),
    }
}

/// Works a sample of rotations out with `glam`.
fn eval_quat(sample: Sample<Quat>) -> Quat {
    match sample {
        Sample::Exact(q) => q,
        Sample::Spherical { from, to, at } => from.slerp(to, at.num as f32 / at.den as f32),
        _ => panic!("rotations are blended along an arc"),
    }
}

#[test]
fn test_animation_clip_sampling() {
    let mut clip = AnimationClip::new("test");

    let translation_keys = vec![
        Keyframe::new(us(0.0), Vec3::ZERO),
        Keyframe::new(us(1.0), Vec3::new(10.0, 0.0, 0.0)),
    ];

    clip.add_channel(0, Channel::Translation(translation_keys));

    assert_eq!(clip.duration, us(1.0));

    // Sample at t=0.5, should be halfway
    let pos = eval_vec3(clip.sample_translation(0, us(0.5)).unwrap());
    assert!((pos.x - 5.0).abs() < 0.01);
    assert!(pos.y.abs() < 0.01);
    assert!(pos.z.abs() < 0.01);
}

#[test]
fn linear_sample_names_both_keyframes_and_the_fraction() {
    let keys = vec![
        Keyframe::new(1_000, Vec3::new(1.0, 2.0, 3.0)),
        Keyframe::new(5_000, Vec3::new(5.0, 6.0, 7.0)),
        Keyframe::new(9_000, Vec3::new(9.0, 9.0, 9.0)),
    ];
    match sample_vec3(&keys, 6_000, Interpolation::Linear) {
        Sample::Linear { from, to, at } => {
            assert_eq!(from, Vec3::new(5.0, 6.0, 7.0));
            assert_eq!(to, Vec3::new(9.0, 9.0, 9.0));
            assert_eq!(at, Fraction { num: 1_000, den: 4_000 });
        }
        other => panic!("unexpected sample {:?}", other),
    }
    // On a keyframe the value is that of the keyframe, exactly.
    match sample_vec3(&keys, 5_000, Interpolation::Linear) {
        Sample::Exact(v) => assert_eq!(v, Vec3::new(5.0, 6.0, 7.0)),
        other => panic!("unexpected sample {:?}", other),
    }
}

#[test]
fn step_sample_is_the_earlier_value() {
    let keys = vec![
        Keyframe::new(0, Vec3::new(1.0, 0.0, 0.0)),
        Keyframe::new(10, Vec3::new(2.0, 0.0, 0.0)),
    ];
    for time in [0, 1, 5, 9] {
        match sample_vec3(&keys, time, Interpolation::Step) {
            Sample::Exact(v) => assert_eq!(v, Vec3::new(1.0, 0.0, 0.0)),
            other => panic!("unexpected sample {:?}", other),
        }
    }
    match sample_vec3(&keys, 10, Interpolation::Step) {
        Sample::Exact(v) => assert_eq!(v, Vec3::new(2.0, 0.0, 0.0)),
        other => panic!("unexpected sample {:?}", other),
    }
    let turns =
        vec![Keyframe::new(0, Quat::IDENTITY), Keyframe::new(10, Quat::from_rotation_z(1.0))];
    match sample_quat(&turns, 4, Interpolation::Step) {
        Sample::Exact(q) => assert_eq!(q, Quat::IDENTITY),
        other => panic!("unexpected sample {:?}", other),
    }
}

#[test]
fn samples_are_clamped_outside_the_keyframes() {
    let keys = vec![
        Keyframe::new(100, Vec3::new(1.0, 1.0, 1.0)),
        Keyframe::new(200, Vec3::new(2.0, 2.0, 2.0)),
    ];
    for mode in [Interpolation::Linear, Interpolation::Step, Interpolation::CubicSpline] {
        assert_eq!(eval_vec3(sample_vec3(&keys, -5, mode)), Vec3::new(1.0, 1.0, 1.0));
        assert_eq!(eval_vec3(sample_vec3(&keys, 100, mode)), Vec3::new(1.0, 1.0, 1.0));
        assert_eq!(eval_vec3(sample_vec3(&keys, 200, mode)), Vec3::new(2.0, 2.0, 2.0));
        assert_eq!(eval_vec3(sample_vec3(&keys, 999, mode)), Vec3::new(2.0, 2.0, 2.0));
    }
    assert_eq!(locate(&keys, 100), Place::At(0));
    assert_eq!(locate(&keys, 150), Place::Between(0));
    assert_eq!(locate(&keys, 200), Place::At(1));
    let none: Vec<Keyframe<Vec3>> = Vec::new();
    assert_eq!(locate(&none, 0), Place::Nowhere);
}

#[test]
fn empty_channels_give_the_neutral_value() {
    let none: Vec<Keyframe<Vec3>> = Vec::new();
    assert_eq!(eval_vec3(sample_vec3(&none, 3, Interpolation::Linear)), Vec3::ZERO);
    let no_turns: Vec<Keyframe<Quat>> = Vec::new();
    assert_eq!(eval_quat(sample_quat(&no_turns, 3, Interpolation::Linear)), Quat::IDENTITY);

    let mut clip = AnimationClip::new("empty");
    clip.add_channel(2, Channel::Scale(Vec::new()));
    assert_eq!(clip.duration, 0);
    assert_eq!(eval_vec3(clip.sample_scale(2, 0).unwrap()), Vec3::ZERO);
}

#[test]
fn cubic_spline_uses_tangents_and_defaults_them_to_zero() {
    let keys = vec![
        Keyframe::with_tangents(0, Vec3::ZERO, Vec3::ZERO, Vec3::new(1.0, 0.0, 0.0)),
        Keyframe::new(us(2.0), Vec3::new(4.0, 0.0, 0.0)),
    ];
    match sample_vec3(&keys, us(1.0), Interpolation::CubicSpline) {
        Sample::Hermite { from, from_tangent, to, to_tangent, at } => {
            assert_eq!(from, Vec3::ZERO);
            assert_eq!(from_tangent, Vec3::new(1.0, 0.0, 0.0));
            assert_eq!(to, Vec3::new(4.0, 0.0, 0.0));
            assert_eq!(to_tangent, Vec3::ZERO);
            assert_eq!(at, Fraction { num: 1_000_000, den: 2_000_000 });
        }
        other => panic!("unexpected sample {:?}", other),
    }
    // h00 = 0.5, h10 = 0.125, h01 = 0.5, h11 = -0.125, and the segment is 2 s long:
    // 0 * 0.5 + 1 * 2 * 0.125 + 4 * 0.5 + 0 = 2.25
    let value = eval_vec3(sample_vec3(&keys, us(1.0), Interpolation::CubicSpline));
    assert!((value.x - 2.25).abs() < 1e-5);
}

#[test]
fn rotations_blend_along_the_arc_in_linear_and_cubic_mode() {
    let turns = vec![
        Keyframe::new(0, Quat::IDENTITY),
        Keyframe::new(1_000, Quat::from_rotation_z(std::f32::consts::FRAC_PI_2)),
    ];
    for mode in [Interpolation::Linear, Interpolation::CubicSpline] {
        match sample_quat(&turns, 500, mode) {
            Sample::Spherical { from, to, at } => {
                assert_eq!(from, Quat::IDENTITY);
                assert_eq!(to, turns[1].value);
                assert_eq!(at, Fraction { num: 500, den: 1_000 });
            }
            other => panic!("unexpected sample {:?}", other),
        }
        let half = eval_quat(sample_quat(&turns, 500, mode));
        let expected = Quat::from_rotation_z(std::f32::consts::FRAC_PI_4);
        assert!(half.angle_between(expected) < 1e-4);
    }
}

#[test]
fn sampling_misses_are_absent_and_the_first_channel_wins() {
    let mut clip = AnimationClip::new("walk");
    assert_eq!(clip.name, "walk");
    assert_eq!(clip.interpolation, Interpolation::Linear);
    clip.add_channel(1, Channel::Rotation(vec![Keyframe::new(0, Quat::IDENTITY)]));
    clip.add_channel(1, Channel::Translation(vec![Keyframe::new(0, Vec3::new(1.0, 0.0, 0.0))]));
    clip.add_channel(1, Channel::Translation(vec![Keyframe::new(0, Vec3::new(2.0, 0.0, 0.0))]));
    clip.add_channel(3, Channel::MorphWeights(vec![Keyframe::new(7_000, vec![0.5f32.to_bits()])]));
    assert!(clip.sample_translation(0, 0).is_none());
    assert!(clip.sample_scale(1, 0).is_none());
    assert!(clip.sample_rotation(3, 0).is_none());
    assert_eq!(eval_vec3(clip.sample_translation(1, 0).unwrap()), Vec3::new(1.0, 0.0, 0.0));
    assert_eq!(eval_quat(clip.sample_rotation(1, 0).unwrap()), Quat::IDENTITY);
    // The duration is the largest of the channels' durations.
    assert_eq!(clip.duration, 7_000);
    clip.add_channel(4, Channel::Scale(vec![Keyframe::new(3_000, Vec3::ONE)]));
    assert_eq!(clip.duration, 7_000);
    assert_eq!(Channel::Scale(vec![Keyframe::new(3_000, Vec3::ONE)]).duration(), 3_000);
    assert_eq!(AnimationClip::default().name, "untitled");
    assert_eq!(Interpolation::default(), Interpolation::Linear);
}

#[test]
fn unordered_keyframes_fall_back_to_the_last_value() {
    let keys = vec![
        Keyframe::new(0, Vec3::new(0.0, 0.0, 0.0)),
        Keyframe::new(50, Vec3::new(1.0, 0.0, 0.0)),
        Keyframe::new(20, Vec3::new(2.0, 0.0, 0.0)),
        Keyframe::new(100, Vec3::new(3.0, 0.0, 0.0)),
    ];
    // 60 lies in no pair of neighbours taken in order but the last one.
    assert_eq!(locate(&keys, 60), Place::Between(2));
    let odd = vec![
        Keyframe::new(0, Vec3::ZERO),
        Keyframe::new(80, Vec3::ONE),
        Keyframe::new(40, Vec3::new(7.0, 7.0, 7.0)),
    ];
    // 90 is past the first and before no later keyframe in order.
    assert_eq!(locate(&odd, 90), Place::At(2));
}

#[test]
fn hermite_weights_are_exact() {
    // At one half: 2/8 - 3/4 + 1 = 4/8, 1/8 - 2/4 + 1/2 = 1/8, 4/8, 1/8 - 1/4 = -1/8.
    assert_eq!(
        hermite_weights(Fraction { num: 1, den: 2 }),
        HermiteWeights { h00: 4, h10: 1, h01: 4, h11: -1, scale: 8 }
    );
    // At a quarter: t = 1/4, over 64: 2 - 12 + 64, 1 - 8 + 16, 12 - 2, 1 - 4.
    assert_eq!(
        hermite_weights(Fraction { num: 1, den: 4 }),
        HermiteWeights { h00: 54, h10: 9, h01: 10, h11: -3, scale: 64 }
    );
    // At the ends the spline is the value it leaves and the value it arrives at.
    assert_eq!(
        hermite_weights(Fraction { num: 0, den: 10 }),
        HermiteWeights { h00: 1000, h10: 0, h01: 0, h11: 0, scale: 1000 }
    );
    assert_eq!(
        hermite_weights(Fraction { num: 10, den: 10 }),
        HermiteWeights { h00: 0, h10: 0, h01: 1000, h11: 0, scale: 1000 }
    );
}

#[test]
fn long_segments_are_measured_coarsely() {
    let at = Fraction { num: 3, den: 8 };
    assert_eq!(coarsen(at), at);
    let long = Fraction { num: 3 * FINE_LIMIT, den: 4 * FINE_LIMIT };
    assert_eq!(coarsen(long), Fraction { num: 3 * FINE_LIMIT / 4, den: FINE_LIMIT });
    let w = hermite_weights(long);
    let quarter = hermite_weights(Fraction { num: 3, den: 4 });
    // The same weights over another denominator: 3/4 either way.
    assert_eq!(w.h00 * quarter.scale, quarter.h00 * w.scale);
    assert_eq!(w.h11 * quarter.scale, quarter.h11 * w.scale);
    // The widest segment there is does not overflow.
    let widest = hermite_weights(Fraction { num: u64::MAX, den: u64::MAX });
    assert_eq!(widest.h01, widest.scale);
    assert_eq!(fraction(i64::MIN, i64::MAX, 0), Fraction { num: 1 << 63, den: u64::MAX });
}
