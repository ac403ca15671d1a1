use glam::Vec3;
use skelanim::clip::{AnimationClip, Channel, Keyframe};
use skelanim::player::{AnimationPlayer, PlaybackState, UNIT};

/// Seconds to microseconds.
fn us(seconds: f64) -> i64 {
    (seconds * 1_000_000.0).round() as i64
}

/// Microseconds to seconds.
fn secs(time: i64) -> f32 {
    time as f32 / 1_000_000.0
}

fn one_second_clip() -> AnimationClip {
    let mut clip = AnimationClip::new("test");
    clip.add_channel(
        0,
        Channel::Translation(vec![Keyframe::new(us(0.0), Vec3::ZERO), Keyframe::new(us(1.0), Vec3::X)]),
    );
    clip
}

#[test]
fn test_animation_player_playback() {
    let mut player = AnimationPlayer::new();

    let mut clip = AnimationClip::new("test");
    clip.add_channel(
        0,
        Channel::Translation(vec![Keyframe::new(us(0.0), Vec3::ZERO), Keyframe::new(us(1.0), Vec3::X)]),
    );

    player.set_clip(clip);
    player.play();

    assert!(player.is_playing());
    assert_eq!(secs(player.current_time()), 0.0);

    // Update by 0.5 seconds
    player.update(us(0.5));
    assert!((secs(player.current_time()) - 0.5).abs() < 0.01);

    // Update past end with looping
    player.update(us(0.8));
    assert!(secs(player.current_time()) < 0.5); // Should have looped
}

#[test]
fn looping_playback_wraps_around() {
    let mut player = AnimationPlayer::new();
    player.set_clip(one_second_clip());
    player.set_speed(UNIT);
    player.set_looping(true);
    player.play();
    player.update(us(1.3));
    assert_eq!(player.current_time(), 300_000);
    assert!((secs(player.current_time()) - 0.3).abs() < 1e-6);
    assert_eq!(player.state(), PlaybackState::Playing);
}

#[test]
fn playback_without_looping_stops_at_the_end() {
    let mut player = AnimationPlayer::new();
    player.set_clip(one_second_clip());
    player.set_looping(false);
    player.play();
    player.update(us(1.3));
    assert_eq!(player.current_time(), us(1.0));
    assert_eq!(player.state(), PlaybackState::Stopped);
    assert!(!player.is_playing());
    assert_eq!(player.normalized_time(), UNIT);
}

#[test]
fn clip_without_length_never_moves() {
    let mut clip = AnimationClip::new("still");
    clip.add_channel(0, Channel::Translation(vec![Keyframe::new(0, Vec3::ONE)]));
    assert_eq!(clip.duration, 0);

    let mut player = AnimationPlayer::new();
    player.set_clip(clip.clone());
    player.play();
    for delta in [0, 1, us(0.016), us(100.0), -us(5.0), i64::MAX, i64::MIN] {
        player.update(delta);
        assert_eq!(player.current_time(), 0);
        assert_eq!(player.normalized_time(), 0);
    }
    // A looping player goes on playing.
    assert_eq!(player.state(), PlaybackState::Playing);
    player.seek(us(3.0));
    assert_eq!(player.current_time(), 0);

    let mut once = AnimationPlayer::new();
    once.set_clip(clip);
    once.set_looping(false);
    once.play();
    once.update(us(0.016));
    assert_eq!(once.current_time(), 0);
    assert_eq!(once.state(), PlaybackState::Stopped);
}

#[test]
fn reverse_playback_wraps_or_stops_at_the_start() {
    let mut player = AnimationPlayer::new();
    player.set_clip(one_second_clip());
    player.set_speed(-UNIT);
    player.play();
    player.update(us(0.25));
    assert_eq!(player.current_time(), us(0.75));
    player.update(us(0.5));
    assert_eq!(player.current_time(), us(0.25));
    // Landing on a whole number of rounds below zero wraps to the end.
    player.update(us(1.25));
    assert_eq!(player.current_time(), us(1.0));
    assert!(player.is_playing());

    let mut once = AnimationPlayer::new();
    once.set_clip(one_second_clip());
    once.set_looping(false);
    once.set_speed(-UNIT);
    once.play();
    once.update(us(0.1));
    assert_eq!(once.current_time(), 0);
    assert_eq!(once.state(), PlaybackState::Stopped);
}

#[test]
fn speed_scales_the_time_that_passes() {
    let mut player = AnimationPlayer::new();
    player.set_clip(one_second_clip());
    player.set_speed(UNIT / 2);
    assert_eq!(player.speed(), 500_000);
    player.play();
    player.update(us(0.5));
    assert_eq!(player.current_time(), us(0.25));
    assert_eq!(player.normalized_time(), 250_000);
    // The product is rounded toward zero.
    player.set_speed(1);
    player.update(999_999);
    assert_eq!(player.current_time(), us(0.25));
    player.update(1_000_000);
    assert_eq!(player.current_time(), us(0.25) + 1);
    // The largest step at the largest speed still lands inside the clip.
    player.set_speed(i64::MAX);
    player.update(i64::MAX);
    assert!(player.current_time() >= 0 && player.current_time() < us(1.0));
    player.set_speed(i64::MIN);
    player.update(i64::MAX);
    assert!(player.current_time() > 0 && player.current_time() <= us(1.0));
}

#[test]
fn state_machine_follows_play_pause_stop() {
    let mut player = AnimationPlayer::new();
    assert_eq!(player.state(), PlaybackState::Stopped);
    assert_eq!(PlaybackState::default(), PlaybackState::Stopped);
    assert!(player.clip().is_none());
    assert!(player.is_looping());
    assert_eq!(player.speed(), UNIT);
    assert_eq!(player.weight(), UNIT);

    // Without a clip, play does nothing, and seek and update leave the time alone.
    player.play();
    assert_eq!(player.state(), PlaybackState::Stopped);
    player.seek(us(0.5));
    player.update(us(0.5));
    assert_eq!(player.current_time(), 0);
    assert_eq!(player.normalized_time(), 0);

    player.set_clip(one_second_clip());
    assert_eq!(player.state(), PlaybackState::Stopped);
    assert_eq!(player.clip().unwrap().name, "test");
    // A stopped player does not advance.
    player.update(us(0.5));
    assert_eq!(player.current_time(), 0);

    player.play();
    player.update(us(0.4));
    player.pause();
    assert_eq!(player.state(), PlaybackState::Paused);
    player.update(us(0.4));
    assert_eq!(player.current_time(), us(0.4));
    player.play();
    player.update(us(0.1));
    assert_eq!(player.current_time(), us(0.5));

    player.stop();
    assert_eq!(player.state(), PlaybackState::Stopped);
    assert_eq!(player.current_time(), 0);

    // Setting a clip goes back to the start and keeps the state.
    player.play();
    player.update(us(0.7));
    player.set_clip(one_second_clip());
    assert_eq!(player.current_time(), 0);
    assert_eq!(player.state(), PlaybackState::Playing);
    assert_eq!(AnimationPlayer::default().state(), PlaybackState::Stopped);
}

#[test]
fn seek_and_weight_are_clamped() {
    let mut player = AnimationPlayer::new();
    player.set_clip(one_second_clip());
    player.seek(us(0.5));
    assert_eq!(player.current_time(), us(0.5));
    player.seek(us(2.0));
    assert_eq!(player.current_time(), us(1.0));
    player.seek(-us(2.0));
    assert_eq!(player.current_time(), 0);

    player.set_weight(UNIT / 4);
    assert_eq!(player.weight(), 250_000);
    player.set_weight(2 * UNIT);
    assert_eq!(player.weight(), UNIT);
    player.set_weight(-1);
    assert_eq!(player.weight(), 0);
}
