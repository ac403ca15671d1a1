//! Playback of a clip: the current time, the speed, and the state machine
//! that `update` drives.
//!
//! Times are whole microseconds. Speed and weight are counted in millionths,
//! so that [`UNIT`] stands for normal speed and for full weight.

use crate::clip::AnimationClip;
use vstd::prelude::*;

verus! {

/// One second in microseconds; also the number one in millionths.
pub const UNIT: i64 = 1_000_000;

/// Whether a player is running.
#[derive(Debug, Clone, Copy, PartialEq, Eq, Structural)]
pub enum PlaybackState {
    /// Time advances on every update.
    Playing,
    /// Time stands still and is kept.
    Paused,
    /// Time stands still; the state before `play` and after a clip that does
    /// not loop has ended.
    Stopped,
}

impl Default for PlaybackState {
    fn default() -> (state: PlaybackState)
        ensures
            state == PlaybackState::Stopped,
    {
        PlaybackState::Stopped
    }
}

/// The quotient of `a` by a positive `b`, rounded toward zero.
pub open spec fn trunc_div(a: int, b: int) -> int {
    if a >= 0 {
        a / b
    } else {
        -((-a) / b)
    }
}

/// The remainder of `a` by a positive `b` that goes with `trunc_div`: it has
/// the sign of `a`.
pub open spec fn trunc_rem(a: int, b: int) -> int {
    if a >= 0 {
        a % b
    } else {
        -((-a) % b)
    }
}

/// The time reached from `time` after `delta` microseconds at `speed`
/// millionths of normal speed, before it is wrapped or clamped.
pub open spec fn advanced(time: int, delta: int, speed: int) -> int {
    time + trunc_div(delta * speed, UNIT as int)
}

/// `time` clamped to the range from zero to `duration`; zero for a clip
/// without length.
pub open spec fn clamped(time: int, duration: int) -> int {
    if duration <= 0 || time < 0 {
        0
    } else if time > duration {
        duration
    } else {
        time
    }
}

/// What a player holds.
pub struct PlayerView {
    /// The clip, if one is set.
    pub clip: Option<AnimationClip>,
    /// Current time, in microseconds.
    pub time: i64,
    /// Speed, in millionths; negative for playing backward.
    pub speed: i64,
    /// Whether the clip starts over at its end.
    pub looping: bool,
    /// Whether the player is running.
    pub state: PlaybackState,
    /// Blend weight, in millionths.
    pub weight: i64,
}

impl PlayerView {
    /// The current time lies in the clip: it is not negative, and not beyond
    /// the end of a clip that has a length.
    pub open spec fn in_range(self) -> bool {
        &&& 0 <= self.time
        &&& 0 <= self.weight <= UNIT
        &&& self.clip matches Some(clip) ==> clip.duration > 0 ==> self.time <= clip.duration
    }

    /// The player after `update(delta)`. Nothing moves unless the player is
    /// playing a clip. A clip without length pins the time to zero and stops
    /// a player that does not loop. Otherwise time advances; past either end
    /// a looping player wraps around, and any other is put on that end and
    /// stopped.
    pub open spec fn updated(self, delta: i64) -> PlayerView {
        if self.state != PlaybackState::Playing {
            self
        } else {
            match self.clip {
                None => self,
                Some(clip) => {
                    let d = clip.duration as int;
                    let t = advanced(self.time as int, delta as int, self.speed as int);
                    if d <= 0 {
                        PlayerView {
                            time: 0,
                            state: if self.looping {
                                self.state
                            } else {
                                PlaybackState::Stopped
                            },
                            ..self
                        }
                    } else if t >= d {
                        if self.looping {
                            PlayerView { time: (t % d) as i64, ..self }
                        } else {
                            PlayerView { time: d as i64, state: PlaybackState::Stopped, ..self }
                        }
                    } else if t < 0 {
                        if self.looping {
                            PlayerView { time: (d + trunc_rem(t, d)) as i64, ..self }
                        } else {
                            PlayerView { time: 0, state: PlaybackState::Stopped, ..self }
                        }
                    } else {
                        PlayerView { time: t as i64, ..self }
                    }
                },
            }
        }
    }

    /// The current time as a part of the duration, in millionths; zero
    /// without a clip and for a clip without length.
    pub open spec fn normalized(self) -> int {
        match self.clip {
            Some(clip) => if clip.duration > 0 {
                (self.time * UNIT) / (clip.duration as int)
            } else {
                0
            },
            None => 0,
        }
    }

    /// An update keeps the time inside the clip.
    pub proof fn lemma_update_in_range(self, delta: i64)
        requires
            self.in_range(),
        ensures
            self.updated(delta).in_range(),
    {
        if self.state == PlaybackState::Playing {
            if let Some(clip) = self.clip {
                let d = clip.duration as int;
                let t = advanced(self.time as int, delta as int, self.speed as int);
                if d > 0 {
                    lemma_wrap_in_range(t, d);
                }
            }
        }
    }

    /// A clip without length: whatever the state, the speed and the time
    /// passed, an update leaves a player that stands at zero at zero.
    pub proof fn lemma_degenerate_clip(self, delta: i64)
        requires
            self.clip matches Some(clip) && clip.duration <= 0,
            self.time == 0,
        ensures
            self.updated(delta).time == 0,
            self.updated(delta).clip == self.clip,
    {
    }

    /// Looping playback: a playing, looping player that reaches or passes the
    /// end of its clip goes on playing, at the time past the end taken modulo
    /// the duration.
    pub proof fn lemma_loop_wraps(self, delta: i64)
        requires
            self.state == PlaybackState::Playing,
            self.looping,
            self.clip matches Some(clip) && clip.duration > 0 && advanced(
                self.time as int,
                delta as int,
                self.speed as int,
            ) >= clip.duration,
        ensures
            self.updated(delta).state == PlaybackState::Playing,
            self.updated(delta).time == advanced(self.time as int, delta as int, self.speed as int)
                % (self.clip->0.duration as int),
            0 <= self.updated(delta).time < self.clip->0.duration,
    {
        let d = self.clip->0.duration as int;
        let t = advanced(self.time as int, delta as int, self.speed as int);
        lemma_wrap_in_range(t, d);
    }

    /// Termination: a playing player that does not loop and reaches or passes
    /// the end of its clip stands on the end, exactly, and is stopped.
    pub proof fn lemma_end_stops(self, delta: i64)
        requires
            self.state == PlaybackState::Playing,
            !self.looping,
            self.clip matches Some(clip) && clip.duration > 0 && advanced(
                self.time as int,
                delta as int,
                self.speed as int,
            ) >= clip.duration,
        ensures
            self.updated(delta).state == PlaybackState::Stopped,
            self.updated(delta).time == self.clip->0.duration,
    {
    }
}

/// Wrapping a time around a clip of length `d` lands inside the clip.
pub proof fn lemma_wrap_in_range(t: int, d: int)
    requires
        d > 0,
    ensures
        0 <= t % d < d,
        0 < d + trunc_rem(t, d) <= 2 * d,
        t < 0 ==> d + trunc_rem(t, d) <= d,
{
    vstd::arithmetic::div_mod::lemma_mod_bound(t, d);
    vstd::arithmetic::div_mod::lemma_mod_bound(-t, d);
}

/// A time inside a clip is a part of its duration between nothing and all.
proof fn lemma_part_in_unit(time: int, length: int)
    requires
        0 <= time <= length,
        length > 0,
    ensures
        0 <= time * UNIT <= length * UNIT,
        0 <= (time * UNIT) / length <= UNIT,
{
    assert(0 <= time * UNIT <= length * UNIT) by (nonlinear_arith)
        requires
            0 <= time <= length,
    ;
    vstd::arithmetic::div_mod::lemma_div_is_ordered(time * UNIT, length * UNIT, length);
    vstd::arithmetic::div_mod::lemma_div_multiples_vanish(UNIT as int, length);
    vstd::arithmetic::div_mod::lemma_div_pos_is_pos(time * UNIT, length);
    assert(length * UNIT == UNIT * length) by (nonlinear_arith);
}

/// `delta` microseconds at `speed` millionths of normal speed, in
/// microseconds, rounded toward zero.
fn scaled(delta: i64, speed: i64) -> (shift: i128)
    ensures
        shift == trunc_div(delta * speed, UNIT as int),
        -0x2000_0000_0000_0000_0000_0000_0000_0000 <= shift <= 0x2000_0000_0000_0000_0000_0000_0000_0000,
{
    proof {
        assert(-0x8000_0000_0000_0000 <= delta <= 0x8000_0000_0000_0000);
        assert(-0x4000_0000_0000_0000_0000_0000_0000_0000 <= delta * speed
            <= 0x4000_0000_0000_0000_0000_0000_0000_0000) by (nonlinear_arith)
            requires
                -0x8000_0000_0000_0000 <= delta <= 0x8000_0000_0000_0000,
                -0x8000_0000_0000_0000 <= speed <= 0x8000_0000_0000_0000,
        ;
    }
    let product: i128 = (delta as i128) * (speed as i128);
    if product >= 0 {
        product / (UNIT as i128)
    } else {
        -((-product) / (UNIT as i128))
    }
}

/// Plays one clip: keeps the current time, the speed, the loop flag, the
/// playback state and the blend weight.
#[derive(Debug)]
pub struct AnimationPlayer {
    clip: Option<AnimationClip>,
    current_time: i64,
    speed: i64,
    looping: bool,
    state: PlaybackState,
    weight: i64,
}

impl View for AnimationPlayer {
    type V = PlayerView;

    closed spec fn view(&self) -> PlayerView {
        PlayerView {
            clip: self.clip,
            time: self.current_time,
            speed: self.speed,
            looping: self.looping,
            state: self.state,
            weight: self.weight,
        }
    }
}

impl AnimationPlayer {
    #[verifier::type_invariant]
    spec fn in_range(&self) -> bool {
        self@.in_range()
    }

    /// A stopped player without a clip, at normal speed, looping, with full
    /// weight.
    pub fn new() -> (player: AnimationPlayer)
        ensures
            player@ == (PlayerView {
                clip: None,
                time: 0,
                speed: UNIT,
                looping: true,
                state: PlaybackState::Stopped,
                weight: UNIT,
            }),
    {
        AnimationPlayer {
            clip: None,
            current_time: 0,
            speed: UNIT,
            looping: true,
            state: PlaybackState::Stopped,
            weight: UNIT,
        }
    }

    /// Sets the clip to play and goes back to its start. The playback state
    /// stays as it is.
    pub fn set_clip(&mut self, clip: AnimationClip)
        ensures
            final(self)@ == (PlayerView { clip: Some(clip), time: 0, ..old(self)@ }),
    {
        proof {
            use_type_invariant(&*self);
        }
        self.current_time = 0;
        self.clip = Some(clip);
    }

    /// Starts or resumes playback, if a clip is set.
    pub fn play(&mut self)
        ensures
            final(self)@ == if old(self)@.clip is Some {
                PlayerView { state: PlaybackState::Playing, ..old(self)@ }
            } else {
                old(self)@
            },
    {
        proof {
            use_type_invariant(&*self);
        }
        if self.clip.is_some() {
            self.state = PlaybackState::Playing;
        }
    }

    /// Pauses playback.
    pub fn pause(&mut self)
        ensures
            final(self)@ == (PlayerView { state: PlaybackState::Paused, ..old(self)@ }),
    {
        proof {
            use_type_invariant(&*self);
        }
        self.state = PlaybackState::Paused;
    }

    /// Stops playback and goes back to the start.
    pub fn stop(&mut self)
        ensures
            final(self)@ == (PlayerView { state: PlaybackState::Stopped, time: 0, ..old(self)@ }),
    {
        proof {
            use_type_invariant(&*self);
        }
        self.state = PlaybackState::Stopped;
        self.current_time = 0;
    }

    /// Moves to `time`, clamped to the clip. Does nothing without a clip.
    pub fn seek(&mut self, time: i64)
        ensures
            final(self)@ == match old(self)@.clip {
                Some(clip) => PlayerView {
                    time: clamped(time as int, clip.duration as int) as i64,
                    ..old(self)@
                },
                None => old(self)@,
            },
    {
        proof {
            use_type_invariant(&*self);
        }
        let target = match &self.clip {
            Some(clip) => {
                if clip.duration <= 0 || time < 0 {
                    0
                } else if time > clip.duration {
                    clip.duration
                } else {
                    time
                }
            },
            None => {
                return ;
            },
        };
        self.current_time = target;
    }

    /// Advances playback by `delta_time` microseconds.
    pub fn update(&mut self, delta_time: i64)
        ensures
            final(self)@ == old(self)@.updated(delta_time),
    {
        proof {
            use_type_invariant(&*self);
        }
        if self.state != PlaybackState::Playing {
            return ;
        }
        let duration = match &self.clip {
            Some(clip) => clip.duration,
            None => {
                return ;
            },
        };
        if duration <= 0 {
            self.current_time = 0;
            if !self.looping {
                self.state = PlaybackState::Stopped;
            }
            return ;
        }
        let reached: i128 = self.current_time as i128 + scaled(delta_time, self.speed);
        let length: i128 = duration as i128;
        if reached >= length {
            if self.looping {
                self.current_time = (reached % length) as i64;
            } else {
                self.current_time = duration;
                self.state = PlaybackState::Stopped;
            }
        } else if reached < 0 {
            if self.looping {
                self.current_time = (length - ((-reached) % length)) as i64;
            } else {
                self.current_time = 0;
                self.state = PlaybackState::Stopped;
            }
        } else {
            self.current_time = reached as i64;
        }
    }

    /// The current time, in microseconds. It is never negative, and never
    /// beyond the end of a clip that has a length.
    pub fn current_time(&self) -> (time: i64)
        ensures
            time == self@.time,
            self@.in_range(),
    {
        proof {
            use_type_invariant(self);
        }
        self.current_time
    }

    /// The playback state.
    pub fn state(&self) -> (state: PlaybackState)
        ensures
            state == self@.state,
    {
        self.state
    }

    /// Whether the player is playing.
    pub fn is_playing(&self) -> (playing: bool)
        ensures
            playing == (self@.state == PlaybackState::Playing),
    {
        self.state == PlaybackState::Playing
    }

    /// The speed, in millionths of normal speed.
    pub fn speed(&self) -> (speed: i64)
        ensures
            speed == self@.speed,
    {
        self.speed
    }

    /// Sets the speed, in millionths of normal speed; a negative speed plays
    /// backward.
    pub fn set_speed(&mut self, speed: i64)
        ensures
            final(self)@ == (PlayerView { speed, ..old(self)@ }),
    {
        proof {
            use_type_invariant(&*self);
        }
        self.speed = speed;
    }

    /// Whether the clip starts over at its end.
    pub fn is_looping(&self) -> (looping: bool)
        ensures
            looping == self@.looping,
    {
        self.looping
    }

    /// Sets whether the clip starts over at its end.
    pub fn set_looping(&mut self, looping: bool)
        ensures
            final(self)@ == (PlayerView { looping, ..old(self)@ }),
    {
        proof {
            use_type_invariant(&*self);
        }
        self.looping = looping;
    }

    /// The blend weight, in millionths.
    pub fn weight(&self) -> (weight: i64)
        ensures
            weight == self@.weight,
            0 <= weight <= UNIT,
    {
        proof {
            use_type_invariant(self);
        }
        self.weight
    }

    /// Sets the blend weight, in millionths, clamped to the range from
    /// nothing to full.
    pub fn set_weight(&mut self, weight: i64)
        ensures
            final(self)@ == (PlayerView {
                weight: if weight < 0 {
                    0
                } else if weight > UNIT {
                    UNIT
                } else {
                    weight
                },
                ..old(self)@
            }),
    {
        proof {
            use_type_invariant(&*self);
        }
        self.weight = if weight < 0 {
            0
        } else if weight > UNIT {
            UNIT
        } else {
            weight
        };
    }

    /// The clip, if one is set.
    pub fn clip(&self) -> (clip: Option<&AnimationClip>)
        ensures
            clip == match self@.clip {
                Some(c) => Some(&c),
                None => None,
            },
    {
        self.clip.as_ref()
    }

    /// The current time as a part of the duration of the clip, in millionths:
    /// zero at the start, [`UNIT`] at the end. Zero without a clip and for a
    /// clip without length.
    pub fn normalized_time(&self) -> (part: i64)
        ensures
            part == self@.normalized(),
            0 <= part <= UNIT,
    {
        proof {
            use_type_invariant(self);
        }
        match &self.clip {
            Some(clip) => {
                if clip.duration > 0 {
                    let time = self.current_time as i128;
                    let length = clip.duration as i128;
                    proof {
                        lemma_part_in_unit(time as int, length as int);
                    }
                    ((time * (UNIT as i128)) / length) as i64
                } else {
                    0
                }
            },
            None => 0,
        }
    }
}

impl Default for AnimationPlayer {
    fn default() -> (player: AnimationPlayer)
        ensures
            player@.clip is None,
            player@.time == 0,
            player@.state == PlaybackState::Stopped,
    {
        AnimationPlayer::new()
    }
}

} // verus!
