//! Keyframes, channels and clips, and where on a channel a point in time
//! falls.
//!
//! Times are whole microseconds. Sampling a channel decides which keyframes
//! count and how far between them the time lies, and hands that back as a
//! [`Sample`]: the values themselves are `glam` numbers, which this crate
//! carries but does not compute with.

use crate::matrix::{identity_rotation, quat_bits, quat_identity, vec3_bits, vec3_zero, zero3};
use vstd::prelude::*;

verus! {

/// How values between two keyframes are found.
#[derive(Debug, Clone, Copy, PartialEq, Eq, Structural)]
pub enum Interpolation {
    /// A straight blend from one keyframe to the next.
    Linear,
    /// The value of the earlier keyframe, up to the later one.
    Step,
    /// A cubic Hermite spline through the keyframes and their tangents.
    CubicSpline,
}

impl Default for Interpolation {
    fn default() -> (mode: Interpolation)
        ensures
            mode == Interpolation::Linear,
    {
        Interpolation::Linear
    }
}

/// A value at a point in time, with the tangents a cubic spline uses.
#[derive(Debug, Clone)]
pub struct Keyframe<T> {
    /// Time, in microseconds.
    pub time: i64,
    /// Value at that time.
    pub value: T,
    /// Tangent on arrival, for cubic splines.
    pub in_tangent: Option<T>,
    /// Tangent on departure, for cubic splines.
    pub out_tangent: Option<T>,
}

impl<T: Clone> Keyframe<T> {
    /// A keyframe without tangents.
    pub fn new(time: i64, value: T) -> (key: Keyframe<T>)
        ensures
            key == (Keyframe { time, value, in_tangent: None, out_tangent: None }),
    {
        Keyframe { time, value, in_tangent: None, out_tangent: None }
    }

    /// A keyframe with both tangents.
    pub fn with_tangents(time: i64, value: T, in_tangent: T, out_tangent: T) -> (key: Keyframe<T>)
        ensures
            key == (Keyframe {
                time,
                value,
                in_tangent: Some(in_tangent),
                out_tangent: Some(out_tangent),
            }),
    {
        Keyframe { time, value, in_tangent: Some(in_tangent), out_tangent: Some(out_tangent) }
    }
}

/// Where a point in time falls on a run of keyframes.
#[derive(Debug, Clone, Copy, PartialEq, Eq, Structural)]
pub enum Place {
    /// There are no keyframes.
    Nowhere,
    /// On the keyframe with this index: at or before the first, at or after
    /// the last.
    At(usize),
    /// From the keyframe with this index on, and before the next one.
    Between(usize),
}

/// Keyframes `i` and `i + 1` bracket `time`.
pub open spec fn brackets<T>(keys: Seq<Keyframe<T>>, i: int, time: i64) -> bool {
    0 <= i < keys.len() - 1 && keys[i].time <= time < keys[i + 1].time
}

/// The first pair of neighbours, from index `from` on, that brackets `time`.
pub open spec fn first_bracket<T>(keys: Seq<Keyframe<T>>, time: i64, from: int) -> Option<int>
    decreases keys.len() - from,
{
    if from < 0 || from >= keys.len() - 1 {
        None
    } else if brackets(keys, from, time) {
        Some(from)
    } else {
        first_bracket(keys, time, from + 1)
    }
}

/// Where `time` falls on `keys`: clamped to the first keyframe and to the
/// last, otherwise in the first pair of neighbours that brackets it. Where no
/// pair does, which keyframes in ascending order rule out, the last keyframe
/// stands.
pub open spec fn place_of<T>(keys: Seq<Keyframe<T>>, time: i64) -> Place {
    if keys.len() == 0 {
        Place::Nowhere
    } else if time <= keys[0].time {
        Place::At(0)
    } else if time >= keys.last().time {
        Place::At((keys.len() - 1) as usize)
    } else {
        match first_bracket(keys, time, 0) {
            Some(i) => Place::Between(i as usize),
            None => Place::At((keys.len() - 1) as usize),
        }
    }
}

/// The times of the keyframes never fall from one to the next.
pub open spec fn ascending<T>(keys: Seq<Keyframe<T>>) -> bool {
    forall|i: int, j: int| 0 <= i <= j < keys.len() ==> keys[i].time <= keys[j].time
}

/// Finds where `time` falls on `keyframes`.
pub fn locate<T>(keyframes: &[Keyframe<T>], time: i64) -> (place: Place)
    ensures
        place == place_of(keyframes@, time),
{
    let n = keyframes.len();
    if n == 0 {
        return Place::Nowhere;
    }
    if time <= keyframes[0].time {
        return Place::At(0);
    }
    if time >= keyframes[n - 1].time {
        return Place::At(n - 1);
    }
    let mut i: usize = 0;
    while i < n - 1
        invariant
            n == keyframes@.len(),
            n > 0,
            i <= n - 1,
            keyframes@[0].time < time < keyframes@.last().time,
            first_bracket(keyframes@, time, 0) == first_bracket(keyframes@, time, i as int),
        decreases n - i,
    {
        assert(first_bracket(keyframes@, time, i as int) == if brackets(keyframes@, i as int, time) {
            Some(i as int)
        } else {
            first_bracket(keyframes@, time, i + 1)
        });
        if time >= keyframes[i].time && time < keyframes[i + 1].time {
            return Place::Between(i);
        }
        i += 1;
    }
    Place::At(n - 1)
}

/// Among keyframes in ascending order a bracketing pair is the only one, so
/// every time from a keyframe on and before the next falls between these two,
/// unless it is the time of the first keyframe, where the first keyframe
/// stands.
pub proof fn lemma_bracket_is_found<T>(keys: Seq<Keyframe<T>>, i: int, time: i64)
    requires
        ascending(keys),
        brackets(keys, i, time),
        keys.len() <= usize::MAX,
    ensures
        place_of(keys, time) == if time == keys[0].time {
            Place::At(0)
        } else {
            Place::Between(i as usize)
        },
{
    lemma_first_bracket(keys, i, time, 0);
    assert(keys[0].time <= keys[i].time);
    assert(keys[i + 1].time <= keys.last().time);
}

/// Among keyframes in ascending order, no pair before a bracketing pair
/// brackets the same time.
proof fn lemma_first_bracket<T>(keys: Seq<Keyframe<T>>, i: int, time: i64, from: int)
    requires
        ascending(keys),
        brackets(keys, i, time),
        0 <= from <= i,
    ensures
        first_bracket(keys, time, from) == Some(i),
    decreases i - from,
{
    if from < i {
        lemma_first_bracket(keys, i, time, from + 1);
    }
}

/// How far into a segment a time lies: `num` microseconds out of `den`.
#[derive(Debug, Clone, Copy, PartialEq, Eq, Structural)]
pub struct Fraction {
    /// Microseconds since the earlier keyframe.
    pub num: u64,
    /// Microseconds from the earlier keyframe to the later one.
    pub den: u64,
}

/// The fraction of the segment from `start` to `end` that lies before `time`.
pub open spec fn fraction_of(start: i64, end: i64, time: i64) -> Fraction {
    Fraction { num: (time - start) as u64, den: (end - start) as u64 }
}

/// Computes how far `time` lies into the segment from `start` to `end`.
pub fn fraction(start: i64, end: i64, time: i64) -> (at: Fraction)
    requires
        start <= time < end,
    ensures
        at == fraction_of(start, end, time),
        at.num == time - start,
        at.den == end - start,
        at.num < at.den,
{
    let num: i128 = time as i128 - start as i128;
    let den: i128 = end as i128 - start as i128;
    Fraction { num: num as u64, den: den as u64 }
}

/// What sampling a channel yields: a value, or the two values to blend and
/// how far the blend has come.
#[derive(Debug, Clone, Copy)]
pub enum Sample<V> {
    /// This value, as it stands.
    Exact(V),
    /// The linear blend from `from` to `to`, taken `at` that far.
    Linear { from: V, to: V, at: Fraction },
    /// The cubic Hermite spline that leaves `from` along `from_tangent` and
    /// arrives at `to` along `to_tangent`, taken `at` that far. With the
    /// weights that [`hermite_weights`] gives for `at`, and `d` for the
    /// length `at.den` of the segment in seconds, the value is
    /// `from * h00 + from_tangent * d * h10 + to * h01 + to_tangent * d * h11`.
    Hermite { from: V, from_tangent: V, to: V, to_tangent: V, at: Fraction },
    /// The blend from `from` to `to` along the shortest arc, taken `at` that
    /// far.
    Spherical { from: V, to: V, at: Fraction },
}

impl<V> Sample<V> {
    /// A blend lies inside its segment: the segment has a length, and the
    /// part that has passed is less than the whole.
    pub open spec fn proper(self) -> bool {
        match self {
            Sample::Exact(_) => true,
            Sample::Linear { at, .. } => at.num < at.den,
            Sample::Hermite { at, .. } => at.num < at.den,
            Sample::Spherical { at, .. } => at.num < at.den,
        }
    }
}

/// The length beyond which a segment is measured more coarsely before the
/// weights of a spline are worked out: two to the fortieth microseconds,
/// close to thirteen days.
pub const FINE_LIMIT: u64 = 0x100_0000_0000;

/// The fraction `at` measured coarsely enough for its segment to be no longer
/// than [`FINE_LIMIT`]: both counts are halved until it is.
pub open spec fn coarse(at: Fraction) -> Fraction
    decreases at.den,
{
    if at.den > FINE_LIMIT {
        coarse(Fraction { num: at.num / 2, den: at.den / 2 })
    } else {
        at
    }
}

/// The four weights of a cubic Hermite spline at a fraction `n / d`, each as
/// a count of parts of which `scale` make one.
#[derive(Debug, Clone, Copy, PartialEq, Eq, Structural)]
pub struct HermiteWeights {
    /// Weight of the value left: `2t^3 - 3t^2 + 1`.
    pub h00: i128,
    /// Weight of the tangent on departure: `t^3 - 2t^2 + t`.
    pub h10: i128,
    /// Weight of the value arrived at: `-2t^3 + 3t^2`.
    pub h01: i128,
    /// Weight of the tangent on arrival: `t^3 - t^2`.
    pub h11: i128,
    /// The number of parts that make one: `d^3`.
    pub scale: i128,
}

/// `w` holds the weights of the spline at `n / d`, exactly.
pub open spec fn is_hermite(w: HermiteWeights, n: int, d: int) -> bool {
    &&& w.scale == d * d * d
    &&& w.h00 == 2 * (n * n * n) - 3 * (n * n * d) + d * d * d
    &&& w.h10 == n * n * n - 2 * (n * n * d) + n * d * d
    &&& w.h01 == 3 * (n * n * d) - 2 * (n * n * n)
    &&& w.h11 == n * n * n - n * n * d
}

/// Products of three counts up to [`FINE_LIMIT`] stay below two to the
/// hundred and twentieth.
proof fn lemma_cubes_fit(n: int, d: int)
    requires
        0 <= n <= d <= FINE_LIMIT,
    ensures
        0 <= n * n <= d * d <= 0x1_0000_0000_0000_0000_0000,
        0 <= n * n * n <= 0x1_0000_0000_0000_0000_0000_0000_0000_00,
        0 <= n * n * d <= 0x1_0000_0000_0000_0000_0000_0000_0000_00,
        0 <= n * d * d <= 0x1_0000_0000_0000_0000_0000_0000_0000_00,
        0 <= d * d * d <= 0x1_0000_0000_0000_0000_0000_0000_0000_00,
        n * d * d == n * (d * d),
{
    let m = FINE_LIMIT as int;
    assert(0 <= n * n <= d * d <= m * m) by (nonlinear_arith)
        requires
            0 <= n <= d <= m,
    ;
    assert(m * m == 0x1_0000_0000_0000_0000_0000) by (nonlinear_arith)
        requires
            m == 0x100_0000_0000,
    ;
    assert(0 <= n * n * n <= (m * m) * m && 0 <= n * n * d <= (m * m) * m && 0 <= d * d * d <= (m * m)
        * m) by (nonlinear_arith)
        requires
            0 <= n <= d <= m,
            0 <= n * n <= d * d <= m * m,
    ;
    assert(0 <= n * (d * d) <= m * (m * m) && n * d * d == n * (d * d)) by (nonlinear_arith)
        requires
            0 <= n <= m,
            0 <= d * d <= m * m,
    ;
    assert((m * m) * m == 0x1_0000_0000_0000_0000_0000_0000_0000_00 && m * (m * m) == (m * m) * m)
        by (nonlinear_arith)
        requires
            m * m == 0x1_0000_0000_0000_0000_0000,
            m == 0x100_0000_0000,
    ;
}

/// Halves both counts of `at` until its segment is no longer than
/// [`FINE_LIMIT`].
pub fn coarsen(at: Fraction) -> (outcome: Fraction)
    requires
        at.num <= at.den,
    ensures
        outcome == coarse(at),
        outcome.num <= outcome.den <= FINE_LIMIT,
        at.den > 0 ==> outcome.den > 0,
{
    let mut outcome = at;
    while outcome.den > FINE_LIMIT
        invariant
            outcome.num <= outcome.den,
            coarse(outcome) == coarse(at),
            at.den > 0 ==> outcome.den > 0,
        decreases outcome.den,
    {
        outcome = Fraction { num: outcome.num / 2, den: outcome.den / 2 };
    }
    outcome
}

/// The weights of a cubic Hermite spline at the fraction `at`: with `t` for
/// the fraction, `2t^3 - 3t^2 + 1`, `t^3 - 2t^2 + t`, `-2t^3 + 3t^2` and
/// `t^3 - t^2`, each exact over the common denominator `scale`. A segment
/// longer than [`FINE_LIMIT`] is measured more coarsely first.
pub fn hermite_weights(at: Fraction) -> (w: HermiteWeights)
    requires
        at.num <= at.den,
    ensures
        is_hermite(w, coarse(at).num as int, coarse(at).den as int),
{
    let fine = coarsen(at);
    let n = fine.num as i128;
    let d = fine.den as i128;
    proof {
        lemma_cubes_fit(n as int, d as int);
    }
    let nn = n * n;
    let nnn = nn * n;
    let nnd = nn * d;
    let ndd = n * (d * d);
    let ddd = d * d * d;
    HermiteWeights {
        h00: 2 * nnn - 3 * nnd + ddd,
        h10: nnn - 2 * nnd + ndd,
        h01: 3 * nnd - 2 * nnn,
        h11: nnn - nnd,
        scale: ddd,
    }
}

/// At the start of a segment the spline is the value left, and at its end the
/// value arrived at: the weights are one, nothing, nothing, nothing, and
/// nothing, nothing, one, nothing. In between the weights of the two values
/// make one together.
pub proof fn lemma_hermite_ends(w: HermiteWeights, n: int, d: int)
    requires
        is_hermite(w, n, d),
    ensures
        w.h00 + w.h01 == w.scale,
        n == 0 ==> w.h00 == w.scale && w.h10 == 0 && w.h01 == 0 && w.h11 == 0,
        n == d ==> w.h00 == 0 && w.h10 == 0 && w.h01 == w.scale && w.h11 == 0,
{
    if n == 0 {
        assert(n * n * n == 0 && n * n * d == 0 && n * d * d == 0) by (nonlinear_arith)
            requires
                n == 0,
        ;
    }
    if n == d {
        assert(n * n * n == d * d * d && n * n * d == d * d * d && n * d * d == d * d * d)
            by (nonlinear_arith)
            requires
                n == d,
        ;
    }
}

/// The components of a tangent, or of the zero vector where there is none.
pub open spec fn tangent_bits(tangent: Option<glam::Vec3>) -> Seq<u32> {
    match tangent {
        Some(t) => vec3_bits(t),
        None => zero3(),
    }
}

/// `sample` is what sampling the vector keyframes `keys` at `time` yields
/// under the mode `mode`.
pub open spec fn is_vec3_sample(
    sample: Sample<glam::Vec3>,
    keys: Seq<Keyframe<glam::Vec3>>,
    time: i64,
    mode: Interpolation,
) -> bool {
    match place_of(keys, time) {
        Place::Nowhere => sample matches Sample::Exact(v) && vec3_bits(v) == zero3(),
        Place::At(i) => sample == Sample::Exact(keys[i as int].value),
        Place::Between(i) => {
            let k0 = keys[i as int];
            let k1 = keys[i + 1];
            match mode {
                Interpolation::Step => sample == Sample::Exact(k0.value),
                Interpolation::Linear => if time == k0.time {
                    sample == Sample::Exact(k0.value)
                } else {
                    sample == (Sample::Linear {
                        from: k0.value,
                        to: k1.value,
                        at: fraction_of(k0.time, k1.time, time),
                    })
                },
                Interpolation::CubicSpline => sample matches Sample::Hermite {
                    from,
                    from_tangent,
                    to,
                    to_tangent,
                    at,
                } && from == k0.value && to == k1.value && at == fraction_of(k0.time, k1.time, time)
                    && vec3_bits(from_tangent) == tangent_bits(k0.out_tangent) && vec3_bits(
                    to_tangent,
                ) == tangent_bits(k1.in_tangent),
            }
        },
    }
}

/// `sample` is what sampling the rotation keyframes `keys` at `time` yields
/// under the mode `mode`.
pub open spec fn is_quat_sample(
    sample: Sample<glam::Quat>,
    keys: Seq<Keyframe<glam::Quat>>,
    time: i64,
    mode: Interpolation,
) -> bool {
    match place_of(keys, time) {
        Place::Nowhere => sample matches Sample::Exact(q) && quat_bits(q) == identity_rotation(),
        Place::At(i) => sample == Sample::Exact(keys[i as int].value),
        Place::Between(i) => {
            let k0 = keys[i as int];
            let k1 = keys[i + 1];
            match mode {
                Interpolation::Step => sample == Sample::Exact(k0.value),
                _ => sample == (Sample::Spherical {
                    from: k0.value,
                    to: k1.value,
                    at: fraction_of(k0.time, k1.time, time),
                }),
            }
        },
    }
}

/// A tangent, or the zero vector where there is none.
fn tangent_or_zero(tangent: Option<glam::Vec3>) -> (t: glam::Vec3)
    ensures
        vec3_bits(t) == tangent_bits(tangent),
{
    match tangent {
        Some(t) => t,
        None => vec3_zero(),
    }
}

/// Samples vector keyframes at `time`: the zero vector where there are none,
/// the first or last value outside their range, and inside it the value of
/// the earlier keyframe or a blend with the later one, as `mode` says.
pub fn sample_vec3(keyframes: &[Keyframe<glam::Vec3>], time: i64, mode: Interpolation) -> (sample:
    Sample<glam::Vec3>)
    ensures
        is_vec3_sample(sample, keyframes@, time, mode),
        sample.proper(),
{
    match locate(keyframes, time) {
        Place::Nowhere => Sample::Exact(vec3_zero()),
        Place::At(i) => Sample::Exact(keyframes[i].value),
        Place::Between(i) => {
            proof {
                lemma_bracket_in_range(keyframes@, time, 0);
            }
            let k0 = &keyframes[i];
            let k1 = &keyframes[i + 1];
            match mode {
                Interpolation::Step => Sample::Exact(k0.value),
                Interpolation::Linear => {
                    if time == k0.time {
                        Sample::Exact(k0.value)
                    } else {
                        Sample::Linear {
                            from: k0.value,
                            to: k1.value,
                            at: fraction(k0.time, k1.time, time),
                        }
                    }
                },
                Interpolation::CubicSpline => Sample::Hermite {
                    from: k0.value,
                    from_tangent: tangent_or_zero(k0.out_tangent),
                    to: k1.value,
                    to_tangent: tangent_or_zero(k1.in_tangent),
                    at: fraction(k0.time, k1.time, time),
                },
            }
        },
    }
}

/// Samples rotation keyframes at `time`: the identity rotation where there
/// are none, the first or last value outside their range, and inside it the
/// value of the earlier keyframe under `Step`, otherwise a spherical blend
/// with the later one.
pub fn sample_quat(keyframes: &[Keyframe<glam::Quat>], time: i64, mode: Interpolation) -> (sample:
    Sample<glam::Quat>)
    ensures
        is_quat_sample(sample, keyframes@, time, mode),
        sample.proper(),
{
    match locate(keyframes, time) {
        Place::Nowhere => Sample::Exact(quat_identity()),
        Place::At(i) => Sample::Exact(keyframes[i].value),
        Place::Between(i) => {
            proof {
                lemma_bracket_in_range(keyframes@, time, 0);
            }
            let k0 = &keyframes[i];
            let k1 = &keyframes[i + 1];
            match mode {
                Interpolation::Step => Sample::Exact(k0.value),
                Interpolation::Linear | Interpolation::CubicSpline => Sample::Spherical {
                    from: k0.value,
                    to: k1.value,
                    at: fraction(k0.time, k1.time, time),
                },
            }
        },
    }
}

/// A pair that the search finds does bracket the time.
proof fn lemma_bracket_in_range<T>(keys: Seq<Keyframe<T>>, time: i64, from: int)
    ensures
        first_bracket(keys, time, from) matches Some(i) ==> from <= i && brackets(keys, i, time),
    decreases keys.len() - from,
{
    if from < 0 || from >= keys.len() - 1 {
    } else if brackets(keys, from, time) {
    } else {
        lemma_bracket_in_range(keys, time, from + 1);
    }
}

/// The keyframes of one animated property of a bone.
#[derive(Debug, Clone)]
pub enum Channel {
    /// Translation keyframes.
    Translation(Vec<Keyframe<glam::Vec3>>),
    /// Rotation keyframes.
    Rotation(Vec<Keyframe<glam::Quat>>),
    /// Scale keyframes.
    Scale(Vec<Keyframe<glam::Vec3>>),
    /// Keyframes of morph target weights, each weight by its bit pattern.
    MorphWeights(Vec<Keyframe<Vec<u32>>>),
}

/// The time of the last of `keys`, or zero where there are none.
pub open spec fn last_time<T>(keys: Seq<Keyframe<T>>) -> i64 {
    if keys.len() == 0 {
        0
    } else {
        keys.last().time
    }
}

/// Computes the time of the last keyframe, or zero where there are none.
fn end_of<T>(keys: &Vec<Keyframe<T>>) -> (end: i64)
    ensures
        end == last_time(keys@),
{
    if keys.len() == 0 {
        0
    } else {
        keys[keys.len() - 1].time
    }
}

impl Channel {
    /// The duration of the channel: the time of its last keyframe, or zero
    /// where it has none.
    pub open spec fn length(&self) -> i64 {
        match self {
            Channel::Translation(keys) => last_time(keys@),
            Channel::Rotation(keys) => last_time(keys@),
            Channel::Scale(keys) => last_time(keys@),
            Channel::MorphWeights(keys) => last_time(keys@),
        }
    }

    /// The duration of the channel, in microseconds.
    pub fn duration(&self) -> (length: i64)
        ensures
            length == self.length(),
    {
        match self {
            Channel::Translation(keys) => end_of(keys),
            Channel::Rotation(keys) => end_of(keys),
            Channel::Scale(keys) => end_of(keys),
            Channel::MorphWeights(keys) => end_of(keys),
        }
    }
}

/// The kind of value a channel animates.
#[derive(Debug, Clone, Copy, PartialEq, Eq, Structural)]
pub enum ChannelKind {
    /// Translation.
    Translation,
    /// Rotation.
    Rotation,
    /// Scale.
    Scale,
}

/// Channel `i` of `channels` animates the property `kind` of bone `target`.
pub open spec fn animates(channels: Seq<(usize, Channel)>, i: int, target: usize, kind: ChannelKind) -> bool {
    0 <= i < channels.len() && channels[i].0 == target && match kind {
        ChannelKind::Translation => channels[i].1 is Translation,
        ChannelKind::Rotation => channels[i].1 is Rotation,
        ChannelKind::Scale => channels[i].1 is Scale,
    }
}

/// The first channel, from index `from` on, that animates the property `kind`
/// of bone `target`.
pub open spec fn first_channel(
    channels: Seq<(usize, Channel)>,
    target: usize,
    kind: ChannelKind,
    from: int,
) -> Option<int>
    decreases channels.len() - from,
{
    if from < 0 || from >= channels.len() {
        None
    } else if animates(channels, from, target, kind) {
        Some(from)
    } else {
        first_channel(channels, target, kind, from + 1)
    }
}

/// A named bundle of channels, each bound to a bone, with one interpolation
/// mode for all of them.
#[derive(Debug, Clone)]
pub struct AnimationClip {
    /// Clip name.
    pub name: String,
    /// Duration, in microseconds.
    pub duration: i64,
    /// How values between keyframes are found.
    pub interpolation: Interpolation,
    /// The channels, each with the index of the bone it animates.
    pub channels: Vec<(usize, Channel)>,
}

impl AnimationClip {
    /// An empty clip of duration zero that blends linearly.
    pub fn new(name: &str) -> (clip: AnimationClip)
        ensures
            clip.name@ == name@,
            clip.duration == 0,
            clip.interpolation == Interpolation::Linear,
            clip.channels@.len() == 0,
    {
        AnimationClip {
            name: name.to_owned(),
            duration: 0,
            interpolation: Interpolation::Linear,
            channels: Vec::new(),
        }
    }

    /// Adds a channel for the bone `target`. The duration of the clip becomes
    /// the larger of what it was and the duration of the channel.
    pub fn add_channel(&mut self, target: usize, channel: Channel)
        ensures
            final(self).channels@ == old(self).channels@.push((target, channel)),
            final(self).duration == if old(self).duration >= channel.length() {
                old(self).duration
            } else {
                channel.length()
            },
            final(self).name == old(self).name,
            final(self).interpolation == old(self).interpolation,
    {
        let length = channel.duration();
        self.channels.push((target, channel));
        if length > self.duration {
            self.duration = length;
        }
    }

    /// `sample` is what sampling the translation of bone `target` at `time`
    /// yields: nothing where no translation channel is bound to the bone,
    /// otherwise the sample of the first such channel.
    pub open spec fn is_translation_sample(
        &self,
        sample: Option<Sample<glam::Vec3>>,
        target: usize,
        time: i64,
    ) -> bool {
        match first_channel(self.channels@, target, ChannelKind::Translation, 0) {
            Some(i) => sample matches Some(s) && is_vec3_sample(
                s,
                self.channels@[i].1->Translation_0@,
                time,
                self.interpolation,
            ),
            None => sample is None,
        }
    }

    /// `sample` is what sampling the rotation of bone `target` at `time`
    /// yields.
    pub open spec fn is_rotation_sample(
        &self,
        sample: Option<Sample<glam::Quat>>,
        target: usize,
        time: i64,
    ) -> bool {
        match first_channel(self.channels@, target, ChannelKind::Rotation, 0) {
            Some(i) => sample matches Some(s) && is_quat_sample(
                s,
                self.channels@[i].1->Rotation_0@,
                time,
                self.interpolation,
            ),
            None => sample is None,
        }
    }

    /// `sample` is what sampling the scale of bone `target` at `time` yields.
    pub open spec fn is_scale_sample(
        &self,
        sample: Option<Sample<glam::Vec3>>,
        target: usize,
        time: i64,
    ) -> bool {
        match first_channel(self.channels@, target, ChannelKind::Scale, 0) {
            Some(i) => sample matches Some(s) && is_vec3_sample(
                s,
                self.channels@[i].1->Scale_0@,
                time,
                self.interpolation,
            ),
            None => sample is None,
        }
    }

    /// Samples the translation of bone `target` at `time`.
    pub fn sample_translation(&self, target: usize, time: i64) -> (sample: Option<
        Sample<glam::Vec3>,
    >)
        ensures
            self.is_translation_sample(sample, target, time),
            sample matches Some(s) ==> s.proper(),
    {
        let mut i: usize = 0;
        while i < self.channels.len()
            invariant
                i <= self.channels@.len(),
                first_channel(self.channels@, target, ChannelKind::Translation, 0) == first_channel(
                    self.channels@,
                    target,
                    ChannelKind::Translation,
                    i as int,
                ),
            decreases self.channels@.len() - i,
        {
            if self.channels[i].0 == target {
                if let Channel::Translation(keys) = &self.channels[i].1 {
                    return Some(sample_vec3(keys.as_slice(), time, self.interpolation));
                }
            }
            i += 1;
        }
        None
    }

    /// Samples the rotation of bone `target` at `time`.
    pub fn sample_rotation(&self, target: usize, time: i64) -> (sample: Option<Sample<glam::Quat>>)
        ensures
            self.is_rotation_sample(sample, target, time),
            sample matches Some(s) ==> s.proper(),
    {
        let mut i: usize = 0;
        while i < self.channels.len()
            invariant
                i <= self.channels@.len(),
                first_channel(self.channels@, target, ChannelKind::Rotation, 0) == first_channel(
                    self.channels@,
                    target,
                    ChannelKind::Rotation,
                    i as int,
                ),
            decreases self.channels@.len() - i,
        {
            if self.channels[i].0 == target {
                if let Channel::Rotation(keys) = &self.channels[i].1 {
                    return Some(sample_quat(keys.as_slice(), time, self.interpolation));
                }
            }
            i += 1;
        }
        None
    }

    /// Samples the scale of bone `target` at `time`.
    pub fn sample_scale(&self, target: usize, time: i64) -> (sample: Option<Sample<glam::Vec3>>)
        ensures
            self.is_scale_sample(sample, target, time),
            sample matches Some(s) ==> s.proper(),
    {
        let mut i: usize = 0;
        while i < self.channels.len()
            invariant
                i <= self.channels@.len(),
                first_channel(self.channels@, target, ChannelKind::Scale, 0) == first_channel(
                    self.channels@,
                    target,
                    ChannelKind::Scale,
                    i as int,
                ),
            decreases self.channels@.len() - i,
        {
            if self.channels[i].0 == target {
                if let Channel::Scale(keys) = &self.channels[i].1 {
                    return Some(sample_vec3(keys.as_slice(), time, self.interpolation));
                }
            }
            i += 1;
        }
        None
    }
}

impl Default for AnimationClip {
    fn default() -> (clip: AnimationClip)
        ensures
            clip.name@ == "untitled"@,
            clip.duration == 0,
            clip.channels@.len() == 0,
    {
        AnimationClip::new("untitled")
    }
}

/// Linear mode: from a keyframe on and before the next, the sample of vector
/// keyframes in ascending order is the linear blend of the two values by the
/// part of the segment that has passed, and on the keyframe itself it is the
/// value of that keyframe, exactly. Left out is a time that an earlier
/// keyframe shares with the first one, where the first keyframe stands.
pub proof fn lemma_linear_sample(
    sample: Sample<glam::Vec3>,
    keys: Seq<Keyframe<glam::Vec3>>,
    i: int,
    time: i64,
)
    requires
        keys.len() <= usize::MAX,
        ascending(keys),
        brackets(keys, i, time),
        i == 0 || keys[0].time < time,
        is_vec3_sample(sample, keys, time, Interpolation::Linear),
    ensures
        time == keys[i].time ==> sample == Sample::Exact(keys[i].value),
        time != keys[i].time ==> sample == (Sample::Linear {
            from: keys[i].value,
            to: keys[i + 1].value,
            at: Fraction { num: (time - keys[i].time) as u64, den: (keys[i + 1].time - keys[i].time) as u64 },
        }),
{
    lemma_bracket_is_found(keys, i, time);
}

/// Step mode: from a keyframe on and before the next, the sample of vector
/// keyframes in ascending order is the value of the earlier keyframe,
/// exactly. Left out is a time that an earlier keyframe shares with the
/// first one, where the first keyframe stands.
pub proof fn lemma_step_sample(
    sample: Sample<glam::Vec3>,
    keys: Seq<Keyframe<glam::Vec3>>,
    i: int,
    time: i64,
)
    requires
        keys.len() <= usize::MAX,
        ascending(keys),
        brackets(keys, i, time),
        i == 0 || keys[0].time < time,
        is_vec3_sample(sample, keys, time, Interpolation::Step),
    ensures
        sample == Sample::Exact(keys[i].value),
{
    lemma_bracket_is_found(keys, i, time);
}

/// Step mode for rotations: from a keyframe on and before the next, the
/// sample of rotation keyframes in ascending order is the value of the
/// earlier keyframe, exactly; in the other modes, past the keyframe, it is
/// the spherical blend of the two values by the part of the segment that has
/// passed. Left out is a time that an earlier keyframe shares with the first
/// one, where the first keyframe stands.
pub proof fn lemma_rotation_sample(
    sample: Sample<glam::Quat>,
    keys: Seq<Keyframe<glam::Quat>>,
    i: int,
    time: i64,
    mode: Interpolation,
)
    requires
        keys.len() <= usize::MAX,
        ascending(keys),
        brackets(keys, i, time),
        i == 0 || keys[0].time < time,
        is_quat_sample(sample, keys, time, mode),
    ensures
        mode == Interpolation::Step ==> sample == Sample::Exact(keys[i].value),
        mode != Interpolation::Step && time != keys[0].time ==> sample == (Sample::Spherical {
            from: keys[i].value,
            to: keys[i + 1].value,
            at: fraction_of(keys[i].time, keys[i + 1].time, time),
        }),
{
    lemma_bracket_is_found(keys, i, time);
}

} // verus!
