//! Keyframe animation: channels of strictly increasing key times with
//! per-kind output tracks, sampled against a running clock.
//!
//! Sampling wraps the clock into the clip's duration, wraps the lookup time
//! against each channel's own last key (clamping below the first key up to
//! it), locates the bracketing key pair with an amortized-constant forward
//! search from the previous cursor position, and linearly interpolates the
//! bracketing outputs. Quaternion outputs are blended component-wise, not
//! spherically. Morph-target weights are computed but have no consumer yet;
//! they are an inert output.

use vstd::prelude::*;

verus! {

use crate::fixed::{lerp, lerp_i64, VAL_LIMIT};
use crate::transform::{quat_wf, vec3_wf, Quat, Vec3};

/// The output track of a channel, one value per keyframe time.
pub enum TransformationSet {
    Translations(Vec<Vec3>),
    Rotations(Vec<Quat>),
    Scales(Vec<Vec3>),
    MorphTargetWeights(Vec<i64>),
}

/// One value produced by sampling a channel.
#[derive(Clone, Copy, Debug, PartialEq, Eq)]
pub enum ChannelOutput {
    Translation(Vec3),
    Rotation(Quat),
    Scale(Vec3),
    MorphWeight(i64),
}

/// A sampled channel value together with the node it targets.
#[derive(Clone, Copy, Debug, PartialEq, Eq)]
pub struct ChannelSample {
    pub node_index: usize,
    pub output: ChannelOutput,
}

/// One animated property stream targeting a single node.
pub struct Channel {
    pub node_index: usize,
    pub inputs: Vec<u32>,
    pub transformations: TransformationSet,
    pub previous_key: usize,
    pub previous_time: u32,
}

/// A set of channels sampled against one running clock, in integer ticks.
pub struct Animation {
    pub time: u64,
    pub channels: Vec<Channel>,
    pub max_animation_time: u32,
}

/// Key times are pairwise strictly increasing.
pub open spec fn strictly_increasing(s: Seq<u32>) -> bool {
    forall|i: int, j: int| 0 <= i < j < s.len() ==> s[i] < s[j]
}

/// The output track has one bounded value per key time.
pub open spec fn outputs_match(ts: TransformationSet, n: int) -> bool {
    match ts {
        TransformationSet::Translations(v) => v@.len() == n && forall|i: int|
            0 <= i < v@.len() ==> vec3_wf(#[trigger] v@[i]),
        TransformationSet::Rotations(v) => v@.len() == n && forall|i: int|
            0 <= i < v@.len() ==> quat_wf(#[trigger] v@[i]),
        TransformationSet::Scales(v) => v@.len() == n && forall|i: int|
            0 <= i < v@.len() ==> vec3_wf(#[trigger] v@[i]),
        TransformationSet::MorphTargetWeights(v) => v@.len() == n && forall|i: int|
            0 <= i < v@.len() ==> -VAL_LIMIT <= #[trigger] v@[i] <= VAL_LIMIT,
    }
}

/// Channel invariant: at least two strictly increasing keys, a matching
/// output track, and a cursor that indexes a valid key pair and never sits
/// past its remembered sample time.
pub open spec fn channel_wf(c: Channel) -> bool {
    &&& c.inputs@.len() >= 2
    &&& strictly_increasing(c.inputs@)
    &&& outputs_match(c.transformations, c.inputs@.len() as int)
    &&& c.previous_key + 1 < c.inputs@.len()
    &&& forall|i: int| 0 <= i < c.previous_key ==> c.inputs@[i] < c.previous_time
}

/// The effective lookup time of a channel: the clock wrapped by the
/// channel's own last key, clamped below the first key up to it.
pub open spec fn channel_time(inputs: Seq<u32>, time: int) -> int {
    let m = inputs.last() as int;
    let t = if m == 0 {
        0
    } else {
        time % m
    };
    if t < inputs[0] as int {
        inputs[0] as int
    } else {
        t
    }
}

/// Position of the first key at or after `t`, searching from `from`;
/// the track length if there is none.
pub open spec fn first_ge(inputs: Seq<u32>, t: int, from: int) -> int
    decreases inputs.len() - from,
    when 0 <= from <= inputs.len()
{
    if from >= inputs.len() {
        inputs.len() as int
    } else if t <= inputs[from] {
        from
    } else {
        first_ge(inputs, t, from + 1)
    }
}

/// The upper key of the pair bracketing `t`, clamped into `[1, len - 1]`.
pub open spec fn bracket_next(inputs: Seq<u32>, t: int) -> int {
    let f = first_ge(inputs, t, 0);
    let lo = if f < 1 {
        1
    } else {
        f
    };
    if lo > inputs.len() - 1 {
        inputs.len() - 1
    } else {
        lo
    }
}

/// Component-wise linear interpolation of two vectors.
pub open spec fn vec3_lerp(a: Vec3, b: Vec3, num: int, den: int) -> Vec3 {
    Vec3 {
        x: lerp(a.x as int, b.x as int, num, den) as i64,
        y: lerp(a.y as int, b.y as int, num, den) as i64,
        z: lerp(a.z as int, b.z as int, num, den) as i64,
    }
}

/// Component-wise linear blend of two quaternions (not spherical).
pub open spec fn quat_lerp(a: Quat, b: Quat, num: int, den: int) -> Quat {
    Quat {
        x: lerp(a.x as int, b.x as int, num, den) as i64,
        y: lerp(a.y as int, b.y as int, num, den) as i64,
        z: lerp(a.z as int, b.z as int, num, den) as i64,
        w: lerp(a.w as int, b.w as int, num, den) as i64,
    }
}

/// The value a channel yields at effective time `t`: the linear blend of the
/// two outputs bracketing `t`, at the normalized position between their keys.
pub open spec fn channel_output(ts: TransformationSet, inputs: Seq<u32>, t: int) -> ChannelOutput {
    let nk = bracket_next(inputs, t);
    let pk = nk - 1;
    let num = t - inputs[pk] as int;
    let den = inputs[nk] as int - inputs[pk] as int;
    match ts {
        TransformationSet::Translations(v) => ChannelOutput::Translation(
            vec3_lerp(v@[pk], v@[nk], num, den),
        ),
        TransformationSet::Rotations(v) => ChannelOutput::Rotation(
            quat_lerp(v@[pk], v@[nk], num, den),
        ),
        TransformationSet::Scales(v) => ChannelOutput::Scale(vec3_lerp(v@[pk], v@[nk], num, den)),
        TransformationSet::MorphTargetWeights(v) => ChannelOutput::MorphWeight(
            lerp(v@[pk] as int, v@[nk] as int, num, den) as i64,
        ),
    }
}

/// A sampled value stays within the admissible component range.
pub open spec fn output_wf(o: ChannelOutput) -> bool {
    match o {
        ChannelOutput::Translation(v) => vec3_wf(v),
        ChannelOutput::Rotation(q) => quat_wf(q),
        ChannelOutput::Scale(v) => vec3_wf(v),
        ChannelOutput::MorphWeight(w) => -VAL_LIMIT <= w <= VAL_LIMIT,
    }
}

/// A forward search that may skip positions known to hold keys strictly
/// before `t` finds the same key as a search from the start.
proof fn lemma_first_ge_from(inputs: Seq<u32>, t: int, i: int, k: int)
    requires
        0 <= k <= i < inputs.len(),
        forall|j: int| 0 <= j < i ==> inputs[j] < t,
        t <= inputs[i],
    ensures
        first_ge(inputs, t, k) == i,
    decreases i - k,
{
    if k < i {
        lemma_first_ge_from(inputs, t, i, k + 1);
    }
}

/// Strict growth between all adjacent keys gives pairwise strict growth.
pub(crate) proof fn lemma_adjacent_implies_increasing(s: Seq<u32>)
    requires
        forall|i: int| 0 <= i < s.len() - 1 ==> #[trigger] s[i] < s[i + 1],
    ensures
        strictly_increasing(s),
{
    assert forall|i: int, j: int| 0 <= i < j < s.len() implies s[i] < s[j] by {
        lemma_lt_span(s, i, j);
    }
}

/// Adjacent strict growth spans any gap.
proof fn lemma_lt_span(s: Seq<u32>, i: int, j: int)
    requires
        forall|k: int| 0 <= k < s.len() - 1 ==> #[trigger] s[k] < s[k + 1],
        0 <= i < j < s.len(),
    ensures
        s[i] < s[j],
    decreases j - i,
{
    if i + 1 < j {
        lemma_lt_span(s, i + 1, j);
    }
}

/// The largest key of a well-formed channel is positive.
proof fn lemma_last_key_positive(inputs: Seq<u32>)
    requires
        inputs.len() >= 2,
        strictly_increasing(inputs),
    ensures
        inputs.last() > 0,
{
    assert(inputs[0] < inputs[inputs.len() - 1]);
}

impl Channel {
    /// Sample this channel at the given clock value: wrap the clock into
    /// the channel's own duration, move the cursor to the bracketing key
    /// pair (resetting to the first key on rewind), and return the linear
    /// blend of the bracketing outputs.
    pub fn sample(&mut self, time: u64) -> (out: ChannelOutput)
        requires
            channel_wf(*old(self)),
        ensures
            channel_wf(*final(self)),
            final(self).node_index == old(self).node_index,
            final(self).inputs == old(self).inputs,
            final(self).transformations == old(self).transformations,
            final(self).previous_time as int == channel_time(old(self).inputs@, time as int),
            final(self).previous_key as int == bracket_next(
                old(self).inputs@,
                channel_time(old(self).inputs@, time as int),
            ) - 1,
            out == channel_output(
                old(self).transformations,
                old(self).inputs@,
                channel_time(old(self).inputs@, time as int),
            ),
            output_wf(out),
    {
        let ghost gt = channel_time(old(self).inputs@, time as int);
        let len = self.inputs.len();
        let max = self.inputs[len - 1];
        proof {
            lemma_last_key_positive(self.inputs@);
        }
        let mut t: u32 = (time % (max as u64)) as u32;
        let first_input = self.inputs[0];
        if t < first_input {
            t = first_input;
        }
        proof {
            assert(t as int == gt);
            assert(t < max) by {
                assert(self.inputs@[0] < self.inputs@[len - 1]);
            }
        }
        if self.previous_time > t {
            self.previous_key = 0;
        }
        self.previous_time = t;
        let mut i = self.previous_key;
        proof {
            assert forall|j: int| 0 <= j < i implies self.inputs@[j] < t by {
                assert(old(self).inputs@[j] < old(self).previous_time);
            }
        }
        while self.inputs[i] < t
            invariant
                channel_wf(*old(self)),
                self.inputs == old(self).inputs,
                len == self.inputs@.len(),
                i < len,
                t < self.inputs@.last(),
                forall|j: int| 0 <= j < i ==> self.inputs@[j] < t,
            decreases self.inputs@.len() - i,
        {
            proof {
                assert(self.inputs@[i as int] < self.inputs@[self.inputs@.len() - 1]);
            }
            i = i + 1;
        }
        proof {
            lemma_first_ge_from(self.inputs@, t as int, i as int, 0);
        }
        let next_key = if i == 0 {
            1
        } else {
            i
        };
        proof {
            assert(next_key as int == bracket_next(self.inputs@, t as int));
        }
        self.previous_key = next_key - 1;
        let pk = next_key - 1;
        let num = t - self.inputs[pk];
        proof {
            if pk < i {
                assert(self.inputs@[pk as int] < t);
            }
            assert(self.inputs@[pk as int] < self.inputs@[next_key as int]);
        }
        let den = self.inputs[next_key] - self.inputs[pk];
        proof {
            assert(num <= den) by {
                if pk == i {
                    assert(t <= self.inputs@[i as int]);
                } else {
                    assert(t <= self.inputs@[next_key as int]);
                }
            }
        }
        match &self.transformations {
            TransformationSet::Translations(v) => {
                let a = v[pk];
                let b = v[next_key];
                ChannelOutput::Translation(
                    Vec3 {
                        x: lerp_i64(a.x, b.x, num, den),
                        y: lerp_i64(a.y, b.y, num, den),
                        z: lerp_i64(a.z, b.z, num, den),
                    },
                )
            },
            TransformationSet::Rotations(v) => {
                let a = v[pk];
                let b = v[next_key];
                ChannelOutput::Rotation(
                    Quat {
                        x: lerp_i64(a.x, b.x, num, den),
                        y: lerp_i64(a.y, b.y, num, den),
                        z: lerp_i64(a.z, b.z, num, den),
                        w: lerp_i64(a.w, b.w, num, den),
                    },
                )
            },
            TransformationSet::Scales(v) => {
                let a = v[pk];
                let b = v[next_key];
                ChannelOutput::Scale(
                    Vec3 {
                        x: lerp_i64(a.x, b.x, num, den),
                        y: lerp_i64(a.y, b.y, num, den),
                        z: lerp_i64(a.z, b.z, num, den),
                    },
                )
            },
            TransformationSet::MorphTargetWeights(v) => {
                let a = v[pk];
                let b = v[next_key];
                ChannelOutput::MorphWeight(lerp_i64(a, b, num, den))
            },
        }
    }
}

/// The largest channel duration depends on the key times alone.
proof fn lemma_channels_max_time_congruence(a: Seq<Channel>, b: Seq<Channel>)
    requires
        a.len() == b.len(),
        forall|i: int| 0 <= i < a.len() ==> (#[trigger] a[i]).inputs == b[i].inputs,
    ensures
        channels_max_time(a) == channels_max_time(b),
    decreases a.len(),
{
    if a.len() > 0 {
        assert forall|i: int| 0 <= i < a.drop_last().len() implies (#[trigger] a.drop_last()[
            i
        ]).inputs == b.drop_last()[i].inputs by {
            assert(a[i].inputs == b[i].inputs);
        }
        lemma_channels_max_time_congruence(a.drop_last(), b.drop_last());
        assert(a.last().inputs == b.last().inputs);
    }
}

/// The largest last-key time over a sequence of channels.
pub open spec fn channels_max_time(s: Seq<Channel>) -> int
    decreases s.len(),
{
    if s.len() == 0 {
        0
    } else {
        let rest = channels_max_time(s.drop_last());
        let m = s.last().inputs@.last() as int;
        if m > rest {
            m
        } else {
            rest
        }
    }
}

/// Clip invariant: well-formed channels, the recorded maximum is the
/// largest channel duration, and the clock never runs past it.
pub open spec fn animation_wf(a: Animation) -> bool {
    &&& forall|i: int| 0 <= i < a.channels@.len() ==> channel_wf(#[trigger] a.channels@[i])
    &&& a.max_animation_time as int == channels_max_time(a.channels@)
    &&& a.time <= a.max_animation_time
}

/// The clip clock after advancing by `delta`: wrapped by modulo into the
/// clip duration whenever it runs past the end.
pub open spec fn clip_time_after(time: int, delta: int, max: int) -> int {
    let t = time + delta;
    if t > max {
        if max == 0 {
            0
        } else {
            t % max
        }
    } else {
        t
    }
}

impl Animation {
    /// Advance the clock by `delta` ticks and sample every channel at the
    /// resulting time, updating each channel's cursor.
    #[verifier::loop_isolation(false)]
    pub fn sample(&mut self, delta: u32) -> (outs: Vec<ChannelSample>)
        requires
            animation_wf(*old(self)),
        ensures
            animation_wf(*final(self)),
            final(self).max_animation_time == old(self).max_animation_time,
            final(self).time as int == clip_time_after(
                old(self).time as int,
                delta as int,
                old(self).max_animation_time as int,
            ),
            final(self).channels@.len() == old(self).channels@.len(),
            forall|i: int|
                0 <= i < old(self).channels@.len() ==> {
                    &&& (#[trigger] final(self).channels@[i]).node_index == old(
                        self,
                    ).channels@[i].node_index
                    &&& final(self).channels@[i].inputs == old(self).channels@[i].inputs
                    &&& final(self).channels@[i].transformations == old(
                        self,
                    ).channels@[i].transformations
                    &&& final(self).channels@[i].previous_time as int == channel_time(
                        old(self).channels@[i].inputs@,
                        final(self).time as int,
                    )
                },
            outs@.len() == old(self).channels@.len(),
            forall|i: int|
                0 <= i < outs@.len() ==> {
                    &&& (#[trigger] outs@[i]).node_index == old(self).channels@[i].node_index
                    &&& outs@[i].output == channel_output(
                        old(self).channels@[i].transformations,
                        old(self).channels@[i].inputs@,
                        channel_time(old(self).channels@[i].inputs@, final(self).time as int),
                    )
                    &&& output_wf(outs@[i].output)
                },
    {
        let t64: u64 = self.time + (delta as u64);
        if t64 > self.max_animation_time as u64 {
            if self.max_animation_time == 0 {
                self.time = 0;
            } else {
                self.time = t64 % (self.max_animation_time as u64);
            }
        } else {
            self.time = t64;
        }
        let time = self.time;
        let mut outs: Vec<ChannelSample> = Vec::new();
        let n = self.channels.len();
        for i in 0..n
            invariant
                self.time == time,
                self.max_animation_time == old(self).max_animation_time,
                self.channels@.len() == n,
                outs@.len() == i,
                forall|j: int| i <= j < n ==> self.channels@[j] == old(self).channels@[j],
                forall|j: int|
                    0 <= j < i ==> {
                        &&& channel_wf(#[trigger] self.channels@[j])
                        &&& self.channels@[j].node_index == old(self).channels@[j].node_index
                        &&& self.channels@[j].inputs == old(self).channels@[j].inputs
                        &&& self.channels@[j].transformations == old(
                            self,
                        ).channels@[j].transformations
                        &&& self.channels@[j].previous_time as int == channel_time(
                            old(self).channels@[j].inputs@,
                            time as int,
                        )
                        &&& self.channels@[j].previous_key as int == bracket_next(
                            old(self).channels@[j].inputs@,
                            channel_time(old(self).channels@[j].inputs@, time as int),
                        ) - 1
                    },
                forall|j: int|
                    0 <= j < i ==> {
                        &&& (#[trigger] outs@[j]).node_index == old(self).channels@[j].node_index
                        &&& outs@[j].output == channel_output(
                            old(self).channels@[j].transformations,
                            old(self).channels@[j].inputs@,
                            channel_time(old(self).channels@[j].inputs@, time as int),
                        )
                        &&& output_wf(outs@[j].output)
                    },
        {
            let out = self.channels[i].sample(time);
            let idx = self.channels[i].node_index;
            outs.push(ChannelSample { node_index: idx, output: out });
        }
        proof {
            lemma_channels_max_time_congruence(self.channels@, old(self).channels@);
        }
        outs
    }
}

/// Compute the largest channel duration, the clip's `max_animation_time`.
pub fn max_time_of(channels: &Vec<Channel>) -> (m: u32)
    requires
        forall|i: int| 0 <= i < channels@.len() ==> channel_wf(#[trigger] channels@[i]),
    ensures
        m as int == channels_max_time(channels@),
{
    let mut m: u32 = 0;
    let n = channels.len();
    for i in 0..n
        invariant
            n == channels@.len(),
            forall|i: int| 0 <= i < channels@.len() ==> channel_wf(#[trigger] channels@[i]),
            m as int == channels_max_time(channels@.take(i as int)),
    {
        let c_len = channels[i].inputs.len();
        proof {
            assert(channel_wf(channels@[i as int]));
        }
        let last = channels[i].inputs[c_len - 1];
        if last > m {
            m = last;
        }
        proof {
            assert(channels@.take(i + 1).drop_last() =~= channels@.take(i as int));
            assert(channels@.take(i + 1).last() == channels@[i as int]);
        }
    }
    proof {
        assert(channels@.take(n as int) =~= channels@);
    }
    m
}

} // verus!
