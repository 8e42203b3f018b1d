//! The decisions of the voice-activity detectors: the silence-boundary state machine,
//! the adaptive threshold with its feedback delta, and the fixed-interval detector.
//! The speech probability itself comes from a model run outside this library; here a
//! frame arrives as "silent or not" with its timestamp.
use vstd::prelude::*;

verus! {

/// Feedback on where boundaries fall.
#[derive(Debug, Clone, Copy, PartialEq, Eq, Structural)]
pub enum VadFeedbackType {
    /// Boundaries come too late: the threshold goes down.
    BoundaryTooLong,
    /// Boundaries come too early: the threshold goes up.
    BoundaryTooShort,
}

/// Why a boundary was reported.
#[derive(Debug, Clone, PartialEq, Eq)]
pub enum BoundaryType {
    NaturalPause,
    ForcedCutoff,
    TimeBased,
    Other(String),
}

/// `x` limited to `[lo, hi]` (what `clamp` returns).
pub open spec fn clamp_spec(x: int, lo: int, hi: int) -> int {
    if x < lo {
        lo
    } else if x > hi {
        hi
    } else {
        x
    }
}

/// `x` limited to `[lo, hi]`.
pub fn clamp_u64(x: u64, lo: u64, hi: u64) -> (r: u64)
    requires
        lo <= hi,
    ensures
        r == clamp_spec(x as int, lo as int, hi as int),
{
    if x < lo {
        lo
    } else if x > hi {
        hi
    } else {
        x
    }
}

/// `x` limited to `[lo, hi]`.
pub fn clamp_i64(x: i64, lo: i64, hi: i64) -> (r: i64)
    requires
        lo <= hi,
    ensures
        r == clamp_spec(x as int, lo as int, hi as int),
{
    if x < lo {
        lo
    } else if x > hi {
        hi
    } else {
        x
    }
}

/// The integer settings of the silence detector.
#[derive(Debug, Clone, Copy)]
pub struct ThresholdConfig {
    /// Samples per model frame.
    pub frame_size: u64,
    /// Samples per second.
    pub sample_rate: u64,
    /// The silence needed for a boundary before any rate sample (ms).
    pub min_silence_duration_ms: u64,
    pub adaptive_enabled: bool,
    pub base_threshold_min_ms: u64,
    pub base_threshold_max_ms: u64,
    pub delta_min_ms: i64,
    pub delta_max_ms: i64,
    pub final_threshold_min_ms: u64,
    pub final_threshold_max_ms: u64,
    /// The least time since the last speech for a boundary (ms).
    pub min_utterance_ms: u64,
}

impl ThresholdConfig {
    /// Ranges that `clamp` accepts and a rate that can be divided by.
    pub open spec fn valid(&self) -> bool {
        &&& self.sample_rate > 0
        &&& self.base_threshold_min_ms <= self.base_threshold_max_ms
        &&& self.delta_min_ms <= self.delta_max_ms
        &&& self.final_threshold_min_ms <= self.final_threshold_max_ms
    }
}

impl Default for ThresholdConfig {
    fn default() -> (r: Self)
        ensures
            r.frame_size == 512,
            r.sample_rate == 16000,
            r.min_silence_duration_ms == 300,
            r.adaptive_enabled,
            r.base_threshold_min_ms == 200,
            r.base_threshold_max_ms == 600,
            r.delta_min_ms == -200,
            r.delta_max_ms == 200,
            r.final_threshold_min_ms == 200,
            r.final_threshold_max_ms == 800,
            r.min_utterance_ms == 1000,
            r.valid(),
    {
        ThresholdConfig {
            frame_size: 512,
            sample_rate: 16000,
            min_silence_duration_ms: 300,
            adaptive_enabled: true,
            base_threshold_min_ms: 200,
            base_threshold_max_ms: 600,
            delta_min_ms: -200,
            delta_max_ms: 200,
            final_threshold_min_ms: 200,
            final_threshold_max_ms: 800,
            min_utterance_ms: 1000,
        }
    }
}

// ---------------------------------------------------------------------------
// Adaptive threshold
// ---------------------------------------------------------------------------

/// The integer part of the adaptive state: the base threshold set from the speech
/// rate, the delta set from feedback, and how many rate samples were taken.
#[derive(Debug, Clone, Copy)]
pub struct AdaptiveThreshold {
    pub base_threshold_ms: u64,
    pub delta_ms: i64,
    pub sample_count: u64,
}

/// `base + delta` as the signed sum read back as unsigned, limited to the final range.
pub open spec fn effective_threshold(base: u64, delta: i64, c: ThresholdConfig) -> u64 {
    clamp_spec((((base as i64) + delta) as i64) as u64 as int, c.final_threshold_min_ms as int, c.final_threshold_max_ms as int) as u64
}

/// Whether the signed sum `base + delta` stays within `i64`.
pub open spec fn sum_fits(base: u64, delta: i64) -> bool {
    i64::MIN <= (base as i64) + delta <= i64::MAX
}

impl AdaptiveThreshold {
    /// A state with the given base, no delta and no sample.
    pub fn new(base_duration_ms: u64) -> (r: Self)
        ensures
            r.base_threshold_ms == base_duration_ms,
            r.delta_ms == 0,
            r.sample_count == 0,
    {
        AdaptiveThreshold { base_threshold_ms: base_duration_ms, delta_ms: 0, sample_count: 0 }
    }

    /// The state a detector starts in: the base in the middle of the base range.
    pub fn for_config(c: &ThresholdConfig) -> (r: Self)
        requires
            c.base_threshold_min_ms + c.base_threshold_max_ms <= u64::MAX,
        ensures
            r.base_threshold_ms == (c.base_threshold_min_ms + c.base_threshold_max_ms) / 2,
            r.delta_ms == 0,
            r.sample_count == 0,
    {
        Self::new((c.base_threshold_min_ms + c.base_threshold_max_ms) / 2)
    }

    /// The threshold in force: `base + delta` limited to the final range.
    pub fn get_effective_threshold(&self, c: &ThresholdConfig) -> (r: u64)
        requires
            c.valid(),
            sum_fits(self.base_threshold_ms, self.delta_ms),
        ensures
            r == effective_threshold(self.base_threshold_ms, self.delta_ms, *c),
            c.final_threshold_min_ms <= r <= c.final_threshold_max_ms,
    {
        let sum = (self.base_threshold_ms as i64) + self.delta_ms;
        clamp_u64(sum as u64, c.final_threshold_min_ms, c.final_threshold_max_ms)
    }

    /// The silence needed for a boundary: the configured minimum before any rate
    /// sample, the effective threshold after.
    pub fn get_adjusted_duration(&self, c: &ThresholdConfig) -> (r: u64)
        requires
            c.valid(),
            sum_fits(self.base_threshold_ms, self.delta_ms),
        ensures
            r == if self.sample_count == 0 {
                c.min_silence_duration_ms
            } else {
                effective_threshold(self.base_threshold_ms, self.delta_ms, *c)
            },
    {
        if self.sample_count == 0 {
            c.min_silence_duration_ms
        } else {
            self.get_effective_threshold(c)
        }
    }

    /// Moves the delta by `adjustment_ms` (down for boundaries that come too late, up
    /// for boundaries that come too early), limited to the delta range; nothing changes
    /// when adaptation is off.
    pub fn adjust_delta_by_feedback(&mut self, c: &ThresholdConfig, feedback_type: VadFeedbackType, adjustment_ms: i64)
        requires
            c.valid(),
            adjustment_ms > i64::MIN,
            i64::MIN <= old(self).delta_ms + adjustment_ms <= i64::MAX,
            i64::MIN <= old(self).delta_ms - adjustment_ms <= i64::MAX,
        ensures
            final(self).base_threshold_ms == old(self).base_threshold_ms,
            final(self).sample_count == old(self).sample_count,
            final(self).delta_ms == if !c.adaptive_enabled {
                old(self).delta_ms as int
            } else {
                clamp_spec(
                    old(self).delta_ms + match feedback_type {
                        VadFeedbackType::BoundaryTooLong => -adjustment_ms,
                        VadFeedbackType::BoundaryTooShort => adjustment_ms as int,
                    },
                    c.delta_min_ms as int,
                    c.delta_max_ms as int,
                )
            },
    {
        if !c.adaptive_enabled {
            return;
        }
        let change = match feedback_type {
            VadFeedbackType::BoundaryTooLong => -adjustment_ms,
            VadFeedbackType::BoundaryTooShort => adjustment_ms,
        };
        self.delta_ms = clamp_i64(self.delta_ms + change, c.delta_min_ms, c.delta_max_ms);
    }

    /// Records a rate sample whose computed base is `target_base_ms`: the base becomes
    /// that value limited to the base range.
    pub fn record_base(&mut self, c: &ThresholdConfig, target_base_ms: u64)
        requires
            c.valid(),
            old(self).sample_count < u64::MAX,
        ensures
            final(self).base_threshold_ms == clamp_spec(
                target_base_ms as int,
                c.base_threshold_min_ms as int,
                c.base_threshold_max_ms as int,
            ),
            final(self).delta_ms == old(self).delta_ms,
            final(self).sample_count == old(self).sample_count + 1,
    {
        self.sample_count = self.sample_count + 1;
        self.base_threshold_ms = clamp_u64(target_base_ms, c.base_threshold_min_ms, c.base_threshold_max_ms);
    }
}

/// Feedback keeps the delta in its range: a delta within `[delta_min, delta_max]`
/// stays there after any adjustment.
pub proof fn law_feedback_keeps_delta_in_range(c: ThresholdConfig, delta: i64, feedback_type: VadFeedbackType, adjustment_ms: i64)
    requires
        c.valid(),
        c.delta_min_ms <= delta <= c.delta_max_ms,
    ensures
        ({
            let moved = clamp_spec(
                delta + match feedback_type {
                    VadFeedbackType::BoundaryTooLong => -adjustment_ms,
                    VadFeedbackType::BoundaryTooShort => adjustment_ms as int,
                },
                c.delta_min_ms as int,
                c.delta_max_ms as int,
            );
            let kept = if c.adaptive_enabled { moved } else { delta as int };
            c.delta_min_ms <= kept <= c.delta_max_ms
        }),
{
}

/// Whatever the base and delta, the effective threshold lies in the final range.
pub proof fn law_effective_threshold_in_range(base: u64, delta: i64, c: ThresholdConfig)
    requires
        c.valid(),
    ensures
        c.final_threshold_min_ms <= effective_threshold(base, delta, c) <= c.final_threshold_max_ms,
{
}

// ---------------------------------------------------------------------------
// Silence boundaries
// ---------------------------------------------------------------------------

/// The top bit of a timestamp marks the last frame of a stream.
pub open spec fn final_frame_flag() -> u64 {
    0x8000_0000_0000_0000u64
}

/// Timestamps above half the `u64` range are taken as corrupt.
pub open spec fn max_reasonable_timestamp() -> u64 {
    0x7FFF_FFFF_FFFF_FFFFu64
}

/// A timestamp with the last-frame mark cleared.
pub fn clean_timestamp(ts: u64) -> (r: u64)
    ensures
        r == ts % final_frame_flag(),
{
    let r = ts & 0x7FFF_FFFF_FFFF_FFFFu64;
    assert(ts & 0x7FFF_FFFF_FFFF_FFFFu64 == ts % 0x8000_0000_0000_0000u64) by (bit_vector);
    r
}

/// What the detector remembers between frames.
#[derive(Debug, Clone, Copy)]
pub struct BoundaryTracker {
    /// Consecutive silent frames.
    pub silence_frame_count: u64,
    /// When speech was last heard.
    pub last_speech_timestamp: Option<u64>,
    /// When the last boundary was reported.
    pub last_boundary_timestamp: Option<u64>,
}

/// The silence, in ms, of `count` frames.
pub open spec fn silence_ms(count: int, c: ThresholdConfig) -> int {
    (count * c.frame_size * 1000) / (c.sample_rate as int)
}

/// The state after one frame, and whether it closes an utterance.  `silent` says the
/// frame's speech probability was under the silence threshold, `ts` is its cleaned
/// timestamp and `threshold` the silence (ms) needed.
pub open spec fn boundary_step(s: BoundaryTracker, silent: bool, ts: u64, threshold: u64, c: ThresholdConfig) -> (BoundaryTracker, bool) {
    let count = if silent { s.silence_frame_count + 1 } else { 0 };
    let speech = if silent { s.last_speech_timestamp } else { Some(ts) };
    if ts > max_reasonable_timestamp() {
        (BoundaryTracker { silence_frame_count: count as u64, last_speech_timestamp: None, last_boundary_timestamp: None }, false)
    } else {
        let lb = match s.last_boundary_timestamp {
            Some(l) => if l > max_reasonable_timestamp() { None } else { Some(l) },
            None => None,
        };
        let cooldown = match lb {
            Some(l) => (if ts >= l { ts - l } else { 0 }) < threshold,
            None => false,
        };
        let utterance_ok = match speech {
            Some(l) => (if ts >= l { ts - l } else { 0 }) >= c.min_utterance_ms,
            None => false,
        };
        let boundary = silent && silence_ms(count, c) >= threshold && !cooldown && speech is Some && utterance_ok;
        let lb2 = if boundary { Some(ts) } else { lb };
        let lb3 = if !silent { None } else { lb2 };
        let count2 = if boundary { 0 } else { count };
        (BoundaryTracker { silence_frame_count: count2 as u64, last_speech_timestamp: speech, last_boundary_timestamp: lb3 }, boundary)
    }
}

/// Frames whose count and silence arithmetic cannot overflow.
pub open spec fn step_fits(s: BoundaryTracker, c: ThresholdConfig) -> bool {
    &&& s.silence_frame_count < u64::MAX
    &&& (s.silence_frame_count + 1) * c.frame_size * 1000 <= u64::MAX
}

impl BoundaryTracker {
    /// No silence counted, no speech, no boundary.
    pub fn new() -> (r: Self)
        ensures
            r.silence_frame_count == 0,
            r.last_speech_timestamp is None,
            r.last_boundary_timestamp is None,
    {
        BoundaryTracker { silence_frame_count: 0, last_speech_timestamp: None, last_boundary_timestamp: None }
    }

    /// Takes one frame and says whether it closes an utterance (see [`boundary_step`]).
    pub fn step(&mut self, silent: bool, ts: u64, threshold: u64, c: &ThresholdConfig) -> (boundary: bool)
        requires
            c.valid(),
            step_fits(*old(self), *c),
        ensures
            (*final(self), boundary) == boundary_step(*old(self), silent, ts, threshold, *c),
    {
        let ghost bound = old(self).silence_frame_count + 1;
        if silent {
            self.silence_frame_count = self.silence_frame_count + 1;
        } else {
            self.silence_frame_count = 0;
            self.last_speech_timestamp = Some(ts);
        }
        let count = self.silence_frame_count;
        let fs = c.frame_size;
        proof {
            assert(count * fs * 1000 <= u64::MAX) by (nonlinear_arith)
                requires
                    count <= bound,
                    bound * fs * 1000 <= u64::MAX;
            assert(count * fs <= u64::MAX) by (nonlinear_arith)
                requires
                    count * fs * 1000 <= u64::MAX;
        }
        let silence_duration_ms = (count * fs * 1000) / c.sample_rate;
        if ts > 0x7FFF_FFFF_FFFF_FFFFu64 {
            self.last_boundary_timestamp = None;
            self.last_speech_timestamp = None;
            return false;
        }
        let is_in_cooldown = match self.last_boundary_timestamp {
            Some(l) => {
                if l > 0x7FFF_FFFF_FFFF_FFFFu64 {
                    self.last_boundary_timestamp = None;
                    false
                } else {
                    ts.saturating_sub(l) < threshold
                }
            },
            None => false,
        };
        let has_detected_speech = self.last_speech_timestamp.is_some();
        let utterance_duration_ok = match self.last_speech_timestamp {
            Some(l) => ts.saturating_sub(l) >= c.min_utterance_ms,
            None => false,
        };
        let is_boundary = silent && silence_duration_ms >= threshold && !is_in_cooldown && has_detected_speech
            && utterance_duration_ok;
        if is_boundary {
            self.last_boundary_timestamp = Some(ts);
            self.silence_frame_count = 0;
        }
        if !silent {
            self.last_boundary_timestamp = None;
        }
        is_boundary
    }

    /// Forgets everything.
    pub fn reset(&mut self)
        ensures
            final(self).silence_frame_count == 0,
            final(self).last_speech_timestamp is None,
            final(self).last_boundary_timestamp is None,
    {
        *self = BoundaryTracker::new();
    }
}

/// Silence only ends an utterance that was heard: a silent frame while no speech has
/// been heard never closes one.
pub proof fn law_no_boundary_before_speech(s: BoundaryTracker, ts: u64, threshold: u64, c: ThresholdConfig)
    requires
        s.last_speech_timestamp is None,
    ensures
        !boundary_step(s, true, ts, threshold, c).1,
{
}

/// A speech frame never closes an utterance, and it clears the silence count and the
/// cooldown while remembering when speech was heard.
pub proof fn law_speech_resets(s: BoundaryTracker, ts: u64, threshold: u64, c: ThresholdConfig)
    requires
        ts <= max_reasonable_timestamp(),
    ensures
        !boundary_step(s, false, ts, threshold, c).1,
        boundary_step(s, false, ts, threshold, c).0.silence_frame_count == 0,
        boundary_step(s, false, ts, threshold, c).0.last_boundary_timestamp is None,
        boundary_step(s, false, ts, threshold, c).0.last_speech_timestamp == Some(ts),
{
}

/// After a boundary the count starts again and, with the same threshold, no second
/// boundary comes within the cooldown: a silent frame less than `threshold` ms later
/// closes nothing.
pub proof fn law_boundary_cooldown(s: BoundaryTracker, ts: u64, ts2: u64, threshold: u64, c: ThresholdConfig)
    requires
        boundary_step(s, true, ts, threshold, c).1,
        ts <= ts2,
        ts2 - ts < threshold,
    ensures
        boundary_step(s, true, ts, threshold, c).0.silence_frame_count == 0,
        boundary_step(s, true, ts, threshold, c).0.last_boundary_timestamp == Some(ts),
        !boundary_step(boundary_step(s, true, ts, threshold, c).0, true, ts2, threshold, c).1,
{
}

// ---------------------------------------------------------------------------
// Fixed-interval boundaries
// ---------------------------------------------------------------------------

/// A detector that reports a boundary every `segment_duration_ms`, counted from the
/// first frame and then from each boundary.  `u64::MAX` marks "no frame yet".
#[derive(Debug, Clone, Copy)]
pub struct TimeBasedVad {
    segment_duration_ms: u64,
    last_boundary_time: u64,
}

impl TimeBasedVad {
    pub closed spec fn segment(&self) -> u64 {
        self.segment_duration_ms
    }

    /// When the clock last started (`u64::MAX` before the first frame).
    pub closed spec fn last(&self) -> u64 {
        self.last_boundary_time
    }

    pub fn new(segment_duration_ms: u64) -> (r: Self)
        ensures
            r.segment() == segment_duration_ms,
            r.last() == u64::MAX,
    {
        TimeBasedVad { segment_duration_ms, last_boundary_time: u64::MAX }
    }

    /// Takes a frame at `timestamp_ms`: the first frame starts the clock and is no
    /// boundary; after it a frame at least `segment` ms after the last boundary (or the
    /// first frame) is one, and restarts the clock.
    pub fn detect(&mut self, timestamp_ms: u64) -> (boundary: bool)
        ensures
            final(self).segment() == old(self).segment(),
            old(self).last() == u64::MAX ==> !boundary && final(self).last() == timestamp_ms,
            old(self).last() != u64::MAX ==> {
                &&& boundary == ((if timestamp_ms >= old(self).last() {
                    timestamp_ms - old(self).last()
                } else {
                    0
                }) >= old(self).segment())
                &&& final(self).last() == if boundary { timestamp_ms } else { old(self).last() }
            },
    {
        if self.last_boundary_time == u64::MAX {
            self.last_boundary_time = timestamp_ms;
            return false;
        }
        let elapsed = timestamp_ms.saturating_sub(self.last_boundary_time);
        let is_boundary = elapsed >= self.segment_duration_ms;
        if is_boundary {
            self.last_boundary_time = timestamp_ms;
        }
        is_boundary
    }

    /// Back to the state before the first frame.
    pub fn reset(&mut self)
        ensures
            final(self).segment() == old(self).segment(),
            final(self).last() == u64::MAX,
    {
        self.last_boundary_time = u64::MAX;
    }

    /// The boundary kind this detector reports.
    pub fn boundary_type(&self) -> (r: BoundaryType)
        ensures
            r is TimeBased,
    {
        BoundaryType::TimeBased
    }
}

} // verus!
