use engine::vad::{
    clamp_u64, clean_timestamp, AdaptiveThreshold, BoundaryTracker, BoundaryType, ThresholdConfig, TimeBasedVad,
    VadFeedbackType,
};

#[test]
fn test_vad_feedback_type() {
    let too_short = VadFeedbackType::BoundaryTooShort;
    let too_long = VadFeedbackType::BoundaryTooLong;
    assert_ne!(too_short, too_long, "两种反馈类型应该不同");
    let cloned = too_short;
    assert_eq!(cloned, too_short, "克隆应该相等");
}

#[test]
fn test_adjustment_factor_clamping() {
    let factors: Vec<f32> = vec![0.0, 0.01, 0.05, 0.1, 0.2, 0.3, 0.5, 1.0];
    for factor in factors {
        let clamped = factor.clamp(0.05_f32, 0.3_f32);
        assert!(
            clamped >= 0.05_f32 && clamped <= 0.3_f32,
            "调整因子 {} 应该被限制在 0.05-0.3 之间，实际: {}",
            factor,
            clamped
        );
    }
}

#[test]
fn test_threshold_adjustment_calculation() {
    let base_threshold = 500u64;
    let factor = 0.1f32;

    let increase = (base_threshold as f32 * factor) as i64;
    let new_threshold_short = clamp_u64((base_threshold as i64 + increase) as u64, 400, 800);
    assert!(
        new_threshold_short > base_threshold,
        "BoundaryTooShort 应该提高阈值: {} -> {}",
        base_threshold,
        new_threshold_short
    );
    assert!(new_threshold_short >= 400 && new_threshold_short <= 800, "新阈值应该在范围内: {}", new_threshold_short);

    let decrease = -(base_threshold as f32 * factor) as i64;
    let new_threshold_long = clamp_u64((base_threshold as i64 + decrease) as u64, 400, 800);
    assert!(
        new_threshold_long < base_threshold,
        "BoundaryTooLong 应该降低阈值: {} -> {}",
        base_threshold,
        new_threshold_long
    );
    assert!(new_threshold_long >= 400 && new_threshold_long <= 800, "新阈值应该在范围内: {}", new_threshold_long);
}

#[test]
fn test_threshold_boundary_clamping() {
    let min_threshold = 400u64;
    let max_threshold = 800u64;
    assert_eq!(clamp_u64(300, min_threshold, max_threshold), min_threshold, "低于最小值的阈值应该被限制为最小值");
    assert_eq!(clamp_u64(1000, min_threshold, max_threshold), max_threshold, "高于最大值的阈值应该被限制为最大值");
    assert_eq!(clamp_u64(600, min_threshold, max_threshold), 600, "正常范围内的阈值不应该被修改");
}

#[test]
fn default_threshold_config() {
    let c = ThresholdConfig::default();
    assert_eq!(c.frame_size, 512);
    assert_eq!(c.sample_rate, 16000);
    assert_eq!(c.min_silence_duration_ms, 300);
    assert!(c.adaptive_enabled);
    assert_eq!((c.base_threshold_min_ms, c.base_threshold_max_ms), (200, 600));
    assert_eq!((c.delta_min_ms, c.delta_max_ms), (-200, 200));
    assert_eq!((c.final_threshold_min_ms, c.final_threshold_max_ms), (200, 800));
    assert_eq!(c.min_utterance_ms, 1000);
}

#[test]
fn adaptive_threshold_uses_minimum_until_first_sample() {
    let c = ThresholdConfig::default();
    let mut state = AdaptiveThreshold::for_config(&c);
    assert_eq!(state.base_threshold_ms, 400);
    assert_eq!(state.get_adjusted_duration(&c), 300);
    state.record_base(&c, 900);
    assert_eq!(state.base_threshold_ms, 600);
    assert_eq!(state.sample_count, 1);
    assert_eq!(state.get_adjusted_duration(&c), 600);
    state.record_base(&c, 100);
    assert_eq!(state.base_threshold_ms, 200);
}

#[test]
fn feedback_moves_delta_within_range() {
    let c = ThresholdConfig::default();
    let mut state = AdaptiveThreshold::new(500);
    state.sample_count = 1;
    state.adjust_delta_by_feedback(&c, VadFeedbackType::BoundaryTooShort, 150);
    assert_eq!(state.delta_ms, 150);
    assert_eq!(state.get_effective_threshold(&c), 650);
    state.adjust_delta_by_feedback(&c, VadFeedbackType::BoundaryTooShort, 150);
    assert_eq!(state.delta_ms, 200);
    assert_eq!(state.get_effective_threshold(&c), 700);
    for _ in 0..4 {
        state.adjust_delta_by_feedback(&c, VadFeedbackType::BoundaryTooLong, 150);
    }
    assert_eq!(state.delta_ms, -200);
    assert_eq!(state.get_effective_threshold(&c), 300);
    let off = ThresholdConfig { adaptive_enabled: false, ..ThresholdConfig::default() };
    state.adjust_delta_by_feedback(&off, VadFeedbackType::BoundaryTooShort, 150);
    assert_eq!(state.delta_ms, -200);
}

#[test]
fn effective_threshold_is_clamped_to_final_range() {
    let c = ThresholdConfig::default();
    let low = AdaptiveThreshold { base_threshold_ms: 50, delta_ms: -100, sample_count: 3 };
    // -50 read back as unsigned is huge: the upper limit.
    assert_eq!(low.get_effective_threshold(&c), 800);
    let high = AdaptiveThreshold { base_threshold_ms: 5000, delta_ms: 0, sample_count: 3 };
    assert_eq!(high.get_effective_threshold(&c), 800);
    let small = AdaptiveThreshold { base_threshold_ms: 100, delta_ms: 0, sample_count: 3 };
    assert_eq!(small.get_effective_threshold(&c), 200);
}

fn config() -> ThresholdConfig {
    // 512 samples at 16 kHz: 32 ms a frame.
    ThresholdConfig { min_utterance_ms: 100, ..ThresholdConfig::default() }
}

#[test]
fn silence_before_speech_never_ends_an_utterance() {
    let c = config();
    let mut t = BoundaryTracker::new();
    for i in 0..50u64 {
        assert!(!t.step(true, i * 32, 300, &c));
    }
    assert_eq!(t.silence_frame_count, 50);
    assert!(t.last_speech_timestamp.is_none());
}

#[test]
fn silence_after_speech_ends_the_utterance_once() {
    let c = config();
    let mut t = BoundaryTracker::new();
    assert!(!t.step(false, 0, 300, &c));
    assert_eq!(t.last_speech_timestamp, Some(0));
    let mut boundaries = vec![];
    for i in 1..=40u64 {
        if t.step(true, i * 32, 300, &c) {
            boundaries.push(i * 32);
        }
    }
    // 10 silent frames make 320 ms >= 300 ms; the cooldown and the reset count keep
    // the next one 10 frames later.
    assert_eq!(boundaries, vec![320, 640, 960, 1280]);
    assert_eq!(t.last_boundary_timestamp, Some(1280));
}

#[test]
fn short_utterances_are_not_cut() {
    let c = ThresholdConfig { min_utterance_ms: 1000, ..ThresholdConfig::default() };
    let mut t = BoundaryTracker::new();
    t.step(false, 0, 300, &c);
    for i in 1..=20u64 {
        assert!(!t.step(true, i * 32, 300, &c), "frame {}", i);
    }
    assert!(t.step(true, 1024, 300, &c));
}

#[test]
fn corrupt_timestamps_reset_tracking() {
    let c = config();
    let mut t = BoundaryTracker::new();
    t.step(false, 10, 300, &c);
    assert!(!t.step(true, u64::MAX / 2 + 1, 300, &c));
    assert!(t.last_speech_timestamp.is_none());
    assert!(t.last_boundary_timestamp.is_none());
    t.reset();
    assert_eq!(t.silence_frame_count, 0);
}

#[test]
fn final_frame_flag_is_cleared() {
    assert_eq!(clean_timestamp(5 | (1u64 << 63)), 5);
    assert_eq!(clean_timestamp(5), 5);
}

#[test]
fn test_time_based_detection() {
    let mut vad = TimeBasedVad::new(3000);
    assert!(!vad.detect(0), "第一帧（0ms）不应该检测到边界");
    assert!(!vad.detect(1000));
    assert!(!vad.detect(2000));
    assert!(vad.detect(3000), "应该在3000ms时检测到边界（从0ms开始经过3000ms）");
    assert!(!vad.detect(3500));
    assert!(vad.detect(6000), "应该在6000ms时检测到边界（从3000ms开始经过3000ms）");
    assert_eq!(vad.boundary_type(), BoundaryType::TimeBased);
}

#[test]
fn time_based_vad_test_reset() {
    let mut vad = TimeBasedVad::new(3000);
    vad.detect(0);
    vad.detect(3000);
    vad.reset();
    assert!(!vad.detect(5000));
}
