use engine::performance_logger::{format_iso8601, year_of_secs, PerformanceLog, PerformanceLogger};

#[test]
fn iso8601_timestamps() {
    assert_eq!(format_iso8601(0), "1970-01-01T00:00:00Z");
    assert_eq!(format_iso8601(951782400), "2000-02-29T00:00:00Z");
    assert_eq!(format_iso8601(1609459199), "2020-12-31T23:59:59Z");
    assert_eq!(format_iso8601(1700000000), "2023-11-14T22:13:20Z");
    assert_eq!(format_iso8601(31536000), "1971-01-01T00:00:00Z");
}

fn log() -> PerformanceLog {
    PerformanceLog::new_at(0, "r1".into(), "en".into(), "zh".into(), 10, 20, 30, 60, true)
}

#[test]
fn new_record_has_no_text_check() {
    let l = log();
    assert_eq!(l.ts, "1970-01-01T00:00:00Z");
    assert_eq!(l.id, "r1");
    assert_eq!((l.asr_ms, l.nmt_ms, l.tts_ms, l.total_ms), (10, 20, 30, 60));
    assert!(l.ok);
    assert_eq!(l.suspect_translation, None);
    assert_eq!(l.src_text_len, None);
    let now = PerformanceLog::new("r2".into(), "en".into(), "zh".into(), 1, 2, 3, 6, false);
    assert_eq!(now.ts.len(), 20);
    assert!(now.ts.ends_with('Z'));
}

#[test]
fn suspect_translation_rules() {
    let mut l = log();
    l.check_suspect_translation("This is a rather long source sentence", "ok");
    assert_eq!(l.suspect_translation, Some(true));
    assert_eq!(l.src_text_len, Some(37));
    assert_eq!(l.tgt_text_len, Some(2));

    l.check_suspect_translation("hi", "");
    assert_eq!(l.suspect_translation, Some(true));
    l.check_suspect_translation("hi", "!!!???");
    assert_eq!(l.suspect_translation, Some(true));
    l.check_suspect_translation("hi", "a!!");
    assert_eq!(l.suspect_translation, Some(false));
    l.check_suspect_translation("hi", "a!!!");
    assert_eq!(l.suspect_translation, Some(true));
    l.check_suspect_translation("hello", "你好");
    assert_eq!(l.suspect_translation, Some(false));
    assert_eq!(l.tgt_text_len, Some(6));
}

#[test]
fn logger_settings() {
    let mut l = log();
    l.check_suspect_translation("hi", "");
    let logger = PerformanceLogger::default();
    assert!(logger.enabled && logger.log_suspect);
    assert!(logger.writes(&l));
    assert!(logger.warns(&l));
    let quiet = PerformanceLogger::new(true, false);
    assert!(!quiet.warns(&l));
    let off = PerformanceLogger::new(false, true);
    assert!(!off.writes(&l));
    assert!(!off.warns(&l));
}

#[test]
fn suspect_ratio_counts_characters() {
    let mut l = PerformanceLog::new_at(0, "r1".to_string(), "en".to_string(), "zh".to_string(), 0, 0, 0, 0, true);
    l.check_suspect_translation("Hello", "？？？");
    assert_eq!(l.suspect_translation, Some(true));
    assert_eq!(l.tgt_text_len, Some(9));
    // Twenty-one characters (63 bytes) translated to one.
    l.check_suspect_translation("一二三四五六七八九十一二三四五六七八九十一", "好");
    assert_eq!(l.suspect_translation, Some(true));
    l.check_suspect_translation("一二三四五六七八九十", "好");
    assert_eq!(l.suspect_translation, Some(false));
}

#[test]
fn calendar_years_of_timestamps() {
    assert_eq!(year_of_secs(0), 1970);
    assert_eq!(year_of_secs(31_535_999), 1970);
    assert_eq!(year_of_secs(31_536_000), 1971);
    assert_eq!(year_of_secs(951_782_400), 2000);
    assert_eq!(format_iso8601(951_782_400), "2000-02-29T00:00:00Z");
}
