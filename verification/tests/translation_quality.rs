use engine::translation_quality::TranslationQualityChecker;

#[test]
fn test_remove_repetitive_sequences() {
    let checker = TranslationQualityChecker::new(true);
    assert_eq!(checker.remove_repetitive_sequences("to to to to"), "to");
    assert_eq!(
        checker.remove_repetitive_sequences("hello world world world"),
        "hello world"
    );
}

#[test]
fn test_is_suspicious_quality_english() {
    let checker = TranslationQualityChecker::new(true);
    assert!(checker.is_suspicious_quality("???###$$$", "en"));
    assert!(!checker.is_suspicious_quality("Hello world", "en"));
}

#[test]
fn test_is_suspicious_quality_chinese() {
    let checker = TranslationQualityChecker::new(true);
    assert!(checker.is_suspicious_quality("？？？", "zh"));
    assert!(!checker.is_suspicious_quality("你好世界", "zh"));
}

#[test]
fn test_check_and_fix() {
    let checker = TranslationQualityChecker::new(true);
    let result = checker.check_and_fix("Hello", "to to to to", "en");
    assert_eq!(result, "to");
}

#[test]
fn repetitions_of_two_are_kept() {
    let checker = TranslationQualityChecker::new(true);
    assert_eq!(checker.remove_repetitive_sequences("  a a  b b b c "), "a a b c");
}

#[test]
fn check_and_fix_disabled_is_identity() {
    let checker = TranslationQualityChecker::new(false);
    assert_eq!(checker.check_and_fix("x", "to to to to", "en"), "to to to to");
}

#[test]
fn check_and_fix_gives_empty_for_junk() {
    let checker = TranslationQualityChecker::default();
    assert_eq!(checker.check_and_fix("Hello", "???###", "en"), "");
}

#[test]
fn suspicious_ratio_boundary() {
    let checker = TranslationQualityChecker::new(true);
    // 7 of 10 non-letters: exactly 70%, not above.
    assert!(!checker.is_suspicious_quality("abc1234567", "en"));
    // 8 of 10: above 70%.
    assert!(checker.is_suspicious_quality("ab12345678", "en"));
    assert!(checker.is_suspicious_quality("   ", "fr"));
    assert!(!checker.is_suspicious_quality("###", "fr"));
    assert!(checker.is_suspicious_quality("中", "zh-CN"));
    assert!(!checker.is_suspicious_quality("中文字", "zh-CN"));
    assert!(checker.is_suspicious_quality("hello", "zh"));
}

#[test]
fn excessive_punctuation() {
    let checker = TranslationQualityChecker::new(true);
    assert_eq!(checker.remove_excessive_punctuation("wow!!!! ok...."), "wow!! ok..");
    assert_eq!(checker.remove_excessive_punctuation("好！！！"), "好！");
}

#[test]
fn repeated_fragments_inside_words_are_collapsed() {
    let checker = TranslationQualityChecker::new(true);
    assert_eq!(checker.remove_repetitive_sequences("theiriririr"), "their");
    assert_eq!(checker.remove_repetitive_sequences("hahaha"), "ha");
    // Single repeated letters and fragments seen twice stay.
    assert_eq!(checker.remove_repetitive_sequences("www.example.com"), "www.example.com");
    assert_eq!(checker.remove_repetitive_sequences("banana balloon"), "banana balloon");
    // Collapsed words that then repeat collapse as a run.
    assert_eq!(checker.remove_repetitive_sequences("hahaha ha ha"), "ha");
}

#[test]
fn no_word_comes_three_times_after_removal() {
    let c = TranslationQualityChecker::new(true);
    assert_eq!(c.remove_repetitive_sequences("a a a a b b c c c c c d"), "a b b c d");
    assert_eq!(c.remove_repetitive_sequences("x x y y x x"), "x x y y x x");
    let once = c.remove_repetitive_sequences("go go go go now now now stop");
    assert_eq!(once, "go now stop");
    assert_eq!(c.remove_repetitive_sequences(&once), once);
}

#[test]
fn chinese_translation_of_fewer_than_three_characters_is_suspicious() {
    let c = TranslationQualityChecker::new(true);
    assert!(c.is_suspicious_quality("你好", "zh"));
    assert!(c.is_suspicious_quality(" 好 ", "zh-CN"));
    assert!(!c.is_suspicious_quality("你好吗", "zh"));
}
