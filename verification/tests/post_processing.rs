use engine::post_processing::TextPostProcessor;

#[test]
fn test_clean_text() {
    let processor = TextPostProcessor::default();
    assert_eq!(processor.clean_text("  hello  world  "), "hello world");
    assert_eq!(processor.clean_text("test...."), "test.");
    assert_eq!(processor.clean_text("测试。。。。"), "测试。");
}

#[test]
fn test_add_punctuation() {
    let processor = TextPostProcessor::default();
    assert_eq!(processor.add_punctuation_if_needed("hello", "en"), "hello.");
    assert_eq!(processor.add_punctuation_if_needed("测试", "zh"), "测试。");
    assert_eq!(processor.add_punctuation_if_needed("hello.", "en"), "hello.");
    assert_eq!(processor.add_punctuation_if_needed("测试。", "zh"), "测试。");
}

#[test]
fn clean_text_collapses_long_space_runs() {
    let processor = TextPostProcessor::default();
    assert_eq!(processor.clean_text("a     b"), "a b");
    assert_eq!(processor.clean_text("why???? no!!!,,,,"), "why?? no!,,");
}

#[test]
fn process_applies_glossary_from_json() {
    let processor = TextPostProcessor::new(Some(r#"{"AI": "artificial intelligence", "n": 3}"#), true);
    assert_eq!(processor.process("  AI  rocks", "en"), "artificial intelligence rocks.");
}

#[test]
fn process_with_bad_json_has_no_glossary() {
    let processor = TextPostProcessor::new(Some("[1, 2]"), true);
    assert_eq!(processor.process("AI", "en"), "AI.");
    let processor = TextPostProcessor::new(Some("not json"), true);
    assert_eq!(processor.replace_terms("AI"), "AI");
}

#[test]
fn process_disabled_is_identity() {
    let processor = TextPostProcessor::new(None, false);
    assert_eq!(processor.process("  x  ", "zh"), "  x  ");
}

#[test]
fn add_punctuation_blank_kept() {
    let processor = TextPostProcessor::default();
    assert_eq!(processor.add_punctuation_if_needed("   ", "en"), "   ");
    assert_eq!(processor.add_punctuation_if_needed(" hi ", "zh-CN"), "hi。");
}

#[test]
fn glossary_in_given_order() {
    let processor = TextPostProcessor::with_terms(
        vec![("a".to_string(), "b".to_string()), ("b".to_string(), "c".to_string())],
        true,
    );
    assert_eq!(processor.replace_terms("a"), "c");
}
