use engine::text_segmentation::{PauseType, TextSegmenter};

#[test]
fn test_segment_simple() {
    let segmenter = TextSegmenter::default();
    let text = "Hello, world. How are you? I'm fine!";
    let segments = segmenter.segment(text);
    assert_eq!(segments.len(), 3);
    assert_eq!(segments[0], "Hello, world.");
    assert_eq!(segments[1], "How are you?");
    assert_eq!(segments[2], "I'm fine!");
}

#[test]
fn test_segment_chinese() {
    let segmenter = TextSegmenter::default();
    let text = "你好，世界。你好吗？我很好！";
    let segments = segmenter.segment(text);
    assert_eq!(segments.len(), 3);
    assert_eq!(segments[0], "你好，世界。");
    assert_eq!(segments[1], "你好吗？");
    assert_eq!(segments[2], "我很好！");
}

#[test]
fn test_segment_long_sentence() {
    let segmenter = TextSegmenter::new(20);
    let text = "This is a very long sentence that should be split at commas or spaces.";
    let segments = segmenter.segment(text);
    assert!(segments.len() > 1);
}

#[test]
fn test_segment_empty() {
    let segmenter = TextSegmenter::default();
    let segments = segmenter.segment("");
    assert!(segments.is_empty());
}

#[test]
fn test_segment_no_punctuation() {
    let segmenter = TextSegmenter::default();
    let text = "Hello world";
    let segments = segmenter.segment(text);
    assert_eq!(segments.len(), 1);
    assert_eq!(segments[0], "Hello world");
}

#[test]
fn test_segment_with_decimal_numbers() {
    let segmenter = TextSegmenter::default();
    let text = "This is version 1.0. It works well.";
    let segments = segmenter.segment(text);
    assert_eq!(segments.len(), 2);
    assert_eq!(segments[0], "This is version 1.0.");
    assert_eq!(segments[1], "It works well.");
}

#[test]
fn test_segment_with_pause_type_decimal_numbers() {
    let segmenter = TextSegmenter::default();
    let text = "The price is 3.14 dollars. It's cheap.";
    let segments = segmenter.segment_with_pause_type(&text);
    assert_eq!(segments.len(), 2);
    assert_eq!(segments[0].text, "The price is 3.14 dollars.");
    assert_eq!(segments[0].pause_type, PauseType::SentenceEnd);
    assert_eq!(segments[1].text, "It's cheap.");
    assert_eq!(segments[1].pause_type, PauseType::SentenceEnd);
}

#[test]
fn test_segment_with_version_numbers() {
    let segmenter = TextSegmenter::default();
    let text = "Version 0.26 is released. Version 1.0 is coming.";
    let segments = segmenter.segment(text);
    assert_eq!(segments.len(), 2);
    assert_eq!(segments[0], "Version 0.26 is released.");
    assert_eq!(segments[1], "Version 1.0 is coming.");
}

#[test]
fn test_segment_sentence_ending_period() {
    let segmenter = TextSegmenter::default();
    let text = "Great, it's a milestone. I finally wrote this item can run up.";
    let segments = segmenter.segment_with_pause_type(&text);
    assert_eq!(segments.len(), 2);
    assert_eq!(segments[0].text, "Great, it's a milestone.");
    assert_eq!(segments[0].pause_type, PauseType::SentenceEnd);
    assert_eq!(segments[1].text, "I finally wrote this item can run up.");
    assert_eq!(segments[1].pause_type, PauseType::SentenceEnd);
}

#[test]
fn test_segment_version_number_ending() {
    let segmenter = TextSegmenter::default();
    let text = "This is version 1.0. It works well.";
    let segments = segmenter.segment_with_pause_type(&text);
    assert_eq!(segments.len(), 2);
    assert_eq!(segments[0].text, "This is version 1.0.");
    assert_eq!(segments[0].pause_type, PauseType::SentenceEnd);
    assert_eq!(segments[1].text, "It works well.");
    assert_eq!(segments[1].pause_type, PauseType::SentenceEnd);
}

#[test]
fn segment_long_sentence_exact_cuts() {
    // Limit 20 bytes: cut before the last space each time the pending text reaches it.
    let segmenter = TextSegmenter::new(20);
    let segments = segmenter.segment_with_pause_type("aaaa bbbb cccc dddd eeee ffff.");
    let texts: Vec<&str> = segments.iter().map(|s| s.text.as_str()).collect();
    assert_eq!(texts, vec!["aaaa bbbb cccc dddd", "eeee ffff."]);
    assert_eq!(segments[0].pause_type, PauseType::NoPause);
    assert_eq!(segments[1].pause_type, PauseType::SentenceEnd);
}

#[test]
fn segment_long_sentence_cuts_after_comma() {
    let segmenter = TextSegmenter::new(12);
    let segments = segmenter.segment_with_pause_type("ab, cd ef gh ij");
    assert_eq!(segments[0].text, "ab,");
    assert_eq!(segments[0].pause_type, PauseType::Comma);
    let rest: String = segments[1..].iter().map(|s| s.text.clone()).collect::<Vec<_>>().join(" ");
    assert_eq!(rest, "cd ef gh ij");
}

#[test]
fn segment_comma_splitting() {
    let segmenter = TextSegmenter::new_with_comma_splitting(50);
    let segments = segmenter.segment_with_pause_type("one, two，three.");
    assert_eq!(segments.len(), 3);
    assert_eq!(segments[0].text, "one,");
    assert_eq!(segments[0].pause_type, PauseType::Comma);
    assert_eq!(segments[1].text, "two，");
    assert_eq!(segments[1].pause_type, PauseType::Comma);
    assert_eq!(segments[2].text, "three.");
    assert_eq!(segments[2].pause_type, PauseType::SentenceEnd);
}

#[test]
fn segment_abbreviation_not_split() {
    let segmenter = TextSegmenter::default();
    // The first period is followed by a lower-case letter and does not cut.
    let segments = segmenter.segment("e.g. this works. Next");
    assert_eq!(segments, vec!["e.g.", "this works.", "Next"]);
}

#[test]
fn segment_blank_text() {
    let segmenter = TextSegmenter::default();
    assert!(segmenter.segment("   \t ").is_empty());
}

#[test]
fn segment_keeps_all_characters() {
    let segmenter = TextSegmenter::new(10);
    let text = "Short one. A somewhat longer second sentence, with a comma! End";
    let joined: String = segmenter.segment(text).concat();
    let expected: String = text.chars().filter(|c| !c.is_whitespace()).collect();
    let got: String = joined.chars().filter(|c| !c.is_whitespace()).collect();
    assert_eq!(got, expected);
}

#[test]
fn length_limit_counts_characters() {
    let s = TextSegmenter::new(10);
    let r = s.segment_with_pause_type("你好 世界");
    assert_eq!(r.len(), 1);
    assert_eq!(r[0].text, "你好 世界");
    assert_eq!(r[0].pause_type, PauseType::NoPause);
}

#[test]
fn title_abbreviations_do_not_end_sentences() {
    let s = TextSegmenter::default();
    let r = s.segment_with_pause_type("Dr. Smith is here. Mr. Lee left.");
    let texts: Vec<&str> = r.iter().map(|g| g.text.as_str()).collect();
    assert_eq!(texts, vec!["Dr. Smith is here.", "Mr. Lee left."]);
    assert!(r.iter().all(|g| g.pause_type == PauseType::SentenceEnd));
}

#[test]
fn over_long_sentence_is_cut_after_full_width_comma() {
    let s = TextSegmenter::new(4);
    let r = s.segment_with_pause_type("你好，世界");
    assert_eq!(r.len(), 2);
    assert_eq!((r[0].text.as_str(), r[0].pause_type), ("你好，", PauseType::Comma));
    assert_eq!((r[1].text.as_str(), r[1].pause_type), ("世界", PauseType::NoPause));
}
