use engine::m2m100_tokenizer::M2M100Tokenizer;
use engine::marian_tokenizer::TokenizerError;

/// A small vocabulary laid out as the M2M100 `vocab.json` is.
const VOCAB: &str = r#"{
    "<s>": 0, "<pad>": 1, "</s>": 2, "<unk>": 3,
    "▁Hello": 4, "▁world": 5, "▁hel": 6, "lo": 7, "▁": 8,
    "__en__": 128022, "__zh__": 128102
}"#;

fn tokenizer() -> M2M100Tokenizer {
    M2M100Tokenizer::from_model_dir(VOCAB, None, None).unwrap()
}

#[test]
fn test_tokenizer_load() {
    let tokenizer = M2M100Tokenizer::from_model_dir(VOCAB, None, None);
    assert!(tokenizer.is_ok(), "Failed to load tokenizer: {:?}", tokenizer.err());
}

#[test]
fn test_get_lang_id() {
    let tokenizer = tokenizer();
    let en_id = tokenizer.get_lang_id("en");
    let zh_id = tokenizer.get_lang_id("zh");
    assert_ne!(en_id, zh_id, "en and zh should have different IDs");
    assert!(en_id > 0, "en ID should be positive");
    assert!(zh_id > 0, "zh ID should be positive");
}

#[test]
fn test_encode_decode() {
    let tokenizer = tokenizer();
    let text = "Hello world";
    let ids = tokenizer.encode(text, "en", true).unwrap();
    assert!(!ids.is_empty(), "Encoded IDs should not be empty");
    let decoded = tokenizer.decode(&ids, true).unwrap();
    assert!(
        decoded.to_lowercase().contains("hello") || decoded.to_lowercase().contains("world"),
        "Decoded text should contain original words. Decoded: {}",
        decoded
    );
}

#[test]
fn encode_is_language_then_longest_pieces_then_end() {
    let tokenizer = tokenizer();
    assert_eq!(tokenizer.encode("Hello world", "en", true).unwrap(), vec![128022, 4, 5, 2]);
    assert_eq!(tokenizer.encode("  Hello   world ", "zh", false).unwrap(), vec![128102, 4, 5]);
}

#[test]
fn encode_falls_back_to_single_characters_and_unk() {
    let tokenizer = tokenizer();
    // "▁hello": "▁hel" then "lo"; "▁Hi": "▁" alone, then unknown "H" and "i".
    assert_eq!(tokenizer.encode("hello", "en", false).unwrap(), vec![128022, 6, 7]);
    assert_eq!(tokenizer.encode("Hi", "en", false).unwrap(), vec![128022, 8, 3, 3]);
    // Blank text is the word mark alone.
    assert_eq!(tokenizer.encode("   ", "en", true).unwrap(), vec![128022, 8, 2]);
}

#[test]
fn decode_skips_special_ids_only_when_asked() {
    let tokenizer = tokenizer();
    assert_eq!(tokenizer.decode(&[128022, 4, 5, 2], true).unwrap(), "Hello world");
    assert_eq!(tokenizer.decode(&[128022, 4, 5, 2], false).unwrap(), "__en__ Hello world</s>");
    // Ids outside the table are dropped.
    assert_eq!(tokenizer.decode(&[4, 999999, -1, 5], true).unwrap(), "Hello world");
}

#[test]
fn id_to_piece_and_special_ids() {
    let tokenizer = tokenizer();
    assert_eq!(tokenizer.id_to_piece(4), Some("▁Hello".to_string()));
    assert_eq!(tokenizer.id_to_piece(100), Some(String::new()));
    assert_eq!(tokenizer.id_to_piece(128103), None);
    assert_eq!(tokenizer.id_to_piece(-1), None);
    assert_eq!(tokenizer.pad_token_id(), 1);
    assert_eq!(tokenizer.eos_token_id(), 2);
    assert_eq!(tokenizer.unk_token_id(), 3);
}

#[test]
fn language_table_falls_back_to_lang_ids_then_defaults() {
    let vocab = r#"{"<pad>": 1, "</s>": 2, "<unk>": 3, "▁a": 4}"#;
    let from_file = M2M100Tokenizer::from_model_dir(vocab, Some(r#"{"fr": 5, "de": 6}"#), None).unwrap();
    assert_eq!(from_file.get_lang_id("fr"), 5);
    assert_eq!(from_file.get_lang_id("de"), 6);
    let defaults = M2M100Tokenizer::from_model_dir(vocab, Some("not json"), None).unwrap();
    assert_eq!(defaults.get_lang_id("en"), 128022);
    assert_eq!(defaults.get_lang_id("zh"), 128102);
}

#[test]
fn special_tokens_follow_the_configuration() {
    let vocab = r#"{"[PAD]": 7, "<pad>": 1, "</s>": 2, "__en__": 9}"#;
    let config = r#"{"pad_token": "[PAD]", "eos_token": null, "bos_token": "<s>"}"#;
    let tokenizer = M2M100Tokenizer::from_model_dir(vocab, None, Some(config)).unwrap();
    assert_eq!(tokenizer.pad_token_id(), 7);
    assert_eq!(tokenizer.eos_token_id(), 2);
    // "<unk>" is not in the vocabulary: the default id 3.
    assert_eq!(tokenizer.unk_token_id(), 3);
    // A field of another type makes the whole configuration unreadable.
    let tokenizer = M2M100Tokenizer::from_model_dir(vocab, None, Some(r#"{"pad_token": 5}"#)).unwrap();
    assert_eq!(tokenizer.pad_token_id(), 1);
}

#[test]
fn invalid_vocabularies_are_refused() {
    assert!(matches!(
        M2M100Tokenizer::from_model_dir("[1, 2]", None, None),
        Err(TokenizerError::InvalidTokenTable)
    ));
    assert!(matches!(
        M2M100Tokenizer::from_model_dir(r#"{"a": "b"}"#, None, None),
        Err(TokenizerError::InvalidTokenTable)
    ));
    assert!(matches!(
        M2M100Tokenizer::from_model_dir(r#"{"a": -4}"#, None, None),
        Err(TokenizerError::InvalidTokenTable)
    ));
}

#[test]
fn lang_id_finds_table_languages_only() {
    let tokenizer = tokenizer();
    assert_eq!(tokenizer.lang_id("en"), Some(128022));
    assert_eq!(tokenizer.lang_id("zh"), Some(128102));
    assert_eq!(tokenizer.lang_id("xx"), None);
}

#[test]
fn m2m100_round_trip_gives_words_single_spaced() {
    let tokenizer = tokenizer();
    for text in ["Hello world", "  hello\tworld ", "hello", "   "] {
        let words: Vec<&str> = text.split_whitespace().collect();
        for special in [true, false] {
            let ids = tokenizer.encode(text, "en", special).unwrap();
            assert_eq!(tokenizer.decode(&ids, true).unwrap(), words.join(" "));
        }
    }
}

#[test]
fn encoding_frames_the_pieces_with_language_and_end_ids() {
    let t = tokenizer();
    let ids = t.encode("Hello world", "en", true).unwrap();
    assert_eq!(ids, vec![128022, 4, 5, 2]);
    let no_end = t.encode("Hello  world", "zh", false).unwrap();
    assert_eq!(no_end, vec![128102, 4, 5]);
    let unknown = t.encode("x", "en", false).unwrap();
    assert_eq!(unknown, vec![128022, 8, 3]);
}

#[test]
fn decoding_with_skip_is_decoding_without_the_special_ids() {
    let t = tokenizer();
    let ids = [128022, 4, 1, 5, 2, 999999, -7];
    let filtered = [4, 5, 999999, -7];
    assert_eq!(t.decode(&ids, true).unwrap(), t.decode(&filtered, false).unwrap());
    assert_eq!(t.decode(&ids, true).unwrap(), "Hello world");
}

#[test]
fn vocabulary_without_language_tokens_uses_the_usual_ids() {
    let t = M2M100Tokenizer::from_model_dir(r#"{"a": 0, "<unk>": 7}"#, None, None).unwrap();
    assert_eq!(t.get_lang_id("en"), 128022);
    assert_eq!(t.get_lang_id("zh"), 128102);
    assert_eq!(t.pad_token_id(), 1);
    assert_eq!(t.eos_token_id(), 2);
    assert_eq!(t.unk_token_id(), 7);
    assert!(M2M100Tokenizer::from_model_dir(r#"{"a": -1}"#, None, None).is_err());
}
