use engine::language_pair::{LanguageCode, LanguagePair};
use engine::marian_tokenizer::{MarianTokenizer, TokenizerError};

const VOCAB: &str = r#"{
    "</s>": 0, "<unk>": 1, "<pad>": 65000,
    "▁Hello": 5, "▁world": 6, "world": 7, "▁你好": 8
}"#;

fn en_zh() -> LanguagePair {
    LanguagePair::new(LanguageCode::En, LanguageCode::Zh)
}

fn tokenizer() -> MarianTokenizer {
    MarianTokenizer::from_model_dir(VOCAB, en_zh()).unwrap()
}

#[test]
fn marian_loads_with_fixed_special_ids() {
    let t = tokenizer();
    assert_eq!((t.bos_id, t.eos_id, t.pad_id), (0, 0, 65000));
    assert_eq!(t.language_pair, en_zh());
}

#[test]
fn marian_rejects_non_integer_tables() {
    assert!(matches!(MarianTokenizer::from_model_dir(r#"{"a": "x"}"#, en_zh()), Err(TokenizerError::InvalidTokenTable)));
    assert!(matches!(MarianTokenizer::from_model_dir(r#"{"a": 3000000000}"#, en_zh()), Err(TokenizerError::InvalidTokenTable)));
    assert!(matches!(MarianTokenizer::from_model_dir("[1, 2]", en_zh()), Err(TokenizerError::InvalidTokenTable)));
}

#[test]
fn marian_pair_comes_from_the_directory() {
    let t = MarianTokenizer::from_file("models/marian-zh-en/vocab.json", VOCAB).unwrap();
    assert_eq!(t.language_pair, LanguagePair::new(LanguageCode::Zh, LanguageCode::En));
    let t = MarianTokenizer::from_file("models/other/vocab.json", VOCAB).unwrap();
    assert_eq!(t.language_pair, en_zh());
}

#[test]
fn marian_encodes_words() {
    let t = tokenizer();
    assert_eq!(t.encode("Hello world", true), vec![0, 5, 6, 0]);
    assert_eq!(t.encode("  Hello   world ", false), vec![5, 6]);
    // An unknown word becomes the end id.
    assert_eq!(t.encode("Hi world", false), vec![0, 6]);
    assert_eq!(t.encode("", true), vec![0, 0]);
}

#[test]
fn marian_decodes_pieces() {
    let t = tokenizer();
    assert_eq!(t.decode(&[0, 5, 6, 0]), "Hello world");
    assert_eq!(t.decode(&[5, 7]), "Helloworld");
    // Special and unknown ids are dropped.
    assert_eq!(t.decode(&[65000, 8, 42]), "你好");
}

#[test]
fn marian_round_trip_gives_words_single_spaced() {
    let t = tokenizer();
    for text in ["Hello world", "  Hello\tworld  ", "你好 Hello", ""] {
        let words: Vec<&str> = text.split_whitespace().collect();
        assert_eq!(t.decode(&t.encode(text, true)), words.join(" "));
        assert_eq!(t.decode(&t.encode(text, false)), words.join(" "));
    }
}

#[test]
fn marian_encoding_has_one_id_per_word_between_the_special_ids() {
    let t = tokenizer();
    assert_eq!(t.encode("Hello  world xyz", true), vec![0, 5, 6, 0, 0]);
    assert_eq!(t.encode("Hello  world xyz", false), vec![5, 6, 0]);
    assert_eq!(t.encode("   ", true), vec![0, 0]);
}
