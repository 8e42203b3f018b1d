use engine::vits_tokenizer::VitsZhAishell3Tokenizer;

const TOKENS: &str = "sil 0\neos 1\nsp 2\n^ 7\nn 20\nh 21\ni3 79\nao3 40\nao5 41\ni1 30\n";
const LEXICON: &str = "你 n i3 #0\n好 h ao3 #0\n一 ^ i1 #0\n你 n i2 #0\n哦 ^ ao #0\n啊 x yy4 #0\n";

fn tok() -> VitsZhAishell3Tokenizer {
    VitsZhAishell3Tokenizer::from_tables(TOKENS, LEXICON).unwrap()
}

#[test]
fn syllables_with_pauses_between_ideographs() {
    // sil, n i3, sp, h ao3, eos
    assert_eq!(tok().encode("你好").unwrap(), (vec![0, 20, 79, 2, 21, 40, 1], 7));
}

#[test]
fn whitespace_and_punctuation_add_pauses() {
    assert_eq!(tok().encode("你 好").unwrap(), (vec![0, 20, 79, 2, 21, 40, 1], 7));
    assert_eq!(tok().encode("你，").unwrap(), (vec![0, 20, 79, 2, 1], 5));
    assert_eq!(tok().encode("  ").unwrap(), (vec![0, 2, 1], 3));
    // Characters outside the lexicon are skipped.
    assert_eq!(tok().encode("龘").unwrap(), (vec![0, 1], 2));
}

#[test]
fn first_lexicon_line_wins_and_tone_defaults_to_five() {
    let t = tok();
    assert_eq!(t.encode("一").unwrap().0, vec![0, 7, 30, 1]);
    // "哦" has final "ao" without a tone: tone 5.
    assert_eq!(t.encode("哦").unwrap().0, vec![0, 7, 41, 1]);
}

#[test]
fn unknown_finals_fail() {
    let err = tok().encode("啊").unwrap_err();
    assert_eq!(err.message, "token not found for final: yy4 (tried yy4 and yy5)");
    assert_eq!(tok().pinyin_to_tokens("q", "i", 3).unwrap(), vec![7, 79]);
    assert_eq!(tok().pinyin_to_tokens("", "ao", 9).unwrap(), vec![41]);
}

#[test]
fn special_ids_default_when_absent() {
    let t = VitsZhAishell3Tokenizer::from_tables("i3 5\n", "你 n i3 #0\n").unwrap();
    assert_eq!(t.encode("你").unwrap().0, vec![0, 5, 1]);
    let err = VitsZhAishell3Tokenizer::from_tables("sil zero\n", "").unwrap_err();
    assert_eq!(err.message, "invalid token ID in tokens.txt: invalid digit found in string");
}

use engine::vits_tokenizer::VitsTokenizer;

#[test]
fn mms_characters_interleaved_with_pad() {
    let vocab: Vec<(String, i64)> = vec![
        ("k".into(), 0), ("h".into(), 6), ("e".into(), 7), ("l".into(), 21), ("o".into(), 22), (" ".into(), 19),
        ("<unk>".into(), 38), ("ab".into(), 99),
    ];
    let t = VitsTokenizer::from_vocab(&vocab);
    let (ids, mask) = t.encode("Hello, lo!");
    assert_eq!(ids, vec![0, 6, 0, 7, 0, 21, 0, 21, 0, 22, 0, 19, 0, 21, 0, 22, 0]);
    assert_eq!(mask, vec![1; ids.len()]);
    assert_eq!(t.encode("??").0, vec![0]);
    let no_pad = VitsTokenizer::from_vocab(&vec![("a".to_string(), 4)]);
    assert_eq!(no_pad.encode("Aa").0, vec![0, 4, 0, 4, 0]);
}

#[test]
fn mms_tokenizer_from_tokenizer_json() {
    let json = r#"{"model": {"type": "char", "vocab": {"k": 0, "h": 6, "e": 7, "l": 21, "o": 22, " ": 19, "<unk>": 38}}}"#;
    let t = VitsTokenizer::from_tokenizer_json(json).unwrap();
    let (ids, mask) = t.encode("Hello");
    assert_eq!(ids, vec![0, 6, 0, 7, 0, 21, 0, 21, 0, 22, 0]);
    assert_eq!(mask, vec![1; 11]);
    assert_eq!(VitsTokenizer::from_tokenizer_json("{oops").unwrap_err().message, "failed to parse tokenizer.json");
    assert_eq!(
        VitsTokenizer::from_tokenizer_json(r#"{"model": {}}"#).unwrap_err().message,
        "vocab not found in tokenizer.json"
    );
    assert_eq!(
        VitsTokenizer::from_tokenizer_json(r#"{"model": {"vocab": {"a": -3}}}"#).unwrap_err().message,
        "invalid token ID in vocab: -3"
    );
    assert_eq!(
        VitsTokenizer::from_tokenizer_json(r#"{"model": {"vocab": {"a": 1, "b": "x"}}}"#).unwrap_err().message,
        "invalid token ID in vocab: \"x\""
    );
    assert_eq!(
        VitsTokenizer::from_tokenizer_json(r#"{"model": {"vocab": {"a": 1.5}}}"#).unwrap_err().message,
        "invalid token ID in vocab: 1.5"
    );
    let big = VitsTokenizer::from_tokenizer_json(r#"{"model": {"vocab": {"k": 18446744073709551615, "a": 3}}}"#)
        .unwrap();
    assert_eq!(big.encode("a").0, vec![-1, 3, -1]);
}

#[test]
fn mms_vocab_keeps_non_ascii_single_characters() {
    let vocab: Vec<(String, i64)> = vec![("k".into(), 0), ("é".into(), 5), ("ñ".into(), 6), ("<unk>".into(), 38)];
    let t = VitsTokenizer::from_vocab(&vocab);
    assert_eq!(t.encode("éñ").0, vec![0, 5, 0, 6, 0]);
}
