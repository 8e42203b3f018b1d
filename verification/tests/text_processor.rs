use engine::tables::{parse_i64_chars, IntErrorKind};
use engine::text_processor::TextProcessor;

const MAP: &str = "a 3\n\n  hello   7 extra\nb 4\r\n<unk> 9\n你 11\nlonely\nb 5\n";

fn en() -> TextProcessor {
    TextProcessor::from_phone_id_map(MAP, "en").unwrap()
}

fn zh() -> TextProcessor {
    TextProcessor::from_phone_id_map(MAP, "zh").unwrap()
}

fn chars(s: &str) -> Vec<char> {
    s.chars().collect()
}

#[test]
fn integer_fields_read_like_str_parse() {
    for s in ["0", "42", "+7", "-7", "9223372036854775807", "-9223372036854775808", "x", "+", "-", "", "1a", "9223372036854775808", "-9223372036854775809", "99999999999999999999x"] {
        let expected = s.parse::<i64>();
        let got = parse_i64_chars(&chars(s));
        match (expected, got) {
            (Ok(a), Ok(b)) => assert_eq!(a, b, "{}", s),
            (Err(e), Err(k)) => assert_eq!(e.to_string(), k.message(), "{}", s),
            (e, g) => panic!("{}: {:?} vs {:?}", s, e, g),
        }
    }
    assert_eq!(parse_i64_chars(&chars("1a")), Err(IntErrorKind::InvalidDigit));
}

#[test]
fn phone_map_keeps_the_last_id_of_a_phone() {
    let p = en();
    let map = p.get_phone_to_id_map();
    let get = |k: &str| map.iter().find(|(p, _)| p == k).map(|(_, v)| *v);
    assert_eq!(get("a"), Some(3));
    assert_eq!(get("hello"), Some(7));
    assert_eq!(get("b"), Some(5));
    assert_eq!(get("lonely"), None);
    assert_eq!(map.len(), 5);
}

#[test]
fn bad_ids_are_reported() {
    let err = TextProcessor::from_phone_id_map("a 1\nb x2\n", "en").unwrap_err();
    assert_eq!(err.message, "invalid phone ID in phone_id_map.txt: x2: invalid digit found in string");
}

#[test]
fn normalize_text_collapses_space_and_drops_symbols() {
    let p = en();
    assert_eq!(p.normalize_text("  Hello,   world!  "), "Hello, world!");
    assert_eq!(p.normalize_text("a @ b"), "a  b");
    assert_eq!(p.normalize_text("   "), "");
    assert_eq!(p.normalize_text("你好（世界）"), "你好世界");
}

#[test]
fn phonemes_by_locale() {
    assert_eq!(en().text_to_phonemes("Hello A zz").unwrap(), vec!["hello", "a", "<unk>"]);
    assert_eq!(zh().text_to_phonemes("你好").unwrap(), vec!["你", "<unk>"]);
    let fr = TextProcessor::from_phone_id_map(MAP, "fr").unwrap();
    assert_eq!(fr.text_to_phonemes("bonjour").unwrap_err().message, "Unsupported locale for text-to-phoneme: fr");
    assert!(fr.text_to_phonemes("   ").unwrap().is_empty());
}

#[test]
fn phoneme_ids_fall_back_to_lower_case_then_unk() {
    let p = en();
    let ps = vec!["a".to_string(), "HELLO".to_string(), "zz".to_string()];
    assert_eq!(p.phonemes_to_ids(&ps).unwrap(), vec![3, 7, 9]);
    let bare = TextProcessor::from_phone_id_map("a 3", "en").unwrap();
    assert_eq!(bare.phonemes_to_ids(&["q".to_string()]).unwrap(), vec![1]);
    assert_eq!(p.text_to_phone_ids("Hello a zz").unwrap(), vec![7, 3, 9]);
}

#[test]
fn normalization_keeps_only_allowed_characters_in_order() {
    let p = en();
    assert_eq!(p.normalize_text("a\tb\n c"), "a b c");
    assert_eq!(p.normalize_text("x#y (z)"), "xy z");
    assert_eq!(p.normalize_text("\t\n "), "");
    assert_eq!(p.phonemes_to_ids(&[]).unwrap(), Vec::<i64>::new());
}
