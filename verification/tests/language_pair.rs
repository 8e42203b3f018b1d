use engine::language_pair::{LanguageCode, LanguageError, LanguagePair};

#[test]
fn test_language_pair_from_str() {
    let pair = LanguagePair::from_str("en-zh").unwrap();
    assert_eq!(pair.source, LanguageCode::En);
    assert_eq!(pair.target, LanguageCode::Zh);
}

#[test]
fn test_language_pair_to_model_dir_name() {
    let pair = LanguagePair::new(LanguageCode::En, LanguageCode::Zh);
    assert_eq!(pair.to_model_dir_name(), "marian-en-zh");
}

#[test]
fn test_language_pair_from_model_dir_name() {
    let pair = LanguagePair::from_model_dir_name("marian-en-zh").unwrap();
    assert_eq!(pair.source, LanguageCode::En);
    assert_eq!(pair.target, LanguageCode::Zh);
}

#[test]
fn language_code_names_case_insensitive() {
    assert_eq!(LanguageCode::from_str("ENGLISH").unwrap(), LanguageCode::En);
    assert_eq!(LanguageCode::from_str("Español").unwrap(), LanguageCode::Es);
    assert_eq!(LanguageCode::from_str("日本語").unwrap(), LanguageCode::Ja);
    assert_eq!(LanguageCode::from_str("中文").unwrap(), LanguageCode::Zh);
    match LanguageCode::from_str("fr") {
        Err(LanguageError::UnsupportedLanguageCode(s)) => assert_eq!(s, "fr"),
        _ => panic!("fr should be refused"),
    }
    assert_eq!(LanguageCode::Ja.to_dir_name(), "ja");
}

#[test]
fn language_pair_errors() {
    assert!(matches!(LanguagePair::from_str("en"), Err(LanguageError::InvalidPairFormat(_))));
    assert!(matches!(LanguagePair::from_str("en-zh-ja"), Err(LanguageError::InvalidPairFormat(_))));
    match LanguagePair::from_str("en-xx") {
        Err(LanguageError::UnsupportedLanguageCode(s)) => assert_eq!(s, "xx"),
        _ => panic!("xx should be refused"),
    }
    assert!(matches!(
        LanguagePair::from_model_dir_name("m2m100-en-zh"),
        Err(LanguageError::InvalidModelDirName(_))
    ));
    assert!(matches!(
        LanguagePair::from_model_dir_name("marian-en"),
        Err(LanguageError::InvalidModelDirFormat(_))
    ));
}

#[test]
fn language_pair_paths() {
    let pair = LanguagePair::new(LanguageCode::Es, LanguageCode::En);
    assert_eq!(pair.find_model_dir("models/nmt"), "models/nmt/marian-es-en");
    assert_eq!(pair.find_model_dir("models/nmt/"), "models/nmt/marian-es-en");
    let p = LanguagePair::from_model_dir("core/engine/models/nmt/marian-ja-zh/").unwrap();
    assert_eq!(p, LanguagePair::new(LanguageCode::Ja, LanguageCode::Zh));
    assert!(matches!(LanguagePair::from_model_dir("models/.."), Err(LanguageError::InvalidModelDirPath(_))));
    assert!(LanguagePair::from_model_dir("models/nmt/marian-en-zh/.").is_ok());
}

#[test]
fn dir_names_parse_back_to_their_language() {
    for c in [LanguageCode::En, LanguageCode::Zh, LanguageCode::Es, LanguageCode::Ja] {
        assert_eq!(LanguageCode::from_str(c.to_dir_name()).unwrap(), c);
    }
}

#[test]
fn model_dirs_read_back_as_their_pair() {
    let codes = [LanguageCode::En, LanguageCode::Zh, LanguageCode::Es, LanguageCode::Ja];
    for s in codes {
        for t in codes {
            let pair = LanguagePair::new(s, t);
            for base in ["", "/", "models", "models/nmt/", "./a/../b"] {
                let dir = pair.find_model_dir(base);
                assert_eq!(LanguagePair::from_model_dir(&dir).unwrap(), pair);
            }
        }
    }
}
