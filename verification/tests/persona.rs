use engine::persona::{PersonaAdapter, PersonaContext, PersonaStub, RuleBasedPersonaAdapter, StableTranscript};

fn ctx(tone: &str, culture: &str) -> PersonaContext {
    PersonaContext { user_id: "u1".to_string(), tone: tone.to_string(), culture: culture.to_string() }
}

fn transcript(text: &str) -> StableTranscript {
    StableTranscript { text: text.to_string(), speaker_id: Some("speaker_1".to_string()), language: "en".to_string() }
}

#[test]
fn formal_rules() {
    let a = RuleBasedPersonaAdapter::new();
    assert_eq!(a.apply_persona_rules("坐下", &ctx("formal", "zh")), "请坐下");
    assert_eq!(a.apply_persona_rules("请坐下", &ctx("formal", "chinese")), "请坐下");
    assert_eq!(a.apply_persona_rules("Please sit", &ctx("formal", "zh")), "Please sit");
    assert_eq!(
        a.apply_persona_rules("I don't know, I can't, I won't", &ctx("formal", "en")),
        "I do not know, I cannot, I will not"
    );
    assert_eq!(a.apply_persona_rules("don't", &ctx("formal", "fr")), "don't");
}

#[test]
fn casual_rules() {
    let a = RuleBasedPersonaAdapter::new();
    assert_eq!(a.apply_persona_rules("请您坐下", &ctx("casual", "zh")), "你坐下");
    assert_eq!(
        a.apply_persona_rules("I do not know, I cannot, I will not", &ctx("casual", "english")),
        "I don't know, I can't, I won't"
    );
}

#[test]
fn friendly_rules_are_idempotent() {
    let a = RuleBasedPersonaAdapter::new();
    assert_eq!(a.apply_persona_rules("你好", &ctx("friendly", "zh")), "你好哦");
    assert_eq!(a.apply_persona_rules("你好哦", &ctx("friendly", "zh")), "你好哦");
    assert_eq!(a.apply_persona_rules("你好呢", &ctx("friendly", "zh")), "你好呢");
    assert_eq!(a.apply_persona_rules("Hi", &ctx("friendly", "en")), "Hi!");
    assert_eq!(a.apply_persona_rules("Hi!", &ctx("friendly", "en")), "Hi!");
    assert_eq!(a.apply_persona_rules("Hi :)", &ctx("friendly", "en")), "Hi :)");
}

#[test]
fn professional_and_unknown_tones_keep_text() {
    let a = RuleBasedPersonaAdapter::new();
    assert_eq!(a.apply_persona_rules("don't", &ctx("professional", "en")), "don't");
    assert_eq!(a.apply_persona_rules("don't", &ctx("sarcastic", "en")), "don't");
}

#[test]
fn personalize_keeps_speaker_and_language() {
    let a = RuleBasedPersonaAdapter::new();
    let out = a.personalize(transcript("Hi"), ctx("friendly", "en")).unwrap();
    assert_eq!(out.text, "Hi!");
    assert_eq!(out.speaker_id, Some("speaker_1".to_string()));
    assert_eq!(out.language, "en");
    let same = PersonaStub::new().personalize(transcript("Hi"), ctx("friendly", "en")).unwrap();
    assert_eq!(same.text, "Hi");
}
