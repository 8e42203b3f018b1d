//! Persona adaptation of transcripts: rewriting text for a tone and a culture.
use vstd::prelude::*;
use crate::error::EngineError;
use crate::text;
use crate::text::{to_chars, string_of, str_eq, replace_str, starts_with_exec, ends_with_exec};

verus! {

/// A recognized, stable piece of speech.
#[derive(Debug, Clone)]
pub struct StableTranscript {
    pub text: String,
    pub speaker_id: Option<String>,
    pub language: String,
}

/// Whom the text is for: a user, the tone wanted and the culture.
#[derive(Debug, Clone)]
pub struct PersonaContext {
    pub user_id: String,
    pub tone: String,
    pub culture: String,
}

/// An adapter that rewrites transcripts for a persona.
pub trait PersonaAdapter {
    fn personalize(&self, transcript: StableTranscript, context: PersonaContext) -> Result<StableTranscript, EngineError>;
}

/// The adapter that changes nothing.
pub struct PersonaStub;

impl PersonaStub {
    pub fn new() -> (r: Self) {
        PersonaStub
    }
}

impl PersonaAdapter for PersonaStub {
    /// The transcript unchanged.
    fn personalize(&self, transcript: StableTranscript, context: PersonaContext) -> (r: Result<StableTranscript, EngineError>)
        ensures
            r is Ok,
            r->Ok_0 == transcript,
    {
        Ok(transcript)
    }
}

// ---------------------------------------------------------------------------
// Rules
// ---------------------------------------------------------------------------

pub open spec fn is_chinese_culture(culture: Seq<char>) -> bool {
    culture == "zh"@ || culture == "chinese"@
}

pub open spec fn is_english_culture(culture: Seq<char>) -> bool {
    culture == "en"@ || culture == "english"@
}

/// Formal tone: Chinese text not already opening with `请` or `Please` gets `请` in
/// front; English contractions are spelled out.
pub open spec fn formal(t: Seq<char>, culture: Seq<char>) -> Seq<char> {
    if is_chinese_culture(culture) {
        if text::starts_with(t, "请"@) || text::starts_with(t, "Please"@) {
            t
        } else {
            "请"@ + t
        }
    } else if is_english_culture(culture) {
        text::replace_all(
            text::replace_all(text::replace_all(t, "don't"@, "do not"@), "can't"@, "cannot"@),
            "won't"@,
            "will not"@,
        )
    } else {
        t
    }
}

/// Casual tone: Chinese `请` dropped and `您` made `你`; English contractions used.
pub open spec fn casual(t: Seq<char>, culture: Seq<char>) -> Seq<char> {
    if is_chinese_culture(culture) {
        text::replace_all(text::replace_all(t, "请"@, seq![]), "您"@, "你"@)
    } else if is_english_culture(culture) {
        text::replace_all(
            text::replace_all(text::replace_all(t, "do not"@, "don't"@), "cannot"@, "can't"@),
            "will not"@,
            "won't"@,
        )
    } else {
        t
    }
}

/// Friendly tone: Chinese text not ending in `哦`, `呢` or `！` gets `哦`; English text
/// not ending in `!` or `:)` gets `!`.
pub open spec fn friendly(t: Seq<char>, culture: Seq<char>) -> Seq<char> {
    if is_chinese_culture(culture) {
        if text::ends_with(t, "哦"@) || text::ends_with(t, "呢"@) || text::ends_with(t, "！"@) {
            t
        } else {
            t + "哦"@
        }
    } else if is_english_culture(culture) {
        if text::ends_with(t, "!"@) || text::ends_with(t, ":)"@) {
            t
        } else {
            t + "!"@
        }
    } else {
        t
    }
}

/// The text for a tone and a culture; professional and unknown tones keep it.
pub open spec fn persona_text(t: Seq<char>, tone: Seq<char>, culture: Seq<char>) -> Seq<char> {
    if tone == "formal"@ {
        formal(t, culture)
    } else if tone == "casual"@ {
        casual(t, culture)
    } else if tone == "friendly"@ {
        friendly(t, culture)
    } else {
        t
    }
}

fn chinese_culture(culture: &str) -> (r: bool)
    ensures
        r == is_chinese_culture(culture@),
{
    str_eq(culture, "zh") || str_eq(culture, "chinese")
}

fn english_culture(culture: &str) -> (r: bool)
    ensures
        r == is_english_culture(culture@),
{
    str_eq(culture, "en") || str_eq(culture, "english")
}

fn str_starts_with(v: &Vec<char>, p: &str) -> (r: bool)
    ensures
        r == text::starts_with(v@, p@),
{
    let pv = to_chars(p);
    starts_with_exec(v, &pv)
}

fn str_ends_with(v: &Vec<char>, p: &str) -> (r: bool)
    ensures
        r == text::ends_with(v@, p@),
{
    let pv = to_chars(p);
    ends_with_exec(v, &pv)
}

/// The rule-based adapter.
pub struct RuleBasedPersonaAdapter {}

impl RuleBasedPersonaAdapter {
    pub fn new() -> (r: Self) {
        RuleBasedPersonaAdapter {}
    }

    fn make_formal(&self, t: &Vec<char>, culture: &str) -> (r: Vec<char>)
        ensures
            r@ == formal(t@, culture@),
    {
        if chinese_culture(culture) {
            if str_starts_with(t, "请") || str_starts_with(t, "Please") {
                t.clone()
            } else {
                let mut r = to_chars("请");
                text::append_chars(&mut r, t);
                r
            }
        } else if english_culture(culture) {
            let a = replace_str(t, "don't", "do not");
            let b = replace_str(&a, "can't", "cannot");
            replace_str(&b, "won't", "will not")
        } else {
            t.clone()
        }
    }

    fn make_casual(&self, t: &Vec<char>, culture: &str) -> (r: Vec<char>)
        ensures
            r@ == casual(t@, culture@),
    {
        if chinese_culture(culture) {
            let a = replace_str(t, "请", "");
            proof {
                reveal_strlit("");
            }
            assert(""@ =~= Seq::<char>::empty());
            replace_str(&a, "您", "你")
        } else if english_culture(culture) {
            let a = replace_str(t, "do not", "don't");
            let b = replace_str(&a, "cannot", "can't");
            replace_str(&b, "will not", "won't")
        } else {
            t.clone()
        }
    }

    fn make_friendly(&self, t: &Vec<char>, culture: &str) -> (r: Vec<char>)
        ensures
            r@ == friendly(t@, culture@),
    {
        if chinese_culture(culture) {
            if str_ends_with(t, "哦") || str_ends_with(t, "呢") || str_ends_with(t, "！") {
                t.clone()
            } else {
                let mut r = t.clone();
                text::append_str(&mut r, "哦");
                r
            }
        } else if english_culture(culture) {
            if str_ends_with(t, "!") || str_ends_with(t, ":)") {
                t.clone()
            } else {
                let mut r = t.clone();
                text::append_str(&mut r, "!");
                r
            }
        } else {
            t.clone()
        }
    }

    /// The text rewritten for the context's tone and culture.
    pub fn apply_persona_rules(&self, text: &str, context: &PersonaContext) -> (r: String)
        ensures
            r@ == persona_text(text@, context.tone@, context.culture@),
    {
        let t = to_chars(text);
        let tone = context.tone.as_str();
        let culture = context.culture.as_str();
        let r = if str_eq(tone, "formal") {
            self.make_formal(&t, culture)
        } else if str_eq(tone, "casual") {
            self.make_casual(&t, culture)
        } else if str_eq(tone, "friendly") {
            self.make_friendly(&t, culture)
        } else {
            t
        };
        string_of(&r)
    }
}

impl PersonaAdapter for RuleBasedPersonaAdapter {
    /// The transcript with its text rewritten; speaker and language kept.
    fn personalize(&self, transcript: StableTranscript, context: PersonaContext) -> (r: Result<StableTranscript, EngineError>)
        ensures
            r is Ok,
            r->Ok_0.text@ == persona_text(transcript.text@, context.tone@, context.culture@),
            r->Ok_0.speaker_id == transcript.speaker_id,
            r->Ok_0.language == transcript.language,
    {
        let text = self.apply_persona_rules(transcript.text.as_str(), &context);
        Ok(StableTranscript { text, speaker_id: transcript.speaker_id, language: transcript.language })
    }
}

/// Friendly rewriting is idempotent: friendly text stays as it is.
pub proof fn law_friendly_idempotent(t: Seq<char>, culture: Seq<char>)
    ensures
        friendly(friendly(t, culture), culture) == friendly(t, culture),
{
    reveal_strlit("哦");
    reveal_strlit("!");
    if is_chinese_culture(culture) && !(text::ends_with(t, "哦"@) || text::ends_with(t, "呢"@) || text::ends_with(t, "！"@)) {
        let u = t + "哦"@;
        assert(u.subrange(u.len() - 1, u.len() as int) =~= "哦"@);
    }
    if is_english_culture(culture) && !is_chinese_culture(culture) && !(text::ends_with(t, "!"@) || text::ends_with(t, ":)"@)) {
        let u = t + "!"@;
        assert(u.subrange(u.len() - 1, u.len() as int) =~= "!"@);
    }
}

/// Formal Chinese text is idempotent: text made formal is left as it is.
pub proof fn law_formal_chinese_idempotent(t: Seq<char>, culture: Seq<char>)
    requires
        is_chinese_culture(culture),
    ensures
        formal(formal(t, culture), culture) == formal(t, culture),
{
    reveal_strlit("请");
    if !(text::starts_with(t, "请"@) || text::starts_with(t, "Please"@)) {
        let u = "请"@ + t;
        assert(u.subrange(0, 1) =~= "请"@);
    }
}

/// Professional and unknown tones leave the text unchanged.
pub proof fn law_other_tones_keep_text(t: Seq<char>, tone: Seq<char>, culture: Seq<char>)
    requires
        tone != "formal"@,
        tone != "casual"@,
        tone != "friendly"@,
    ensures
        persona_text(t, tone, culture) == t,
{
}

} // verus!
