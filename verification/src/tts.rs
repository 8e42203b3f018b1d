//! Text-to-speech requests and replies, the stub engine, the HTTP engines'
//! configurations, and the decisions the HTTP engines make around their calls.
use vstd::prelude::*;
use crate::error::EngineError;
use crate::text;
use crate::text::{to_chars, to_lowercase, string_of};

verus! {

/// What to synthesize: text, a voice name (empty for the engine's choice) and a locale.
#[derive(Debug, Clone)]
pub struct TtsRequest {
    pub text: String,
    pub voice: String,
    pub locale: String,
}

/// A piece of synthesized audio.
#[derive(Debug, Clone)]
pub struct TtsStreamChunk {
    pub audio: Vec<u8>,
    pub timestamp_ms: u64,
    pub is_last: bool,
}

/// A text-to-speech engine.
pub trait TtsStreaming {
    /// Synthesizes `request`.
    fn synthesize(&self, request: TtsRequest) -> Result<TtsStreamChunk, EngineError>;

    /// Releases the engine.
    fn close(&self) -> Result<(), EngineError>;
}

/// The engine that produces no audio.
pub struct TtsStub;

impl TtsStub {
    pub fn new() -> (r: Self) {
        TtsStub
    }
}

impl TtsStreaming for TtsStub {
    /// One empty, final chunk at time 0.
    fn synthesize(&self, request: TtsRequest) -> (r: Result<TtsStreamChunk, EngineError>)
        ensures
            r is Ok,
            r->Ok_0.audio@.len() == 0,
            r->Ok_0.timestamp_ms == 0,
            r->Ok_0.is_last,
    {
        Ok(TtsStreamChunk { audio: Vec::new(), timestamp_ms: 0, is_last: true })
    }

    fn close(&self) -> (r: Result<(), EngineError>)
        ensures
            r is Ok,
    {
        Ok(())
    }
}

/// The chunk of a complete synthesis: the audio, time 0, final.
pub open spec fn whole_chunk(audio: Seq<u8>, c: TtsStreamChunk) -> bool {
    &&& c.audio@ == audio
    &&& c.timestamp_ms == 0
    &&& c.is_last
}

// ---------------------------------------------------------------------------
// Piper over HTTP
// ---------------------------------------------------------------------------

/// Where the Piper service listens, its default voice and the request timeout.
#[derive(Debug, Clone)]
pub struct PiperHttpConfig {
    pub endpoint: String,
    pub default_voice: String,
    pub timeout_ms: u64,
}

impl Default for PiperHttpConfig {
    fn default() -> (r: Self)
        ensures
            r.endpoint@ == "http://127.0.0.1:5005/tts"@,
            r.default_voice@ == "zh_CN-huayan-medium"@,
            r.timeout_ms == 8000,
    {
        PiperHttpConfig {
            endpoint: "http://127.0.0.1:5005/tts".to_owned(),
            default_voice: "zh_CN-huayan-medium".to_owned(),
            timeout_ms: 8000,
        }
    }
}

/// The English voice Piper uses when no voice is asked for.
pub open spec fn piper_english_voice() -> Seq<char> {
    "en_US-lessac-medium"@
}

/// The voice Piper is asked for: the requested one; without one, the English voice
/// for a locale that starts with `en` in lower case, else the configured default.
pub open spec fn piper_voice(default_voice: Seq<char>, voice: Seq<char>, locale: Seq<char>) -> Seq<char> {
    if voice.len() > 0 {
        voice
    } else if text::starts_with(text::lowercase(locale), seq!['e', 'n']) {
        piper_english_voice()
    } else {
        default_voice
    }
}

/// Piper is asked for the requested voice when there is one; otherwise, for an ASCII
/// locale, for the English voice when the locale begins with `en` in either case, else
/// for the configured default.
pub proof fn law_piper_voice(default_voice: Seq<char>, voice: Seq<char>, locale: Seq<char>)
    ensures
        voice.len() > 0 ==> piper_voice(default_voice, voice, locale) == voice,
        voice.len() == 0 && text::all_ascii(locale) ==> piper_voice(default_voice, voice, locale) == if locale.len() >= 2
            && (locale[0] == 'e' || locale[0] == 'E') && (locale[1] == 'n' || locale[1] == 'N') {
            piper_english_voice()
        } else {
            default_voice
        },
{
    if voice.len() == 0 && text::all_ascii(locale) {
        let l = text::lowercase(locale);
        assert(l == locale.map_values(|c: char| text::ascii_lower(c)));
        if locale.len() >= 2 {
            assert(l[0] == text::ascii_lower(locale[0]) && l[1] == text::ascii_lower(locale[1]));
            assert(text::starts_with(l, seq!['e', 'n']) <==> (l.subrange(0, 2) =~= seq!['e', 'n']));
            assert((l.subrange(0, 2) =~= seq!['e', 'n']) <==> (l[0] == 'e' && l[1] == 'n'));
            assert(('A' <= locale[0] && locale[0] <= 'Z') ==> (locale[0] as u32) + 32 != 'e' as u32 || locale[0] == 'E');
            assert(('A' <= locale[1] && locale[1] <= 'Z') ==> (locale[1] as u32) + 32 != 'n' as u32 || locale[1] == 'N');
        }
    }
}

/// The body of a Piper request: text, voice and, for a non-empty locale, the language.
#[derive(Debug, Clone)]
pub struct PiperRequestBody {
    pub text: String,
    pub voice: String,
    pub language: Option<String>,
}

impl PiperHttpConfig {
    /// The request to send for `request`.
    pub fn request_body(&self, request: &TtsRequest) -> (r: PiperRequestBody)
        ensures
            r.text@ == request.text@,
            r.voice@ == piper_voice(self.default_voice@, request.voice@, request.locale@),
            match r.language {
                Some(l) => request.locale@.len() > 0 && l@ == request.locale@,
                None => request.locale@.len() == 0,
            },
    {
        let voice = if !request.voice.as_str().is_empty() {
            proof {
                assert(request.voice@.len() > 0);
            }
            request.voice.clone()
        } else {
            let lower = to_lowercase(request.locale.as_str());
            let lv = to_chars(lower.as_str());
            let mut en: Vec<char> = Vec::new();
            en.push('e');
            en.push('n');
            assert(en@ =~= seq!['e', 'n']);
            if text::starts_with_exec(&lv, &en) {
                proof {
                    reveal_strlit("en_US-lessac-medium");
                }
                "en_US-lessac-medium".to_owned()
            } else {
                self.default_voice.clone()
            }
        };
        let language = if request.locale.as_str().is_empty() {
            None
        } else {
            Some(request.locale.clone())
        };
        PiperRequestBody { text: request.text.clone(), voice, language }
    }
}

/// The reply of a Piper request made into a chunk: an error for a failed status (the
/// status and the body in the message) or for empty audio, else the whole audio.
pub fn piper_reply(status_ok: bool, status: &str, error_text: &str, audio: Vec<u8>) -> (r: Result<
    TtsStreamChunk,
    EngineError,
>)
    ensures
        r is Ok <==> status_ok && audio@.len() > 0,
        match r {
            Ok(c) => status_ok && audio@.len() > 0 && whole_chunk(audio@, c),
            Err(e) => if !status_ok {
                e.message@ == "Piper HTTP service returned error: "@ + status@ + " "@ + error_text@
            } else {
                audio@.len() == 0 && e.message@ == "Piper service returned empty audio data"@
            },
        },
{
    if !status_ok {
        let mut m: Vec<char> = to_chars("Piper HTTP service returned error: ");
        text::append_str(&mut m, status);
        text::append_str(&mut m, " ");
        text::append_str(&mut m, error_text);
        return Err(EngineError::new(string_of(&m)));
    }
    if audio.len() == 0 {
        return Err(EngineError::from_str("Piper service returned empty audio data"));
    }
    Ok(TtsStreamChunk { audio, timestamp_ms: 0, is_last: true })
}

// ---------------------------------------------------------------------------
// YourTTS over HTTP
// ---------------------------------------------------------------------------

/// Where the YourTTS service listens and the request timeout.
#[derive(Debug, Clone)]
pub struct YourTtsHttpConfig {
    pub endpoint: String,
    pub timeout_ms: u64,
}

impl Default for YourTtsHttpConfig {
    fn default() -> (r: Self)
        ensures
            r.endpoint@ == "http://127.0.0.1:5004"@,
            r.timeout_ms == 30000,
    {
        YourTtsHttpConfig { endpoint: "http://127.0.0.1:5004".to_owned(), timeout_ms: 30000 }
    }
}

/// Whether `text` holds a character of the CJK ideograph blocks YourTTS cannot speak:
/// the unified block, extension A and extension B.
pub fn contains_cjk(text: &str) -> (r: bool)
    ensures
        r <==> exists|i: int| 0 <= i < text@.len() && text::is_cjk(#[trigger] text@[i]),
{
    let v = to_chars(text);
    let mut i: usize = 0;
    while i < v.len()
        invariant
            i <= v.len(),
            v@ == text@,
            forall|k: int| 0 <= k < i ==> !text::is_cjk(#[trigger] v@[k]),
        decreases v.len() - i,
    {
        let u = v[i] as u32;
        if (0x4E00 <= u && u <= 0x9FFF) || (0x3400 <= u && u <= 0x4DBF) || (0x20000 <= u && u <= 0x2A6DF) {
            assert(text::is_cjk(v@[i as int]));
            return true;
        }
        i += 1;
    }
    false
}

/// The speaker id names one of the default speakers (`default_…`).
pub open spec fn is_default_speaker_id(speaker_id: Option<Seq<char>>) -> bool {
    match speaker_id {
        Some(s) => text::starts_with(s, "default_"@),
        None => false,
    }
}

/// YourTTS cannot speak Chinese text without a voice to clone: it refuses text with CJK
/// ideographs for a default speaker, or with neither reference audio nor a speaker id.
pub open spec fn yourtts_refuses(text: Seq<char>, speaker_id: Option<Seq<char>>, has_reference_audio: bool) -> bool {
    (exists|i: int| 0 <= i < text.len() && text::is_cjk(#[trigger] text[i])) && (is_default_speaker_id(speaker_id) || (
    !has_reference_audio && speaker_id is None))
}

/// `yourtts_voice_plan` refuses text with a CJK ideograph for a default speaker
/// (`default_…`) and for a request with neither reference audio nor a speaker id; it
/// never refuses text without such ideographs, nor a named non-default speaker.
pub proof fn law_yourtts_refusal(text: Seq<char>, speaker_id: Option<Seq<char>>, has_reference_audio: bool)
    ensures
        ({
            let cjk = exists|i: int| 0 <= i < text.len() && text::is_cjk(#[trigger] text[i]);
            &&& cjk && is_default_speaker_id(speaker_id) ==> yourtts_refuses(text, speaker_id, has_reference_audio)
            &&& cjk && !has_reference_audio && speaker_id is None ==> yourtts_refuses(text, speaker_id, has_reference_audio)
            &&& !cjk ==> !yourtts_refuses(text, speaker_id, has_reference_audio)
            &&& speaker_id is Some && !is_default_speaker_id(speaker_id) ==> !yourtts_refuses(text, speaker_id, has_reference_audio)
        }),
{
}

/// The named speaker a YourTTS request asks for: only when it sends neither a speaker
/// id nor reference audio; then the request's speaker, else its voice when not empty.
pub open spec fn yourtts_speaker(
    voice: Seq<char>,
    speaker_id: Option<Seq<char>>,
    has_reference_audio: bool,
    speaker: Option<Seq<char>>,
) -> Option<Seq<char>> {
    if speaker_id is None && !has_reference_audio {
        match speaker {
            Some(s) => Some(s),
            None => if voice.len() == 0 {
                None
            } else {
                Some(voice)
            },
        }
    } else {
        None
    }
}

/// The language YourTTS is asked to speak: English for a default speaker with a Chinese
/// locale (`zh…`), the locale otherwise.
pub open spec fn yourtts_language(locale: Seq<char>, speaker_id: Option<Seq<char>>) -> Seq<char> {
    if is_default_speaker_id(speaker_id) && text::starts_with(locale, "zh"@) {
        "en"@
    } else {
        locale
    }
}

/// How a YourTTS request names its voice.
#[derive(Debug, Clone)]
pub struct YourTtsVoicePlan {
    /// The reference audio goes with the request (at 16000 Hz, with its voice
    /// features): when there is some and no speaker id.
    pub send_reference_audio: bool,
    /// The named speaker.
    pub speaker: Option<String>,
    /// The language to speak.
    pub language: String,
}

/// What a YourTTS request sends besides its text and speaker id, or the refusal of
/// Chinese text it cannot speak.
pub fn yourtts_voice_plan(
    text: &str,
    voice: &str,
    locale: &str,
    speaker_id: Option<&str>,
    has_reference_audio: bool,
    speaker: Option<&str>,
) -> (r: Result<YourTtsVoicePlan, EngineError>)
    ensures
        ({
            let sid = match speaker_id {
                Some(s) => Some(s@),
                None => None,
            };
            let spk = match speaker {
                Some(s) => Some(s@),
                None => None,
            };
            &&& yourtts_refuses(text@, sid, has_reference_audio) ==> r is Err && r->Err_0.message@
                == "YourTTS does not support Chinese text. Text contains Chinese characters but no reference audio is available for zero-shot TTS. Please use a TTS service that supports Chinese (e.g., Piper TTS)."@
            &&& !yourtts_refuses(text@, sid, has_reference_audio) ==> r is Ok && {
                let p = r->Ok_0;
                &&& p.send_reference_audio == (has_reference_audio && speaker_id is None)
                &&& match p.speaker {
                    Some(s) => yourtts_speaker(voice@, sid, has_reference_audio, spk) == Some(s@),
                    None => yourtts_speaker(voice@, sid, has_reference_audio, spk) is None,
                }
                &&& p.language@ == yourtts_language(locale@, sid)
            }
        }),
{
    let is_default = match speaker_id {
        Some(s) => text::starts_with_exec(&to_chars(s), &to_chars("default_")),
        None => false,
    };
    if contains_cjk(text) && (is_default || (!has_reference_audio && speaker_id.is_none())) {
        return Err(
            EngineError::from_str(
                "YourTTS does not support Chinese text. Text contains Chinese characters but no reference audio is available for zero-shot TTS. Please use a TTS service that supports Chinese (e.g., Piper TTS).",
            ),
        );
    }
    let send_reference_audio = has_reference_audio && speaker_id.is_none();
    let named = if speaker_id.is_none() && !has_reference_audio {
        match speaker {
            Some(s) => Some(s.to_string()),
            None => if to_chars(voice).len() == 0 {
                None
            } else {
                Some(voice.to_string())
            },
        }
    } else {
        None
    };
    let language = if is_default && text::starts_with_exec(&to_chars(locale), &to_chars("zh")) {
        "en".to_string()
    } else {
        locale.to_string()
    };
    Ok(YourTtsVoicePlan { send_reference_audio, speaker: named, language })
}

// ---------------------------------------------------------------------------
// WAV framing of 16-bit PCM
// ---------------------------------------------------------------------------

/// `x` as two little-endian bytes.
pub open spec fn le16(x: int) -> Seq<u8> {
    seq![(x % 256) as u8, ((x / 256) % 256) as u8]
}

/// `x` as four little-endian bytes.
pub open spec fn le32(x: int) -> Seq<u8> {
    le16(x % 65536) + le16(x / 65536)
}

/// The ASCII bytes of `RIFF`, `WAVE`, `fmt ` and `data`.
pub open spec fn riff_tag() -> Seq<u8> {
    seq![82u8, 73, 70, 70]
}

pub open spec fn wave_tag() -> Seq<u8> {
    seq![87u8, 65, 86, 69]
}

pub open spec fn fmt_tag() -> Seq<u8> {
    seq![102u8, 109, 116, 32]
}

pub open spec fn data_tag() -> Seq<u8> {
    seq![100u8, 97, 116, 97]
}

/// The 44-byte header of a PCM WAV file: RIFF size, `fmt ` chunk with format 1, the
/// channels, the rate, the byte rate, the block size and 16 bits, then the `data` tag
/// and size.
pub open spec fn wav_header(data_len: int, sample_rate: int, channels: int) -> Seq<u8> {
    riff_tag() + le32(36 + data_len) + wave_tag() + fmt_tag() + le32(16) + le16(1) + le16(channels)
        + le32(sample_rate) + le32(sample_rate * channels * 2) + le16(channels * 2) + le16(16)
        + data_tag() + le32(data_len)
}

pub(crate) fn push_tag(out: &mut Vec<u8>, a: u8, b: u8, c: u8, d: u8)
    ensures
        final(out)@ == old(out)@ + seq![a, b, c, d],
{
    out.push(a);
    out.push(b);
    out.push(c);
    out.push(d);
    assert(final(out)@ =~= old(out)@ + seq![a, b, c, d]);
}

pub(crate) fn push_le16(out: &mut Vec<u8>, x: u32)
    requires
        x < 65536,
    ensures
        final(out)@ == old(out)@ + le16(x as int),
{
    out.push((x % 256) as u8);
    out.push(((x / 256) % 256) as u8);
    assert(final(out)@ =~= old(out)@ + le16(x as int));
}

pub(crate) fn push_le32(out: &mut Vec<u8>, x: u32)
    ensures
        final(out)@ == old(out)@ + le32(x as int),
{
    push_le16(out, x % 65536);
    push_le16(out, x / 65536);
    assert(final(out)@ =~= old(out)@ + le32(x as int));
}

/// `pcm_data` (16-bit little-endian samples) framed as a WAV file.
pub fn encode_pcm_to_wav(pcm_data: &[u8], sample_rate: u32, channels: u16) -> (r: Result<Vec<u8>, EngineError>)
    requires
        pcm_data@.len() + 36 <= u32::MAX,
        sample_rate * channels * 2 <= u32::MAX,
        channels * 2 <= u16::MAX,
    ensures
        r is Ok,
        r->Ok_0@ == wav_header(pcm_data@.len() as int, sample_rate as int, channels as int) + pcm_data@,
{
    let mut wav: Vec<u8> = Vec::new();
    let n = pcm_data.len() as u32;
    push_tag(&mut wav, 82, 73, 70, 70);
    push_le32(&mut wav, 36 + n);
    push_tag(&mut wav, 87, 65, 86, 69);
    push_tag(&mut wav, 102, 109, 116, 32);
    push_le32(&mut wav, 16);
    push_le16(&mut wav, 1);
    push_le16(&mut wav, channels as u32);
    push_le32(&mut wav, sample_rate);
    push_le32(&mut wav, sample_rate * (channels as u32) * 2);
    push_le16(&mut wav, (channels * 2) as u32);
    push_le16(&mut wav, 16);
    push_tag(&mut wav, 100, 97, 116, 97);
    push_le32(&mut wav, n);
    let ghost head = wav@;
    let mut i: usize = 0;
    while i < pcm_data.len()
        invariant
            i <= pcm_data.len(),
            wav@ == head + pcm_data@.subrange(0, i as int),
        decreases pcm_data.len() - i,
    {
        wav.push(pcm_data[i]);
        assert(wav@ =~= head + pcm_data@.subrange(0, i + 1));
        i += 1;
    }
    assert(pcm_data@.subrange(0, pcm_data@.len() as int) == pcm_data@);
    assert(head =~= wav_header(pcm_data@.len() as int, sample_rate as int, channels as int));
    Ok(wav)
}

// ---------------------------------------------------------------------------
// The local model engines
// ---------------------------------------------------------------------------

/// Whether `text` is empty or all whitespace: such text gives no audio.
pub fn is_blank(text: &str) -> (r: bool)
    ensures
        r == (text::trim(text@).len() == 0),
{
    let v = to_chars(text);
    text::trim_chars(&v).len() == 0
}

/// The languages of the FastSpeech2 engine's models.
#[derive(Debug, Clone, Copy, PartialEq, Eq, Structural)]
pub enum TtsLanguage {
    Chinese,
    English,
}

/// The model language of a FastSpeech2 locale: `zh`, `chinese`, `zh-CN`; `en`,
/// `english`, `en-US`.
pub open spec fn fastspeech2_language_of(locale: Seq<char>) -> Option<TtsLanguage> {
    if locale == "zh"@ || locale == "chinese"@ || locale == "zh-CN"@ {
        Some(TtsLanguage::Chinese)
    } else if locale == "en"@ || locale == "english"@ || locale == "en-US"@ {
        Some(TtsLanguage::English)
    } else {
        None
    }
}

/// The models the FastSpeech2 engine uses for `locale`; other locales are an error.
pub fn fastspeech2_language(locale: &str) -> (r: Result<TtsLanguage, EngineError>)
    ensures
        match fastspeech2_language_of(locale@) {
            Some(l) => r is Ok && r->Ok_0 == l,
            None => r is Err && r->Err_0.message@ == "Unsupported locale: "@ + locale@,
        },
{
    if text::str_eq(locale, "zh") || text::str_eq(locale, "chinese") || text::str_eq(locale, "zh-CN") {
        Ok(TtsLanguage::Chinese)
    } else if text::str_eq(locale, "en") || text::str_eq(locale, "english") || text::str_eq(locale, "en-US") {
        Ok(TtsLanguage::English)
    } else {
        let mut m = to_chars("Unsupported locale: ");
        text::append_str(&mut m, locale);
        Err(EngineError::new(string_of(&m)))
    }
}

/// The models of the VITS engine.
#[derive(Debug, Clone, Copy, PartialEq, Eq, Structural)]
pub enum VitsVoice {
    /// The English MMS model.
    English,
    /// The Chinese MMS model.
    ChineseMms,
    /// The Chinese AISHELL3 model.
    ChineseAishell3,
}

/// The locales the VITS engine speaks with its Chinese model.
pub open spec fn is_vits_chinese(locale: Seq<char>) -> bool {
    locale == "zh"@ || locale == "zh-CN"@ || locale == "zh-TW"@ || locale == "cmn"@
}

/// The VITS model for `locale`: English for all but the Chinese locales, which need the
/// engine's Chinese model (`zh_loaded`), of the AISHELL3 kind or the MMS kind.
pub open spec fn vits_voice_of(locale: Seq<char>, zh_is_aishell3: bool, zh_loaded: bool) -> Result<VitsVoice, Seq<char>> {
    if !is_vits_chinese(locale) {
        Ok(VitsVoice::English)
    } else if zh_is_aishell3 {
        if zh_loaded {
            Ok(VitsVoice::ChineseAishell3)
        } else {
            Err("Chinese AISHELL3 model not available."@)
        }
    } else if zh_loaded {
        Ok(VitsVoice::ChineseMms)
    } else {
        Err("Chinese model not available. Please download Chinese model."@)
    }
}

/// The model the VITS engine speaks `locale` with.
pub fn vits_voice(locale: &str, zh_is_aishell3: bool, zh_loaded: bool) -> (r: Result<VitsVoice, EngineError>)
    ensures
        match vits_voice_of(locale@, zh_is_aishell3, zh_loaded) {
            Ok(v) => r is Ok && r->Ok_0 == v,
            Err(m) => r is Err && r->Err_0.message@ == m,
        },
{
    let chinese = text::str_eq(locale, "zh") || text::str_eq(locale, "zh-CN") || text::str_eq(locale, "zh-TW")
        || text::str_eq(locale, "cmn");
    if !chinese {
        Ok(VitsVoice::English)
    } else if zh_is_aishell3 {
        if zh_loaded {
            Ok(VitsVoice::ChineseAishell3)
        } else {
            Err(EngineError::from_str("Chinese AISHELL3 model not available."))
        }
    } else if zh_loaded {
        Ok(VitsVoice::ChineseMms)
    } else {
        Err(EngineError::from_str("Chinese model not available. Please download Chinese model."))
    }
}

/// The sample rate of the VITS engine's audio: 22050 Hz with the AISHELL3 Chinese
/// model, 16000 Hz (the MMS models' rate) otherwise.
pub fn vits_sample_rate(zh_is_aishell3: bool) -> (r: u32)
    ensures
        r == if zh_is_aishell3 { 22050u32 } else { 16000u32 },
{
    if zh_is_aishell3 {
        22050
    } else {
        16000
    }
}

} // verus!
