use engine::tts::{
    contains_cjk, encode_pcm_to_wav, piper_reply, PiperHttpConfig, TtsRequest, TtsStreaming, TtsStub,
    YourTtsHttpConfig,
};

#[test]
fn test_piper_http_config_default() {
    let config = PiperHttpConfig::default();
    assert_eq!(config.endpoint, "http://127.0.0.1:5005/tts");
    assert_eq!(config.default_voice, "zh_CN-huayan-medium");
    assert_eq!(config.timeout_ms, 8000);
}

#[test]
fn test_piper_http_config_custom() {
    let config = PiperHttpConfig {
        endpoint: "http://example.com:8080/tts".to_string(),
        default_voice: "zh_CN-xiaoyan-medium".to_string(),
        timeout_ms: 10000,
    };
    assert_eq!(config.endpoint, "http://example.com:8080/tts");
    assert_eq!(config.default_voice, "zh_CN-xiaoyan-medium");
    assert_eq!(config.timeout_ms, 10000);
}

fn request(text: &str, voice: &str, locale: &str) -> TtsRequest {
    TtsRequest { text: text.to_string(), voice: voice.to_string(), locale: locale.to_string() }
}

#[test]
fn piper_voice_follows_request_then_locale() {
    let config = PiperHttpConfig::default();
    let body = config.request_body(&request("hi", "my-voice", "en-US"));
    assert_eq!(body.voice, "my-voice");
    assert_eq!(body.text, "hi");
    assert_eq!(body.language, Some("en-US".to_string()));
    assert_eq!(config.request_body(&request("hi", "", "EN-gb")).voice, "en_US-lessac-medium");
    assert_eq!(config.request_body(&request("你好", "", "zh-CN")).voice, "zh_CN-huayan-medium");
    assert_eq!(config.request_body(&request("hola", "", "es")).voice, "zh_CN-huayan-medium");
    assert_eq!(config.request_body(&request("x", "", "")).language, None);
}

#[test]
fn piper_reply_checks_status_and_audio() {
    let ok = piper_reply(true, "200 OK", "", vec![1, 2, 3]).unwrap();
    assert_eq!(ok.audio, vec![1, 2, 3]);
    assert_eq!(ok.timestamp_ms, 0);
    assert!(ok.is_last);
    let err = piper_reply(false, "500 Internal Server Error", "boom", vec![1]).unwrap_err();
    assert_eq!(err.message, "Piper HTTP service returned error: 500 Internal Server Error boom");
    let empty = piper_reply(true, "200 OK", "", vec![]).unwrap_err();
    assert_eq!(empty.message, "Piper service returned empty audio data");
}

#[test]
fn stub_returns_one_empty_final_chunk() {
    let stub = TtsStub::new();
    let chunk = stub.synthesize(request("a", "", "en")).unwrap();
    assert!(chunk.audio.is_empty());
    assert_eq!(chunk.timestamp_ms, 0);
    assert!(chunk.is_last);
    assert!(stub.close().is_ok());
}

#[test]
fn yourtts_config_default() {
    let config = YourTtsHttpConfig::default();
    assert_eq!(config.endpoint, "http://127.0.0.1:5004");
    assert_eq!(config.timeout_ms, 30000);
}

#[test]
fn cjk_detection() {
    assert!(contains_cjk("hello 你好"));
    assert!(contains_cjk("\u{3400}"));
    assert!(contains_cjk("\u{20000}"));
    assert!(!contains_cjk("hello, world"));
    assert!(!contains_cjk("こんにちは"));
}

#[test]
fn wav_header_layout() {
    let pcm = [1u8, 2, 3, 4];
    let wav = encode_pcm_to_wav(&pcm, 16000, 1).unwrap();
    assert_eq!(wav.len(), 48);
    assert_eq!(&wav[0..4], b"RIFF");
    assert_eq!(&wav[4..8], &40u32.to_le_bytes());
    assert_eq!(&wav[8..16], b"WAVEfmt ");
    assert_eq!(&wav[16..20], &16u32.to_le_bytes());
    assert_eq!(&wav[20..22], &1u16.to_le_bytes());
    assert_eq!(&wav[22..24], &1u16.to_le_bytes());
    assert_eq!(&wav[24..28], &16000u32.to_le_bytes());
    assert_eq!(&wav[28..32], &32000u32.to_le_bytes());
    assert_eq!(&wav[32..34], &2u16.to_le_bytes());
    assert_eq!(&wav[34..36], &16u16.to_le_bytes());
    assert_eq!(&wav[36..40], b"data");
    assert_eq!(&wav[40..44], &4u32.to_le_bytes());
    assert_eq!(&wav[44..], &pcm);
}

use engine::tts::{fastspeech2_language, is_blank, vits_sample_rate, vits_voice, TtsLanguage, VitsVoice};

#[test]
fn blank_text_is_whitespace_only() {
    assert!(is_blank(""));
    assert!(is_blank(" \t\n\u{3000}"));
    assert!(!is_blank("  a "));
}

#[test]
fn fastspeech2_routes_locales() {
    for l in ["zh", "chinese", "zh-CN"] {
        assert_eq!(fastspeech2_language(l).unwrap(), TtsLanguage::Chinese);
    }
    for l in ["en", "english", "en-US"] {
        assert_eq!(fastspeech2_language(l).unwrap(), TtsLanguage::English);
    }
    assert_eq!(fastspeech2_language("fr").unwrap_err().message, "Unsupported locale: fr");
    assert!(fastspeech2_language("zh-TW").is_err());
}

#[test]
fn vits_routes_locales() {
    assert_eq!(vits_voice("en", false, false).unwrap(), VitsVoice::English);
    assert_eq!(vits_voice("fr", true, false).unwrap(), VitsVoice::English);
    assert_eq!(vits_voice("zh-TW", true, true).unwrap(), VitsVoice::ChineseAishell3);
    assert_eq!(vits_voice("cmn", false, true).unwrap(), VitsVoice::ChineseMms);
    assert_eq!(vits_voice("zh", true, false).unwrap_err().message, "Chinese AISHELL3 model not available.");
    assert_eq!(
        vits_voice("zh-CN", false, false).unwrap_err().message,
        "Chinese model not available. Please download Chinese model."
    );
    assert_eq!(vits_sample_rate(true), 22050);
    assert_eq!(vits_sample_rate(false), 16000);
}

use engine::tts::yourtts_voice_plan;

#[test]
fn yourtts_refuses_chinese_without_a_voice_to_clone() {
    let msg = "YourTTS does not support Chinese text. Text contains Chinese characters but no reference audio is available for zero-shot TTS. Please use a TTS service that supports Chinese (e.g., Piper TTS).";
    assert_eq!(yourtts_voice_plan("你好", "", "zh", None, false, None).unwrap_err().message, msg);
    assert_eq!(yourtts_voice_plan("你好", "", "zh", Some("default_male"), true, None).unwrap_err().message, msg);
    assert!(yourtts_voice_plan("你好", "", "zh", Some("speaker_1"), false, None).is_ok());
    assert!(yourtts_voice_plan("你好", "", "zh", None, true, None).is_ok());
    assert!(yourtts_voice_plan("hello", "", "en", None, false, None).is_ok());
}

#[test]
fn yourtts_voice_sources() {
    let p = yourtts_voice_plan("hello", "p225", "en", None, false, None).unwrap();
    assert_eq!((p.send_reference_audio, p.speaker.as_deref(), p.language.as_str()), (false, Some("p225"), "en"));
    let p = yourtts_voice_plan("hello", "p225", "en", None, false, Some("p300")).unwrap();
    assert_eq!(p.speaker.as_deref(), Some("p300"));
    let p = yourtts_voice_plan("hello", "", "en", None, false, None).unwrap();
    assert_eq!(p.speaker, None);
    let p = yourtts_voice_plan("hello", "p225", "en", None, true, None).unwrap();
    assert_eq!((p.send_reference_audio, p.speaker), (true, None));
    let p = yourtts_voice_plan("hello", "p225", "zh-CN", Some("default_female"), true, None).unwrap();
    assert_eq!((p.send_reference_audio, p.speaker, p.language.as_str()), (false, None, "en"));
    let p = yourtts_voice_plan("hello", "", "zh-CN", Some("speaker_2"), false, None).unwrap();
    assert_eq!(p.language, "zh-CN");
}
