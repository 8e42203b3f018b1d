use engine::nmt::{
    adapter_client_error, adapter_reply, adapter_request, init_onnx_runtime, translate_full_sentence_stub,
    MarianNmtStub, NmtReply,
};

#[test]
fn stub_translation_needs_a_loadable_model() {
    assert!(init_onnx_runtime().is_ok());
    assert_eq!(translate_full_sentence_stub("hello", Ok(())).unwrap(), "[NMT stub en→zh] hello");
    let err = translate_full_sentence_stub("hello", Err("NMT ONNX model not found at: x".to_string())).unwrap_err();
    assert_eq!(err.message, "NMT ONNX model not found at: x");
}

#[test]
fn marian_stub() {
    let stub = MarianNmtStub::new("models/nmt/marian-en-zh/model.onnx".to_string());
    assert_eq!(stub.model_path, "models/nmt/marian-en-zh/model.onnx");
    assert!(stub.initialize(true).is_ok());
    assert_eq!(stub.initialize(false).unwrap_err().message, "failed to initialize MarianNmtStub");
    assert_eq!(stub.translate(Ok(())).unwrap(), ("[NMT stub en→zh] NMT stub input".to_string(), true));
    assert_eq!(stub.translate(Err("x".into())).unwrap_err().message, "MarianNmtStub translate failed");
    assert!(stub.finalize().is_ok());
}

#[test]
fn adapter_guesses_source_language() {
    assert_eq!(adapter_request("hi", "zh").src_lang, "en");
    assert_eq!(adapter_request("你好", "en").src_lang, "zh");
    let r = adapter_request("hola", "fr");
    assert_eq!((r.src_lang.as_str(), r.tgt_lang.as_str(), r.text.as_str()), ("zh", "fr", "hola"));
}

#[test]
fn adapter_reads_replies() {
    let ok = NmtReply { ok: true, text: Some("你好".into()), error: None };
    assert_eq!(adapter_reply(ok).unwrap(), "你好");
    let no_text = NmtReply { ok: true, text: None, error: None };
    assert_eq!(adapter_reply(no_text).unwrap_err().message, "No translation text in response");
    let failed = NmtReply { ok: false, text: Some("x".into()), error: Some("busy".into()) };
    assert_eq!(adapter_reply(failed).unwrap_err().message, "busy");
    let unknown = NmtReply { ok: false, text: None, error: None };
    assert_eq!(adapter_reply(unknown).unwrap_err().message, "Unknown error");
    assert_eq!(adapter_client_error("timeout").message, "NMT client error: timeout");
}

use engine::nmt::{decode_step, is_stable, max_decode_steps, translated_ids};

#[test]
fn greedy_decoding_stops_on_end_repeats_and_length() {
    assert_eq!(max_decode_steps(1024), 128);
    assert_eq!(max_decode_steps(20), 20);
    let mut g = vec![128102i64];
    assert!(!decode_step(&mut g, 5, 2));
    assert!(!decode_step(&mut g, 6, 2));
    assert!(decode_step(&mut g, 2, 2));
    assert_eq!(g, vec![128102, 5, 6]);
    assert!(!decode_step(&mut g, 5, 2));
    assert!(decode_step(&mut g, 6, 2));
    assert_eq!(g, vec![128102, 5, 6, 5, 6]);
    let mut long: Vec<i64> = (0..126).collect();
    assert!(!decode_step(&mut long, 1000, 2));
    assert!(decode_step(&mut long, 1001, 2));
    assert_eq!(long.len(), 128);
}

#[test]
fn translation_tokens_drop_language_and_end() {
    assert_eq!(translated_ids(&[128102, 5, 2, 6, 2], 2), vec![5, 6]);
    assert_eq!(translated_ids(&[], 2), Vec::<i64>::new());
    assert!(is_stable(None));
    assert!(is_stable(Some(0)));
    assert!(!is_stable(Some(3)));
}

use engine::nmt::marian_decode_step;

#[test]
fn marian_decoding_stops_only_on_end() {
    let mut g = vec![65000i64];
    assert!(!marian_decode_step(&mut g, 12, 0));
    assert!(!marian_decode_step(&mut g, 12, 0));
    assert_eq!(g, vec![65000, 12, 12]);
    assert!(marian_decode_step(&mut g, 0, 0));
    assert_eq!(g, vec![65000, 12, 12]);
    assert_eq!(translated_ids(&g, 0), vec![12, 12]);
}
