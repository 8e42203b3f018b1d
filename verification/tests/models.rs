use engine::models::{check_m2m100_decoder, m2m100_language_pair, read_model_config, ModelConfig};

#[test]
fn config_defaults_without_file() {
    let c = read_model_config(None, ModelConfig::marian_defaults()).unwrap();
    assert_eq!(c, ModelConfig { decoder_start_token_id: 65000, eos_token_id: 0, pad_token_id: 65000, max_length: 512 });
    let c = read_model_config(None, ModelConfig::m2m100_defaults()).unwrap();
    assert_eq!(c, ModelConfig { decoder_start_token_id: 2, eos_token_id: 2, pad_token_id: 1, max_length: 1024 });
}

#[test]
fn config_fields_override_defaults() {
    let json = r#"{"decoder_start_token_id": 59513, "eos_token_id": 0, "max_length": 256, "pad_token_id": "x", "d_model": 512}"#;
    let c = read_model_config(Some(json), ModelConfig::marian_defaults()).unwrap();
    assert_eq!(c, ModelConfig { decoder_start_token_id: 59513, eos_token_id: 0, pad_token_id: 65000, max_length: 256 });
    let c = read_model_config(Some(r#"{"max_length": -3, "eos_token_id": 1.5}"#), ModelConfig::m2m100_defaults()).unwrap();
    assert_eq!(c, ModelConfig::m2m100_defaults());
}

#[test]
fn config_that_is_not_json_is_an_error() {
    let e = read_model_config(Some("{not json"), ModelConfig::marian_defaults()).unwrap_err();
    assert_eq!(e.message, "failed to parse config.json");
}

#[test]
fn m2m100_pair_from_directory_name() {
    assert_eq!(m2m100_language_pair("m2m100-en-zh").unwrap(), ("en".to_string(), "zh".to_string()));
    assert_eq!(m2m100_language_pair("m2m100-zh-en").unwrap(), ("zh".to_string(), "en".to_string()));
    assert_eq!(
        m2m100_language_pair("m2m100-de-fr").unwrap_err().message,
        "Cannot determine language pair from directory name: m2m100-de-fr. Expected 'm2m100-en-zh' or 'm2m100-zh-en'"
    );
}

fn names(n: usize, flag: bool) -> Vec<String> {
    let mut v: Vec<String> = (0..n).map(|i| format!("input_{i}")).collect();
    if flag {
        v[n - 1] = "use_cache_branch".to_string();
    }
    v
}

#[test]
fn m2m100_decoder_formats() {
    assert_eq!(check_m2m100_decoder(&names(51, false), 49).unwrap(), true);
    assert_eq!(check_m2m100_decoder(&names(52, true), 49).unwrap(), false);
    assert_eq!(check_m2m100_decoder(&names(51, true), 49).unwrap(), false);
    assert_eq!(check_m2m100_decoder(&names(52, false), 49).unwrap(), false);
    assert_eq!(
        check_m2m100_decoder(&names(50, false), 49).unwrap_err().message,
        "Decoder model has 50 inputs, expected 52 (old format) or 51 (new format). \
         Old format: 3 base + 48 KV cache + 1 flag = 52. New format: 3 base + 48 KV cache = 51."
    );
    assert_eq!(
        check_m2m100_decoder(&names(51, false), 25).unwrap_err().message,
        "Decoder model has 25 outputs, expected 49 (1 logits + 48 KV cache)"
    );
}
