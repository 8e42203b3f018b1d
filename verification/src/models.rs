//! What a translation model directory tells the engine: the token ids and length limit
//! of its `config.json`, the language pair in its name, and the interface its decoder
//! must have.
use vstd::prelude::*;
use crate::error::EngineError;
use crate::json::{json_object_entries, parse_json_object, entry_views, JsonEntries, JsonScalar, JsonScalarView};
use crate::marian_tokenizer::lookup;
use crate::m2m100_tokenizer::{scalar_lookup, string_views};
use crate::text;
use crate::text::{contains, contains_exec, decimal, decimal_digits, string_of, to_chars};

verus! {

/// The token ids and the length limit of a translation model.
#[derive(Debug, Clone, Copy, PartialEq, Eq, Structural)]
pub struct ModelConfig {
    pub decoder_start_token_id: i64,
    pub eos_token_id: i64,
    pub pad_token_id: i64,
    pub max_length: usize,
}

impl ModelConfig {
    /// What a Marian model uses when its configuration does not say.
    pub fn marian_defaults() -> (r: Self)
        ensures
            r == (ModelConfig { decoder_start_token_id: 65000, eos_token_id: 0, pad_token_id: 65000, max_length: 512 }),
    {
        ModelConfig { decoder_start_token_id: 65000, eos_token_id: 0, pad_token_id: 65000, max_length: 512 }
    }

    /// What an M2M100 model uses when its configuration does not say.
    pub fn m2m100_defaults() -> (r: Self)
        ensures
            r == (ModelConfig { decoder_start_token_id: 2, eos_token_id: 2, pad_token_id: 1, max_length: 1024 }),
    {
        ModelConfig { decoder_start_token_id: 2, eos_token_id: 2, pad_token_id: 1, max_length: 1024 }
    }
}

/// An integer field of a configuration, or the default when it is absent or not an
/// integer within `i64`.
pub open spec fn int_field(es: JsonEntries, key: Seq<char>, dflt: i64) -> i64 {
    match lookup(es, key) {
        Some(JsonScalarView::Int(i)) => i,
        _ => dflt,
    }
}

/// A length field: a non-negative integer, taken modulo the width of `usize`; else the
/// default.
pub open spec fn length_field(es: JsonEntries, key: Seq<char>, dflt: usize) -> usize {
    match lookup(es, key) {
        Some(JsonScalarView::Int(i)) => if i >= 0 {
            (i as u64) as usize
        } else {
            dflt
        },
        _ => dflt,
    }
}

/// The configuration a model directory gives: the defaults without `config.json`, its
/// fields over the defaults with one, and nothing when the file is not a JSON object.
pub open spec fn model_config(config_json: Option<Seq<char>>, d: ModelConfig) -> Option<ModelConfig> {
    match config_json {
        None => Some(d),
        Some(j) => match json_object_entries(j) {
            None => None,
            Some(es) => Some(
                ModelConfig {
                    decoder_start_token_id: int_field(es, "decoder_start_token_id"@, d.decoder_start_token_id),
                    eos_token_id: int_field(es, "eos_token_id"@, d.eos_token_id),
                    pad_token_id: int_field(es, "pad_token_id"@, d.pad_token_id),
                    max_length: length_field(es, "max_length"@, d.max_length),
                },
            ),
        },
    }
}

fn int_field_exec(es: &Vec<(String, JsonScalar)>, key: &str, dflt: i64) -> (r: i64)
    ensures
        r == int_field(entry_views(es@), key@, dflt),
{
    match scalar_lookup(es, key) {
        Some(JsonScalar::Int(i)) => *i,
        _ => dflt,
    }
}

fn length_field_exec(es: &Vec<(String, JsonScalar)>, key: &str, dflt: usize) -> (r: usize)
    ensures
        r == length_field(entry_views(es@), key@, dflt),
{
    match scalar_lookup(es, key) {
        Some(JsonScalar::Int(i)) => if *i >= 0 {
            (*i as u64) as usize
        } else {
            dflt
        },
        _ => dflt,
    }
}

/// The configuration of a model directory, given the text of its `config.json` when
/// there is one.  A file that is not a JSON object is an error.
pub fn read_model_config(config_json: Option<&str>, defaults: ModelConfig) -> (r: Result<ModelConfig, EngineError>)
    ensures
        match model_config(
            match config_json {
                Some(j) => Some(j@),
                None => None,
            },
            defaults,
        ) {
            Some(c) => r is Ok && r->Ok_0 == c,
            None => r is Err && r->Err_0.message@ == "failed to parse config.json"@,
        },
{
    let j = match config_json {
        None => return Ok(defaults),
        Some(j) => j,
    };
    match parse_json_object(j) {
        None => Err(EngineError::from_str("failed to parse config.json")),
        Some(es) => Ok(
            ModelConfig {
                decoder_start_token_id: int_field_exec(&es, "decoder_start_token_id", defaults.decoder_start_token_id),
                eos_token_id: int_field_exec(&es, "eos_token_id", defaults.eos_token_id),
                pad_token_id: int_field_exec(&es, "pad_token_id", defaults.pad_token_id),
                max_length: length_field_exec(&es, "max_length", defaults.max_length),
            },
        ),
    }
}

/// The language pair an M2M100 model directory is named for: `en` to `zh` when the
/// name holds `en-zh`, else `zh` to `en` when it holds `zh-en`.
pub open spec fn m2m100_pair_of(name: Seq<char>) -> Option<(Seq<char>, Seq<char>)> {
    if contains(name, "en-zh"@) {
        Some(("en"@, "zh"@))
    } else if contains(name, "zh-en"@) {
        Some(("zh"@, "en"@))
    } else {
        None
    }
}

/// The source and target language of the M2M100 model directory named `dir_name`.
pub fn m2m100_language_pair(dir_name: &str) -> (r: Result<(String, String), EngineError>)
    ensures
        match m2m100_pair_of(dir_name@) {
            Some(p) => r is Ok && r->Ok_0.0@ == p.0 && r->Ok_0.1@ == p.1,
            None => r is Err && r->Err_0.message@ == "Cannot determine language pair from directory name: "@ + dir_name@
                + ". Expected 'm2m100-en-zh' or 'm2m100-zh-en'"@,
        },
{
    let name = to_chars(dir_name);
    if contains_exec(&name, &to_chars("en-zh")) {
        Ok(("en".to_string(), "zh".to_string()))
    } else if contains_exec(&name, &to_chars("zh-en")) {
        Ok(("zh".to_string(), "en".to_string()))
    } else {
        let mut m = to_chars("Cannot determine language pair from directory name: ");
        text::append_str(&mut m, dir_name);
        text::append_str(&mut m, ". Expected 'm2m100-en-zh' or 'm2m100-zh-en'");
        Err(EngineError::new(string_of(&m)))
    }
}

/// An input that carries the decoder's cache-branch flag.
pub open spec fn is_flag_input(name: Seq<char>) -> bool {
    contains(name, "use_cache"@) || contains(name, "flag"@)
}

/// The M2M100 decoder's interface, from the names of its inputs and its number of
/// outputs.  Its 12 layers have 4 cached tensors each: 51 inputs (3 + 48), or 52 with
/// the flag, and 49 outputs (the logits + 48).  The result says whether the decoder
/// takes no flag (the new format); a decoder of another shape is an error.
pub open spec fn m2m100_decoder_format(names: Seq<Seq<char>>, num_outputs: nat) -> Result<bool, Seq<char>> {
    if names.len() != 52 && names.len() != 51 {
        Err(
            "Decoder model has "@ + decimal(names.len()) + " inputs, expected 52 (old format) or 51 (new format). "@
                + "Old format: 3 base + 48 KV cache + 1 flag = 52. New format: 3 base + 48 KV cache = 51."@,
        )
    } else if num_outputs != 49 {
        Err("Decoder model has "@ + decimal(num_outputs) + " outputs, expected 49 (1 logits + 48 KV cache)"@)
    } else {
        Ok(names.len() == 51 && !(exists|i: int| 0 <= i < names.len() && is_flag_input(#[trigger] names[i])))
    }
}

/// Checks the M2M100 decoder's interface, given the names of its inputs and its number
/// of outputs, and tells whether it is of the new format (no flag input).
pub fn check_m2m100_decoder(input_names: &Vec<String>, num_outputs: usize) -> (r: Result<bool, EngineError>)
    ensures
        match m2m100_decoder_format(string_views(input_names@), num_outputs as nat) {
            Ok(b) => r is Ok && r->Ok_0 == b,
            Err(m) => r is Err && r->Err_0.message@ == m,
        },
{
    let ghost names = string_views(input_names@);
    let n = input_names.len();
    if n != 52 && n != 51 {
        let mut m = to_chars("Decoder model has ");
        text::append_chars(&mut m, &decimal_digits(n as u64));
        text::append_str(&mut m, " inputs, expected 52 (old format) or 51 (new format). ");
        text::append_str(&mut m, "Old format: 3 base + 48 KV cache + 1 flag = 52. New format: 3 base + 48 KV cache = 51.");
        return Err(EngineError::new(string_of(&m)));
    }
    if num_outputs != 49 {
        let mut m = to_chars("Decoder model has ");
        text::append_chars(&mut m, &decimal_digits(num_outputs as u64));
        text::append_str(&mut m, " outputs, expected 49 (1 logits + 48 KV cache)");
        return Err(EngineError::new(string_of(&m)));
    }
    let use_cache = to_chars("use_cache");
    let flag = to_chars("flag");
    let mut i: usize = 0;
    while i < n
        invariant
            n == input_names.len(),
            n == 51 || n == 52,
            num_outputs == 49,
            names == string_views(input_names@),
            use_cache@ == "use_cache"@,
            flag@ == "flag"@,
            i <= n,
            forall|k: int| 0 <= k < i ==> !is_flag_input(#[trigger] names[k]),
        decreases n - i,
    {
        let name = to_chars(input_names[i].as_str());
        if contains_exec(&name, &use_cache) || contains_exec(&name, &flag) {
            assert(is_flag_input(names[i as int]));
            return Ok(false);
        }
        i += 1;
    }
    Ok(n == 51)
}

} // verus!
