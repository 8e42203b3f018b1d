//! Machine-translation requests and the decisions around the translation calls: the
//! placeholder translator, the source language guessed from the target, and the
//! reading of a translation service's reply.
use vstd::prelude::*;
use crate::error::EngineError;
use crate::text;
use crate::text::{to_chars, string_of, str_eq};

verus! {

/// A request to a translation service.
#[derive(Debug, Clone)]
pub struct NmtTranslateRequest {
    pub src_lang: String,
    pub tgt_lang: String,
    pub text: String,
}

/// What a translation service replied, as far as the engine reads it.
#[derive(Debug, Clone)]
pub struct NmtReply {
    pub ok: bool,
    pub text: Option<String>,
    pub error: Option<String>,
}

/// Prepares the ONNX runtime.  The runtime sets itself up when a session is made, so
/// there is nothing to do and this always succeeds.
pub fn init_onnx_runtime() -> (r: Result<(), EngineError>)
    ensures
        r is Ok,
{
    Ok(())
}

/// The placeholder translation of `input`.
pub open spec fn stub_translation(input: Seq<char>) -> Seq<char> {
    "[NMT stub en→zh] "@ + input
}

/// The placeholder whole-sentence translation: once the model at the caller's path
/// has been loaded (`model_check`, the loader's outcome), `[NMT stub en→zh] ` and the
/// input; else the loader's error.
pub fn translate_full_sentence_stub(input: &str, model_check: Result<(), String>) -> (r: Result<String, EngineError>)
    ensures
        match model_check {
            Ok(()) => r is Ok && r->Ok_0@ == stub_translation(input@),
            Err(m) => r is Err && r->Err_0.message@ == m@,
        },
{
    match model_check {
        Ok(()) => {
            let mut v = to_chars("[NMT stub en→zh] ");
            text::append_str(&mut v, input);
            Ok(string_of(&v))
        },
        Err(m) => Err(EngineError::new(m)),
    }
}

/// The placeholder incremental translator of a Marian model.
pub struct MarianNmtStub {
    pub model_path: String,
}

impl MarianNmtStub {
    pub fn new(model_path: String) -> (r: Self)
        ensures
            r.model_path == model_path,
    {
        MarianNmtStub { model_path }
    }

    /// Succeeds when the model loads.
    pub fn initialize(&self, model_loads: bool) -> (r: Result<(), EngineError>)
        ensures
            r is Ok <==> model_loads,
            r is Err ==> r->Err_0.message@ == "failed to initialize MarianNmtStub"@,
    {
        if model_loads {
            Ok(())
        } else {
            Err(EngineError::from_str("failed to initialize MarianNmtStub"))
        }
    }

    /// The placeholder translation of the fixed input `NMT stub input`, stable; an
    /// error when the model does not load.
    pub fn translate(&self, model_check: Result<(), String>) -> (r: Result<(String, bool), EngineError>)
        ensures
            match model_check {
                Ok(()) => r is Ok && r->Ok_0.0@ == stub_translation("NMT stub input"@) && r->Ok_0.1,
                Err(_) => r is Err && r->Err_0.message@ == "MarianNmtStub translate failed"@,
            },
    {
        match translate_full_sentence_stub("NMT stub input", model_check) {
            Ok(t) => Ok((t, true)),
            Err(_) => Err(EngineError::from_str("MarianNmtStub translate failed")),
        }
    }

    pub fn finalize(&self) -> (r: Result<(), EngineError>)
        ensures
            r is Ok,
    {
        Ok(())
    }
}

/// The source language guessed from the target: `zh` for `en`, `en` for `zh`, `zh`
/// otherwise.
pub open spec fn guessed_source(target: Seq<char>) -> Seq<char> {
    if target == "en"@ {
        "zh"@
    } else if target == "zh"@ {
        "en"@
    } else {
        "zh"@
    }
}

/// The adapter asks the service to translate between English and Chinese: into `en`
/// from `zh`, into `zh` from `en`, and from `zh` into any other language.
pub proof fn law_adapter_source_language(target: Seq<char>)
    ensures
        target == "en"@ ==> guessed_source(target) == "zh"@,
        target == "zh"@ ==> guessed_source(target) == "en"@,
        target != "en"@ && target != "zh"@ ==> guessed_source(target) == "zh"@,
        guessed_source(target) == "en"@ || guessed_source(target) == "zh"@,
        (target == "en"@ || target == "zh"@) ==> guessed_source(target) != target,
{
    reveal_strlit("en");
    reveal_strlit("zh");
    assert("en"@[0] != "zh"@[0]);
}

/// The service request for `text` into `target_language`.
pub fn adapter_request(text: &str, target_language: &str) -> (r: NmtTranslateRequest)
    ensures
        r.src_lang@ == guessed_source(target_language@),
        r.tgt_lang@ == target_language@,
        r.text@ == text@,
{
    let src = if str_eq(target_language, "en") {
        "zh"
    } else if str_eq(target_language, "zh") {
        "en"
    } else {
        "zh"
    };
    NmtTranslateRequest { src_lang: src.to_owned(), tgt_lang: target_language.to_owned(), text: text.to_owned() }
}

/// The translation in a reply: for a failed reply its error (`Unknown error` when it
/// has none); for a successful one its text, or an error when it has no text.
pub fn adapter_reply(reply: NmtReply) -> (r: Result<String, EngineError>)
    ensures
        r is Ok <==> reply.ok && reply.text is Some,
        !reply.ok ==> r is Err && r->Err_0.message@ == match reply.error {
            Some(e) => e@,
            None => "Unknown error"@,
        },
        reply.ok ==> match reply.text {
            Some(t) => r is Ok && r->Ok_0@ == t@,
            None => r is Err && r->Err_0.message@ == "No translation text in response"@,
        },
{
    if !reply.ok {
        return match reply.error {
            Some(e) => Err(EngineError::new(e)),
            None => Err(EngineError::from_str("Unknown error")),
        };
    }
    match reply.text {
        Some(t) => Ok(t),
        None => Err(EngineError::from_str("No translation text in response")),
    }
}

/// A client's failure as the adapter reports it.
pub fn adapter_client_error(detail: &str) -> (r: EngineError)
    ensures
        r.message@ == "NMT client error: "@ + detail@,
{
    let mut v = to_chars("NMT client error: ");
    text::append_str(&mut v, detail);
    EngineError::new(string_of(&v))
}

// ---------------------------------------------------------------------------
// Greedy decoding
// ---------------------------------------------------------------------------

/// The decoding steps allowed: the model's maximum length, at most 128.
pub fn max_decode_steps(max_length: usize) -> (r: usize)
    ensures
        r == if max_length < 128 { max_length } else { 128 },
{
    if max_length < 128 {
        max_length
    } else {
        128
    }
}

/// The last four tokens repeat a pair (`a b a b`).
pub open spec fn repeats_pair(g: Seq<i64>) -> bool {
    g.len() >= 4 && g[g.len() - 1] == g[g.len() - 3] && g[g.len() - 2] == g[g.len() - 4]
}

/// Takes the token the model chose next: the end token stops decoding and is not kept;
/// any other token is kept, and decoding stops when the last four tokens repeat a pair
/// or 128 tokens are reached.  Returns whether to stop.
pub fn decode_step(generated: &mut Vec<i64>, next_token: i64, eos_token_id: i64) -> (stop: bool)
    ensures
        next_token == eos_token_id ==> stop && final(generated)@ == old(generated)@,
        next_token != eos_token_id ==> {
            &&& final(generated)@ == old(generated)@.push(next_token)
            &&& stop == (repeats_pair(final(generated)@) || final(generated)@.len() >= 128)
        },
{
    if next_token == eos_token_id {
        return true;
    }
    generated.push(next_token);
    let n = generated.len();
    if n >= 4 && generated[n - 1] == generated[n - 3] && generated[n - 2] == generated[n - 4] {
        return true;
    }
    n >= 128
}

/// Takes the token a Marian model chose next: the end token stops decoding and is not
/// kept; any other token is kept.  Returns whether to stop.
pub fn marian_decode_step(generated: &mut Vec<i64>, next_token: i64, eos_token_id: i64) -> (stop: bool)
    ensures
        stop == (next_token == eos_token_id),
        stop ==> final(generated)@ == old(generated)@,
        !stop ==> final(generated)@ == old(generated)@.push(next_token),
{
    if next_token == eos_token_id {
        return true;
    }
    generated.push(next_token);
    false
}

/// `s` without the occurrences of `x`.
pub open spec fn without(s: Seq<i64>, x: i64) -> Seq<i64>
    decreases s.len(),
{
    if s.len() == 0 {
        seq![]
    } else if s.last() == x {
        without(s.drop_last(), x)
    } else {
        without(s.drop_last(), x).push(s.last())
    }
}

/// The tokens of the translation: all but the first (the target-language token),
/// without end tokens.
pub fn translated_ids(generated: &[i64], eos_token_id: i64) -> (r: Vec<i64>)
    ensures
        r@ == if generated@.len() == 0 { seq![] } else { without(generated@.drop_first(), eos_token_id) },
{
    let mut out: Vec<i64> = Vec::new();
    if generated.len() == 0 {
        return out;
    }
    let ghost body = generated@.drop_first();
    let mut i: usize = 1;
    assert(body.subrange(0, 0) =~= Seq::<i64>::empty());
    while i < generated.len()
        invariant
            1 <= i <= generated.len(),
            body == generated@.drop_first(),
            out@ == without(body.subrange(0, i - 1), eos_token_id),
        decreases generated.len() - i,
    {
        assert(body.subrange(0, i as int).drop_last() == body.subrange(0, i - 1));
        assert(body.subrange(0, i as int).last() == generated@[i as int]);
        if generated[i] != eos_token_id {
            out.push(generated[i]);
        }
        i += 1;
    }
    assert(body.subrange(0, body.len() as int) == body);
    out
}

/// A translation is stable unless it was asked with a positive wait-k.
pub fn is_stable(wait_k: Option<u8>) -> (r: bool)
    ensures
        r == (wait_k is None || wait_k == Some(0u8)),
{
    match wait_k {
        None => true,
        Some(k) => k == 0,
    }
}

} // verus!
