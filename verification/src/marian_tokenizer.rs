//! A minimal Marian tokenizer: whitespace words looked up in `vocab.json`, with the
//! SentencePiece word-start mark `▁` tried first.
use vstd::prelude::*;
use crate::text;
use crate::text::{split_words, string_of, to_chars, trim_chars};
use crate::json::{distinct_keys, entry_views, json_object_entries, parse_json_object, JsonEntries, JsonScalar, JsonScalarView};
use crate::language_pair::{LanguageCode, LanguagePair};
use crate::paths;

verus! {

/// Why a tokenizer could not be built.
#[derive(Debug, Clone)]
pub enum TokenizerError {
    /// A required file is missing; carries its path.
    FileNotFound(String),
    /// A file could not be read; carries its path.
    ReadFailed(String),
    /// A token table is not a JSON object of integers in range.
    InvalidTokenTable,
    /// A vocabulary path has no parent directory; carries the path.
    InvalidVocabPath(String),
    /// A token table line could not be read; carries the line.
    InvalidLine(String),
}

/// The vocabulary: token strings and their ids, no token twice.
pub struct MarianVocab {
    entries: Vec<(String, i32)>,
}

/// The Marian tokenizer of a language pair.
pub struct MarianTokenizer {
    pub vocab: MarianVocab,
    pub bos_id: i32,
    pub eos_id: i32,
    pub pad_id: i32,
    pub language_pair: LanguagePair,
}

// ---------------------------------------------------------------------------
// Specification
// ---------------------------------------------------------------------------

/// The id of `token` in `es` (the last entry for it).
pub open spec fn lookup<V>(es: Seq<(Seq<char>, V)>, token: Seq<char>) -> Option<V>
    decreases es.len(),
{
    if es.len() == 0 {
        None
    } else if es.last().0 == token {
        Some(es.last().1)
    } else {
        lookup(es.drop_last(), token)
    }
}

/// A token with the given id (the last entry for it).
pub open spec fn token_of<V>(es: Seq<(Seq<char>, V)>, id: V) -> Option<Seq<char>>
    decreases es.len(),
{
    if es.len() == 0 {
        None
    } else if es.last().1 == id {
        Some(es.last().0)
    } else {
        token_of(es.drop_last(), id)
    }
}

/// The SentencePiece word-start mark.
pub open spec fn word_mark() -> char {
    '\u{2581}'
}

/// The id of one word: its `▁`-prefixed form, else the word itself, else `fallback`.
pub open spec fn word_id(es: Seq<(Seq<char>, i32)>, w: Seq<char>, fallback: i32) -> i64 {
    match lookup(es, seq![word_mark()] + w) {
        Some(id) => id as i64,
        None => match lookup(es, w) {
            Some(id) => id as i64,
            None => fallback as i64,
        },
    }
}

/// The ids of a sequence of words.
pub open spec fn word_ids(es: Seq<(Seq<char>, i32)>, ws: Seq<Seq<char>>, fallback: i32) -> Seq<i64>
    decreases ws.len(),
{
    if ws.len() == 0 {
        seq![]
    } else {
        word_ids(es, ws.drop_last(), fallback).push(word_id(es, ws.last(), fallback))
    }
}

/// What `encode` yields: one id per whitespace word (the end-of-sentence id for unknown
/// words), between the begin and end ids when special tokens are wanted.
pub open spec fn marian_encoding(es: Seq<(Seq<char>, i32)>, t: Seq<char>, bos: i32, eos: i32, special: bool) -> Seq<i64> {
    let body = word_ids(es, text::words(t), eos);
    if special {
        seq![bos as i64] + body + seq![eos as i64]
    } else {
        body
    }
}

/// `▁` read as a space.
pub open spec fn mark_to_space(t: Seq<char>) -> Seq<char> {
    t.map_values(|c: char| if c == word_mark() { ' ' } else { c })
}

/// The text of the ids, special ids skipped and unknown ids dropped.
pub open spec fn marian_pieces(es: Seq<(Seq<char>, i32)>, ids: Seq<i64>, bos: i32, eos: i32, pad: i32) -> Seq<char>
    decreases ids.len(),
{
    if ids.len() == 0 {
        seq![]
    } else {
        let rest = marian_pieces(es, ids.drop_last(), bos, eos, pad);
        let id = ids.last() as i32;
        if id == bos || id == eos || id == pad {
            rest
        } else {
            match token_of(es, id) {
                Some(t) => rest + mark_to_space(t),
                None => rest,
            }
        }
    }
}

/// The table of a vocabulary file: every value must be an integer within `i32`.
pub open spec fn int32_table(es: JsonEntries) -> Option<Seq<(Seq<char>, i32)>>
    decreases es.len(),
{
    if es.len() == 0 {
        Some(seq![])
    } else {
        match int32_table(es.drop_last()) {
            Some(rest) => match es.last().1 {
                JsonScalarView::Int(i) => if i32::MIN <= i <= i32::MAX {
                    Some(rest.push((es.last().0, i as i32)))
                } else {
                    None
                },
                _ => None,
            },
            None => None,
        }
    }
}

/// The vocabulary read from `vocab.json`.
pub open spec fn vocab_of_json(json: Seq<char>) -> Option<Seq<(Seq<char>, i32)>> {
    match json_object_entries(json) {
        Some(es) => int32_table(es),
        None => None,
    }
}

/// The language pair assumed for a vocabulary file: the one named by its directory,
/// English to Chinese when the directory does not name one.
pub open spec fn pair_for_vocab_path(p: Seq<char>) -> LanguagePair {
    match paths::parent_file_name(p) {
        Some(n) => match crate::language_pair::parse_model_dir_name(n) {
            Ok(pair) => pair,
            Err(_) => LanguagePair { source: LanguageCode::En, target: LanguageCode::Zh },
        },
        None => LanguagePair { source: LanguageCode::En, target: LanguageCode::Zh },
    }
}

pub open spec fn vocab_views(v: Seq<(String, i32)>) -> Seq<(Seq<char>, i32)> {
    v.map_values(|p: (String, i32)| (p.0@, p.1))
}

proof fn lemma_int32_table_keys(es: JsonEntries)
    requires
        int32_table(es) is Some,
    ensures
        int32_table(es)->0.len() == es.len(),
        forall|i: int| 0 <= i < es.len() ==> (#[trigger] int32_table(es)->0[i]).0 == es[i].0,
    decreases es.len(),
{
    if es.len() > 0 {
        lemma_int32_table_keys(es.drop_last());
    }
}

// ---------------------------------------------------------------------------
// Implementation
// ---------------------------------------------------------------------------

impl MarianVocab {
    pub closed spec fn entries(&self) -> Seq<(Seq<char>, i32)> {
        vocab_views(self.entries@)
    }

    #[verifier::type_invariant]
    closed spec fn keys_distinct(&self) -> bool {
        distinct_keys(vocab_views(self.entries@))
    }

    /// A vocabulary with the given entries, no token twice.
    pub fn from_entries(entries: Vec<(String, i32)>) -> (r: Self)
        requires
            distinct_keys(vocab_views(entries@)),
        ensures
            r.entries() == vocab_views(entries@),
    {
        MarianVocab { entries }
    }

    /// The id of a token.
    pub fn get(&self, token: &Vec<char>) -> (r: Option<i32>)
        ensures
            r == lookup(self.entries(), token@),
    {
        let ghost es = self.entries();
        let mut j: usize = self.entries.len();
        assert(es.subrange(0, es.len() as int) == es);
        while j > 0
            invariant
                j <= self.entries.len(),
                es == vocab_views(self.entries@),
                lookup(es, token@) == lookup(es.subrange(0, j as int), token@),
            decreases j,
        {
            let ghost pre = es.subrange(0, j as int);
            assert(pre.last() == es[j - 1]);
            assert(pre.drop_last() == es.subrange(0, j - 1));
            let k = to_chars(self.entries[j - 1].0.as_str());
            if text::chars_eq(&k, token) {
                return Some(self.entries[j - 1].1);
            }
            j -= 1;
        }
        None
    }

    /// A token with the given id.
    pub fn token_for(&self, id: i32) -> (r: Option<String>)
        ensures
            match r {
                Some(t) => token_of(self.entries(), id) == Some(t@),
                None => token_of(self.entries(), id) is None,
            },
    {
        let ghost es = self.entries();
        let mut j: usize = self.entries.len();
        assert(es.subrange(0, es.len() as int) == es);
        while j > 0
            invariant
                j <= self.entries.len(),
                es == vocab_views(self.entries@),
                token_of(es, id) == token_of(es.subrange(0, j as int), id),
            decreases j,
        {
            let ghost pre = es.subrange(0, j as int);
            assert(pre.last() == es[j - 1]);
            assert(pre.drop_last() == es.subrange(0, j - 1));
            if self.entries[j - 1].1 == id {
                return Some(self.entries[j - 1].0.clone());
            }
            j -= 1;
        }
        None
    }
}

fn vocab_from_json(vocab_json: &str) -> (r: Option<MarianVocab>)
    ensures
        match r {
            Some(v) => vocab_of_json(vocab_json@) == Some(v.entries()),
            None => vocab_of_json(vocab_json@) is None,
        },
{
    let parsed = match parse_json_object(vocab_json) {
        Some(p) => p,
        None => return None,
    };
    let ghost es = entry_views(parsed@);
    let mut entries: Vec<(String, i32)> = Vec::new();
    let mut i: usize = 0;
    assert(es.subrange(0, 0) =~= Seq::<(Seq<char>, JsonScalarView)>::empty());
    assert(vocab_views(entries@) =~= Seq::<(Seq<char>, i32)>::empty());
    while i < parsed.len()
        invariant
            i <= parsed.len(),
            es == entry_views(parsed@),
            json_object_entries(vocab_json@) == Some(es),
            distinct_keys(es),
            int32_table(es.subrange(0, i as int)) == Some(vocab_views(entries@)),
        decreases parsed.len() - i,
    {
        let ghost post = es.subrange(0, i + 1);
        assert(post.drop_last() == es.subrange(0, i as int));
        assert(post.last() == es[i as int]);
        match &parsed[i].1 {
            JsonScalar::Int(v) => {
                assert(es[i as int].1 == JsonScalarView::Int(*v));
                if *v < -2147483648i64 || *v > 2147483647i64 {
                    proof {
                        assert(int32_table(post) is None);
                        lemma_int32_none_extends(es, i as int + 1);
                    }
                    return None;
                }
                let ghost before = entries@;
                entries.push((parsed[i].0.clone(), *v as i32));
                assert(vocab_views(entries@) =~= vocab_views(before).push((es[i as int].0, *v as i32)));
            },
            _ => {
                proof {
                    assert(!(es[i as int].1 is Int));
                    assert(int32_table(post) is None);
                    lemma_int32_none_extends(es, i as int + 1);
                }
                return None;
            },
        }
        i += 1;
    }
    assert(es.subrange(0, es.len() as int) == es);
    proof {
        lemma_int32_table_keys(es);
        assert forall|a: int, b: int| 0 <= a < b < vocab_views(entries@).len() implies vocab_views(entries@)[a].0 != vocab_views(entries@)[b].0 by {
            assert(int32_table(es)->0[a].0 == es[a].0);
            assert(int32_table(es)->0[b].0 == es[b].0);
        }
    }
    Some(MarianVocab::from_entries(entries))
}

proof fn lemma_int32_none_extends(es: JsonEntries, k: int)
    requires
        0 <= k <= es.len(),
        int32_table(es.subrange(0, k)) is None,
    ensures
        int32_table(es) is None,
    decreases es.len() - k,
{
    if k < es.len() {
        assert(es.subrange(0, k + 1).drop_last() == es.subrange(0, k));
        lemma_int32_none_extends(es, k + 1);
    } else {
        assert(es.subrange(0, k) == es);
    }
}

impl MarianTokenizer {
    /// A tokenizer with the fixed special ids of the models: begin and end 0, padding
    /// 65000.
    pub fn from_vocab(vocab: MarianVocab, language_pair: LanguagePair) -> (r: Self)
        ensures
            r.vocab.entries() == vocab.entries(),
            r.bos_id == 0,
            r.eos_id == 0,
            r.pad_id == 65000,
            r.language_pair == language_pair,
    {
        MarianTokenizer { vocab, bos_id: 0, eos_id: 0, pad_id: 65000, language_pair }
    }

    /// The tokenizer of a model directory, given the contents of its `vocab.json`.
    pub fn from_model_dir(vocab_json: &str, language_pair: LanguagePair) -> (r: Result<Self, TokenizerError>)
        ensures
            match r {
                Ok(t) => vocab_of_json(vocab_json@) == Some(t.vocab.entries()) && t.bos_id == 0
                    && t.eos_id == 0 && t.pad_id == 65000 && t.language_pair == language_pair,
                Err(e) => vocab_of_json(vocab_json@) is None && e is InvalidTokenTable,
            },
    {
        match vocab_from_json(vocab_json) {
            Some(v) => Ok(Self::from_vocab(v, language_pair)),
            None => Err(TokenizerError::InvalidTokenTable),
        }
    }

    /// The tokenizer of the vocabulary file at `vocab_path`, given its contents; the
    /// language pair is read from the name of the directory holding the file, English
    /// to Chinese when that name does not give one.
    pub fn from_file(vocab_path: &str, vocab_json: &str) -> (r: Result<Self, TokenizerError>)
        ensures
            !paths::has_parent(vocab_path@) ==> r is Err && r->Err_0 is InvalidVocabPath,
            paths::has_parent(vocab_path@) ==> match r {
                Ok(t) => vocab_of_json(vocab_json@) == Some(t.vocab.entries()) && t.bos_id == 0
                    && t.eos_id == 0 && t.pad_id == 65000 && t.language_pair
                    == pair_for_vocab_path(vocab_path@),
                Err(e) => vocab_of_json(vocab_json@) is None && e is InvalidTokenTable,
            },
    {
        let (has_parent, parent_name) = paths::path_parent_file_name(vocab_path);
        if !has_parent {
            return Err(TokenizerError::InvalidVocabPath(vocab_path.to_string()));
        }
        let pair = match parent_name {
            Some(n) => {
                let s = string_of(&n);
                match LanguagePair::from_model_dir_name(s.as_str()) {
                    Ok(p) => p,
                    Err(_) => LanguagePair::new(LanguageCode::En, LanguageCode::Zh),
                }
            },
            None => LanguagePair::new(LanguageCode::En, LanguageCode::Zh),
        };
        Self::from_model_dir(vocab_json, pair)
    }

    /// The ids of the whitespace words of `text`: each word's `▁`-prefixed form if in the
    /// vocabulary, else the word itself, else the end id; framed by the begin and end ids
    /// when `add_special_tokens` is set.
    pub fn encode(&self, text: &str, add_special_tokens: bool) -> (r: Vec<i64>)
        ensures
            r@ == marian_encoding(self.vocab.entries(), text@, self.bos_id, self.eos_id, add_special_tokens),
    {
        let ghost es = self.vocab.entries();
        let v = to_chars(text);
        let words = split_words(&v);
        let ghost ws = words@.map_values(|w: Vec<char>| w@);
        let mut body: Vec<i64> = Vec::new();
        let mut i: usize = 0;
        assert(ws.subrange(0, 0) =~= Seq::<Seq<char>>::empty());
        while i < words.len()
            invariant
                i <= words.len(),
                es == self.vocab.entries(),
                ws == words@.map_values(|w: Vec<char>| w@),
                body@ == word_ids(es, ws.subrange(0, i as int), self.eos_id),
            decreases words.len() - i,
        {
            let ghost post = ws.subrange(0, i + 1);
            assert(post.drop_last() == ws.subrange(0, i as int));
            assert(post.last() == words@[i as int]@);
            let mut sp: Vec<char> = Vec::new();
            sp.push('\u{2581}');
            text::append_chars(&mut sp, &words[i]);
            assert(sp@ =~= seq![word_mark()] + words@[i as int]@);
            let id = match self.vocab.get(&sp) {
                Some(id) => id as i64,
                None => match self.vocab.get(&words[i]) {
                    Some(id) => id as i64,
                    None => self.eos_id as i64,
                },
            };
            body.push(id);
            i += 1;
        }
        assert(ws.subrange(0, ws.len() as int) == ws);
        if add_special_tokens {
            let mut out: Vec<i64> = Vec::new();
            out.push(self.bos_id as i64);
            let mut k: usize = 0;
            while k < body.len()
                invariant
                    k <= body.len(),
                    out@ == seq![self.bos_id as i64] + body@.subrange(0, k as int),
                decreases body.len() - k,
            {
                out.push(body[k]);
                assert(body@.subrange(0, k + 1) == body@.subrange(0, k as int).push(body@[k as int]));
                k += 1;
            }
            out.push(self.eos_id as i64);
            assert(body@.subrange(0, body@.len() as int) == body@);
            assert(out@ =~= seq![self.bos_id as i64] + body@ + seq![self.eos_id as i64]);
            out
        } else {
            body
        }
    }

    /// The text of `ids`: special ids skipped, each known id replaced by its token with
    /// `▁` read as a space, unknown ids dropped; the result is trimmed.
    pub fn decode(&self, ids: &[i64]) -> (r: String)
        ensures
            r@ == text::trim(marian_pieces(self.vocab.entries(), ids@, self.bos_id, self.eos_id, self.pad_id)),
    {
        let ghost es = self.vocab.entries();
        let mut out: Vec<char> = Vec::new();
        let mut i: usize = 0;
        assert(ids@.subrange(0, 0) =~= Seq::<i64>::empty());
        while i < ids.len()
            invariant
                i <= ids.len(),
                es == self.vocab.entries(),
                out@ == marian_pieces(es, ids@.subrange(0, i as int), self.bos_id, self.eos_id, self.pad_id),
            decreases ids.len() - i,
        {
            let ghost post = ids@.subrange(0, i + 1);
            assert(post.drop_last() == ids@.subrange(0, i as int));
            assert(post.last() == ids@[i as int]);
            let id32 = ids[i] as i32;
            if !(id32 == self.bos_id || id32 == self.eos_id || id32 == self.pad_id) {
                match self.vocab.token_for(id32) {
                    Some(tok) => {
                        let tv = to_chars(tok.as_str());
                        let ghost before = out@;
                        let mut k: usize = 0;
                        while k < tv.len()
                            invariant
                                k <= tv.len(),
                                out@ == before + mark_to_space(tv@.subrange(0, k as int)),
                            decreases tv.len() - k,
                        {
                            let c = tv[k];
                            out.push(if c == '\u{2581}' { ' ' } else { c });
                            assert(mark_to_space(tv@.subrange(0, k + 1)) =~= mark_to_space(tv@.subrange(0, k as int)).push(
                                if c == word_mark() { ' ' } else { c },
                            ));
                            k += 1;
                        }
                        assert(tv@.subrange(0, tv@.len() as int) == tv@);
                    },
                    None => {},
                }
            }
            i += 1;
        }
        assert(ids@.subrange(0, ids@.len() as int) == ids@);
        let t = trim_chars(&out);
        string_of(&t)
    }
}

// ---------------------------------------------------------------------------
// Round trip
// ---------------------------------------------------------------------------

/// A word the vocabulary knows as a word start: `▁w` has an id, that id names `▁w`
/// back, and it is none of the special ids.
pub open spec fn known_word(es: Seq<(Seq<char>, i32)>, w: Seq<char>, bos: i32, eos: i32, pad: i32) -> bool {
    match lookup(es, seq![word_mark()] + w) {
        Some(id) => token_of(es, id) == Some(seq![word_mark()] + w) && id != bos && id != eos && id != pad,
        None => false,
    }
}

/// The words, each after a space.
pub open spec fn spaced(ws: Seq<Seq<char>>) -> Seq<char>
    decreases ws.len(),
{
    if ws.len() == 0 {
        seq![]
    } else {
        spaced(ws.drop_last()) + seq![' '] + ws.last()
    }
}

proof fn lemma_pieces_append(es: Seq<(Seq<char>, i32)>, a: Seq<i64>, b: Seq<i64>, bos: i32, eos: i32, pad: i32)
    ensures
        marian_pieces(es, a + b, bos, eos, pad) == marian_pieces(es, a, bos, eos, pad) + marian_pieces(es, b, bos, eos, pad),
    decreases b.len(),
{
    if b.len() == 0 {
        assert(a + b =~= a);
    } else {
        assert((a + b).drop_last() =~= a + b.drop_last());
        assert((a + b).last() == b.last());
        lemma_pieces_append(es, a, b.drop_last(), bos, eos, pad);
    }
}

proof fn lemma_pieces_of_words(es: Seq<(Seq<char>, i32)>, ws: Seq<Seq<char>>, bos: i32, eos: i32, pad: i32)
    requires
        forall|i: int| 0 <= i < ws.len() ==> known_word(es, #[trigger] ws[i], bos, eos, pad),
        forall|i: int, k: int| 0 <= i < ws.len() && 0 <= k < ws[i].len() ==> (#[trigger] ws[i][k]) != word_mark(),
    ensures
        marian_pieces(es, word_ids(es, ws, eos), bos, eos, pad) == spaced(ws),
    decreases ws.len(),
{
    if ws.len() > 0 {
        let w = ws.last();
        assert(known_word(es, ws[ws.len() - 1], bos, eos, pad));
        lemma_pieces_of_words(es, ws.drop_last(), bos, eos, pad);
        let id = lookup(es, seq![word_mark()] + w)->0;
        let ids = word_ids(es, ws, eos);
        assert(ids.drop_last() == word_ids(es, ws.drop_last(), eos));
        assert(ids.last() == id as i64);
        assert((id as i64) as i32 == id);
        assert(mark_to_space(seq![word_mark()] + w) =~= seq![' '] + w) by {
            assert forall|k: int| 0 <= k < w.len() implies w[k] != word_mark() by {
                assert(ws[ws.len() - 1][k] != word_mark());
            }
        }
        assert(spaced(ws) == spaced(ws.drop_last()) + seq![' '] + w);
        assert(spaced(ws.drop_last()) + seq![' '] + w =~= spaced(ws.drop_last()) + (seq![' '] + w));
    }
}

pub(crate) proof fn lemma_spaced_join(ws: Seq<Seq<char>>)
    ensures
        ws.len() > 0 ==> spaced(ws) == seq![' '] + text::join(ws, seq![' ']),
        ws.len() == 0 ==> spaced(ws).len() == 0,
    decreases ws.len(),
{
    if ws.len() == 1 {
        assert(ws.drop_last().len() == 0);
        assert(spaced(ws) =~= seq![' '] + ws[0]);
    } else if ws.len() > 1 {
        lemma_spaced_join(ws.drop_last());
        assert(spaced(ws) =~= seq![' '] + (text::join(ws.drop_last(), seq![' ']) + seq![' '] + ws.last()));
    }
}

pub(crate) proof fn lemma_words_shape(s: Seq<char>)
    ensures
        forall|i: int| 0 <= i < text::words(s).len() ==> (#[trigger] text::words(s)[i]).len() > 0,
        forall|i: int, k: int|
            0 <= i < text::words(s).len() && 0 <= k < text::words(s)[i].len() ==> !text::is_ws(
                #[trigger] text::words(s)[i][k],
            ),
    decreases s.len(),
{
    if s.len() > 0 {
        lemma_words_shape(s.drop_last());
        let c = s.last();
        if !text::is_ws(c) && s.len() > 1 && !text::is_ws(s[s.len() - 2]) {
            assert(s.drop_last().last() == s[s.len() - 2]);
            text::lemma_words_nonempty_when_word_char(s.drop_last());
            let w = text::words(s.drop_last());
            assert forall|i: int, k: int|
                0 <= i < text::words(s).len() && 0 <= k < text::words(s)[i].len() implies !text::is_ws(
                #[trigger] text::words(s)[i][k],
            ) by {
                if i == w.len() - 1 && k == w.last().len() {
                } else if i == w.len() - 1 {
                    assert(text::words(s)[i][k] == w[i][k]);
                } else {
                    assert(text::words(s)[i] == w[i]);
                }
            }
        }
    }
}

proof fn lemma_join_ends(ws: Seq<Seq<char>>)
    requires
        ws.len() > 0,
        forall|i: int| 0 <= i < ws.len() ==> (#[trigger] ws[i]).len() > 0,
    ensures
        text::join(ws, seq![' ']).len() > 0,
        text::join(ws, seq![' '])[0] == ws[0][0],
        text::join(ws, seq![' ']).last() == ws.last().last(),
    decreases ws.len(),
{
    if ws.len() > 1 {
        lemma_join_ends(ws.drop_last());
        let j = text::join(ws.drop_last(), seq![' ']);
        assert(text::join(ws, seq![' ']) == j + seq![' '] + ws.last());
        assert(ws.drop_last()[0] == ws[0]);
        assert(ws.last().len() > 0) by {
            assert(ws[ws.len() - 1].len() > 0);
        }
    } else {
        assert(ws[0].len() > 0);
    }
}

/// The words of a text, each after a space, trimmed: the words one space apart.
pub(crate) proof fn lemma_trim_spaced_words(t: Seq<char>)
    ensures
        text::trim(spaced(text::words(t))) == text::join(text::words(t), seq![' ']),
{
    let ws = text::words(t);
    let p = spaced(ws);
    lemma_spaced_join(ws);
    if ws.len() == 0 {
        assert(p.len() == 0);
        assert(text::trim(p) =~= text::join(ws, seq![' ']));
    } else {
        lemma_words_shape(t);
        lemma_join_ends(ws);
        let j = text::join(ws, seq![' ']);
        assert(!text::is_ws(j[0])) by {
            assert(!text::is_ws(ws[0][0]));
        }
        assert(!text::is_ws(j.last())) by {
            assert(ws.last() == ws[ws.len() - 1]);
            assert(!text::is_ws(ws[ws.len() - 1][ws[ws.len() - 1].len() - 1]));
        }
        assert((seq![' '] + j).drop_first() =~= j);
        assert(text::is_ws(' '));
        assert(text::trim_start(seq![' '] + j) == text::trim_start(j));
        assert(text::trim_start(j) == j);
        assert(text::trim_end(j) == j);
    }
}

/// `MarianTokenizer::decode` of `MarianTokenizer::encode` gives back the words of the
/// text, one space apart, when the vocabulary knows every word as a word start under an
/// id of its own (none of the special ids) and no word holds the `▁` mark; with or
/// without the special tokens.
pub proof fn law_marian_roundtrip(es: Seq<(Seq<char>, i32)>, t: Seq<char>, bos: i32, eos: i32, pad: i32, special: bool)
    requires
        forall|i: int| 0 <= i < text::words(t).len() ==> known_word(es, #[trigger] text::words(t)[i], bos, eos, pad),
        forall|i: int, k: int|
            0 <= i < text::words(t).len() && 0 <= k < text::words(t)[i].len() ==> (#[trigger] text::words(t)[i][k])
                != word_mark(),
    ensures
        text::trim(marian_pieces(es, marian_encoding(es, t, bos, eos, special), bos, eos, pad)) == text::join(
            text::words(t),
            seq![' '],
        ),
{
    let ws = text::words(t);
    let body = word_ids(es, ws, eos);
    lemma_pieces_of_words(es, ws, bos, eos, pad);
    let p = marian_pieces(es, marian_encoding(es, t, bos, eos, special), bos, eos, pad);
    if special {
        let enc = seq![bos as i64] + body + seq![eos as i64];
        assert(enc.drop_last() =~= seq![bos as i64] + body);
        assert(((eos as i64) as i32) == eos);
        lemma_pieces_append(es, seq![bos as i64], body, bos, eos, pad);
        assert(seq![bos as i64].drop_last() =~= Seq::<i64>::empty());
        assert(marian_pieces(es, Seq::<i64>::empty(), bos, eos, pad) == Seq::<char>::empty());
        assert(seq![bos as i64].last() == bos as i64);
        assert(((bos as i64) as i32) == bos);
        assert(marian_pieces(es, seq![bos as i64], bos, eos, pad) == Seq::<char>::empty());
        assert(p =~= spaced(ws));
    }
    assert(p == spaced(ws));
    lemma_trim_spaced_words(t);
}

proof fn lemma_word_ids_len(es: Seq<(Seq<char>, i32)>, ws: Seq<Seq<char>>, fallback: i32)
    ensures
        word_ids(es, ws, fallback).len() == ws.len(),
        forall|i: int| 0 <= i < ws.len() ==> #[trigger] word_ids(es, ws, fallback)[i] == word_id(es, ws[i], fallback),
    decreases ws.len(),
{
    if ws.len() > 0 {
        lemma_word_ids_len(es, ws.drop_last(), fallback);
    }
}

/// `MarianTokenizer::encode` gives one id per whitespace word (that of `▁w`, else of
/// `w`, else the end id), framed by the begin and end ids when special tokens are
/// wanted.
pub proof fn law_marian_encoding_shape(es: Seq<(Seq<char>, i32)>, t: Seq<char>, bos: i32, eos: i32, special: bool)
    ensures
        ({
            let enc = marian_encoding(es, t, bos, eos, special);
            let ws = text::words(t);
            let off: int = if special { 1 } else { 0 };
            &&& enc.len() == ws.len() + 2 * off
            &&& special ==> enc[0] == bos as i64 && enc.last() == eos as i64
            &&& forall|i: int| 0 <= i < ws.len() ==> #[trigger] enc[i + off] == word_id(es, ws[i], eos)
        }),
{
    let ws = text::words(t);
    lemma_word_ids_len(es, ws, eos);
    let enc = marian_encoding(es, t, bos, eos, special);
    let body = word_ids(es, ws, eos);
    if special {
        assert forall|i: int| 0 <= i < ws.len() implies #[trigger] enc[i + 1] == word_id(es, ws[i], eos) by {
            assert(enc[i + 1] == body[i]);
        }
    }
}

/// Each word is encoded by the vocabulary: the id of its `▁`-prefixed form when that is
/// in the vocabulary, else the id of the word itself when that is, else the end id.
pub proof fn law_marian_word_lookup(es: Seq<(Seq<char>, i32)>, t: Seq<char>, bos: i32, eos: i32, special: bool)
    ensures
        ({
            let enc = marian_encoding(es, t, bos, eos, special);
            let ws = text::words(t);
            let off: int = if special { 1 } else { 0 };
            forall|i: int|
                0 <= i < ws.len() ==> {
                    let w = ws[i];
                    let marked = lookup(es, seq![word_mark()] + w);
                    &&& marked is Some ==> #[trigger] enc[i + off] == marked->0 as i64
                    &&& marked is None && lookup(es, w) is Some ==> enc[i + off] == lookup(es, w)->0 as i64
                    &&& marked is None && lookup(es, w) is None ==> enc[i + off] == eos as i64
                }
        }),
{
    law_marian_encoding_shape(es, t, bos, eos, special);
    let enc = marian_encoding(es, t, bos, eos, special);
    let ws = text::words(t);
    let off: int = if special { 1 } else { 0 };
    assert forall|i: int| 0 <= i < ws.len() implies {
        let w = ws[i];
        let marked = lookup(es, seq![word_mark()] + w);
        &&& marked is Some ==> #[trigger] enc[i + off] == marked->0 as i64
        &&& marked is None && lookup(es, w) is Some ==> enc[i + off] == lookup(es, w)->0 as i64
        &&& marked is None && lookup(es, w) is None ==> enc[i + off] == eos as i64
    } by {
        lemma_word_ids_len(es, ws, eos);
        let body = word_ids(es, ws, eos);
        assert(body[i] == word_id(es, ws[i], eos));
        if special {
            assert(enc == seq![bos as i64] + body + seq![eos as i64]);
            assert(enc[i + 1] == body[i]);
        } else {
            assert(enc == body);
        }
    }
}

} // verus!
