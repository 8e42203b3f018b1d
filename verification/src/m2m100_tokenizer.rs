//! The M2M100 tokenizer: greedy longest-match SentencePiece segmentation over the
//! vocabulary, with a language token in front.
use vstd::prelude::*;
use crate::text;
use crate::text::{string_of, to_chars, trim_chars, is_whitespace, char_utf8_len};
use crate::json::{distinct_keys, entry_views, json_object_entries, parse_json_object, JsonEntries, JsonScalar, JsonScalarView};
use crate::marian_tokenizer::{lookup, token_of, mark_to_space, spaced, word_mark, TokenizerError};
use crate::trie::{PieceTrie, longest_match, lemma_longest_match, lemma_lookup_push, lemma_lookup_none};

verus! {

/// The M2M100 tokenizer.
pub struct M2M100Tokenizer {
    /// Token strings and their ids, no token twice.
    vocab: Vec<(String, i64)>,
    /// The token of each id (empty where no token has that id).
    id_to_piece: Vec<String>,
    /// The pieces usable in a match.
    trie: PieceTrie,
    /// Language codes and their token ids.
    lang_id_map: Vec<(String, i64)>,
    /// The ids of the language tokens.
    lang_token_ids: Vec<i64>,
    pad_token_id: i64,
    eos_token_id: i64,
    unk_token_id: i64,
}

// ---------------------------------------------------------------------------
// Specification
// ---------------------------------------------------------------------------

pub open spec fn pair_views(v: Seq<(String, i64)>) -> Seq<(Seq<char>, i64)> {
    v.map_values(|p: (String, i64)| (p.0@, p.1))
}

pub open spec fn string_views(v: Seq<String>) -> Seq<Seq<char>> {
    v.map_values(|s: String| s@)
}

/// Pieces that never take part in a match: empty, `<…>` control tokens and `__…__`
/// language tokens.
pub open spec fn skip_piece(p: Seq<char>) -> bool {
    ||| p.len() == 0
    ||| (text::starts_with(p, seq!['<']) && text::ends_with(p, seq!['>']))
    ||| (text::starts_with(p, seq!['_', '_']) && text::ends_with(p, seq!['_', '_']))
}

/// The vocabulary entries usable in a match, in order.
pub open spec fn match_pieces(es: Seq<(Seq<char>, i64)>) -> Seq<(Seq<char>, i64)>
    decreases es.len(),
{
    if es.len() == 0 {
        seq![]
    } else if skip_piece(es.last().0) {
        match_pieces(es.drop_last())
    } else {
        match_pieces(es.drop_last()).push(es.last())
    }
}

/// Whitespace removed and `▁` put before every word; `▁` alone for blank text.
pub open spec fn normalized_prefix(t: Seq<char>) -> Seq<char>
    decreases t.len(),
{
    if t.len() == 0 {
        seq![]
    } else {
        let r = normalized_prefix(t.drop_last());
        let c = t.last();
        if text::is_ws(c) {
            r
        } else if t.len() == 1 || text::is_ws(t[t.len() - 2]) {
            r.push('\u{2581}').push(c)
        } else {
            r.push(c)
        }
    }
}

pub open spec fn normalized(t: Seq<char>) -> Seq<char> {
    let r = normalized_prefix(t);
    if r.len() == 0 {
        seq!['\u{2581}']
    } else {
        r
    }
}

/// The id of a character with no longer piece: its one-character token, else `unk`.
pub open spec fn fallback_id(es: Seq<(Seq<char>, i64)>, c: char, unk: i64) -> i64 {
    match lookup(es, seq![c]) {
        Some(id) => id,
        None => unk,
    }
}

/// Greedy segmentation of `s[pos..]`: the longest matching piece, else one character.
pub open spec fn segment_from(es: Seq<(Seq<char>, i64)>, s: Seq<char>, pos: int, unk: i64) -> Seq<i64>
    decreases s.len() - pos,
{
    if pos < 0 || pos >= s.len() {
        seq![]
    } else {
        match longest_match(match_pieces(es), s, pos) {
            Some(m) => {
                proof {
                    lemma_longest_match(match_pieces(es), s, pos);
                }
                seq![m.1] + segment_from(es, s, pos + m.0, unk)
            },
            None => seq![fallback_id(es, s[pos], unk)] + segment_from(es, s, pos + 1, unk),
        }
    }
}

/// What `encode` yields: the language id, the segmentation of the normalized text, and
/// the end id when special tokens are wanted.
pub open spec fn m2m_encoding(es: Seq<(Seq<char>, i64)>, lang: i64, t: Seq<char>, unk: i64, eos: i64, special: bool) -> Seq<i64> {
    let body = seq![lang] + segment_from(es, normalized(t), 0, unk);
    if special {
        body.push(eos)
    } else {
        body
    }
}

/// The pieces of `ids` joined, special ids left out when `skip` is set.
pub open spec fn m2m_pieces(itp: Seq<Seq<char>>, ids: Seq<i64>, skip: bool, pad: i64, eos: i64, langs: Seq<i64>) -> Seq<char>
    decreases ids.len(),
{
    if ids.len() == 0 {
        seq![]
    } else {
        let rest = m2m_pieces(itp, ids.drop_last(), skip, pad, eos, langs);
        let id = ids.last();
        if skip && (id == pad || id == eos || langs.contains(id)) {
            rest
        } else if (id as usize) < itp.len() {
            rest + itp[(id as usize) as int]
        } else {
            rest
        }
    }
}

/// The largest id of the vocabulary, 0 for an empty one.
pub open spec fn max_id(es: Seq<(Seq<char>, i64)>) -> i64
    decreases es.len(),
{
    if es.len() == 0 {
        0
    } else {
        let m = max_id(es.drop_last());
        if es.last().1 > m {
            es.last().1
        } else {
            m
        }
    }
}

/// The id-to-token table: one slot per id up to the largest, empty where no token has
/// that id.
pub open spec fn piece_table(es: Seq<(Seq<char>, i64)>) -> Seq<Seq<char>> {
    Seq::new(
        (max_id(es) + 1) as nat,
        |i: int|
            match token_of(es, i as i64) {
                Some(t) => t,
                None => seq![],
            },
    )
}

/// `__xx__`-style language tokens of 6 to 8 bytes, whose code has 2 or 3 bytes.
pub open spec fn lang_code_of(token: Seq<char>) -> Option<Seq<char>> {
    let n = text::byte_len(token);
    if text::starts_with(token, seq!['_', '_']) && text::ends_with(token, seq!['_', '_']) && 6 <= n
        <= 8 {
        let code = token.subrange(2, token.len() - 2);
        if 2 <= text::byte_len(code) <= 3 {
            Some(code)
        } else {
            None
        }
    } else {
        None
    }
}

/// The language codes found among the vocabulary tokens, with their ids.
pub open spec fn vocab_lang_ids(es: Seq<(Seq<char>, i64)>) -> Seq<(Seq<char>, i64)>
    decreases es.len(),
{
    if es.len() == 0 {
        seq![]
    } else {
        let rest = vocab_lang_ids(es.drop_last());
        match lang_code_of(es.last().0) {
            Some(code) => rest.push((code, es.last().1)),
            None => rest,
        }
    }
}

/// A JSON token table whose values are all integers.
pub open spec fn int_table(es: JsonEntries) -> Option<Seq<(Seq<char>, i64)>>
    decreases es.len(),
{
    if es.len() == 0 {
        Some(seq![])
    } else {
        match int_table(es.drop_last()) {
            Some(rest) => match es.last().1 {
                JsonScalarView::Int(i) => Some(rest.push((es.last().0, i))),
                _ => None,
            },
            None => None,
        }
    }
}

pub open spec fn json_int_table(json: Seq<char>) -> Option<Seq<(Seq<char>, i64)>> {
    match json_object_entries(json) {
        Some(es) => int_table(es),
        None => None,
    }
}

/// The language table: codes found in the vocabulary; otherwise those of `lang_ids.json`
/// when it is a valid table; otherwise English and Chinese with their usual ids.
pub open spec fn language_table(es: Seq<(Seq<char>, i64)>, lang_ids_json: Option<Seq<char>>) -> Seq<(Seq<char>, i64)> {
    let v = vocab_lang_ids(es);
    let f = if v.len() == 0 {
        match lang_ids_json {
            Some(j) => match json_int_table(j) {
                Some(t) => t,
                None => seq![],
            },
            None => seq![],
        }
    } else {
        v
    };
    if f.len() == 0 {
        seq![(seq!['e', 'n'], 128022i64), (seq!['z', 'h'], 128102i64)]
    } else {
        f
    }
}

/// A configuration field: `Some(None)` when absent or null, `Some(Some(s))` for a
/// string, `None` for any other value (the configuration is then unreadable).
pub open spec fn config_field(es: JsonEntries, key: Seq<char>) -> Option<Option<Seq<char>>> {
    match lookup(es, key) {
        None => Some(None),
        Some(JsonScalarView::Null) => Some(None),
        Some(JsonScalarView::Str(s)) => Some(Some(s)),
        Some(_) => None,
    }
}

/// The special token names of `tokenizer_config.json`: pad, end and unknown, with the
/// defaults `<pad>`, `</s>`, `<unk>` for absent fields or an unreadable file.
pub open spec fn special_names(config_json: Option<Seq<char>>) -> (Seq<char>, Seq<char>, Seq<char>) {
    let dflt = ("<pad>"@, "</s>"@, "<unk>"@);
    match config_json {
        None => dflt,
        Some(j) => match json_object_entries(j) {
            None => dflt,
            Some(es) => {
                let b = config_field(es, "bos_token"@);
                let e = config_field(es, "eos_token"@);
                let p = config_field(es, "pad_token"@);
                let u = config_field(es, "unk_token"@);
                if b is None || e is None || p is None || u is None {
                    dflt
                } else {
                    (
                        match p->0 { Some(s) => s, None => "<pad>"@ },
                        match e->0 { Some(s) => s, None => "</s>"@ },
                        match u->0 { Some(s) => s, None => "<unk>"@ },
                    )
                }
            },
        },
    }
}

/// The id of a special token name, with the given default when not in the vocabulary.
pub open spec fn special_id(es: Seq<(Seq<char>, i64)>, name: Seq<char>, dflt: i64) -> i64 {
    match lookup(es, name) {
        Some(id) => id,
        None => dflt,
    }
}

/// Ids the id-to-token table can index: non-negative, with a slot count that fits in
/// `usize`.
pub open spec fn ids_in_range(es: Seq<(Seq<char>, i64)>) -> bool {
    forall|i: int| 0 <= i < es.len() ==> 0 <= (#[trigger] es[i]).1 < usize::MAX
}

pub open spec fn total_len(es: Seq<(Seq<char>, i64)>) -> nat
    decreases es.len(),
{
    if es.len() == 0 {
        0
    } else {
        total_len(es.drop_last()) + es.last().0.len()
    }
}

// ---------------------------------------------------------------------------
// Lemmas
// ---------------------------------------------------------------------------

proof fn lemma_match_pieces_sub(es: Seq<(Seq<char>, i64)>)
    ensures
        forall|k: int| 0 <= k < match_pieces(es).len() ==> exists|j: int| 0 <= j < es.len() && #[trigger] match_pieces(es)[k] == es[j],
        forall|k: int| 0 <= k < match_pieces(es).len() ==> !skip_piece(#[trigger] match_pieces(es)[k].0),
    decreases es.len(),
{
    if es.len() > 0 {
        lemma_match_pieces_sub(es.drop_last());
        let d = es.drop_last();
        assert forall|k: int| 0 <= k < match_pieces(es).len() implies exists|j: int| 0 <= j < es.len() && #[trigger] match_pieces(es)[k] == es[j] by {
            if k < match_pieces(d).len() {
                let j = choose|j: int| 0 <= j < d.len() && #[trigger] match_pieces(d)[k] == d[j];
                assert(es[j] == d[j]);
            } else {
                assert(match_pieces(es)[k] == es[es.len() - 1]);
            }
        }
    }
}

proof fn lemma_lookup_prefix_none(es: Seq<(Seq<char>, i64)>, i: int)
    requires
        0 <= i < es.len(),
        distinct_keys(es),
    ensures
        lookup(match_pieces(es.subrange(0, i)), es[i].0) is None,
{
    let pre = es.subrange(0, i);
    lemma_match_pieces_sub(pre);
    assert forall|k: int| 0 <= k < match_pieces(pre).len() implies (#[trigger] match_pieces(pre)[k]).0 != es[i].0 by {
        let j = choose|j: int| 0 <= j < pre.len() && #[trigger] match_pieces(pre)[k] == pre[j];
        assert(pre[j] == es[j]);
    }
    lemma_lookup_none(match_pieces(pre), es[i].0);
}

proof fn lemma_total_len_prefix(es: Seq<(Seq<char>, i64)>, i: int)
    requires
        0 <= i <= es.len(),
    ensures
        total_len(es.subrange(0, i)) <= total_len(es),
    decreases es.len() - i,
{
    if i < es.len() {
        lemma_total_len_prefix(es, i + 1);
        assert(es.subrange(0, i + 1).drop_last() == es.subrange(0, i));
    } else {
        assert(es.subrange(0, i) == es);
    }
}

// ---------------------------------------------------------------------------
// Implementation helpers
// ---------------------------------------------------------------------------

fn chars_of(s: &String) -> (r: Vec<char>)
    ensures
        r@ == s@,
{
    to_chars(s.as_str())
}

fn lookup_exec(es: &Vec<(String, i64)>, key: &Vec<char>) -> (r: Option<i64>)
    ensures
        r == lookup(pair_views(es@), key@),
{
    let ghost v = pair_views(es@);
    let mut j: usize = es.len();
    assert(v.subrange(0, v.len() as int) == v);
    while j > 0
        invariant
            j <= es.len(),
            v == pair_views(es@),
            lookup(v, key@) == lookup(v.subrange(0, j as int), key@),
        decreases j,
    {
        let ghost pre = v.subrange(0, j as int);
        assert(pre.last() == v[j - 1]);
        assert(pre.drop_last() == v.subrange(0, j - 1));
        let k = chars_of(&es[j - 1].0);
        if text::chars_eq(&k, key) {
            return Some(es[j - 1].1);
        }
        j -= 1;
    }
    None
}

fn is_skip_piece(p: &Vec<char>) -> (r: bool)
    ensures
        r == skip_piece(p@),
{
    if p.len() == 0 {
        return true;
    }
    let mut lt: Vec<char> = Vec::new();
    lt.push('<');
    let mut gt: Vec<char> = Vec::new();
    gt.push('>');
    let mut us: Vec<char> = Vec::new();
    us.push('_');
    us.push('_');
    assert(lt@ =~= seq!['<']);
    assert(gt@ =~= seq!['>']);
    assert(us@ =~= seq!['_', '_']);
    (text::starts_with_exec(p, &lt) && text::ends_with_exec(p, &gt)) || (text::starts_with_exec(p, &us)
        && text::ends_with_exec(p, &us))
}

/// The normalized characters of `text`.
fn normalize_text(text: &str) -> (r: Vec<char>)
    ensures
        r@ == normalized(text@),
{
    let v = to_chars(text);
    let mut out: Vec<char> = Vec::new();
    let mut i: usize = 0;
    assert(v@.subrange(0, 0) =~= Seq::<char>::empty());
    while i < v.len()
        invariant
            i <= v.len(),
            out@ == normalized_prefix(v@.subrange(0, i as int)),
        decreases v.len() - i,
    {
        let ghost post = v@.subrange(0, i + 1);
        assert(post.drop_last() == v@.subrange(0, i as int));
        assert(post.last() == v@[i as int]);
        let c = v[i];
        if is_whitespace(c) {
        } else if i == 0 || is_whitespace(v[i - 1]) {
            proof {
                if i > 0 {
                    assert(post[post.len() - 2] == v@[i - 1]);
                }
            }
            out.push('\u{2581}');
            out.push(c);
        } else {
            assert(post[post.len() - 2] == v@[i - 1]);
            out.push(c);
        }
        i += 1;
    }
    assert(v@.subrange(0, v@.len() as int) == v@);
    if out.len() == 0 {
        out.push('\u{2581}');
        assert(out@ =~= seq!['\u{2581}']);
    }
    out
}

fn byte_len_exec(v: &Vec<char>, lo: usize, hi: usize) -> (n: usize)
    requires
        lo <= hi <= v.len(),
        hi - lo <= 16,
    ensures
        n == text::byte_len(v@.subrange(lo as int, hi as int)),
{
    let mut n: usize = 0;
    let mut i: usize = lo;
    assert(v@.subrange(lo as int, lo as int) =~= Seq::<char>::empty());
    while i < hi
        invariant
            lo <= i <= hi <= v.len(),
            hi - lo <= 16,
            n == text::byte_len(v@.subrange(lo as int, i as int)),
            n <= 4 * (i - lo),
        decreases hi - i,
    {
        assert(v@.subrange(lo as int, i + 1).drop_last() == v@.subrange(lo as int, i as int));
        n = n + char_utf8_len(v[i]);
        i += 1;
    }
    n
}

fn lang_code_exec(token: &Vec<char>) -> (r: Option<Vec<char>>)
    ensures
        match r {
            Some(c) => lang_code_of(token@) == Some(c@),
            None => lang_code_of(token@) is None,
        },
{
    let mut us: Vec<char> = Vec::new();
    us.push('_');
    us.push('_');
    assert(us@ =~= seq!['_', '_']);
    if !(text::starts_with_exec(token, &us) && text::ends_with_exec(token, &us)) {
        return None;
    }
    if token.len() > 8 {
        proof {
            lemma_byte_len_ge_len(token@);
        }
        return None;
    }
    if token.len() < 4 {
        proof {
            lemma_short_underscores(token@);
        }
        return None;
    }
    assert(token@.subrange(0, token@.len() as int) == token@);
    let n = byte_len_exec(token, 0, token.len());
    if n < 6 || n > 8 {
        return None;
    }
    let code = text::copy_range(token, 2, token.len() - 2);
    let cn = byte_len_exec(token, 2, token.len() - 2);
    if cn < 2 || cn > 3 {
        return None;
    }
    Some(code)
}

proof fn lemma_short_underscores(t: Seq<char>)
    requires
        t.len() < 4,
        text::starts_with(t, seq!['_', '_']),
        text::ends_with(t, seq!['_', '_']),
    ensures
        text::byte_len(t) < 6,
{
    let us = seq!['_', '_'];
    assert(t.subrange(0, 2) == us);
    assert(t.subrange(t.len() - 2, t.len() as int) == us);
    assert(t[0] == t.subrange(0, 2)[0]);
    assert(t[1] == t.subrange(0, 2)[1]);
    assert(t[t.len() - 1] == t.subrange(t.len() - 2, t.len() as int)[1]);
    assert(t[0] == '_' && t[1] == '_' && t[t.len() - 1] == '_');
    let d1 = t.drop_last();
    let d2 = d1.drop_last();
    assert(text::utf8_len('_') == 1);
    if t.len() == 3 {
        let d3 = d2.drop_last();
        assert(d3.len() == 0);
        assert(d2.last() == t[0]);
        assert(d1.last() == t[1]);
        assert(text::byte_len(d3) == 0);
        assert(text::byte_len(d2) == 1);
        assert(text::byte_len(d1) == 2);
    } else {
        assert(d2.len() == 0);
        assert(d1.last() == t[0]);
        assert(text::byte_len(d2) == 0);
        assert(text::byte_len(d1) == 1);
    }
}

proof fn lemma_byte_len_ge_len(s: Seq<char>)
    ensures
        text::byte_len(s) >= s.len(),
    decreases s.len(),
{
    if s.len() > 0 {
        lemma_byte_len_ge_len(s.drop_last());
    }
}

/// The integer table of a JSON object, `None` unless every value is an integer.
fn int_table_of_json(json: &str) -> (r: Option<Vec<(String, i64)>>)
    ensures
        match r {
            Some(v) => json_int_table(json@) == Some(pair_views(v@)) && distinct_keys(pair_views(v@)),
            None => json_int_table(json@) is None,
        },
{
    let parsed = match parse_json_object(json) {
        Some(p) => p,
        None => return None,
    };
    let ghost es = entry_views(parsed@);
    let mut out: Vec<(String, i64)> = Vec::new();
    let mut i: usize = 0;
    assert(es.subrange(0, 0) =~= Seq::<(Seq<char>, JsonScalarView)>::empty());
    assert(pair_views(out@) =~= Seq::<(Seq<char>, i64)>::empty());
    while i < parsed.len()
        invariant
            i <= parsed.len(),
            es == entry_views(parsed@),
            json_object_entries(json@) == Some(es),
            distinct_keys(es),
            int_table(es.subrange(0, i as int)) == Some(pair_views(out@)),
            pair_views(out@).len() == i,
            forall|k: int| 0 <= k < i ==> (#[trigger] pair_views(out@)[k]).0 == es[k].0,
        decreases parsed.len() - i,
    {
        let ghost post = es.subrange(0, i + 1);
        assert(post.drop_last() == es.subrange(0, i as int));
        assert(post.last() == es[i as int]);
        match &parsed[i].1 {
            JsonScalar::Int(v) => {
                let ghost before = out@;
                out.push((parsed[i].0.clone(), *v));
                assert(pair_views(out@) =~= pair_views(before).push((es[i as int].0, *v)));
            },
            _ => {
                proof {
                    assert(!(es[i as int].1 is Int));
                    assert(int_table(post) is None);
                    lemma_int_table_none_extends(es, i as int + 1);
                }
                return None;
            },
        }
        i += 1;
    }
    assert(es.subrange(0, es.len() as int) == es);
    Some(out)
}

proof fn lemma_int_table_none_extends(es: JsonEntries, k: int)
    requires
        0 <= k <= es.len(),
        int_table(es.subrange(0, k)) is None,
    ensures
        int_table(es) is None,
    decreases es.len() - k,
{
    if k < es.len() {
        assert(es.subrange(0, k + 1).drop_last() == es.subrange(0, k));
        lemma_int_table_none_extends(es, k + 1);
    } else {
        assert(es.subrange(0, k) == es);
    }
}

pub(crate) fn scalar_lookup<'a>(es: &'a Vec<(String, JsonScalar)>, key: &str) -> (r: Option<&'a JsonScalar>)
    ensures
        match r {
            Some(v) => lookup(entry_views(es@), key@) == Some(v@),
            None => lookup(entry_views(es@), key@) is None,
        },
{
    let ghost v = entry_views(es@);
    let kv = to_chars(key);
    let mut j: usize = es.len();
    assert(v.subrange(0, v.len() as int) == v);
    while j > 0
        invariant
            j <= es.len(),
            v == entry_views(es@),
            kv@ == key@,
            lookup(v, key@) == lookup(v.subrange(0, j as int), key@),
        decreases j,
    {
        let ghost pre = v.subrange(0, j as int);
        assert(pre.last() == v[j - 1]);
        assert(pre.drop_last() == v.subrange(0, j - 1));
        let k = chars_of(&es[j - 1].0);
        if text::chars_eq(&k, &kv) {
            return Some(&es[j - 1].1);
        }
        j -= 1;
    }
    None
}

/// A configuration field, as in [`config_field`].
fn config_field_exec(es: &Vec<(String, JsonScalar)>, key: &str) -> (r: Option<Option<String>>)
    ensures
        match r {
            None => config_field(entry_views(es@), key@) is None,
            Some(None) => config_field(entry_views(es@), key@) == Some(None::<Seq<char>>),
            Some(Some(s)) => config_field(entry_views(es@), key@) == Some(Some(s@)),
        },
{
    match scalar_lookup(es, key) {
        None => Some(None),
        Some(JsonScalar::Null) => Some(None),
        Some(JsonScalar::Str(s)) => Some(Some(s.clone())),
        Some(_) => None,
    }
}

/// The special token names read from `tokenizer_config.json`.
fn special_names_exec(config_json: Option<&str>) -> (r: (String, String, String))
    ensures
        (r.0@, r.1@, r.2@) == special_names(match config_json {
            Some(j) => Some(j@),
            None => None,
        }),
{
    let pad = "<pad>".to_string();
    let eos = "</s>".to_string();
    let unk = "<unk>".to_string();
    let j = match config_json {
        Some(j) => j,
        None => return (pad, eos, unk),
    };
    let es = match parse_json_object(j) {
        Some(es) => es,
        None => return (pad, eos, unk),
    };
    let b = config_field_exec(&es, "bos_token");
    let e = config_field_exec(&es, "eos_token");
    let p = config_field_exec(&es, "pad_token");
    let u = config_field_exec(&es, "unk_token");
    match (b, e, p, u) {
        (Some(_), Some(e), Some(p), Some(u)) => {
            let p = match p {
                Some(s) => s,
                None => pad,
            };
            let e = match e {
                Some(s) => s,
                None => eos,
            };
            let u = match u {
                Some(s) => s,
                None => unk,
            };
            (p, e, u)
        },
        _ => (pad, eos, unk),
    }
}

// ---------------------------------------------------------------------------
// The tokenizer
// ---------------------------------------------------------------------------

impl M2M100Tokenizer {
    /// The vocabulary entries.
    pub closed spec fn vocab(&self) -> Seq<(Seq<char>, i64)> {
        pair_views(self.vocab@)
    }

    /// The language table.
    pub closed spec fn languages(&self) -> Seq<(Seq<char>, i64)> {
        pair_views(self.lang_id_map@)
    }

    /// The id-to-token table.
    pub closed spec fn pieces(&self) -> Seq<Seq<char>> {
        string_views(self.id_to_piece@)
    }

    /// The ids of the language tokens.
    pub closed spec fn language_ids(&self) -> Seq<i64> {
        self.lang_token_ids@
    }

    pub closed spec fn pad(&self) -> i64 {
        self.pad_token_id
    }

    pub closed spec fn eos(&self) -> i64 {
        self.eos_token_id
    }

    pub closed spec fn unk(&self) -> i64 {
        self.unk_token_id
    }

    #[verifier::type_invariant]
    closed spec fn inv(&self) -> bool {
        &&& self.trie.wf()
        &&& self.trie.pieces() == match_pieces(pair_views(self.vocab@))
    }

    /// The tokenizer of a vocabulary (no token twice, ids non-negative and below `usize::MAX`), a
    /// language table and the special token names (pad, end, unknown).  Fails only when
    /// the pieces together are too long to index.
    pub fn from_parts(
        vocab: Vec<(String, i64)>,
        languages: Vec<(String, i64)>,
        pad_token: &str,
        eos_token: &str,
        unk_token: &str,
    ) -> (r: Result<Self, TokenizerError>)
        requires
            distinct_keys(pair_views(vocab@)),
            ids_in_range(pair_views(vocab@)),
        ensures
            match r {
                Ok(t) => {
                    &&& t.vocab() == pair_views(vocab@)
                    &&& t.languages() == pair_views(languages@)
                    &&& t.language_ids() == pair_views(languages@).map_values(|p: (Seq<char>, i64)| p.1)
                    &&& t.pieces() == piece_table(pair_views(vocab@))
                    &&& t.pad() == special_id(pair_views(vocab@), pad_token@, 1)
                    &&& t.eos() == special_id(pair_views(vocab@), eos_token@, 2)
                    &&& t.unk() == special_id(pair_views(vocab@), unk_token@, 3)
                },
                Err(e) => e is InvalidTokenTable && total_len(pair_views(vocab@)) + 1 >= usize::MAX,
            },
    {
        let ghost es = pair_views(vocab@);
        // Id-to-token table.
        let mut maxv: i64 = 0;
        let mut i: usize = 0;
        assert(es.subrange(0, 0) =~= Seq::<(Seq<char>, i64)>::empty());
        while i < vocab.len()
            invariant
                i <= vocab.len(),
                es == pair_views(vocab@),
                ids_in_range(es),
                maxv == max_id(es.subrange(0, i as int)),
                0 <= maxv < usize::MAX,
            decreases vocab.len() - i,
        {
            let ghost post = es.subrange(0, i + 1);
            assert(post.drop_last() == es.subrange(0, i as int));
            assert(post.last() == es[i as int]);
            if vocab[i].1 > maxv {
                maxv = vocab[i].1;
            }
            i += 1;
        }
        assert(es.subrange(0, es.len() as int) == es);
        let size = (maxv as usize) + 1;
        let mut table: Vec<String> = Vec::new();
        let mut k: usize = 0;
        while k < size
            invariant
                k <= size,
                table@.len() == k,
                forall|q: int| 0 <= q < k ==> (#[trigger] table@[q])@ == Seq::<char>::empty(),
            decreases size - k,
        {
            table.push(String::new());
            k += 1;
        }
        let ghost empty_table = string_views(table@);
        i = 0;
        assert(es.subrange(0, 0) =~= Seq::<(Seq<char>, i64)>::empty());
        while i < vocab.len()
            invariant
                i <= vocab.len(),
                es == pair_views(vocab@),
                ids_in_range(es),
                maxv == max_id(es),
                size == maxv + 1,
                table@.len() == size,
                forall|q: int| 0 <= q < size ==> (#[trigger] string_views(table@)[q]) == match token_of(
                    es.subrange(0, i as int),
                    q as i64,
                ) {
                    Some(t) => t,
                    None => Seq::<char>::empty(),
                },
            decreases vocab.len() - i,
        {
            let ghost post = es.subrange(0, i + 1);
            assert(post.drop_last() == es.subrange(0, i as int));
            assert(post.last() == es[i as int]);
            proof {
                lemma_max_id_bound(es, i as int);
            }
            let id = vocab[i].1 as usize;
            let piece = vocab[i].0.clone();
            let ghost before = table@;
            table.set(id, piece);
            assert forall|q: int| 0 <= q < size implies (#[trigger] string_views(table@)[q]) == match token_of(
                post,
                q as i64,
            ) {
                Some(t) => t,
                None => Seq::<char>::empty(),
            } by {
                if q != id as int {
                    assert(table@[q] == before[q]);
                    assert(string_views(table@)[q] == string_views(before)[q]);
                }
            }
            i += 1;
        }
        assert(es.subrange(0, es.len() as int) == es);
        assert(string_views(table@) =~= piece_table(es));
        // Trie of the matchable pieces.
        let mut trie = PieceTrie::new();
        i = 0;
        while i < vocab.len()
            invariant
                i <= vocab.len(),
                es == pair_views(vocab@),
                distinct_keys(es),
                trie.wf(),
                trie.pieces() == match_pieces(es.subrange(0, i as int)),
                trie.node_count() <= 1 + total_len(es.subrange(0, i as int)),
            decreases vocab.len() - i,
        {
            let ghost post = es.subrange(0, i + 1);
            assert(post.drop_last() == es.subrange(0, i as int));
            assert(post.last() == es[i as int]);
            let piece = chars_of(&vocab[i].0);
            if !is_skip_piece(&piece) {
                proof {
                    lemma_lookup_prefix_none(es, i as int);
                }
                if trie.num_nodes() >= usize::MAX - piece.len() {
                    proof {
                        lemma_total_len_prefix(es, i + 1);
                    }
                    return Err(TokenizerError::InvalidTokenTable);
                }
                trie.insert(&piece, vocab[i].1);
            }
            i += 1;
        }
        assert(es.subrange(0, es.len() as int) == es);
        // Language ids.
        let mut ids: Vec<i64> = Vec::new();
        let ghost ls = pair_views(languages@);
        i = 0;
        while i < languages.len()
            invariant
                i <= languages.len(),
                ls == pair_views(languages@),
                ids@ == ls.subrange(0, i as int).map_values(|p: (Seq<char>, i64)| p.1),
            decreases languages.len() - i,
        {
            ids.push(languages[i].1);
            assert(ls.subrange(0, i + 1).map_values(|p: (Seq<char>, i64)| p.1) =~= ls.subrange(0, i as int).map_values(
                |p: (Seq<char>, i64)| p.1,
            ).push(ls[i as int].1));
            i += 1;
        }
        assert(ls.subrange(0, ls.len() as int) == ls);
        let pv = to_chars(pad_token);
        let ev = to_chars(eos_token);
        let uv = to_chars(unk_token);
        let pad_token_id = match lookup_exec(&vocab, &pv) {
            Some(id) => id,
            None => 1,
        };
        let eos_token_id = match lookup_exec(&vocab, &ev) {
            Some(id) => id,
            None => 2,
        };
        let unk_token_id = match lookup_exec(&vocab, &uv) {
            Some(id) => id,
            None => 3,
        };
        Ok(M2M100Tokenizer {
            vocab,
            id_to_piece: table,
            trie,
            lang_id_map: languages,
            lang_token_ids: ids,
            pad_token_id,
            eos_token_id,
            unk_token_id,
        })
    }

    /// The id of language `lang`, if it is in the table.
    pub fn lang_id(&self, lang: &str) -> (r: Option<i64>)
        ensures
            r == lookup(self.languages(), lang@),
    {
        let l = to_chars(lang);
        lookup_exec(&self.lang_id_map, &l)
    }

    /// The id of language `lang`.  The language must be in the table.
    pub fn get_lang_id(&self, lang: &str) -> (r: i64)
        requires
            lookup(self.languages(), lang@) is Some,
        ensures
            r == lookup(self.languages(), lang@)->0,
    {
        let l = to_chars(lang);
        match lookup_exec(&self.lang_id_map, &l) {
            Some(id) => id,
            None => 0,
        }
    }

    /// The padding id.
    pub fn pad_token_id(&self) -> (r: i64)
        ensures
            r == self.pad(),
    {
        self.pad_token_id
    }

    /// The end-of-sentence id.
    pub fn eos_token_id(&self) -> (r: i64)
        ensures
            r == self.eos(),
    {
        self.eos_token_id
    }

    /// The unknown-token id.
    pub fn unk_token_id(&self) -> (r: i64)
        ensures
            r == self.unk(),
    {
        self.unk_token_id
    }

    /// The token of id `id`, when `id` indexes the id-to-token table.
    pub fn id_to_piece(&self, id: i64) -> (r: Option<String>)
        ensures
            match r {
                Some(p) => (id as usize) < self.pieces().len() && p@ == self.pieces()[(id as usize) as int],
                None => (id as usize) >= self.pieces().len(),
            },
    {
        let idx = id as usize;
        if idx < self.id_to_piece.len() {
            Some(self.id_to_piece[idx].clone())
        } else {
            None
        }
    }

    /// The ids of `text` in language `src_lang` (which must be in the table): the
    /// language id, then greedy longest-match pieces of the normalized text (one
    /// character at a time where no piece matches, the unknown id for characters
    /// outside the vocabulary), then the end id when `add_special_tokens` is set.
    pub fn encode(&self, text: &str, src_lang: &str, add_special_tokens: bool) -> (r: Result<Vec<i64>, TokenizerError>)
        requires
            lookup(self.languages(), src_lang@) is Some,
        ensures
            r is Ok,
            r->Ok_0@ == m2m_encoding(
                self.vocab(),
                lookup(self.languages(), src_lang@)->0,
                text@,
                self.unk(),
                self.eos(),
                add_special_tokens,
            ),
    {
        proof {
            use_type_invariant(self);
        }
        let ghost es = self.vocab();
        let lang_token_id = self.get_lang_id(src_lang);
        let s = normalize_text(text);
        let mut ids: Vec<i64> = Vec::new();
        ids.push(lang_token_id);
        let mut pos: usize = 0;
        assert(ids@ + segment_from(es, s@, 0, self.unk()) =~= seq![lang_token_id] + segment_from(es, s@, 0, self.unk()));
        while pos < s.len()
            invariant
                pos <= s.len(),
                es == self.vocab(),
                self.trie.wf(),
                self.trie.pieces() == match_pieces(es),
                ids@ + segment_from(es, s@, pos as int, self.unk()) == seq![lang_token_id] + segment_from(es, s@, 0, self.unk()),
            decreases s.len() - pos,
        {
            let ghost before = ids@;
            proof {
                lemma_longest_match(match_pieces(es), s@, pos as int);
            }
            match self.trie.longest_match_at(&s, pos) {
                Some((len, token_id)) => {
                    ids.push(token_id);
                    assert(before + segment_from(es, s@, pos as int, self.unk()) =~= ids@ + segment_from(es, s@, pos + len, self.unk()));
                    pos += len;
                },
                None => {
                    let mut one: Vec<char> = Vec::new();
                    one.push(s[pos]);
                    assert(one@ =~= seq![s@[pos as int]]);
                    let id = match lookup_exec(&self.vocab, &one) {
                        Some(id) => id,
                        None => self.unk_token_id,
                    };
                    ids.push(id);
                    assert(before + segment_from(es, s@, pos as int, self.unk()) =~= ids@ + segment_from(es, s@, pos + 1, self.unk()));
                    pos += 1;
                },
            }
        }
        assert(segment_from(es, s@, pos as int, self.unk()) == Seq::<i64>::empty());
        assert(ids@ =~= seq![lang_token_id] + segment_from(es, s@, 0, self.unk()));
        if add_special_tokens {
            ids.push(self.eos_token_id);
        }
        Ok(ids)
    }

    /// The text of `ids`: the pieces of the ids within the table joined (pad, end and
    /// language ids left out when `skip_special_tokens` is set), `▁` read as a space,
    /// trimmed.
    pub fn decode(&self, ids: &[i64], skip_special_tokens: bool) -> (r: Result<String, TokenizerError>)
        ensures
            r is Ok,
            r->Ok_0@ == text::trim(mark_to_space(m2m_pieces(
                self.pieces(),
                ids@,
                skip_special_tokens,
                self.pad(),
                self.eos(),
                self.language_ids(),
            ))),
    {
        let ghost itp = self.pieces();
        let mut out: Vec<char> = Vec::new();
        let mut i: usize = 0;
        assert(ids@.subrange(0, 0) =~= Seq::<i64>::empty());
        while i < ids.len()
            invariant
                i <= ids.len(),
                itp == self.pieces(),
                out@ == mark_to_space(m2m_pieces(itp, ids@.subrange(0, i as int), skip_special_tokens, self.pad(), self.eos(), self.language_ids())),
            decreases ids.len() - i,
        {
            let ghost post = ids@.subrange(0, i + 1);
            assert(post.drop_last() == ids@.subrange(0, i as int));
            assert(post.last() == ids@[i as int]);
            let id = ids[i];
            let mut special = false;
            if skip_special_tokens {
                if id == self.pad_token_id || id == self.eos_token_id {
                    special = true;
                } else {
                    let mut k: usize = 0;
                    while k < self.lang_token_ids.len()
                        invariant
                            k <= self.lang_token_ids.len(),
                            !special ==> forall|q: int| 0 <= q < k ==> self.lang_token_ids@[q] != id,
                            special ==> self.lang_token_ids@.contains(id),
                        decreases self.lang_token_ids.len() - k,
                    {
                        if self.lang_token_ids[k] == id {
                            special = true;
                        }
                        k += 1;
                    }
                }
            }
            let ghost prev = m2m_pieces(itp, ids@.subrange(0, i as int), skip_special_tokens, self.pad(), self.eos(), self.language_ids());
            if !special {
                let idx = id as usize;
                if idx < self.id_to_piece.len() {
                    let pv = chars_of(&self.id_to_piece[idx]);
                    let ghost before = out@;
                    let mut k: usize = 0;
                    while k < pv.len()
                        invariant
                            k <= pv.len(),
                            out@ == before + mark_to_space(pv@.subrange(0, k as int)),
                        decreases pv.len() - k,
                    {
                        let c = pv[k];
                        out.push(if c == '\u{2581}' { ' ' } else { c });
                        assert(mark_to_space(pv@.subrange(0, k + 1)) =~= mark_to_space(pv@.subrange(0, k as int)).push(
                            if c == '\u{2581}' { ' ' } else { c },
                        ));
                        k += 1;
                    }
                    assert(pv@.subrange(0, pv@.len() as int) == pv@);
                    assert(mark_to_space(prev + itp[idx as int]) =~= mark_to_space(prev) + mark_to_space(itp[idx as int]));
                }
            }
            i += 1;
        }
        assert(ids@.subrange(0, ids@.len() as int) == ids@);
        let t = trim_chars(&out);
        Ok(string_of(&t))
    }

    /// The tokenizer of a model directory, given the contents of its `vocab.json` and,
    /// when present, of `lang_ids.json` and `tokenizer_config.json`.  The vocabulary must
    /// be a JSON object of non-negative integer ids (below `usize::MAX`).
    pub fn from_model_dir(vocab_json: &str, lang_ids_json: Option<&str>, config_json: Option<&str>) -> (r: Result<Self, TokenizerError>)
        ensures
            match r {
                Ok(t) => {
                    &&& json_int_table(vocab_json@) == Some(t.vocab())
                    &&& t.languages() == language_table(t.vocab(), match lang_ids_json {
                        Some(j) => Some(j@),
                        None => None,
                    })
                    &&& t.pieces() == piece_table(t.vocab())
                    &&& {
                        let names = special_names(match config_json {
                            Some(j) => Some(j@),
                            None => None,
                        });
                        &&& t.pad() == special_id(t.vocab(), names.0, 1)
                        &&& t.eos() == special_id(t.vocab(), names.1, 2)
                        &&& t.unk() == special_id(t.vocab(), names.2, 3)
                    }
                },
                Err(e) => {
                    &&& e is InvalidTokenTable
                    &&& match json_int_table(vocab_json@) {
                        None => true,
                        Some(es) => !ids_in_range(es) || total_len(es) + 1 >= usize::MAX,
                    }
                },
            },
    {
        let vocab = match int_table_of_json(vocab_json) {
            Some(v) => v,
            None => return Err(TokenizerError::InvalidTokenTable),
        };
        let ghost es = pair_views(vocab@);
        let mut k: usize = 0;
        while k < vocab.len()
            invariant
                k <= vocab.len(),
                es == pair_views(vocab@),
                json_int_table(vocab_json@) == Some(es),
                forall|q: int| 0 <= q < k ==> 0 <= (#[trigger] es[q]).1 < usize::MAX,
            decreases vocab.len() - k,
        {
            if vocab[k].1 < 0 || vocab[k].1 as u128 >= usize::MAX as u128 {
                assert(es[k as int].1 == vocab@[k as int].1);
                assert(!ids_in_range(es));
                return Err(TokenizerError::InvalidTokenTable);
            }
            k += 1;
        }
        // Language codes in the vocabulary.
        let mut langs: Vec<(String, i64)> = Vec::new();
        let mut i: usize = 0;
        assert(es.subrange(0, 0) =~= Seq::<(Seq<char>, i64)>::empty());
        assert(pair_views(langs@) =~= Seq::<(Seq<char>, i64)>::empty());
        while i < vocab.len()
            invariant
                i <= vocab.len(),
                es == pair_views(vocab@),
                pair_views(langs@) == vocab_lang_ids(es.subrange(0, i as int)),
            decreases vocab.len() - i,
        {
            let ghost post = es.subrange(0, i + 1);
            assert(post.drop_last() == es.subrange(0, i as int));
            assert(post.last() == es[i as int]);
            let tv = chars_of(&vocab[i].0);
            match lang_code_exec(&tv) {
                Some(code) => {
                    let ghost before = langs@;
                    langs.push((string_of(&code), vocab[i].1));
                    assert(pair_views(langs@) =~= pair_views(before).push((code@, es[i as int].1)));
                },
                None => {},
            }
            i += 1;
        }
        assert(es.subrange(0, es.len() as int) == es);
        let ghost v = pair_views(langs@);
        if langs.len() == 0 {
            match lang_ids_json {
                Some(j) => match int_table_of_json(j) {
                    Some(t) => {
                        langs = t;
                    },
                    None => {},
                },
                None => {},
            }
        }
        if langs.len() == 0 {
            proof {
                reveal_strlit("en");
                reveal_strlit("zh");
            }
            let en = "en".to_owned();
            let zh = "zh".to_owned();
            assert(en@ == seq!['e', 'n']);
            assert(zh@ == seq!['z', 'h']);
            langs.push((en, 128022i64));
            langs.push((zh, 128102i64));
            assert(langs@.len() == 2);
            assert(pair_views(langs@)[0] == (seq!['e', 'n'], 128022i64));
            assert(pair_views(langs@)[1] == (seq!['z', 'h'], 128102i64));
            assert(pair_views(langs@) =~= seq![(seq!['e', 'n'], 128022i64), (seq!['z', 'h'], 128102i64)]);
        }
        let (pad, eos, unk) = special_names_exec(config_json);
        Self::from_parts(vocab, langs, pad.as_str(), eos.as_str(), unk.as_str())
    }
}

proof fn lemma_max_id_bound(es: Seq<(Seq<char>, i64)>, i: int)
    requires
        0 <= i < es.len(),
    ensures
        es[i].1 <= max_id(es),
        max_id(es) >= 0,
    decreases es.len(),
{
    if i < es.len() - 1 {
        lemma_max_id_bound(es.drop_last(), i);
        assert(es.drop_last()[i] == es[i]);
    } else {
        lemma_max_id_nonneg(es.drop_last());
    }
}

proof fn lemma_max_id_nonneg(es: Seq<(Seq<char>, i64)>)
    ensures
        max_id(es) >= 0,
    decreases es.len(),
{
    if es.len() > 0 {
        lemma_max_id_nonneg(es.drop_last());
    }
}

// ---------------------------------------------------------------------------
// Round trip
// ---------------------------------------------------------------------------

/// Every piece the vocabulary can match decodes back to itself: its id is a slot of
/// the id-to-token table holding that piece, and it is none of the special ids.
pub open spec fn matched_pieces_decode(
    es: Seq<(Seq<char>, i64)>,
    itp: Seq<Seq<char>>,
    pad: i64,
    eos: i64,
    langs: Seq<i64>,
) -> bool {
    forall|q: Seq<char>|
        #[trigger] lookup(match_pieces(es), q) is Some ==> {
            let id = lookup(match_pieces(es), q)->0;
            &&& 0 <= id < usize::MAX
            &&& id < itp.len()
            &&& itp[id as int] == q
            &&& id != pad
            &&& id != eos
            &&& !langs.contains(id)
        }
}

proof fn lemma_m2m_pieces_append(
    itp: Seq<Seq<char>>,
    a: Seq<i64>,
    b: Seq<i64>,
    skip: bool,
    pad: i64,
    eos: i64,
    langs: Seq<i64>,
)
    ensures
        m2m_pieces(itp, a + b, skip, pad, eos, langs) == m2m_pieces(itp, a, skip, pad, eos, langs) + m2m_pieces(
            itp,
            b,
            skip,
            pad,
            eos,
            langs,
        ),
    decreases b.len(),
{
    if b.len() == 0 {
        assert(a + b =~= a);
    } else {
        assert((a + b).drop_last() =~= a + b.drop_last());
        assert((a + b).last() == b.last());
        lemma_m2m_pieces_append(itp, a, b.drop_last(), skip, pad, eos, langs);
    }
}

/// The greedy segmentation of `s[pos..]` decodes back to it when every character of `s`
/// is a piece and every matched piece decodes back to itself.
proof fn lemma_segment_decodes(
    es: Seq<(Seq<char>, i64)>,
    itp: Seq<Seq<char>>,
    s: Seq<char>,
    pos: int,
    unk: i64,
    pad: i64,
    eos: i64,
    langs: Seq<i64>,
)
    requires
        0 <= pos <= s.len(),
        matched_pieces_decode(es, itp, pad, eos, langs),
        forall|i: int| 0 <= i < s.len() ==> (#[trigger] lookup(match_pieces(es), seq![s[i]])) is Some,
    ensures
        m2m_pieces(itp, segment_from(es, s, pos, unk), true, pad, eos, langs) == s.subrange(pos, s.len() as int),
    decreases s.len() - pos,
{
    if pos == s.len() {
        assert(s.subrange(pos, s.len() as int) =~= Seq::<char>::empty());
    } else {
        let ps = match_pieces(es);
        lemma_longest_match(ps, s, pos);
        let key = seq![s[pos]];
        assert(lookup(ps, key) is Some);
        let k = crate::trie::lemma_lookup_witness(ps, key);
        assert(s.subrange(pos, pos + 1) =~= key);
        assert(text::occurs_at(s, ps[k].0, pos));
        if longest_match(ps, s, pos) is None {
            assert(ps[k].0.len() > 0);
            assert(crate::trie::longer_match_exists(ps, s, pos, 0));
        }
        let m = longest_match(ps, s, pos)->0;
        let q = s.subrange(pos, pos + m.0);
        assert(lookup(ps, q) is Some);
        let id = m.1;
        assert(id == lookup(ps, q)->0);
        let rest = segment_from(es, s, pos + m.0, unk);
        assert(segment_from(es, s, pos, unk) == seq![id] + rest);
        lemma_segment_decodes(es, itp, s, pos + m.0, unk, pad, eos, langs);
        lemma_m2m_pieces_append(itp, seq![id], rest, true, pad, eos, langs);
        assert(seq![id].drop_last() =~= Seq::<i64>::empty());
        assert(m2m_pieces(itp, Seq::<i64>::empty(), true, pad, eos, langs) == Seq::<char>::empty());
        assert(seq![id].last() == id);
        assert(itp[id as int] == q && id != pad && id != eos && !langs.contains(id));
        assert((id as usize) as int == id);
        assert(m2m_pieces(itp, seq![id], true, pad, eos, langs) == q);
        assert(s.subrange(pos, s.len() as int) =~= q + s.subrange(pos + m.0, s.len() as int));
    }
}

/// Every character of the normalized text is a piece when every non-whitespace
/// character of the text and the word mark are.
proof fn lemma_normalized_chars(es: Seq<(Seq<char>, i64)>, t: Seq<char>)
    requires
        lookup(match_pieces(es), seq![word_mark()]) is Some,
        forall|i: int| 0 <= i < t.len() && !text::is_ws(t[i]) ==> (#[trigger] lookup(match_pieces(es), seq![t[i]])) is Some,
    ensures
        forall|i: int|
            0 <= i < normalized_prefix(t).len() ==> (#[trigger] lookup(match_pieces(es), seq![normalized_prefix(t)[i]])) is Some,
    decreases t.len(),
{
    if t.len() > 0 {
        let d = t.drop_last();
        assert forall|i: int| 0 <= i < d.len() && !text::is_ws(d[i]) implies (#[trigger] lookup(
            match_pieces(es),
            seq![d[i]],
        )) is Some by {
            assert(d[i] == t[i]);
        }
        lemma_normalized_chars(es, d);
        let r = normalized_prefix(d);
        let c = t.last();
        assert(c == t[t.len() - 1]);
        let n = normalized_prefix(t);
        assert forall|i: int| 0 <= i < n.len() implies (#[trigger] lookup(match_pieces(es), seq![n[i]])) is Some by {
            if i < r.len() {
                assert(n[i] == r[i]);
            } else if !text::is_ws(c) {
                assert(n[i] == c || n[i] == word_mark());
            }
        }
    }
}

/// The normalized text with the marks read as spaces is the words, each after a space.
proof fn lemma_normalized_spaced(t: Seq<char>)
    requires
        forall|i: int| 0 <= i < t.len() ==> t[i] != word_mark(),
    ensures
        mark_to_space(normalized_prefix(t)) == spaced(text::words(t)),
    decreases t.len(),
{
    if t.len() > 0 {
        let d = t.drop_last();
        lemma_normalized_spaced(d);
        let c = t.last();
        assert(c == t[t.len() - 1]);
        let r = normalized_prefix(d);
        let ws0 = text::words(d);
        let ws1 = text::words(t);
        if text::is_ws(c) {
        } else if t.len() > 1 && !text::is_ws(t[t.len() - 2]) {
            assert(d.last() == t[t.len() - 2]);
            text::lemma_words_nonempty_when_word_char(d);
            assert(ws1.drop_last() =~= ws0.drop_last());
            assert(ws1.last() == ws0.last().push(c));
            assert(spaced(ws1) =~= spaced(ws0) + seq![c]);
            assert(mark_to_space(r.push(c)) =~= mark_to_space(r) + seq![c]);
        } else {
            assert(ws1 == ws0.push(seq![c]));
            assert(ws1.drop_last() =~= ws0);
            assert(spaced(ws1) =~= spaced(ws0) + seq![' '] + seq![c]);
            assert(mark_to_space(r.push(word_mark()).push(c)) =~= mark_to_space(r) + seq![' '] + seq![c]);
        }
    }
}

/// Decoding the encoding of a text, special tokens skipped, gives back its words one
/// space apart, when every non-whitespace character of the text and the word mark are
/// pieces of the vocabulary, every piece it can match decodes back to itself, the text
/// holds no `▁` mark, and the language id is one of the language tokens.
pub proof fn law_m2m100_roundtrip(
    es: Seq<(Seq<char>, i64)>,
    itp: Seq<Seq<char>>,
    t: Seq<char>,
    lang: i64,
    unk: i64,
    pad: i64,
    eos: i64,
    langs: Seq<i64>,
    special: bool,
)
    requires
        matched_pieces_decode(es, itp, pad, eos, langs),
        lookup(match_pieces(es), seq![word_mark()]) is Some,
        forall|i: int| 0 <= i < t.len() && !text::is_ws(t[i]) ==> (#[trigger] lookup(match_pieces(es), seq![t[i]])) is Some,
        forall|i: int| 0 <= i < t.len() ==> t[i] != word_mark(),
        langs.contains(lang),
    ensures
        text::trim(mark_to_space(m2m_pieces(itp, m2m_encoding(es, lang, t, unk, eos, special), true, pad, eos, langs)))
            == text::join(text::words(t), seq![' ']),
{
    let np = normalized_prefix(t);
    let s = normalized(t);
    lemma_normalized_chars(es, t);
    assert forall|i: int| 0 <= i < s.len() implies (#[trigger] lookup(match_pieces(es), seq![s[i]])) is Some by {
        if np.len() == 0 {
            assert(s[i] == word_mark());
        } else {
            assert(s[i] == np[i]);
        }
    }
    lemma_segment_decodes(es, itp, s, 0, unk, pad, eos, langs);
    assert(s.subrange(0, s.len() as int) == s);
    let seg = segment_from(es, s, 0, unk);
    assert(m2m_pieces(itp, seg, true, pad, eos, langs) == s);
    let body = seq![lang] + seg;
    lemma_m2m_pieces_append(itp, seq![lang], seg, true, pad, eos, langs);
    assert(seq![lang].drop_last() =~= Seq::<i64>::empty());
    assert(m2m_pieces(itp, Seq::<i64>::empty(), true, pad, eos, langs) == Seq::<char>::empty());
    assert(seq![lang].last() == lang);
    assert(m2m_pieces(itp, seq![lang], true, pad, eos, langs) == Seq::<char>::empty());
    assert(m2m_pieces(itp, body, true, pad, eos, langs) =~= s);
    if special {
        assert(body.push(eos).drop_last() =~= body);
        assert(body.push(eos).last() == eos);
    }
    let p = m2m_pieces(itp, m2m_encoding(es, lang, t, unk, eos, special), true, pad, eos, langs);
    assert(p == s);
    lemma_normalized_spaced(t);
    crate::marian_tokenizer::lemma_trim_spaced_words(t);
    if np.len() == 0 {
        let ws = text::words(t);
        crate::marian_tokenizer::lemma_spaced_join(ws);
        assert(mark_to_space(s) =~= seq![' ']);
        assert(text::trim_start(seq![' ']) =~= Seq::<char>::empty()) by {
            assert(seq![' '].drop_first() =~= Seq::<char>::empty());
        }
        assert(text::trim(mark_to_space(s)) =~= Seq::<char>::empty());
        assert(ws.len() == 0);
    }
}

// ---------------------------------------------------------------------------
// Laws of encoding, decoding and loading
// ---------------------------------------------------------------------------

/// An id that some vocabulary entry has.
pub open spec fn is_vocab_id(es: Seq<(Seq<char>, i64)>, id: i64) -> bool {
    exists|j: int| 0 <= j < es.len() && (#[trigger] es[j]).1 == id
}

proof fn lemma_lookup_entry(es: Seq<(Seq<char>, i64)>, key: Seq<char>)
    requires
        lookup(es, key) is Some,
    ensures
        is_vocab_id(es, lookup(es, key)->0),
    decreases es.len(),
{
    if es.last().0 == key {
        assert(es[es.len() - 1].1 == lookup(es, key)->0);
    } else {
        lemma_lookup_entry(es.drop_last(), key);
        let j = choose|j: int| 0 <= j < es.drop_last().len() && (#[trigger] es.drop_last()[j]).1 == lookup(es, key)->0;
        assert(es[j] == es.drop_last()[j]);
    }
}

proof fn lemma_segment_shape(es: Seq<(Seq<char>, i64)>, s: Seq<char>, pos: int, unk: i64)
    requires
        0 <= pos <= s.len(),
    ensures
        pos < s.len() ==> segment_from(es, s, pos, unk).len() >= 1,
        segment_from(es, s, pos, unk).len() <= s.len() - pos,
        forall|k: int| 0 <= k < segment_from(es, s, pos, unk).len() ==> {
            let id = #[trigger] segment_from(es, s, pos, unk)[k];
            is_vocab_id(es, id) || id == unk
        },
    decreases s.len() - pos,
{
    if pos < s.len() {
        let seg = segment_from(es, s, pos, unk);
        match longest_match(match_pieces(es), s, pos) {
            Some(m) => {
                lemma_longest_match(match_pieces(es), s, pos);
                lemma_segment_shape(es, s, pos + m.0, unk);
                let rest = segment_from(es, s, pos + m.0, unk);
                assert(seg == seq![m.1] + rest);
                lemma_lookup_entry(match_pieces(es), s.subrange(pos, pos + m.0));
                let j = choose|j: int| 0 <= j < match_pieces(es).len() && (#[trigger] match_pieces(es)[j]).1 == m.1;
                lemma_match_pieces_sub(es);
                let i = choose|i: int| 0 <= i < es.len() && match_pieces(es)[j] == es[i];
                assert(es[i].1 == m.1);
                assert forall|k: int| 0 <= k < seg.len() implies {
                    let id = #[trigger] seg[k];
                    is_vocab_id(es, id) || id == unk
                } by {
                    if k > 0 {
                        assert(seg[k] == rest[k - 1]);
                    }
                }
            },
            None => {
                lemma_segment_shape(es, s, pos + 1, unk);
                let rest = segment_from(es, s, pos + 1, unk);
                assert(seg == seq![fallback_id(es, s[pos], unk)] + rest);
                if lookup(es, seq![s[pos]]) is Some {
                    lemma_lookup_entry(es, seq![s[pos]]);
                }
                assert forall|k: int| 0 <= k < seg.len() implies {
                    let id = #[trigger] seg[k];
                    is_vocab_id(es, id) || id == unk
                } by {
                    if k > 0 {
                        assert(seg[k] == rest[k - 1]);
                    }
                }
            },
        }
    }
}

/// `M2M100Tokenizer::encode` gives the language id first, the end id last when special
/// tokens are wanted, and between them at least one and at most as many ids as the
/// normalized text has characters, each an id of the vocabulary or the unknown id.
pub proof fn law_m2m100_encoding_shape(es: Seq<(Seq<char>, i64)>, lang: i64, t: Seq<char>, unk: i64, eos: i64, special: bool)
    ensures
        ({
            let enc = m2m_encoding(es, lang, t, unk, eos, special);
            let k = enc.len() - 1 - (if special { 1int } else { 0int });
            &&& enc[0] == lang
            &&& special ==> enc.last() == eos
            &&& 1 <= k <= normalized(t).len()
            &&& forall|i: int| 1 <= i <= k ==> is_vocab_id(es, #[trigger] enc[i]) || enc[i] == unk
        }),
{
    let s = normalized(t);
    assert(s.len() >= 1);
    lemma_segment_shape(es, s, 0, unk);
    let seg = segment_from(es, s, 0, unk);
    let enc = m2m_encoding(es, lang, t, unk, eos, special);
    assert forall|i: int| 1 <= i <= seg.len() implies is_vocab_id(es, #[trigger] enc[i]) || enc[i] == unk by {
        assert(enc[i] == seg[i - 1]);
    }
}

/// The ids with the pad, end and language ids left out.
pub open spec fn without_special(ids: Seq<i64>, pad: i64, eos: i64, langs: Seq<i64>) -> Seq<i64>
    decreases ids.len(),
{
    if ids.len() == 0 {
        seq![]
    } else {
        let rest = without_special(ids.drop_last(), pad, eos, langs);
        let id = ids.last();
        if id == pad || id == eos || langs.contains(id) {
            rest
        } else {
            rest.push(id)
        }
    }
}

/// `M2M100Tokenizer::decode` with special tokens skipped is decoding without skipping
/// of the ids with the pad, end and language ids left out, and the text it gives is
/// already trimmed.
pub proof fn law_m2m100_decode(itp: Seq<Seq<char>>, ids: Seq<i64>, pad: i64, eos: i64, langs: Seq<i64>)
    ensures
        m2m_pieces(itp, ids, true, pad, eos, langs) == m2m_pieces(itp, without_special(ids, pad, eos, langs), false, pad, eos, langs),
        text::trim(text::trim(mark_to_space(m2m_pieces(itp, ids, true, pad, eos, langs)))) == text::trim(mark_to_space(m2m_pieces(itp, ids, true, pad, eos, langs))),
    decreases ids.len(),
{
    text::lemma_trim_props(mark_to_space(m2m_pieces(itp, ids, true, pad, eos, langs)));
    if ids.len() > 0 {
        law_m2m100_decode(itp, ids.drop_last(), pad, eos, langs);
        let w = without_special(ids.drop_last(), pad, eos, langs);
        let id = ids.last();
        if !(id == pad || id == eos || langs.contains(id)) {
            assert(w.push(id).drop_last() == w);
        }
    }
}

/// A vocabulary without language tokens, read with neither `lang_ids.json` nor
/// `tokenizer_config.json`, gives English and Chinese their usual ids (128022 and
/// 128102) and takes the ids of `<pad>`, `</s>` and `<unk>` from the vocabulary, 1, 2
/// and 3 when absent.
pub proof fn law_m2m100_defaults(es: Seq<(Seq<char>, i64)>)
    requires
        vocab_lang_ids(es).len() == 0,
    ensures
        language_table(es, None) == seq![(seq!['e', 'n'], 128022i64), (seq!['z', 'h'], 128102i64)],
        ({
            let names = special_names(None);
            &&& special_id(es, names.0, 1) == match lookup(es, "<pad>"@) { Some(id) => id, None => 1 }
            &&& special_id(es, names.1, 2) == match lookup(es, "</s>"@) { Some(id) => id, None => 2 }
            &&& special_id(es, names.2, 3) == match lookup(es, "<unk>"@) { Some(id) => id, None => 3 }
        }),
{
}

} // verus!
