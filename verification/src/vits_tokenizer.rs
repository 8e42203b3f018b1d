//! The tokenizer of the Chinese VITS (AISHELL-3) voice: characters to pinyin from a
//! lexicon, pinyin to phone tokens, silences and pauses around them.
use vstd::prelude::*;
use crate::error::EngineError;
use crate::marian_tokenizer::lookup;
use crate::tables::{entry_pairs, map_get, map_insert, parse_i64, parse_i64_chars, rows_of, row_views, table_rows, IntErrorKind};
use crate::json::distinct_keys;
use crate::text;
use crate::text::{to_chars, string_of, is_whitespace, is_ascii_digit, decimal, decimal_digits, to_lowercase};

verus! {

/// A lexicon entry: initial, final without tone digits, tone.
pub type Pinyin = (Seq<char>, Seq<char>, u8);

/// The token table of `tokens.txt`: lines of at least two fields give a token and its
/// id; an id that is no integer stops the reading.
pub open spec fn token_entries(rows: Seq<Seq<Seq<char>>>) -> Result<Seq<(Seq<char>, i64)>, IntErrorKind>
    decreases rows.len(),
{
    if rows.len() == 0 {
        Ok(seq![])
    } else {
        match token_entries(rows.drop_last()) {
            Err(e) => Err(e),
            Ok(es) => {
                let row = rows.last();
                if row.len() >= 2 {
                    match parse_i64(row[1]) {
                        Ok(id) => Ok(es.push((row[0], id))),
                        Err(k) => Err(k),
                    }
                } else {
                    Ok(es)
                }
            },
        }
    }
}

/// The tone of a final: its last character when that is a digit, else 5.
pub open spec fn tone_of(f: Seq<char>) -> u8 {
    if f.len() > 0 && text::is_digit(f.last()) {
        ((f.last() as int) - ('0' as int)) as u8
    } else {
        5
    }
}

/// A final without its digits.
pub open spec fn strip_digits(f: Seq<char>) -> Seq<char>
    decreases f.len(),
{
    if f.len() == 0 {
        seq![]
    } else if text::is_digit(f.last()) {
        strip_digits(f.drop_last())
    } else {
        strip_digits(f.drop_last()).push(f.last())
    }
}

/// The pinyin of `c` among `lex` (the entry for it).
pub open spec fn pinyin_of(lex: Seq<(char, Pinyin)>, c: char) -> Option<Pinyin>
    decreases lex.len(),
{
    if lex.len() == 0 {
        None
    } else if lex.last().0 == c {
        Some(lex.last().1)
    } else {
        pinyin_of(lex.drop_last(), c)
    }
}

/// The lexicon of `lexicon.txt`: lines of at least four fields (character, initial,
/// final with tone, ...); the first line of a character counts.
pub open spec fn lexicon_entries(rows: Seq<Seq<Seq<char>>>) -> Seq<(char, Pinyin)>
    decreases rows.len(),
{
    if rows.len() == 0 {
        seq![]
    } else {
        let lex = lexicon_entries(rows.drop_last());
        let row = rows.last();
        if row.len() >= 4 && row[0].len() > 0 && pinyin_of(lex, row[0][0]) is None {
            lex.push((row[0][0], (row[1], strip_digits(row[2]), tone_of(row[2]))))
        } else {
            lex
        }
    }
}

pub open spec fn id_or(tokens: Seq<(Seq<char>, i64)>, t: Seq<char>, dflt: i64) -> i64 {
    match lookup(tokens, t) {
        Some(id) => id,
        None => dflt,
    }
}

/// The tokens of one syllable: the initial's (or, missing, the zero initial `^`'s),
/// then the final with its tone (or with tone 5); an error when neither final is known.
pub open spec fn pinyin_tokens(tokens: Seq<(Seq<char>, i64)>, p: Pinyin) -> Result<Seq<i64>, Seq<char>> {
    let (initial, fin, tone) = p;
    let head: Seq<i64> = if initial.len() == 0 {
        seq![]
    } else {
        match lookup(tokens, initial) {
            Some(id) => seq![id],
            None => match lookup(tokens, "^"@) {
                Some(id) => seq![id],
                None => seq![],
            },
        }
    };
    let with_tone = fin + decimal(tone as nat);
    let tone5 = fin + "5"@;
    match lookup(tokens, with_tone) {
        Some(id) => Ok(head.push(id)),
        None => match lookup(tokens, tone5) {
            Some(id) => Ok(head.push(id)),
            None => Err(
                "token not found for final: "@ + with_tone + " (tried "@ + with_tone + " and "@ + tone5 + ")"@,
            ),
        },
    }
}

pub open spec fn is_cjk_basic(c: char) -> bool {
    '\u{4e00}' <= c && c <= '\u{9fff}'
}

/// The tokens so far and whether the last character was a spoken ideograph, after the
/// characters of `t`; starts with the silence token.
pub open spec fn encode_prefix(
    tokens: Seq<(Seq<char>, i64)>,
    lex: Seq<(char, Pinyin)>,
    sil: i64,
    sp: i64,
    t: Seq<char>,
) -> Result<(Seq<i64>, bool), Seq<char>>
    decreases t.len(),
{
    if t.len() == 0 {
        Ok((seq![sil], false))
    } else {
        match encode_prefix(tokens, lex, sil, sp, t.drop_last()) {
            Err(e) => Err(e),
            Ok((ids, prev)) => {
                let c = t.last();
                if text::is_ws(c) {
                    Ok((if ids.len() > 0 && ids.last() != sp { ids.push(sp) } else { ids }, false))
                } else if is_cjk_basic(c) {
                    match pinyin_of(lex, c) {
                        Some(p) => match pinyin_tokens(tokens, p) {
                            Ok(pt) => Ok(((if prev { ids.push(sp) } else { ids }) + pt, true)),
                            Err(e) => Err(e),
                        },
                        None => Ok((ids, false)),
                    }
                } else {
                    Ok((if prev { ids.push(sp) } else { ids }, false))
                }
            },
        }
    }
}

/// The VITS tokenizer.
#[derive(Debug)]
pub struct VitsZhAishell3Tokenizer {
    token_to_id: Vec<(String, i64)>,
    char_to_pinyin: Vec<(char, String, String, u8)>,
    sil_id: i64,
    eos_id: i64,
    sp_id: i64,
}

pub open spec fn lex_views(v: Seq<(char, String, String, u8)>) -> Seq<(char, Pinyin)> {
    v.map_values(|e: (char, String, String, u8)| (e.0, (e.1@, e.2@, e.3)))
}

fn lex_get(lex: &Vec<(char, String, String, u8)>, c: char) -> (r: Option<usize>)
    ensures
        match r {
            Some(j) => j < lex@.len() && pinyin_of(lex_views(lex@), c) == Some(lex_views(lex@)[j as int].1),
            None => pinyin_of(lex_views(lex@), c) is None,
        },
{
    let ghost v = lex_views(lex@);
    let mut j: usize = lex.len();
    assert(v.subrange(0, v.len() as int) == v);
    while j > 0
        invariant
            j <= lex.len(),
            v == lex_views(lex@),
            pinyin_of(v, c) == pinyin_of(v.subrange(0, j as int), c),
        decreases j,
    {
        let ghost pre = v.subrange(0, j as int);
        assert(pre.last() == v[j - 1]);
        assert(pre.drop_last() == v.subrange(0, j - 1));
        if lex[j - 1].0 == c {
            return Some(j - 1);
        }
        j -= 1;
    }
    None
}

fn strip_digits_exec(f: &Vec<char>) -> (r: Vec<char>)
    ensures
        r@ == strip_digits(f@),
{
    let mut out: Vec<char> = Vec::new();
    let mut i: usize = 0;
    while i < f.len()
        invariant
            i <= f.len(),
            out@ == strip_digits(f@.subrange(0, i as int)),
        decreases f.len() - i,
    {
        assert(f@.subrange(0, i + 1).drop_last() == f@.subrange(0, i as int));
        if !is_ascii_digit(f[i]) {
            out.push(f[i]);
        }
        i += 1;
    }
    assert(f@.subrange(0, f@.len() as int) == f@);
    out
}

fn tone_exec(f: &Vec<char>) -> (r: u8)
    ensures
        r == tone_of(f@),
{
    if f.len() > 0 && is_ascii_digit(f[f.len() - 1]) {
        let c = f[f.len() - 1];
        (c as u32 - '0' as u32) as u8
    } else {
        5
    }
}

impl VitsZhAishell3Tokenizer {
    pub closed spec fn tokens(&self) -> Seq<(Seq<char>, i64)> {
        entry_pairs(self.token_to_id@)
    }

    pub closed spec fn lexicon(&self) -> Seq<(char, Pinyin)> {
        lex_views(self.char_to_pinyin@)
    }

    pub closed spec fn sil(&self) -> i64 {
        self.sil_id
    }

    pub closed spec fn eos(&self) -> i64 {
        self.eos_id
    }

    pub closed spec fn sp(&self) -> i64 {
        self.sp_id
    }

    /// The tokenizer of the contents of `tokens.txt` and `lexicon.txt`.  The silence,
    /// end and pause ids are those of `sil`, `eos` and `sp` (0, 1 and 2 when absent).
    /// Fails when a token id is no integer.
    pub fn from_tables(tokens_data: &str, lexicon_data: &str) -> (r: Result<Self, EngineError>)
        ensures
            match token_entries(table_rows(tokens_data@)) {
                Ok(es) => r is Ok && {
                    let t = r->Ok_0;
                    &&& forall|q: Seq<char>| #[trigger] lookup(t.tokens(), q) == lookup(es, q)
                    &&& t.lexicon() == lexicon_entries(table_rows(lexicon_data@))
                    &&& t.sil() == id_or(es, "sil"@, 0)
                    &&& t.eos() == id_or(es, "eos"@, 1)
                    &&& t.sp() == id_or(es, "sp"@, 2)
                },
                Err(kind) => r is Err && r->Err_0.message@ == "invalid token ID in tokens.txt: "@ + kind.message_spec(),
            },
    {
        let rows = rows_of(tokens_data);
        let ghost rs = row_views(rows@);
        let mut map: Vec<(String, i64)> = Vec::new();
        let mut i: usize = 0;
        assert(rs.subrange(0, 0) =~= Seq::<Seq<Seq<char>>>::empty());
        while i < rows.len()
            invariant
                i <= rows.len(),
                rs == row_views(rows@),
                rs == table_rows(tokens_data@),
                distinct_keys(entry_pairs(map@)),
                token_entries(rs.subrange(0, i as int)) is Ok,
                forall|q: Seq<char>| #[trigger] lookup(entry_pairs(map@), q) == lookup(
                    token_entries(rs.subrange(0, i as int))->Ok_0,
                    q,
                ),
            decreases rows.len() - i,
        {
            let ghost post = rs.subrange(0, i + 1);
            assert(post.drop_last() == rs.subrange(0, i as int));
            assert(post.last() == rs[i as int]);
            let row = &rows[i];
            assert(rs[i as int] == row@.map_values(|w: Vec<char>| w@));
            if row.len() >= 2 {
                match parse_i64_chars(&row[1]) {
                    Ok(id) => {
                        let ghost before = entry_pairs(map@);
                        let ghost prev = token_entries(rs.subrange(0, i as int))->Ok_0;
                        map_insert(&mut map, string_of(&row[0]), id);
                        assert forall|q: Seq<char>| #[trigger] lookup(entry_pairs(map@), q) == lookup(
                            token_entries(post)->Ok_0,
                            q,
                        ) by {
                            crate::trie::lemma_lookup_push(before, row@[0]@, id, q);
                            crate::trie::lemma_lookup_push(prev, row@[0]@, id, q);
                        }
                    },
                    Err(kind) => {
                        let mut m = to_chars("invalid token ID in tokens.txt: ");
                        text::append_str(&mut m, kind.message());
                        proof {
                            lemma_token_entries_err_extends(rs, i as int + 1);
                        }
                        return Err(EngineError::new(string_of(&m)));
                    },
                }
            }
            i += 1;
        }
        assert(rs.subrange(0, rs.len() as int) == rs);
        let ghost es = token_entries(rs)->Ok_0;
        let sil_id = match map_get(&map, &to_chars("sil")) {
            Some(id) => id,
            None => 0,
        };
        let eos_id = match map_get(&map, &to_chars("eos")) {
            Some(id) => id,
            None => 1,
        };
        let sp_id = match map_get(&map, &to_chars("sp")) {
            Some(id) => id,
            None => 2,
        };
        // The lexicon.
        let lrows = rows_of(lexicon_data);
        let ghost ls = row_views(lrows@);
        let mut lex: Vec<(char, String, String, u8)> = Vec::new();
        let mut k: usize = 0;
        assert(ls.subrange(0, 0) =~= Seq::<Seq<Seq<char>>>::empty());
        assert(lex_views(lex@) =~= Seq::<(char, Pinyin)>::empty());
        while k < lrows.len()
            invariant
                k <= lrows.len(),
                ls == row_views(lrows@),
                ls == table_rows(lexicon_data@),
                lex_views(lex@) == lexicon_entries(ls.subrange(0, k as int)),
            decreases lrows.len() - k,
        {
            let ghost post = ls.subrange(0, k + 1);
            assert(post.drop_last() == ls.subrange(0, k as int));
            assert(post.last() == ls[k as int]);
            let row = &lrows[k];
            assert(ls[k as int] == row@.map_values(|w: Vec<char>| w@));
            if row.len() >= 4 && row[0].len() > 0 {
                let c = row[0][0];
                if lex_get(&lex, c).is_none() {
                    let ghost before = lex_views(lex@);
                    let initial = string_of(&row[1]);
                    let fin = string_of(&strip_digits_exec(&row[2]));
                    let tone = tone_exec(&row[2]);
                    lex.push((c, initial, fin, tone));
                    assert(lex_views(lex@) =~= before.push((c, (row@[1]@, strip_digits(row@[2]@), tone_of(row@[2]@)))));
                }
            }
            k += 1;
        }
        assert(ls.subrange(0, ls.len() as int) == ls);
        Ok(VitsZhAishell3Tokenizer { token_to_id: map, char_to_pinyin: lex, sil_id, eos_id, sp_id })
    }

    /// The tokens of one syllable (see [`pinyin_tokens`]).
    pub fn pinyin_to_tokens(&self, initial: &str, final_part: &str, tone: u8) -> (r: Result<Vec<i64>, EngineError>)
        ensures
            match pinyin_tokens(self.tokens(), (initial@, final_part@, tone)) {
                Ok(ts) => r is Ok && r->Ok_0@ == ts,
                Err(m) => r is Err && r->Err_0.message@ == m,
            },
    {
        let mut out: Vec<i64> = Vec::new();
        if !initial.is_empty() {
            match map_get(&self.token_to_id, &to_chars(initial)) {
                Some(id) => out.push(id),
                None => match map_get(&self.token_to_id, &to_chars("^")) {
                    Some(id) => out.push(id),
                    None => {},
                },
            }
        }
        let mut with_tone = to_chars(final_part);
        let digits = decimal_digits(tone as u64);
        text::append_chars(&mut with_tone, &digits);
        let mut tone5 = to_chars(final_part);
        text::append_str(&mut tone5, "5");
        match map_get(&self.token_to_id, &with_tone) {
            Some(id) => {
                out.push(id);
                return Ok(out);
            },
            None => {},
        }
        match map_get(&self.token_to_id, &tone5) {
            Some(id) => {
                out.push(id);
                Ok(out)
            },
            None => {
                let mut m = to_chars("token not found for final: ");
                text::append_chars(&mut m, &with_tone);
                text::append_str(&mut m, " (tried ");
                text::append_chars(&mut m, &with_tone);
                text::append_str(&mut m, " and ");
                text::append_chars(&mut m, &tone5);
                text::append_str(&mut m, ")");
                Err(EngineError::new(string_of(&m)))
            },
        }
    }

    /// The tokens of `text` and their number: the silence token, the syllables of the
    /// ideographs found in the lexicon (a pause between two of them, and after one before
    /// any other character), a pause for whitespace unless one was just added, then the
    /// end token.  Fails when a syllable's final is not a token.
    pub fn encode(&self, text: &str) -> (r: Result<(Vec<i64>, i64), EngineError>)
        requires
            3 * text@.len() + 2 <= i64::MAX,
        ensures
            match encode_prefix(self.tokens(), self.lexicon(), self.sil(), self.sp(), text@) {
                Ok((ids, _)) => r is Ok && r->Ok_0.0@ == ids.push(self.eos()) && r->Ok_0.1 == ids.len() + 1,
                Err(m) => r is Err && r->Err_0.message@ == m,
            },
    {
        let t = to_chars(text);
        let mut ids: Vec<i64> = Vec::new();
        ids.push(self.sil_id);
        let mut prev = false;
        let mut i: usize = 0;
        assert(t@.subrange(0, 0) =~= Seq::<char>::empty());
        assert(ids@ =~= seq![self.sil()]);
        while i < t.len()
            invariant
                i <= t.len(),
                t@ == text@,
                encode_prefix(self.tokens(), self.lexicon(), self.sil(), self.sp(), t@.subrange(0, i as int)) == Ok::<
                    (Seq<i64>, bool),
                    Seq<char>,
                >((ids@, prev)),
                ids@.len() >= 1,
                ids@.len() <= 1 + 3 * i,
                3 * t@.len() + 2 <= i64::MAX,
            decreases t.len() - i,
        {
            let ghost post = t@.subrange(0, i + 1);
            assert(post.drop_last() == t@.subrange(0, i as int));
            assert(post.last() == t@[i as int]);
            let c = t[i];
            if is_whitespace(c) {
                if ids[ids.len() - 1] != self.sp_id {
                    ids.push(self.sp_id);
                }
                prev = false;
            } else if '\u{4e00}' <= c && c <= '\u{9fff}' {
                match lex_get(&self.char_to_pinyin, c) {
                    Some(j) => {
                        let e = &self.char_to_pinyin[j];
                        let pt = match self.pinyin_to_tokens(e.1.as_str(), e.2.as_str(), e.3) {
                            Ok(pt) => pt,
                            Err(err) => {
                                proof {
                                    lemma_encode_err_extends(self.tokens(), self.lexicon(), self.sil(), self.sp(), t@, i as int + 1);
                                    assert(t@.subrange(0, t@.len() as int) == t@);
                                }
                                return Err(err);
                            },
                        };
                        proof {
                            lemma_pinyin_tokens_len(self.tokens(), self.lexicon()[j as int].1);
                        }
                        if prev {
                            ids.push(self.sp_id);
                        }
                        let ghost before = ids@;
                        text_push_all(&mut ids, &pt);
                        prev = true;
                    },
                    None => {
                        prev = false;
                    },
                }
            } else {
                if prev {
                    ids.push(self.sp_id);
                }
                prev = false;
            }
            i += 1;
        }
        assert(t@.subrange(0, t@.len() as int) == t@);
        ids.push(self.eos_id);
        let n = ids.len() as i64;
        Ok((ids, n))
    }
}

fn text_push_all(out: &mut Vec<i64>, xs: &Vec<i64>)
    ensures
        final(out)@ == old(out)@ + xs@,
{
    let mut i: usize = 0;
    while i < xs.len()
        invariant
            i <= xs.len(),
            out@ == old(out)@ + xs@.subrange(0, i as int),
        decreases xs.len() - i,
    {
        out.push(xs[i]);
        assert(out@ =~= old(out)@ + xs@.subrange(0, i + 1));
        i += 1;
    }
    assert(xs@.subrange(0, xs@.len() as int) == xs@);
}

proof fn lemma_pinyin_tokens_len(tokens: Seq<(Seq<char>, i64)>, p: Pinyin)
    ensures
        pinyin_tokens(tokens, p) is Ok ==> pinyin_tokens(tokens, p)->Ok_0.len() <= 2,
{
}

proof fn lemma_token_entries_err_extends(rows: Seq<Seq<Seq<char>>>, k: int)
    requires
        0 <= k <= rows.len(),
        token_entries(rows.subrange(0, k)) is Err,
    ensures
        token_entries(rows) == token_entries(rows.subrange(0, k)),
    decreases rows.len() - k,
{
    if k < rows.len() {
        assert(rows.subrange(0, k + 1).drop_last() == rows.subrange(0, k));
        lemma_token_entries_err_extends(rows, k + 1);
    } else {
        assert(rows.subrange(0, k) == rows);
    }
}

proof fn lemma_encode_err_extends(
    tokens: Seq<(Seq<char>, i64)>,
    lex: Seq<(char, Pinyin)>,
    sil: i64,
    sp: i64,
    t: Seq<char>,
    k: int,
)
    requires
        0 <= k <= t.len(),
        encode_prefix(tokens, lex, sil, sp, t.subrange(0, k)) is Err,
    ensures
        encode_prefix(tokens, lex, sil, sp, t) == encode_prefix(tokens, lex, sil, sp, t.subrange(0, k)),
    decreases t.len() - k,
{
    if k < t.len() {
        assert(t.subrange(0, k + 1).drop_last() == t.subrange(0, k));
        lemma_encode_err_extends(tokens, lex, sil, sp, t, k + 1);
    } else {
        assert(t.subrange(0, k) == t);
    }
}

// ---------------------------------------------------------------------------
// The character tokenizer of the MMS voices
// ---------------------------------------------------------------------------

/// The characters of a vocabulary: one-character tokens stand for their character and
/// `<unk>` for the character `\0`; later entries win.
pub open spec fn char_table(entries: Seq<(Seq<char>, i64)>) -> Seq<(char, i64)>
    decreases entries.len(),
{
    if entries.len() == 0 {
        seq![]
    } else {
        let rest = char_table(entries.drop_last());
        let (t, id) = entries.last();
        if t.len() == 1 {
            rest.push((t[0], id))
        } else if t == "<unk>"@ {
            rest.push(('\0', id))
        } else {
            rest
        }
    }
}

pub open spec fn char_id(table: Seq<(char, i64)>, c: char) -> Option<i64>
    decreases table.len(),
{
    if table.len() == 0 {
        None
    } else if table.last().0 == c {
        Some(table.last().1)
    } else {
        char_id(table.drop_last(), c)
    }
}

/// The ids of characters: each character (not ASCII punctuation) found in the table,
/// followed by the pad id.
pub open spec fn char_ids(table: Seq<(char, i64)>, pad: i64, t: Seq<char>) -> Seq<i64>
    decreases t.len(),
{
    if t.len() == 0 {
        seq![]
    } else {
        let rest = char_ids(table, pad, t.drop_last());
        let c = t.last();
        if text::is_ascii_punct(c) {
            rest
        } else {
            match char_id(table, c) {
                Some(id) => rest.push(id).push(pad),
                None => rest,
            }
        }
    }
}

/// One entry of a `model.vocab` object: the token, the value as a `u64` when it is a
/// non-negative integer within `u64`, and the value's JSON text.
pub type VocabEntries = Seq<(Seq<char>, Option<u64>, Seq<char>)>;

pub open spec fn vocab_entry_views(v: Seq<(String, Option<u64>, String)>) -> VocabEntries {
    v.map_values(|e: (String, Option<u64>, String)| (e.0@, e.1, e.2@))
}

/// The `model.vocab` object of a `tokenizer.json` text: `None` when the text is not
/// JSON, `Some(None)` when it has no such object, else its entries in increasing key
/// order, no key twice.
pub uninterp spec fn tokenizer_vocab_entries(json: Seq<char>) -> Option<Option<VocabEntries>>;

/// Calls `serde_json::from_str` to read `json` as a JSON value and takes the object at
/// `model.vocab`; of each value it keeps `Value::as_u64` and the JSON text that
/// `Value` displays.  A JSON object is read into a `BTreeMap`, so its keys come in
/// increasing order and are distinct.
#[verifier::external_body]
pub(crate) fn parse_tokenizer_vocab(json: &str) -> (r: Option<Option<Vec<(String, Option<u64>, String)>>>)
    ensures
        match r {
            None => tokenizer_vocab_entries(json@) is None,
            Some(None) => tokenizer_vocab_entries(json@) == Some(None::<VocabEntries>),
            Some(Some(v)) => tokenizer_vocab_entries(json@) == Some(Some(vocab_entry_views(v@)))
                && forall|i: int, j: int| 0 <= i < j < v@.len() ==> #[trigger] v@[i].0@ != #[trigger] v@[j].0@,
        },
{
    let value = serde_json::from_str::<serde_json::Value>(json).ok()?;
    let vocab = value.get("model").and_then(|m| m.get("vocab")).and_then(|v| v.as_object());
    Some(vocab.map(|o| o.iter().map(|(k, v)| (k.clone(), v.as_u64(), v.to_string())).collect()))
}

/// The ids of a vocabulary: `Ok` when every value is an integer within `u64`, each taken
/// as an `i64` (wrapping), else the JSON text of the first value that is not.
pub open spec fn vocab_ids(es: VocabEntries) -> Result<Seq<(Seq<char>, i64)>, Seq<char>>
    decreases es.len(),
{
    if es.len() == 0 {
        Ok(seq![])
    } else {
        match vocab_ids(es.drop_last()) {
            Ok(rest) => match es.last().1 {
                Some(u) => Ok(rest.push((es.last().0, u as i64))),
                None => Err(es.last().2),
            },
            Err(v) => Err(v),
        }
    }
}

/// The error for a vocabulary value that is no valid id, given its JSON text.
pub open spec fn invalid_id_message(v: Seq<char>) -> Seq<char> {
    "invalid token ID in vocab: "@ + v
}

/// Once a prefix of the vocabulary has a bad value, the whole vocabulary reports it.
proof fn lemma_vocab_ids_err_persists(es: VocabEntries, k: int)
    requires
        0 <= k <= es.len(),
        vocab_ids(es.subrange(0, k)) is Err,
    ensures
        vocab_ids(es) == vocab_ids(es.subrange(0, k)),
    decreases es.len() - k,
{
    if k < es.len() {
        let post = es.subrange(0, k + 1);
        assert(post.drop_last() == es.subrange(0, k));
        lemma_vocab_ids_err_persists(es, k + 1);
    } else {
        assert(es.subrange(0, k) == es);
    }
}

/// The character tokenizer of an MMS voice.
#[derive(Debug)]
pub struct VitsTokenizer {
    char_to_id: Vec<(char, i64)>,
    pad_token_id: i64,
    unk_token_id: i64,
}

impl VitsTokenizer {
    pub closed spec fn table(&self) -> Seq<(char, i64)> {
        self.char_to_id@
    }

    pub closed spec fn pad(&self) -> i64 {
        self.pad_token_id
    }

    pub closed spec fn unk(&self) -> i64 {
        self.unk_token_id
    }

    fn get(&self, c: char) -> (r: Option<i64>)
        ensures
            r == char_id(self.table(), c),
    {
        let ghost t = self.table();
        let mut j: usize = self.char_to_id.len();
        assert(t.subrange(0, t.len() as int) == t);
        while j > 0
            invariant
                j <= self.char_to_id.len(),
                t == self.table(),
                char_id(t, c) == char_id(t.subrange(0, j as int), c),
            decreases j,
        {
            let ghost pre = t.subrange(0, j as int);
            assert(pre.last() == t[j - 1]);
            assert(pre.drop_last() == t.subrange(0, j - 1));
            if self.char_to_id[j - 1].0 == c {
                return Some(self.char_to_id[j - 1].1);
            }
            j -= 1;
        }
        None
    }

    /// The tokenizer of a `tokenizer.json` text: its `model.vocab` object, whose values
    /// must be integer ids within `u64`, read as by [`from_vocab`](Self::from_vocab).
    pub fn from_tokenizer_json(json: &str) -> (r: Result<VitsTokenizer, EngineError>)
        ensures
            match tokenizer_vocab_entries(json@) {
                None => r is Err && r->Err_0.message@ == "failed to parse tokenizer.json"@,
                Some(None) => r is Err && r->Err_0.message@ == "vocab not found in tokenizer.json"@,
                Some(Some(es)) => match vocab_ids(es) {
                    Ok(ids) => r is Ok && {
                        let t = r->Ok_0;
                        &&& t.table() == char_table(ids)
                        &&& t.pad() == match char_id(t.table(), 'k') {
                            Some(id) => id,
                            None => 0,
                        }
                        &&& t.unk() == match char_id(t.table(), '\0') {
                            Some(id) => id,
                            None => 38,
                        }
                    },
                    Err(v) => r is Err && r->Err_0.message@ == invalid_id_message(v),
                },
            },
    {
        let entries = match parse_tokenizer_vocab(json) {
            None => return Err(EngineError::from_str("failed to parse tokenizer.json")),
            Some(None) => return Err(EngineError::from_str("vocab not found in tokenizer.json")),
            Some(Some(v)) => v,
        };
        let ghost es = vocab_entry_views(entries@);
        let mut ids: Vec<(String, i64)> = Vec::new();
        let mut i: usize = 0;
        assert(es.subrange(0, 0) =~= Seq::<(Seq<char>, Option<u64>, Seq<char>)>::empty());
        assert(entry_pairs(ids@) =~= Seq::<(Seq<char>, i64)>::empty());
        while i < entries.len()
            invariant
                i <= entries.len(),
                es == vocab_entry_views(entries@),
                tokenizer_vocab_entries(json@) == Some(Some(es)),
                vocab_ids(es.subrange(0, i as int)) == Ok::<Seq<(Seq<char>, i64)>, Seq<char>>(
                    entry_pairs(ids@),
                ),
            decreases entries.len() - i,
        {
            let ghost post = es.subrange(0, i + 1);
            assert(post.drop_last() == es.subrange(0, i as int));
            assert(post.last() == es[i as int]);
            match entries[i].1 {
                Some(u) => {
                    let ghost before = entry_pairs(ids@);
                    ids.push((entries[i].0.clone(), u as i64));
                    assert(entry_pairs(ids@) =~= before.push((es[i as int].0, u as i64)));
                },
                None => {
                    assert(vocab_ids(post) == Err::<Seq<(Seq<char>, i64)>, Seq<char>>(entries@[i as int].2@));
                    proof {
                        lemma_vocab_ids_err_persists(es, i + 1);
                    }
                    assert(es.subrange(0, es.len() as int) == es);
                    let mut m = to_chars("invalid token ID in vocab: ");
                    let v = to_chars(entries[i].2.as_str());
                    text::append_chars(&mut m, &v);
                    return Err(EngineError::new(string_of(&m)));
                },
            }
            i += 1;
        }
        assert(es.subrange(0, es.len() as int) == es);
        Ok(VitsTokenizer::from_vocab(&ids))
    }

    /// The tokenizer of the vocabulary entries of `tokenizer.json` (token, id), in the
    /// order the map yields them.  The pad id is that of `k` (0 when absent), the unknown
    /// id that of `<unk>` (38 when absent).
    pub fn from_vocab(entries: &Vec<(String, i64)>) -> (r: Self)
        ensures
            r.table() == char_table(crate::tables::entry_pairs(entries@)),
            r.pad() == match char_id(r.table(), 'k') {
                Some(id) => id,
                None => 0,
            },
            r.unk() == match char_id(r.table(), '\0') {
                Some(id) => id,
                None => 38,
            },
    {
        let ghost es = crate::tables::entry_pairs(entries@);
        let mut table: Vec<(char, i64)> = Vec::new();
        let mut i: usize = 0;
        assert(es.subrange(0, 0) =~= Seq::<(Seq<char>, i64)>::empty());
        while i < entries.len()
            invariant
                i <= entries.len(),
                es == crate::tables::entry_pairs(entries@),
                table@ == char_table(es.subrange(0, i as int)),
            decreases entries.len() - i,
        {
            let ghost post = es.subrange(0, i + 1);
            assert(post.drop_last() == es.subrange(0, i as int));
            assert(post.last() == es[i as int]);
            let t = to_chars(entries[i].0.as_str());
            let id = entries[i].1;
            if t.len() == 1 {
                table.push((t[0], id));
            } else if text::str_eq(entries[i].0.as_str(), "<unk>") {
                proof {
                    reveal_strlit("<unk>");
                }
                table.push(('\0', id));
            }
            i += 1;
        }
        assert(es.subrange(0, es.len() as int) == es);
        let mut tok = VitsTokenizer { char_to_id: table, pad_token_id: 0, unk_token_id: 38 };
        let pad = match tok.get('k') {
            Some(id) => id,
            None => 0,
        };
        let unk = match tok.get('\0') {
            Some(id) => id,
            None => 38,
        };
        tok.pad_token_id = pad;
        tok.unk_token_id = unk;
        tok
    }

    /// The ids of `text` in lower case and a mask of ones as long: the pad id, then each
    /// character found in the vocabulary (ASCII punctuation left out) followed by the pad
    /// id.
    pub fn encode(&self, text: &str) -> (r: (Vec<i64>, Vec<i64>))
        ensures
            r.0@ == seq![self.pad()] + char_ids(self.table(), self.pad(), text::lowercase(text@)),
            r.1@ == Seq::new(r.0@.len(), |i: int| 1i64),
    {
        let lower = to_lowercase(text);
        let t = to_chars(lower.as_str());
        let mut ids: Vec<i64> = Vec::new();
        ids.push(self.pad_token_id);
        let mut i: usize = 0;
        assert(t@.subrange(0, 0) =~= Seq::<char>::empty());
        while i < t.len()
            invariant
                i <= t.len(),
                t@ == text::lowercase(text@),
                ids@ == seq![self.pad()] + char_ids(self.table(), self.pad(), t@.subrange(0, i as int)),
            decreases t.len() - i,
        {
            let ghost post = t@.subrange(0, i + 1);
            assert(post.drop_last() == t@.subrange(0, i as int));
            assert(post.last() == t@[i as int]);
            let c = t[i];
            if !text::is_ascii_punctuation(c) {
                match self.get(c) {
                    Some(id) => {
                        ids.push(id);
                        ids.push(self.pad_token_id);
                    },
                    None => {},
                }
            }
            assert(ids@ =~= seq![self.pad()] + char_ids(self.table(), self.pad(), post));
            i += 1;
        }
        assert(t@.subrange(0, t@.len() as int) == t@);
        let mut mask: Vec<i64> = Vec::new();
        let mut k: usize = 0;
        while k < ids.len()
            invariant
                k <= ids.len(),
                mask@ == Seq::new(k as nat, |i: int| 1i64),
            decreases ids.len() - k,
        {
            mask.push(1);
            assert(mask@ =~= Seq::new((k + 1) as nat, |i: int| 1i64));
            k += 1;
        }
        (ids, mask)
    }
}

/// An id that some character of the table has.
pub open spec fn is_table_id(table: Seq<(char, i64)>, id: i64) -> bool {
    exists|j: int| 0 <= j < table.len() && (#[trigger] table[j]).1 == id
}

proof fn lemma_char_id_in_table(table: Seq<(char, i64)>, c: char)
    requires
        char_id(table, c) is Some,
    ensures
        is_table_id(table, char_id(table, c)->0),
    decreases table.len(),
{
    if table.last().0 == c {
        assert(table[table.len() - 1].1 == char_id(table, c)->0);
    } else {
        lemma_char_id_in_table(table.drop_last(), c);
        let j = choose|j: int| 0 <= j < table.drop_last().len() && (#[trigger] table.drop_last()[j]).1 == char_id(table, c)->0;
        assert(table[j] == table.drop_last()[j]);
    }
}

/// The ids `VitsTokenizer::encode` gives after the leading pad: pairs of a table id and
/// the pad id, at most one pair per character of the text.
pub proof fn law_vits_char_ids(table: Seq<(char, i64)>, pad: i64, t: Seq<char>)
    ensures
        ({
            let cs = char_ids(table, pad, t);
            &&& cs.len() % 2 == 0
            &&& cs.len() <= 2 * t.len()
            &&& forall|i: int| 0 <= i < cs.len() / 2 ==> is_table_id(table, #[trigger] cs[2 * i]) && cs[2 * i + 1] == pad
        }),
    decreases t.len(),
{
    if t.len() > 0 {
        law_vits_char_ids(table, pad, t.drop_last());
        let rest = char_ids(table, pad, t.drop_last());
        let cs = char_ids(table, pad, t);
        let c = t.last();
        if !text::is_ascii_punct(c) && char_id(table, c) is Some {
            lemma_char_id_in_table(table, c);
            assert(cs == rest.push(char_id(table, c)->0).push(pad));
            assert forall|i: int| 0 <= i < cs.len() / 2 implies is_table_id(table, #[trigger] cs[2 * i]) && cs[2 * i + 1] == pad by {
                if i < rest.len() / 2 {
                    assert(cs[2 * i] == rest[2 * i]);
                    assert(cs[2 * i + 1] == rest[2 * i + 1]);
                } else {
                    assert(2 * i == rest.len());
                }
            }
        }
    }
}

} // verus!
