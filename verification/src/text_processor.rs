//! Text preparation for speech synthesis: normalization, phonemes and phoneme ids.
use vstd::prelude::*;
use crate::error::EngineError;
use crate::json::distinct_keys;
use crate::marian_tokenizer::lookup;
use crate::tables::{
    entry_pairs, map_get, map_insert, parse_i64, parse_i64_chars, rows_of, row_views, table_rows, IntErrorKind,
};
use crate::text;
use crate::text::{to_chars, string_of, str_eq, split_words, join_chars, to_lowercase, words, join, is_alphanumeric};

verus! {

/// The phone table of `phone_id_map.txt`: for each line of at least two fields, the
/// first field with the second read as an integer; the first field that is no integer
/// is reported with its error.
pub open spec fn phone_entries(rows: Seq<Seq<Seq<char>>>) -> Result<Seq<(Seq<char>, i64)>, (Seq<char>, IntErrorKind)>
    decreases rows.len(),
{
    if rows.len() == 0 {
        Ok(seq![])
    } else {
        match phone_entries(rows.drop_last()) {
            Err(e) => Err(e),
            Ok(es) => {
                let row = rows.last();
                if row.len() >= 2 {
                    match parse_i64(row[1]) {
                        Ok(id) => Ok(es.push((row[0], id))),
                        Err(k) => Err((row[1], k)),
                    }
                } else {
                    Ok(es)
                }
            },
        }
    }
}

/// Characters kept by normalization: letters and digits, space and `.,!?;:-'"`.
pub open spec fn kept_char(c: char) -> bool {
    text::char_is_alphanumeric(c) || c == ' ' || c == '.' || c == ',' || c == '!' || c == '?' || c == ';'
        || c == ':' || c == '-' || c == '\'' || c == '"'
}

pub open spec fn keep_chars(s: Seq<char>) -> Seq<char>
    decreases s.len(),
{
    if s.len() == 0 {
        seq![]
    } else if kept_char(s.last()) {
        keep_chars(s.drop_last()).push(s.last())
    } else {
        keep_chars(s.drop_last())
    }
}

/// The words of `t` joined by single spaces, then only kept characters.
pub open spec fn normalized(t: Seq<char>) -> Seq<char> {
    keep_chars(join(words(t), seq![' ']))
}

pub open spec fn unk_phone() -> Seq<char> {
    "<unk>"@
}

pub open spec fn is_chinese_locale(l: Seq<char>) -> bool {
    l == "zh"@ || l == "chinese"@ || l == "zh-CN"@
}

pub open spec fn is_english_locale(l: Seq<char>) -> bool {
    l == "en"@ || l == "english"@ || l == "en-US"@
}

/// Each character as a phoneme when the table has it, else `<unk>`.
pub open spec fn char_phonemes(phones: Seq<(Seq<char>, i64)>, n: Seq<char>) -> Seq<Seq<char>> {
    n.map_values(|c: char| if lookup(phones, seq![c]) is Some { seq![c] } else { unk_phone() })
}

/// Each word in lower case as a phoneme when the table has it, else `<unk>`.
pub open spec fn word_phonemes(phones: Seq<(Seq<char>, i64)>, n: Seq<char>) -> Seq<Seq<char>> {
    words(n).map_values(
        |w: Seq<char>|
            if lookup(phones, text::lowercase(w)) is Some {
                text::lowercase(w)
            } else {
                unk_phone()
            },
    )
}

/// The phonemes of `t` for `locale`, or `None` for a locale without a rule (only
/// when the normalized text is not empty).
pub open spec fn phonemes_of(phones: Seq<(Seq<char>, i64)>, locale: Seq<char>, t: Seq<char>) -> Option<Seq<Seq<char>>> {
    let n = normalized(t);
    if n.len() == 0 {
        Some(seq![])
    } else if is_chinese_locale(locale) {
        Some(char_phonemes(phones, n))
    } else if is_english_locale(locale) {
        Some(word_phonemes(phones, n))
    } else {
        None
    }
}

/// The id of a phoneme: its own, else that of its lower case, else that of `<unk>`,
/// else 1.
pub open spec fn phone_id(phones: Seq<(Seq<char>, i64)>, p: Seq<char>) -> i64 {
    match lookup(phones, p) {
        Some(id) => id,
        None => match lookup(phones, text::lowercase(p)) {
            Some(id) => id,
            None => match lookup(phones, unk_phone()) {
                Some(id) => id,
                None => 1,
            },
        },
    }
}

pub open spec fn phone_ids(phones: Seq<(Seq<char>, i64)>, ps: Seq<Seq<char>>) -> Seq<i64> {
    ps.map_values(|p: Seq<char>| phone_id(phones, p))
}

/// The text preprocessor of a synthesis model.
#[derive(Debug, Clone)]
pub struct TextProcessor {
    /// Phoneme to id, no phoneme twice.
    phone_to_id: Vec<(String, i64)>,
    locale: String,
}

impl TextProcessor {
    /// The phone table as a map from phonemes.
    pub closed spec fn phones(&self) -> Seq<(Seq<char>, i64)> {
        entry_pairs(self.phone_to_id@)
    }

    pub closed spec fn locale_view(&self) -> Seq<char> {
        self.locale@
    }

    /// The preprocessor for the contents of `phone_id_map.txt` and a locale.  Fails on
    /// the first id that is no integer, naming it and why.
    pub fn from_phone_id_map(content: &str, locale: &str) -> (r: Result<Self, EngineError>)
        ensures
            match phone_entries(table_rows(content@)) {
                Ok(es) => r is Ok && r->Ok_0.locale_view() == locale@ && distinct_keys(r->Ok_0.phones())
                    && forall|q: Seq<char>| #[trigger] lookup(r->Ok_0.phones(), q) == lookup(es, q),
                Err((field, kind)) => r is Err && r->Err_0.message@ == "invalid phone ID in phone_id_map.txt: "@
                    + field + ": "@ + kind.message_spec(),
            },
    {
        let rows = rows_of(content);
        let ghost rs = row_views(rows@);
        let mut map: Vec<(String, i64)> = Vec::new();
        let mut i: usize = 0;
        assert(rs.subrange(0, 0) =~= Seq::<Seq<Seq<char>>>::empty());
        while i < rows.len()
            invariant
                i <= rows.len(),
                rs == row_views(rows@),
                rs == table_rows(content@),
                distinct_keys(entry_pairs(map@)),
                phone_entries(rs.subrange(0, i as int)) is Ok,
                forall|q: Seq<char>| #[trigger] lookup(entry_pairs(map@), q) == lookup(
                    phone_entries(rs.subrange(0, i as int))->Ok_0,
                    q,
                ),
            decreases rows.len() - i,
        {
            let ghost post = rs.subrange(0, i + 1);
            assert(post.drop_last() == rs.subrange(0, i as int));
            assert(post.last() == rs[i as int]);
            let row = &rows[i];
            assert(rs[i as int] == row@.map_values(|w: Vec<char>| w@));
            if row.len() >= 2 {
                match parse_i64_chars(&row[1]) {
                    Ok(id) => {
                        let ghost before = entry_pairs(map@);
                        let ghost prev = phone_entries(rs.subrange(0, i as int))->Ok_0;
                        map_insert(&mut map, string_of(&row[0]), id);
                        assert forall|q: Seq<char>| #[trigger] lookup(entry_pairs(map@), q) == lookup(
                            phone_entries(post)->Ok_0,
                            q,
                        ) by {
                            crate::trie::lemma_lookup_push(before, row@[0]@, id, q);
                            crate::trie::lemma_lookup_push(prev, row@[0]@, id, q);
                        }
                    },
                    Err(kind) => {
                        let mut m = to_chars("invalid phone ID in phone_id_map.txt: ");
                        text::append_chars(&mut m, &row[1]);
                        text::append_str(&mut m, ": ");
                        text::append_str(&mut m, kind.message());
                        proof {
                            lemma_phone_entries_err_extends(rs, i as int + 1);
                        }
                        return Err(EngineError::new(string_of(&m)));
                    },
                }
            }
            i += 1;
        }
        assert(rs.subrange(0, rs.len() as int) == rs);
        Ok(TextProcessor { phone_to_id: map, locale: locale.to_owned() })
    }

    /// `text` with runs of whitespace made single spaces, the ends trimmed, and only
    /// letters, digits, spaces and `.,!?;:-'"` kept.
    pub fn normalize_text(&self, text: &str) -> (r: String)
        ensures
            r@ == normalized(text@),
    {
        let v = to_chars(text);
        let ws = split_words(&v);
        let mut sp: Vec<char> = Vec::new();
        sp.push(' ');
        assert(sp@ =~= seq![' ']);
        let joined = join_chars(&ws, &sp);
        let mut out: Vec<char> = Vec::new();
        let mut i: usize = 0;
        while i < joined.len()
            invariant
                i <= joined.len(),
                out@ == keep_chars(joined@.subrange(0, i as int)),
            decreases joined.len() - i,
        {
            assert(joined@.subrange(0, i + 1).drop_last() == joined@.subrange(0, i as int));
            let c = joined[i];
            if is_alphanumeric(c) || c == ' ' || c == '.' || c == ',' || c == '!' || c == '?' || c == ';' || c
                == ':' || c == '-' || c == '\'' || c == '"' {
                out.push(c);
            }
            i += 1;
        }
        assert(joined@.subrange(0, joined@.len() as int) == joined@);
        string_of(&out)
    }

    /// The phonemes of `text`: for Chinese locales each character found in the table
    /// (else `<unk>`); for English locales each word in lower case found in the table
    /// (else `<unk>`); an error for other locales unless the normalized text is empty.
    pub fn text_to_phonemes(&self, text: &str) -> (r: Result<Vec<String>, EngineError>)
        ensures
            match phonemes_of(self.phones(), self.locale_view(), text@) {
                Some(ps) => r is Ok && r->Ok_0@.map_values(|s: String| s@) == ps,
                None => r is Err && r->Err_0.message@ == "Unsupported locale for text-to-phoneme: "@
                    + self.locale_view(),
            },
    {
        let normalized_text = self.normalize_text(text);
        let n = to_chars(normalized_text.as_str());
        let mut out: Vec<String> = Vec::new();
        if n.len() == 0 {
            assert(out@.map_values(|s: String| s@) =~= Seq::<Seq<char>>::empty());
            return Ok(out);
        }
        let locale = self.locale.as_str();
        if str_eq(locale, "zh") || str_eq(locale, "chinese") || str_eq(locale, "zh-CN") {
            let ghost want = char_phonemes(self.phones(), n@);
            let mut i: usize = 0;
            while i < n.len()
                invariant
                    i <= n.len(),
                    want == char_phonemes(self.phones(), n@),
                    out@.map_values(|s: String| s@) == want.subrange(0, i as int),
                decreases n.len() - i,
            {
                let mut one: Vec<char> = Vec::new();
                one.push(n[i]);
                assert(one@ =~= seq![n@[i as int]]);
                let p = if map_get(&self.phone_to_id, &one).is_some() {
                    string_of(&one)
                } else {
                    proof {
                        reveal_strlit("<unk>");
                    }
                    "<unk>".to_owned()
                };
                assert(want[i as int] == p@);
                let ghost before = out@;
                out.push(p);
                assert(out@.map_values(|s: String| s@) =~= before.map_values(|s: String| s@).push(want[i as int]));
                assert(want.subrange(0, i + 1) =~= want.subrange(0, i as int).push(want[i as int]));
                i += 1;
            }
            Ok(out)
        } else if str_eq(locale, "en") || str_eq(locale, "english") || str_eq(locale, "en-US") {
            let ws = split_words(&n);
            let ghost want = word_phonemes(self.phones(), n@);
            let mut i: usize = 0;
            while i < ws.len()
                invariant
                    i <= ws.len(),
                    ws@.map_values(|w: Vec<char>| w@) == words(n@),
                    want == word_phonemes(self.phones(), n@),
                    out@.map_values(|s: String| s@) == want.subrange(0, i as int),
                decreases ws.len() - i,
            {
                assert(ws@[i as int]@ == words(n@)[i as int]);
                let w = string_of(&ws[i]);
                let lower = to_lowercase(w.as_str());
                let lv = to_chars(lower.as_str());
                let p = if map_get(&self.phone_to_id, &lv).is_some() {
                    lower
                } else {
                    proof {
                        reveal_strlit("<unk>");
                    }
                    "<unk>".to_owned()
                };
                assert(want[i as int] == p@);
                let ghost before = out@;
                out.push(p);
                assert(out@.map_values(|s: String| s@) =~= before.map_values(|s: String| s@).push(want[i as int]));
                assert(want.subrange(0, i + 1) =~= want.subrange(0, i as int).push(want[i as int]));
                i += 1;
            }
            assert(want.subrange(0, want.len() as int) == want);
            Ok(out)
        } else {
            let mut m = to_chars("Unsupported locale for text-to-phoneme: ");
            text::append_str(&mut m, locale);
            Err(EngineError::new(string_of(&m)))
        }
    }

    /// The id of each phoneme: its own, else its lower case's, else `<unk>`'s, else 1.
    pub fn phonemes_to_ids(&self, phonemes: &[String]) -> (r: Result<Vec<i64>, EngineError>)
        ensures
            r is Ok,
            r->Ok_0@ == phone_ids(self.phones(), phonemes@.map_values(|s: String| s@)),
    {
        let ghost ps = phonemes@.map_values(|s: String| s@);
        let mut ids: Vec<i64> = Vec::new();
        let mut i: usize = 0;
        while i < phonemes.len()
            invariant
                i <= phonemes.len(),
                ps == phonemes@.map_values(|s: String| s@),
                ids@ == phone_ids(self.phones(), ps.subrange(0, i as int)),
            decreases phonemes.len() - i,
        {
            let p = to_chars(phonemes[i].as_str());
            let id = match map_get(&self.phone_to_id, &p) {
                Some(id) => id,
                None => {
                    let lower = to_lowercase(phonemes[i].as_str());
                    let lv = to_chars(lower.as_str());
                    match map_get(&self.phone_to_id, &lv) {
                        Some(id) => id,
                        None => {
                            let unk = to_chars("<unk>");
                            match map_get(&self.phone_to_id, &unk) {
                                Some(id) => id,
                                None => 1,
                            }
                        },
                    }
                },
            };
            ids.push(id);
            assert(ids@ =~= phone_ids(self.phones(), ps.subrange(0, i + 1)));
            i += 1;
        }
        assert(ps.subrange(0, ps.len() as int) == ps);
        Ok(ids)
    }

    /// The phoneme ids of `text`: its phonemes, then their ids.
    pub fn text_to_phone_ids(&self, text: &str) -> (r: Result<Vec<i64>, EngineError>)
        ensures
            match phonemes_of(self.phones(), self.locale_view(), text@) {
                Some(ps) => r is Ok && r->Ok_0@ == phone_ids(self.phones(), ps),
                None => r is Err && r->Err_0.message@ == "Unsupported locale for text-to-phoneme: "@
                    + self.locale_view(),
            },
    {
        let phonemes = self.text_to_phonemes(text)?;
        self.phonemes_to_ids(phonemes.as_slice())
    }

    /// The phone table: distinct phonemes with their ids.
    pub fn get_phone_to_id_map(&self) -> (r: &Vec<(String, i64)>)
        ensures
            entry_pairs(r@) == self.phones(),
    {
        &self.phone_to_id
    }
}

proof fn lemma_phone_entries_err_extends(rows: Seq<Seq<Seq<char>>>, k: int)
    requires
        0 <= k <= rows.len(),
        phone_entries(rows.subrange(0, k)) is Err,
    ensures
        phone_entries(rows) == phone_entries(rows.subrange(0, k)),
    decreases rows.len() - k,
{
    if k < rows.len() {
        assert(rows.subrange(0, k + 1).drop_last() == rows.subrange(0, k));
        lemma_phone_entries_err_extends(rows, k + 1);
    } else {
        assert(rows.subrange(0, k) == rows);
    }
}

// ---------------------------------------------------------------------------
// Laws
// ---------------------------------------------------------------------------

proof fn lemma_keep_chars_kept(x: Seq<char>)
    ensures
        forall|i: int| 0 <= i < keep_chars(x).len() ==> kept_char(#[trigger] keep_chars(x)[i]),
        keep_chars(x).len() <= x.len(),
    decreases x.len(),
{
    if x.len() > 0 {
        lemma_keep_chars_kept(x.drop_last());
    }
}

proof fn lemma_strip_keep_commute(x: Seq<char>)
    ensures
        text::strip_ws(keep_chars(x)) == keep_chars(text::strip_ws(x)),
    decreases x.len(),
{
    if x.len() > 0 {
        let d = x.drop_last();
        lemma_strip_keep_commute(d);
        let c = x.last();
        if kept_char(c) {
            assert(keep_chars(x).drop_last() == keep_chars(d));
        }
        if !text::is_ws(c) {
            assert(text::strip_ws(x).drop_last() == text::strip_ws(d));
        }
    }
}

proof fn lemma_flatten_words_empty(ws: Seq<Seq<char>>)
    requires
        forall|k: int| 0 <= k < ws.len() ==> text::is_word(#[trigger] ws[k]),
        text::flatten(ws).len() == 0,
    ensures
        ws.len() == 0,
{
    if ws.len() > 0 {
        assert(text::is_word(ws[ws.len() - 1]));
        assert(text::flatten(ws).len() == text::flatten(ws.drop_last()).len() + ws.last().len());
    }
}

/// `TextProcessor::normalize_text` keeps only letters, digits, spaces and `.,!?;:-'"`;
/// apart from whitespace it keeps, in order, exactly the kept characters of the text;
/// and a blank text gives the empty text.
pub proof fn law_normalize_text(t: Seq<char>)
    ensures
        forall|i: int| 0 <= i < normalized(t).len() ==> kept_char(#[trigger] normalized(t)[i]),
        text::strip_ws(normalized(t)) == keep_chars(text::strip_ws(t)),
        text::strip_ws(t).len() == 0 ==> normalized(t).len() == 0,
{
    let ws = words(t);
    let j = join(ws, seq![' ']);
    lemma_keep_chars_kept(j);
    lemma_strip_keep_commute(j);
    text::lemma_words_are_words(t);
    text::lemma_strip_ws_join(ws);
    text::lemma_strip_ws_words(t);
    if text::strip_ws(t).len() == 0 {
        lemma_flatten_words_empty(ws);
        assert(j == Seq::<char>::empty());
    }
}

/// `TextProcessor::text_to_phonemes`: nothing for a text that normalizes to nothing;
/// for Chinese one phoneme per normalized character (the character when the table has
/// it, else `<unk>`); for English one per normalized word (the word in lower case when
/// the table has it, else `<unk>`); an error for any other locale.
pub proof fn law_text_to_phonemes(phones: Seq<(Seq<char>, i64)>, locale: Seq<char>, t: Seq<char>)
    ensures
        ({
            let n = normalized(t);
            let r = phonemes_of(phones, locale, t);
            &&& n.len() == 0 ==> r == Some(Seq::<Seq<char>>::empty())
            &&& n.len() > 0 && is_chinese_locale(locale) ==> r is Some && r->0.len() == n.len()
                && forall|i: int| 0 <= i < n.len() ==> #[trigger] r->0[i] == if lookup(phones, seq![n[i]]) is Some {
                    seq![n[i]]
                } else {
                    unk_phone()
                }
            &&& n.len() > 0 && is_english_locale(locale) ==> r is Some && r->0.len() == words(n).len()
                && forall|i: int| 0 <= i < words(n).len() ==> #[trigger] r->0[i] == if lookup(phones, text::lowercase(words(n)[i])) is Some {
                    text::lowercase(words(n)[i])
                } else {
                    unk_phone()
                }
            &&& n.len() > 0 && !is_chinese_locale(locale) && !is_english_locale(locale) ==> r is None
        }),
{
    reveal_strlit("zh");
    reveal_strlit("chinese");
    reveal_strlit("zh-CN");
    reveal_strlit("en");
    reveal_strlit("english");
    reveal_strlit("en-US");
    assert(is_english_locale(locale) ==> locale.len() > 0 && locale[0] == 'e');
    assert(is_chinese_locale(locale) ==> locale.len() > 0 && locale[0] != 'e');
    let n = normalized(t);
    let cp = char_phonemes(phones, n);
    let wp = word_phonemes(phones, n);
    assert forall|i: int| 0 <= i < n.len() implies #[trigger] cp[i] == if lookup(phones, seq![n[i]]) is Some {
        seq![n[i]]
    } else {
        unk_phone()
    } by {}
    assert forall|i: int| 0 <= i < words(n).len() implies #[trigger] wp[i] == if lookup(phones, text::lowercase(words(n)[i])) is Some {
        text::lowercase(words(n)[i])
    } else {
        unk_phone()
    } by {}
}

/// `TextProcessor::phonemes_to_ids` gives one id per phoneme: the phoneme's own, else
/// that of its lower case, else that of `<unk>`, else 1.
pub proof fn law_phonemes_to_ids(phones: Seq<(Seq<char>, i64)>, ps: Seq<Seq<char>>)
    ensures
        phone_ids(phones, ps).len() == ps.len(),
        forall|i: int| 0 <= i < ps.len() ==> #[trigger] phone_ids(phones, ps)[i] == match lookup(phones, ps[i]) {
            Some(id) => id,
            None => match lookup(phones, text::lowercase(ps[i])) {
                Some(id) => id,
                None => match lookup(phones, "<unk>"@) {
                    Some(id) => id,
                    None => 1,
                },
            },
        },
{
}

/// The punctuation normalization keeps: `. , ! ? ; : - ' "`.
pub open spec fn kept_mark(c: char) -> bool {
    c == '.' || c == ',' || c == '!' || c == '?' || c == ';' || c == ':' || c == '-' || c == '\'' || c == '"'
}

/// The kept punctuation of `s`, in order.
pub open spec fn marks_of(s: Seq<char>) -> Seq<char>
    decreases s.len(),
{
    if s.len() == 0 {
        seq![]
    } else if kept_mark(s.last()) {
        marks_of(s.drop_last()).push(s.last())
    } else {
        marks_of(s.drop_last())
    }
}

proof fn lemma_marks_of_keep(x: Seq<char>)
    ensures
        marks_of(keep_chars(x)) == marks_of(x),
    decreases x.len(),
{
    if x.len() > 0 {
        lemma_marks_of_keep(x.drop_last());
        if kept_char(x.last()) {
            assert(keep_chars(x).drop_last() == keep_chars(x.drop_last()));
        }
    }
}

proof fn lemma_marks_of_strip(x: Seq<char>)
    ensures
        marks_of(text::strip_ws(x)) == marks_of(x),
    decreases x.len(),
{
    if x.len() > 0 {
        lemma_marks_of_strip(x.drop_last());
        if !text::is_ws(x.last()) {
            assert(text::strip_ws(x).drop_last() == text::strip_ws(x.drop_last()));
        }
    }
}

/// Normalization keeps every `. , ! ? ; : - ' "` of the text, in order (so "don't"
/// keeps its apostrophe).
pub proof fn law_normalize_keeps_punctuation(t: Seq<char>)
    ensures
        marks_of(normalized(t)) == marks_of(t),
{
    let ws = words(t);
    let j = join(ws, seq![' ']);
    lemma_marks_of_keep(j);
    text::lemma_words_are_words(t);
    text::lemma_strip_ws_join(ws);
    text::lemma_strip_ws_words(t);
    lemma_marks_of_strip(j);
    lemma_marks_of_strip(t);
}

} // verus!
