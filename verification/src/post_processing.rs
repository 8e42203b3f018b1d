//! Cleaning translated text: whitespace, repeated punctuation, glossary terms and a
//! final full stop.
use vstd::prelude::*;
use crate::text;
use crate::text::{contains_exec, replace_chars, replace_str, string_of, to_chars, trim_chars};
use crate::translation_quality::is_chinese;
use crate::json::{entry_views, json_object_entries, parse_json_object, JsonEntries, JsonScalar, JsonScalarView};

verus! {

/// Post-processes translated text.
pub struct TextPostProcessor {
    /// Glossary: each source term is replaced by its target term, in this order.
    terms_map: Vec<(String, String)>,
    enabled: bool,
}

// ---------------------------------------------------------------------------
// Specification
// ---------------------------------------------------------------------------

/// `s` after replacing double spaces by single spaces until none is left.
pub open spec fn collapse_spaces(s: Seq<char>) -> Seq<char>
    decreases s.len(),
{
    if text::contains(s, seq![' ', ' ']) {
        proof {
            text::lemma_replace_shrinks(s, seq![' ', ' '], seq![' ']);
        }
        collapse_spaces(text::replace_all(s, seq![' ', ' '], seq![' ']))
    } else {
        s
    }
}

/// Trimmed, spaces collapsed, and runs of repeated punctuation reduced.
pub open spec fn cleaned(t: Seq<char>) -> Seq<char> {
    let a = collapse_spaces(text::trim(t));
    let b = text::replace_all(a, "。。。。"@, "。"@);
    let c = text::replace_all(b, "，，，，"@, "，"@);
    let d = text::replace_all(c, "？？？？"@, "？"@);
    let e = text::replace_all(d, "！！！！"@, "！"@);
    let f = text::replace_all(e, "...."@, "."@);
    let g = text::replace_all(f, ",,,"@, ","@);
    let h = text::replace_all(g, "???"@, "?"@);
    text::replace_all(h, "!!!"@, "!"@)
}

/// `s` with the glossary applied term by term, in order.
pub open spec fn apply_terms(s: Seq<char>, terms: Seq<(Seq<char>, Seq<char>)>) -> Seq<char>
    decreases terms.len(),
{
    if terms.len() == 0 {
        s
    } else {
        text::replace_all(apply_terms(s, terms.drop_last()), terms.last().0, terms.last().1)
    }
}

/// Characters that count as closing punctuation.
pub open spec fn is_final_punct(c: char) -> bool {
    c == '.' || c == ',' || c == '!' || c == '?' || c == '。' || c == '，' || c == '！' || c
        == '？' || c == ';' || c == '；' || c == ':' || c == '：'
}

/// `t` unchanged when it is blank or already ends with punctuation; otherwise its
/// trimmed form followed by a full stop (ideographic for Chinese).
pub open spec fn with_final_punct(t: Seq<char>, lang: Seq<char>) -> Seq<char> {
    let tr = text::trim(t);
    if tr.len() == 0 {
        t
    } else if is_final_punct(tr.last()) {
        t
    } else if is_chinese(lang) {
        tr.push('。')
    } else {
        tr.push('.')
    }
}

/// What an enabled post-processor makes of `t`.
pub open spec fn processed(t: Seq<char>, terms: Seq<(Seq<char>, Seq<char>)>, lang: Seq<char>) -> Seq<char> {
    with_final_punct(apply_terms(cleaned(t), terms), lang)
}

/// The string-valued entries of a parsed object.
pub open spec fn string_entries(es: JsonEntries) -> Seq<(Seq<char>, Seq<char>)>
    decreases es.len(),
{
    if es.len() == 0 {
        seq![]
    } else {
        let rest = string_entries(es.drop_last());
        match es.last().1 {
            JsonScalarView::Str(v) => rest.push((es.last().0, v)),
            _ => rest,
        }
    }
}

/// The glossary held in a JSON document: its string-valued entries when it is an
/// object, and nothing otherwise.
pub open spec fn glossary_of_json(json: Seq<char>) -> Seq<(Seq<char>, Seq<char>)> {
    match json_object_entries(json) {
        Some(es) => string_entries(es),
        None => seq![],
    }
}

pub open spec fn pair_views(v: Seq<(String, String)>) -> Seq<(Seq<char>, Seq<char>)> {
    v.map_values(|p: (String, String)| (p.0@, p.1@))
}

// ---------------------------------------------------------------------------
// Laws
// ---------------------------------------------------------------------------

/// The marks a sentence may already close with: `. , ! ? 。 ， ！ ？ ; ； : ：`.
pub open spec fn closing_mark(c: char) -> bool {
    c == '.' || c == ',' || c == '!' || c == '?' || c == '。' || c == '，' || c == '！' || c == '？'
        || c == ';' || c == '；' || c == ':' || c == '：'
}

/// A text that is blank or already closes with one of the marks comes back unchanged
/// (no full stop after a question mark); any other text is trimmed and closed with a
/// full stop (`。` for `zh` and `zh-CN`); either way a non-blank result closes with a mark.
pub proof fn law_full_stop_only_when_missing(t: Seq<char>, lang: Seq<char>)
    ensures
        text::trim(t).len() == 0 ==> with_final_punct(t, lang) == t,
        text::trim(t).len() > 0 && closing_mark(text::trim(t).last()) ==> with_final_punct(t, lang) == t,
        text::trim(t).len() > 0 && !closing_mark(text::trim(t).last()) ==> with_final_punct(t, lang) == text::trim(
            t,
        ).push(if lang == "zh"@ || lang == "zh-CN"@ { '。' } else { '.' }),
        text::trim(t).len() > 0 ==> text::trim(with_final_punct(t, lang)).len() > 0 && closing_mark(
            text::trim(with_final_punct(t, lang)).last(),
        ),
{
    let tr = text::trim(t);
    text::lemma_trim_props(t);
    if tr.len() > 0 && !closing_mark(tr.last()) {
        let p = if is_chinese(lang) { '。' } else { '.' };
        let u = tr.push(p);
        text::lemma_trim_start_props(u);
        assert(text::trim_start(tr) == tr);
        assert(text::trim_start(u) == u) by {
            assert(u[0] == tr[0]);
        }
        assert(u.last() == p);
        assert(text::trim_end(u) == u);
    }
}

/// The full stop is added at most once: a text that already went through the check
/// comes back unchanged.
pub proof fn law_final_punct_idempotent(t: Seq<char>, lang: Seq<char>)
    ensures
        with_final_punct(with_final_punct(t, lang), lang) == with_final_punct(t, lang),
{
    let tr = text::trim(t);
    if tr.len() > 0 && !is_final_punct(tr.last()) {
        let p = if is_chinese(lang) {
            '。'
        } else {
            '.'
        };
        let u = tr.push(p);
        text::lemma_trim_props(t);
        text::lemma_trim_start_props(u);
        assert(text::trim_start(tr) == tr);
        assert(text::trim_start(u) == u) by {
            assert(u[0] == tr[0]);
        }
        assert(u.last() == p);
        assert(text::trim_end(u) == u);
    }
}

// ---------------------------------------------------------------------------
// Implementation
// ---------------------------------------------------------------------------

fn collapse_spaces_chars(v: Vec<char>) -> (r: Vec<char>)
    ensures
        r@ == collapse_spaces(v@),
    decreases v@.len(),
{
    let pat = to_chars("  ");
    let rep = to_chars(" ");
    proof {
        reveal_strlit("  ");
        reveal_strlit(" ");
    }
    assert(pat@ =~= seq![' ', ' ']);
    assert(rep@ =~= seq![' ']);
    if contains_exec(&v, &pat) {
        let next = replace_chars(&v, &pat, &rep);
        proof {
            text::lemma_replace_shrinks(v@, pat@, rep@);
        }
        collapse_spaces_chars(next)
    } else {
        v
    }
}

fn clean_chars(v: &Vec<char>) -> (r: Vec<char>)
    ensures
        r@ == cleaned(v@),
{
    let t = trim_chars(v);
    let a = collapse_spaces_chars(t);
    let b = replace_str(&a, "。。。。", "。");
    let c = replace_str(&b, "，，，，", "，");
    let d = replace_str(&c, "？？？？", "？");
    let e = replace_str(&d, "！！！！", "！");
    let f = replace_str(&e, "....", ".");
    let g = replace_str(&f, ",,,", ",");
    let h = replace_str(&g, "???", "?");
    replace_str(&h, "!!!", "!")
}

fn is_final_punctuation(c: char) -> (r: bool)
    ensures
        r == is_final_punct(c),
{
    c == '.' || c == ',' || c == '!' || c == '?' || c == '。' || c == '，' || c == '！' || c
        == '？' || c == ';' || c == '；' || c == ':' || c == '：'
}

fn add_punctuation_chars(v: &Vec<char>, target_lang: &str) -> (r: Vec<char>)
    ensures
        r@ == with_final_punct(v@, target_lang@),
{
    let mut tr = trim_chars(v);
    if tr.len() == 0 {
        return text::copy_range(v, 0, v.len());
    }
    if is_final_punctuation(tr[tr.len() - 1]) {
        return text::copy_range(v, 0, v.len());
    }
    if text::str_eq(target_lang, "zh") || text::str_eq(target_lang, "zh-CN") {
        tr.push('。');
    } else {
        tr.push('.');
    }
    tr
}

impl TextPostProcessor {
    /// The glossary, as pairs of source and target term.
    pub closed spec fn terms(&self) -> Seq<(Seq<char>, Seq<char>)> {
        pair_views(self.terms_map@)
    }

    /// Whether post-processing is enabled.
    pub closed spec fn is_enabled(&self) -> bool {
        self.enabled
    }

    /// A post-processor whose glossary is read from a JSON object of string values
    /// (entries with other values are ignored); no JSON, or JSON that is not an object,
    /// gives an empty glossary.
    pub fn new(terms_json: Option<&str>, enabled: bool) -> (r: Self)
        ensures
            r.is_enabled() == enabled,
            r.terms() == match terms_json {
                Some(j) => glossary_of_json(j@),
                None => Seq::<(Seq<char>, Seq<char>)>::empty(),
            },
    {
        let mut terms_map: Vec<(String, String)> = Vec::new();
        assert(pair_views(terms_map@) =~= Seq::<(Seq<char>, Seq<char>)>::empty());
        match terms_json {
            Some(j) => {
                match parse_json_object(j) {
                    Some(entries) => {
                        let ghost es = entry_views(entries@);
                        let mut i: usize = 0;
                        assert(es.subrange(0, 0) =~= Seq::<(Seq<char>, JsonScalarView)>::empty());
                        while i < entries.len()
                            invariant
                                i <= entries.len(),
                                es == entry_views(entries@),
                                pair_views(terms_map@) == string_entries(es.subrange(0, i as int)),
                            decreases entries.len() - i,
                        {
                            let ghost post = es.subrange(0, i + 1);
                            assert(post.drop_last() == es.subrange(0, i as int));
                            assert(post.last() == es[i as int]);
                            let ghost before = terms_map@;
                            match &entries[i].1 {
                                JsonScalar::Str(v) => {
                                    terms_map.push((entries[i].0.clone(), v.clone()));
                                    assert(pair_views(terms_map@) =~= pair_views(before).push(
                                        (es[i as int].0, v@),
                                    ));
                                },
                                _ => {},
                            }
                            i += 1;
                        }
                        assert(es.subrange(0, es.len() as int) == es);
                    },
                    None => {},
                }
            },
            None => {},
        }
        Self { terms_map, enabled }
    }

    /// A post-processor with the given glossary, applied in order.
    pub fn with_terms(terms_map: Vec<(String, String)>, enabled: bool) -> (r: Self)
        ensures
            r.is_enabled() == enabled,
            r.terms() == pair_views(terms_map@),
    {
        Self { terms_map, enabled }
    }

    /// An enabled post-processor with an empty glossary.
    pub fn default() -> (r: Self)
        ensures
            r.is_enabled(),
            r.terms() == Seq::<(Seq<char>, Seq<char>)>::empty(),
    {
        let terms_map: Vec<(String, String)> = Vec::new();
        assert(pair_views(terms_map@) =~= Seq::<(Seq<char>, Seq<char>)>::empty());
        Self { terms_map, enabled: true }
    }

    /// Cleans `text`, applies the glossary and closes it with a full stop when it lacks
    /// final punctuation.  A disabled post-processor returns `text` unchanged.
    pub fn process(&self, text: &str, target_lang: &str) -> (r: String)
        ensures
            !self.is_enabled() ==> r@ == text@,
            self.is_enabled() ==> r@ == processed(text@, self.terms(), target_lang@),
    {
        if !self.enabled {
            return text.to_string();
        }
        let v = to_chars(text);
        let a = clean_chars(&v);
        let b = self.replace_terms_chars(&a);
        let c = add_punctuation_chars(&b, target_lang);
        string_of(&c)
    }

    /// Trims, collapses repeated spaces and reduces runs of repeated punctuation.
    pub fn clean_text(&self, text: &str) -> (r: String)
        ensures
            r@ == cleaned(text@),
    {
        let v = to_chars(text);
        let r = clean_chars(&v);
        string_of(&r)
    }

    fn replace_terms_chars(&self, v: &Vec<char>) -> (r: Vec<char>)
        ensures
            r@ == apply_terms(v@, self.terms()),
    {
        let ghost terms = self.terms();
        let mut out = text::copy_range(v, 0, v.len());
        assert(v@.subrange(0, v@.len() as int) == v@);
        let mut i: usize = 0;
        assert(terms.subrange(0, 0) =~= Seq::<(Seq<char>, Seq<char>)>::empty());
        while i < self.terms_map.len()
            invariant
                i <= self.terms_map.len(),
                terms == pair_views(self.terms_map@),
                out@ == apply_terms(v@, terms.subrange(0, i as int)),
            decreases self.terms_map.len() - i,
        {
            let ghost post = terms.subrange(0, i + 1);
            assert(post.drop_last() == terms.subrange(0, i as int));
            let key = to_chars(self.terms_map[i].0.as_str());
            let val = to_chars(self.terms_map[i].1.as_str());
            out = replace_chars(&out, &key, &val);
            i += 1;
        }
        assert(terms.subrange(0, terms.len() as int) == terms);
        out
    }

    /// Applies the glossary to `text`, term by term.
    pub fn replace_terms(&self, text: &str) -> (r: String)
        ensures
            r@ == apply_terms(text@, self.terms()),
    {
        let v = to_chars(text);
        let r = self.replace_terms_chars(&v);
        string_of(&r)
    }

    /// Closes `text` with a full stop (`。` for Chinese, `.` otherwise) unless it is
    /// blank or already ends with punctuation; when added, the text is trimmed first.
    pub fn add_punctuation_if_needed(&self, text: &str, target_lang: &str) -> (r: String)
        ensures
            r@ == with_final_punct(text@, target_lang@),
    {
        let v = to_chars(text);
        let r = add_punctuation_chars(&v, target_lang);
        string_of(&r)
    }
}

} // verus!
