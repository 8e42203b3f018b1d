//! Detecting and repairing obviously broken machine translations.
use vstd::prelude::*;
use crate::text;
use crate::text::{
    is_alphabetic, is_chinese_char, is_whitespace, join_chars, replace_str, split_words,
    string_of, to_chars, trim_chars, str_eq,
};

verus! {

/// Checks translations for repeated words, junk characters and near-empty output.
pub struct TranslationQualityChecker {
    enabled: bool,
}

// ---------------------------------------------------------------------------
// Specification
// ---------------------------------------------------------------------------

/// One past the end of the run of words equal to `ws[i]` that starts at `i`, scanning
/// from `j`.
pub open spec fn run_end(ws: Seq<Seq<char>>, i: int, j: int) -> int
    decreases ws.len() - j,
{
    if 0 <= i && i < j < ws.len() && ws[j] == ws[i] {
        run_end(ws, i, j + 1)
    } else {
        j
    }
}

pub proof fn lemma_run_end_bounds(ws: Seq<Seq<char>>, i: int, j: int)
    requires
        j <= ws.len(),
    ensures
        j <= run_end(ws, i, j) <= ws.len(),
    decreases ws.len() - j,
{
    if 0 <= i && i < j < ws.len() && ws[j] == ws[i] {
        lemma_run_end_bounds(ws, i, j + 1);
    }
}

/// `ws[i..]` with every run of three or more equal consecutive words reduced to one
/// word; shorter runs are kept.
pub open spec fn dedup_runs_from(ws: Seq<Seq<char>>, i: int) -> Seq<Seq<char>>
    decreases ws.len() - i,
{
    if i < 0 || i >= ws.len() {
        seq![]
    } else {
        let count = run_end(ws, i, i + 1) - i;
        if count > 2 {
            proof {
                lemma_run_end_bounds(ws, i, i + 1);
            }
            seq![ws[i]] + dedup_runs_from(ws, i + count)
        } else {
            seq![ws[i]] + dedup_runs_from(ws, i + 1)
        }
    }
}

proof fn lemma_run_end_stops(ws: Seq<Seq<char>>, i: int, j: int)
    requires
        0 <= i < j <= ws.len(),
        forall|k: int| i <= k < j ==> ws[k] == ws[i],
    ensures
        j <= run_end(ws, i, j) <= ws.len(),
        forall|k: int| i <= k < run_end(ws, i, j) ==> ws[k] == ws[i],
        run_end(ws, i, j) == ws.len() || ws[run_end(ws, i, j)] != ws[i],
    decreases ws.len() - j,
{
    if j < ws.len() && ws[j] == ws[i] {
        lemma_run_end_stops(ws, i, j + 1);
    }
}

/// No word comes three times in a row.
pub open spec fn no_word_thrice(o: Seq<Seq<char>>) -> bool {
    forall|k: int| 0 <= k && k + 2 < o.len() ==> !(#[trigger] o[k] == o[k + 1] && o[k + 1] == o[k + 2])
}

proof fn lemma_dedup_runs_shape(ws: Seq<Seq<char>>, i: int)
    requires
        0 <= i <= ws.len(),
    ensures
        no_word_thrice(dedup_runs_from(ws, i)),
        i < ws.len() ==> dedup_runs_from(ws, i).len() > 0 && dedup_runs_from(ws, i)[0] == ws[i],
        i == ws.len() ==> dedup_runs_from(ws, i).len() == 0,
        dedup_runs_from(ws, i).len() >= 3 && dedup_runs_from(ws, i)[0] == dedup_runs_from(ws, i)[1]
            ==> dedup_runs_from(ws, i)[1] != dedup_runs_from(ws, i)[2],
    decreases ws.len() - i,
{
    if i < ws.len() {
        lemma_run_end_stops(ws, i, i + 1);
        let e = run_end(ws, i, i + 1);
        let count = e - i;
        let o = dedup_runs_from(ws, i);
        if count > 2 {
            lemma_dedup_runs_shape(ws, e);
            let rest = dedup_runs_from(ws, e);
            assert(o == seq![ws[i]] + rest);
            assert(rest.len() > 0 ==> rest[0] != ws[i]);
            assert forall|k: int| 0 <= k && k + 2 < o.len() implies !(#[trigger] o[k] == o[k + 1] && o[k + 1] == o[k + 2]) by {
                if k > 0 {
                    assert(o[k] == rest[k - 1] && o[k + 1] == rest[k] && o[k + 2] == rest[k + 1]);
                    assert(!(rest[k - 1] == rest[k - 1 + 1] && rest[k - 1 + 1] == rest[k - 1 + 2]));
                }
            }
        } else {
            lemma_dedup_runs_shape(ws, i + 1);
            let rest = dedup_runs_from(ws, i + 1);
            assert(o == seq![ws[i]] + rest);
            if count == 2 {
                lemma_run_end_stops(ws, i + 1, i + 2);
                assert(run_end(ws, i + 1, i + 2) == i + 2);
                lemma_dedup_runs_shape(ws, i + 2);
                assert(rest == seq![ws[i + 1]] + dedup_runs_from(ws, i + 2));
                if i + 2 < ws.len() {
                    assert(rest[1] == ws[i + 2]);
                }
            }
            assert forall|k: int| 0 <= k && k + 2 < o.len() implies !(#[trigger] o[k] == o[k + 1] && o[k + 1] == o[k + 2]) by {
                if k > 0 {
                    assert(o[k] == rest[k - 1] && o[k + 1] == rest[k] && o[k + 2] == rest[k + 1]);
                    assert(!(rest[k - 1] == rest[k - 1 + 1] && rest[k - 1 + 1] == rest[k - 1 + 2]));
                }
            }
        }
    }
}

/// After runs of repeated words are collapsed, no word comes three times in a row.
pub proof fn law_no_word_thrice_after_dedup(ws: Seq<Seq<char>>)
    ensures
        no_word_thrice(dedup_runs_from(ws, 0)),
{
    lemma_dedup_runs_shape(ws, 0);
}

proof fn lemma_dedup_runs_keeps_thrice_free(o: Seq<Seq<char>>, i: int)
    requires
        0 <= i <= o.len(),
        no_word_thrice(o),
    ensures
        dedup_runs_from(o, i) == o.subrange(i, o.len() as int),
    decreases o.len() - i,
{
    if i < o.len() {
        lemma_run_end_stops(o, i, i + 1);
        let e = run_end(o, i, i + 1);
        if e - i > 2 {
            assert(o[i + 1] == o[i] && o[i + 2] == o[i]);
            assert(!(o[i] == o[i + 1] && o[i + 1] == o[i + 2]));
        }
        lemma_dedup_runs_keeps_thrice_free(o, i + 1);
        assert(o.subrange(i, o.len() as int) =~= seq![o[i]] + o.subrange(i + 1, o.len() as int));
    } else {
        assert(o.subrange(i, o.len() as int) =~= Seq::<Seq<char>>::empty());
    }
}

/// Words with no word three times in a row are kept as they are, pairs included.
pub proof fn law_dedup_keeps_words_without_triples(ws: Seq<Seq<char>>)
    requires
        no_word_thrice(ws),
    ensures
        dedup_runs_from(ws, 0) == ws,
{
    lemma_dedup_runs_keeps_thrice_free(ws, 0);
    assert(ws.subrange(0, ws.len() as int) =~= ws);
}

/// Three or more copies of one word collapse to a single copy.
pub proof fn law_dedup_collapses_a_run(w: Seq<char>, n: nat)
    requires
        n >= 3,
    ensures
        dedup_runs_from(Seq::new(n, |i: int| w), 0) == seq![w],
{
    let ws = Seq::new(n, |i: int| w);
    lemma_run_end_stops(ws, 0, 1);
    let e = run_end(ws, 0, 1);
    assert(e == n);
    assert(dedup_runs_from(ws, n as int) == Seq::<Seq<char>>::empty());
    assert(dedup_runs_from(ws, 0) =~= seq![w]);
}

/// Collapsing runs of repeated words a second time changes nothing.
pub proof fn law_dedup_runs_idempotent(ws: Seq<Seq<char>>)
    ensures
        dedup_runs_from(dedup_runs_from(ws, 0), 0) == dedup_runs_from(ws, 0),
{
    let o = dedup_runs_from(ws, 0);
    law_no_word_thrice_after_dedup(ws);
    lemma_dedup_runs_keeps_thrice_free(o, 0);
    assert(o.subrange(0, o.len() as int) =~= o);
}

/// Whether the fragment `w[i..i+l]` occurs again at `p`.
pub open spec fn fragment_at(w: Seq<char>, i: int, l: int, p: int) -> bool {
    0 <= i && 0 <= l && i + l <= w.len() && text::occurs_at(w, w.subrange(i, i + l), p)
}

/// The shortest length, from `l` on and at least two, of a fragment that starts at `i`
/// and comes three times in a row.
pub open spec fn repeated_fragment_from(w: Seq<char>, i: int, l: int) -> Option<int>
    decreases w.len() - l,
{
    if l < 2 || i < 0 || i + 3 * l > w.len() {
        None
    } else if fragment_at(w, i, l, i + l) && fragment_at(w, i, l, i + 2 * l) {
        Some(l)
    } else {
        repeated_fragment_from(w, i, l + 1)
    }
}

/// Where the copies of the fragment `w[i..i+l]` that follow one another from `p` end.
pub open spec fn copies_end(w: Seq<char>, i: int, l: int, p: int) -> int
    decreases w.len() - p,
{
    if l > 0 && 0 <= p && fragment_at(w, i, l, p) {
        copies_end(w, i, l, p + l)
    } else {
        p
    }
}

pub proof fn lemma_repeated_fragment_bounds(w: Seq<char>, i: int, l: int)
    ensures
        repeated_fragment_from(w, i, l) is Some ==> {
            let m = repeated_fragment_from(w, i, l)->0;
            2 <= m && 0 <= i && i + 3 * m <= w.len()
        },
    decreases w.len() - l,
{
    if !(l < 2 || i < 0 || i + 3 * l > w.len()) && !(fragment_at(w, i, l, i + l) && fragment_at(w, i, l, i + 2 * l)) {
        lemma_repeated_fragment_bounds(w, i, l + 1);
    }
}

pub proof fn lemma_copies_end_bounds(w: Seq<char>, i: int, l: int, p: int)
    requires
        0 <= p <= w.len(),
    ensures
        p <= copies_end(w, i, l, p) <= w.len(),
    decreases w.len() - p,
{
    if l > 0 && 0 <= p && fragment_at(w, i, l, p) {
        lemma_copies_end_bounds(w, i, l, p + l);
    }
}

/// `w[i..]` with every fragment of two or more characters that comes three or more
/// times in a row reduced to one copy (the shortest such fragment at each position).
pub open spec fn collapse_from(w: Seq<char>, i: int) -> Seq<char>
    decreases w.len() - i,
{
    if i < 0 || i >= w.len() {
        seq![]
    } else {
        match repeated_fragment_from(w, i, 2) {
            Some(l) => {
                proof {
                    lemma_repeated_fragment_bounds(w, i, 2);
                    lemma_copies_end_bounds(w, i, l, i + 3 * l);
                }
                w.subrange(i, i + l) + collapse_from(w, copies_end(w, i, l, i + 3 * l))
            },
            None => seq![w[i]] + collapse_from(w, i + 1),
        }
    }
}

/// A word with its repeated fragments collapsed ("theiriririr" becomes "their").
pub open spec fn collapse_fragments(w: Seq<char>) -> Seq<char> {
    collapse_from(w, 0)
}

/// The text with repeated fragments inside each word collapsed, then runs of three or
/// more repeated words collapsed to one, words separated by single spaces.
pub open spec fn without_repetitions(t: Seq<char>) -> Seq<char> {
    text::join(dedup_runs_from(text::words(t).map_values(|w: Seq<char>| collapse_fragments(w)), 0), seq![' '])
}

proof fn lemma_collapse_keeps_word(w: Seq<char>, i: int)
    requires
        text::is_word(w),
        0 <= i <= w.len(),
    ensures
        i < w.len() ==> collapse_from(w, i).len() > 0,
        forall|k: int| 0 <= k < collapse_from(w, i).len() ==> !text::is_ws(#[trigger] collapse_from(w, i)[k]),
    decreases w.len() - i,
{
    if i < w.len() {
        let o = collapse_from(w, i);
        match repeated_fragment_from(w, i, 2) {
            Some(l) => {
                lemma_repeated_fragment_bounds(w, i, 2);
                lemma_copies_end_bounds(w, i, l, i + 3 * l);
                let e = copies_end(w, i, l, i + 3 * l);
                lemma_collapse_keeps_word(w, e);
                let head = w.subrange(i, i + l);
                let rest = collapse_from(w, e);
                assert(o == head + rest);
                assert forall|k: int| 0 <= k < o.len() implies !text::is_ws(#[trigger] o[k]) by {
                    if k < l {
                        assert(o[k] == w[i + k]);
                    } else {
                        assert(o[k] == rest[k - l]);
                    }
                }
            },
            None => {
                lemma_collapse_keeps_word(w, i + 1);
                let rest = collapse_from(w, i + 1);
                assert(o == seq![w[i]] + rest);
                assert forall|k: int| 0 <= k < o.len() implies !text::is_ws(#[trigger] o[k]) by {
                    if k == 0 {
                        assert(o[k] == w[i]);
                    } else {
                        assert(o[k] == rest[k - 1]);
                    }
                }
            },
        }
    }
}

proof fn lemma_dedup_runs_keeps_words(ws: Seq<Seq<char>>, i: int)
    requires
        0 <= i <= ws.len(),
        forall|k: int| 0 <= k < ws.len() ==> text::is_word(#[trigger] ws[k]),
    ensures
        forall|k: int| 0 <= k < dedup_runs_from(ws, i).len() ==> text::is_word(#[trigger] dedup_runs_from(ws, i)[k]),
    decreases ws.len() - i,
{
    if i < ws.len() {
        lemma_run_end_stops(ws, i, i + 1);
        let e = run_end(ws, i, i + 1);
        let o = dedup_runs_from(ws, i);
        let next = if e - i > 2 { e } else { i + 1 };
        lemma_dedup_runs_keeps_words(ws, next);
        let rest = dedup_runs_from(ws, next);
        assert(o == seq![ws[i]] + rest);
        assert forall|k: int| 0 <= k < o.len() implies text::is_word(#[trigger] o[k]) by {
            if k == 0 {
                assert(o[k] == ws[i]);
            } else {
                assert(o[k] == rest[k - 1]);
            }
        }
    }
}

/// The words of a text cleaned of repetitions are the collapsed words with runs reduced,
/// so no word comes three times in a row.
pub proof fn law_no_word_thrice_in_result(t: Seq<char>)
    ensures
        text::words(without_repetitions(t)) == dedup_runs_from(
            text::words(t).map_values(|w: Seq<char>| collapse_fragments(w)),
            0,
        ),
        no_word_thrice(text::words(without_repetitions(t))),
{
    let ws = text::words(t);
    let cs = ws.map_values(|w: Seq<char>| collapse_fragments(w));
    text::lemma_words_are_words(t);
    assert forall|k: int| 0 <= k < cs.len() implies text::is_word(#[trigger] cs[k]) by {
        assert(text::is_word(ws[k]));
        lemma_collapse_keeps_word(ws[k], 0);
        assert(cs[k] == collapse_from(ws[k], 0));
    }
    lemma_dedup_runs_keeps_words(cs, 0);
    text::lemma_words_of_join(dedup_runs_from(cs, 0));
    law_no_word_thrice_after_dedup(cs);
}

/// Number of characters that are neither alphabetic nor whitespace.
pub open spec fn count_non_alpha(s: Seq<char>) -> nat
    decreases s.len(),
{
    if s.len() == 0 {
        0
    } else {
        count_non_alpha(s.drop_last()) + if !text::char_is_alphabetic(s.last()) && !text::is_ws(
            s.last(),
        ) {
            1nat
        } else {
            0nat
        }
    }
}

/// Number of characters that are not whitespace.
pub open spec fn count_non_ws(s: Seq<char>) -> nat
    decreases s.len(),
{
    if s.len() == 0 {
        0
    } else {
        count_non_ws(s.drop_last()) + if !text::is_ws(s.last()) {
            1nat
        } else {
            0nat
        }
    }
}

/// Number of CJK ideographs.
pub open spec fn count_cjk(s: Seq<char>) -> nat
    decreases s.len(),
{
    if s.len() == 0 {
        0
    } else {
        count_cjk(s.drop_last()) + if text::is_cjk(s.last()) {
            1nat
        } else {
            0nat
        }
    }
}

pub open spec fn is_english(lang: Seq<char>) -> bool {
    lang == "en"@ || lang == "en-US"@
}

pub open spec fn is_chinese(lang: Seq<char>) -> bool {
    lang == "zh"@ || lang == "zh-CN"@
}

/// Whether a translation into `lang` looks broken: blank; for English, more than 70% of
/// its non-whitespace characters are not letters; for Chinese, it has no CJK ideograph
/// or its trimmed form has fewer than 3 characters.
pub open spec fn suspicious(t: Seq<char>, lang: Seq<char>) -> bool {
    if text::trim(t).len() == 0 {
        true
    } else if is_english(lang) {
        count_non_ws(t) > 0 && 10 * count_non_alpha(t) > 7 * count_non_ws(t)
    } else if is_chinese(lang) {
        count_cjk(t) == 0 || text::trim(t).len() < 3
    } else {
        false
    }
}

/// The text with runs of three repeated punctuation marks reduced to one mark.
pub open spec fn without_excess_punctuation(t: Seq<char>) -> Seq<char> {
    let a = text::replace_all(t, "..."@, "."@);
    let b = text::replace_all(a, "!!!"@, "!"@);
    let c = text::replace_all(b, "???"@, "?"@);
    let d = text::replace_all(c, "。。。"@, "。"@);
    let e = text::replace_all(d, "！！！"@, "！"@);
    text::replace_all(e, "？？？"@, "？"@)
}

/// The repair of a suspicious translation: punctuation runs reduced, or the empty text
/// when it is still suspicious.
pub open spec fn repaired(t: Seq<char>, lang: Seq<char>) -> Seq<char> {
    let r = without_excess_punctuation(t);
    if suspicious(r, lang) {
        seq![]
    } else {
        r
    }
}

/// What an enabled checker makes of a translation.
pub open spec fn checked_translation(t: Seq<char>, lang: Seq<char>) -> Seq<char> {
    let r = without_repetitions(t);
    if suspicious(r, lang) {
        repaired(r, lang)
    } else {
        r
    }
}

// ---------------------------------------------------------------------------
// Laws
// ---------------------------------------------------------------------------

/// An enabled checker hands back either the empty text (a request to translate again)
proof fn lemma_non_alpha_le_non_ws(s: Seq<char>)
    ensures
        count_non_alpha(s) <= count_non_ws(s),
    decreases s.len(),
{
    if s.len() > 0 {
        lemma_non_alpha_le_non_ws(s.drop_last());
    }
}

/// `en-US` is checked exactly as `en`, and `zh-CN` exactly as `zh`: for English, a
/// non-blank text of which more than 70% of the non-whitespace characters are not
/// letters is suspicious, and one with at most 70% is not; blank text is suspicious
/// whatever the language.
pub proof fn law_language_variants_checked_alike(t: Seq<char>, lang: Seq<char>)
    ensures
        suspicious(t, "en-US"@) == suspicious(t, "en"@),
        suspicious(t, "zh-CN"@) == suspicious(t, "zh"@),
        text::trim(t).len() > 0 && 10 * count_non_alpha(t) > 7 * count_non_ws(t) ==> suspicious(t, "en"@)
            && suspicious(t, "en-US"@),
        text::trim(t).len() > 0 && 10 * count_non_alpha(t) <= 7 * count_non_ws(t) && count_non_ws(t) > 0
            ==> !suspicious(t, "en"@) && !suspicious(t, "en-US"@),
        text::trim(t).len() == 0 ==> suspicious(t, lang),
        text::trim(t).len() > 0 && count_cjk(t) == 0 ==> suspicious(t, "zh"@) && suspicious(t, "zh-CN"@),
        0 < text::trim(t).len() < 3 ==> suspicious(t, "zh"@) && suspicious(t, "zh-CN"@),
        text::trim(t).len() >= 3 && count_cjk(t) > 0 ==> !suspicious(t, "zh"@) && !suspicious(t, "zh-CN"@),
        text::trim(t).len() > 0 && lang != "en"@ && lang != "en-US"@ && lang != "zh"@ && lang != "zh-CN"@
            ==> !suspicious(t, lang),
{
    lemma_non_alpha_le_non_ws(t);
    reveal_strlit("en");
    reveal_strlit("en-US");
    reveal_strlit("zh");
    reveal_strlit("zh-CN");
    assert("zh"@[0] != "en"@[0] && "zh"@[0] != "en-US"@[0]);
    assert("zh-CN"@[0] != "en"@[0] && "zh-CN"@[0] != "en-US"@[0]);
}

/// or a translation that does not look broken.
pub proof fn law_checked_translation_not_suspicious(t: Seq<char>, lang: Seq<char>)
    ensures
        checked_translation(t, lang).len() == 0 || !suspicious(checked_translation(t, lang), lang),
{
}

// ---------------------------------------------------------------------------
// Implementation
// ---------------------------------------------------------------------------

fn run_end_exec(ws: &Vec<Vec<char>>, i: usize) -> (r: usize)
    requires
        i < ws.len(),
    ensures
        r == run_end(ws@.map_values(|w: Vec<char>| w@), i as int, i + 1),
        i < r <= ws.len(),
{
    let ghost m = ws@.map_values(|w: Vec<char>| w@);
    let mut j = i + 1;
    while j < ws.len() && text::chars_eq(&ws[j], &ws[i])
        invariant
            i < j <= ws.len(),
            m == ws@.map_values(|w: Vec<char>| w@),
            run_end(m, i as int, i + 1) == run_end(m, i as int, j as int),
        decreases ws.len() - j,
    {
        j += 1;
    }
    j
}

fn count_classes(v: &Vec<char>) -> (r: (usize, usize, usize))
    ensures
        r.0 == count_non_alpha(v@),
        r.1 == count_non_ws(v@),
        r.2 == count_cjk(v@),
{
    let mut bad: usize = 0;
    let mut total: usize = 0;
    let mut cjk: usize = 0;
    let mut i: usize = 0;
    while i < v.len()
        invariant
            i <= v.len(),
            bad == count_non_alpha(v@.subrange(0, i as int)),
            total == count_non_ws(v@.subrange(0, i as int)),
            cjk == count_cjk(v@.subrange(0, i as int)),
            bad <= i,
            total <= i,
            cjk <= i,
        decreases v.len() - i,
    {
        let ghost post = v@.subrange(0, i + 1);
        assert(post.drop_last() == v@.subrange(0, i as int));
        assert(post.last() == v@[i as int]);
        let c = v[i];
        let ws = is_whitespace(c);
        if !is_alphabetic(c) && !ws {
            bad += 1;
        }
        if !ws {
            total += 1;
        }
        if is_chinese_char(c) {
            cjk += 1;
        }
        i += 1;
    }
    assert(v@.subrange(0, v@.len() as int) == v@);
    (bad, total, cjk)
}

fn is_suspicious_chars(v: &Vec<char>, target_lang: &str) -> (r: bool)
    ensures
        r == suspicious(v@, target_lang@),
{
    let trimmed = trim_chars(v);
    if trimmed.len() == 0 {
        return true;
    }
    if str_eq(target_lang, "en") || str_eq(target_lang, "en-US") {
        let (bad, total, _cjk) = count_classes(v);
        if total > 0 {
            return bad as u128 * 10 > total as u128 * 7;
        }
    } else if str_eq(target_lang, "zh") || str_eq(target_lang, "zh-CN") {
        let (_bad, _total, cjk) = count_classes(v);
        if cjk == 0 {
            return true;
        }
        if trimmed.len() < 3 {
            return true;
        }
    }
    false
}

fn remove_excessive_punctuation_chars(v: &Vec<char>) -> (r: Vec<char>)
    ensures
        r@ == without_excess_punctuation(v@),
{
    let a = replace_str(v, "...", ".");
    let b = replace_str(&a, "!!!", "!");
    let c = replace_str(&b, "???", "?");
    let d = replace_str(&c, "。。。", "。");
    let e = replace_str(&d, "！！！", "！");
    replace_str(&e, "？？？", "？")
}

/// The shortest fragment of two or more characters at `i` that comes three times in a
/// row, as in [`repeated_fragment_from`].
fn repeated_fragment_exec(w: &Vec<char>, i: usize) -> (r: Option<usize>)
    requires
        i < w.len(),
    ensures
        match r {
            Some(l) => repeated_fragment_from(w@, i as int, 2) == Some(l as int),
            None => repeated_fragment_from(w@, i as int, 2) is None,
        },
{
    let rest = w.len() - i;
    let mut l: usize = 2;
    while l <= rest / 3
        invariant
            i < w.len(),
            rest == w.len() - i,
            2 <= l,
            repeated_fragment_from(w@, i as int, 2) == repeated_fragment_from(w@, i as int, l as int),
        decreases rest - l,
    {
        assert(i + 3 * l <= w.len());
        let frag = text::copy_range(w, i, i + l);
        if text::occurs_at_exec(w, &frag, i + l) && text::occurs_at_exec(w, &frag, i + 2 * l) {
            return Some(l);
        }
        l += 1;
    }
    assert(i + 3 * l > w.len());
    None
}

/// Where the copies of `w[i..i+l]` that follow one another from `p` end.
fn copies_end_exec(w: &Vec<char>, i: usize, l: usize, p: usize) -> (r: usize)
    requires
        0 < l,
        i + l <= w.len(),
        p <= w.len(),
    ensures
        r == copies_end(w@, i as int, l as int, p as int),
        p <= r <= w.len(),
{
    let frag = text::copy_range(w, i, i + l);
    let mut q: usize = p;
    while q <= w.len() && l <= w.len() - q && text::occurs_at_exec(w, &frag, q)
        invariant
            0 < l,
            i + l <= w.len(),
            p <= q <= w.len(),
            frag@ == w@.subrange(i as int, i + l),
            copies_end(w@, i as int, l as int, p as int) == copies_end(w@, i as int, l as int, q as int),
        decreases w.len() - q,
    {
        q = q + l;
    }
    q
}

/// `w` with its repeated fragments collapsed, as in [`collapse_fragments`].
fn collapse_fragments_exec(w: &Vec<char>) -> (r: Vec<char>)
    ensures
        r@ == collapse_fragments(w@),
{
    let mut out: Vec<char> = Vec::new();
    let mut i: usize = 0;
    while i < w.len()
        invariant
            i <= w.len(),
            collapse_from(w@, 0) == out@ + collapse_from(w@, i as int),
        decreases w.len() - i,
    {
        let ghost before = out@;
        match repeated_fragment_exec(w, i) {
            Some(l) => {
                proof {
                    lemma_repeated_fragment_bounds(w@, i as int, 2);
                }
                let piece = text::copy_range(w, i, i + l);
                text::append_chars(&mut out, &piece);
                let next = copies_end_exec(w, i, l, i + 3 * l);
                assert(collapse_from(w@, i as int) == w@.subrange(i as int, i + l) + collapse_from(w@, next as int));
                assert(before + collapse_from(w@, i as int) =~= out@ + collapse_from(w@, next as int));
                i = next;
            },
            None => {
                out.push(w[i]);
                assert(collapse_from(w@, i as int) == seq![w@[i as int]] + collapse_from(w@, i + 1));
                assert(before + collapse_from(w@, i as int) =~= out@ + collapse_from(w@, i + 1));
                i += 1;
            },
        }
    }
    assert(collapse_from(w@, i as int) =~= Seq::<char>::empty());
    assert(out@ + Seq::<char>::empty() =~= out@);
    out
}

fn remove_repetitions_chars(v: &Vec<char>) -> (r: Vec<char>)
    ensures
        r@ == without_repetitions(v@),
{
    let split = split_words(v);
    let ghost ws = split@.map_values(|w: Vec<char>| w@);
    let mut words: Vec<Vec<char>> = Vec::new();
    let mut j: usize = 0;
    while j < split.len()
        invariant
            j <= split.len(),
            ws == split@.map_values(|w: Vec<char>| w@),
            words@.map_values(|w: Vec<char>| w@) == ws.subrange(0, j as int).map_values(
                |w: Seq<char>| collapse_fragments(w),
            ),
        decreases split.len() - j,
    {
        let c = collapse_fragments_exec(&split[j]);
        let ghost before = words@.map_values(|w: Vec<char>| w@);
        assert(ws[j as int] == split@[j as int]@);
        words.push(c);
        assert(words@.map_values(|w: Vec<char>| w@) =~= before.push(collapse_fragments(ws[j as int])));
        assert(ws.subrange(0, j + 1) =~= ws.subrange(0, j as int).push(ws[j as int]));
        assert(words@.map_values(|w: Vec<char>| w@) =~= ws.subrange(0, j + 1).map_values(
            |w: Seq<char>| collapse_fragments(w),
        ));
        j += 1;
    }
    assert(ws.subrange(0, ws.len() as int) == ws);
    let ghost m = words@.map_values(|w: Vec<char>| w@);
    assert(m == text::words(v@).map_values(|w: Seq<char>| collapse_fragments(w)));
    let mut kept: Vec<Vec<char>> = Vec::new();
    let mut i: usize = 0;
    assert(kept@.map_values(|w: Vec<char>| w@) + dedup_runs_from(m, 0) =~= dedup_runs_from(m, 0));
    while i < words.len()
        invariant
            i <= words.len(),
            m == words@.map_values(|w: Vec<char>| w@),
            kept@.map_values(|w: Vec<char>| w@) + dedup_runs_from(m, i as int) == dedup_runs_from(
                m,
                0,
            ),
        decreases words.len() - i,
    {
        let end = run_end_exec(&words, i);
        let count = end - i;
        let ghost before = kept@.map_values(|w: Vec<char>| w@);
        kept.push(text::copy_range(&words[i], 0, words[i].len()));
        assert(words@[i as int]@.subrange(0, words@[i as int]@.len() as int) == words@[i as int]@);
        assert(kept@.map_values(|w: Vec<char>| w@) =~= before.push(m[i as int]));
        if count > 2 {
            assert(before + dedup_runs_from(m, i as int) =~= kept@.map_values(|w: Vec<char>| w@)
                + dedup_runs_from(m, i + count));
            i += count;
        } else {
            assert(before + dedup_runs_from(m, i as int) =~= kept@.map_values(|w: Vec<char>| w@)
                + dedup_runs_from(m, i + 1));
            i += 1;
        }
    }
    assert(kept@.map_values(|w: Vec<char>| w@) + Seq::<Seq<char>>::empty() =~= kept@.map_values(
        |w: Vec<char>| w@,
    ));
    let sep = to_chars(" ");
    proof {
        reveal_strlit(" ");
    }
    assert(sep@ =~= seq![' ']);
    join_chars(&kept, &sep)
}

impl TranslationQualityChecker {
    /// Whether the checker is enabled.
    pub closed spec fn is_enabled(&self) -> bool {
        self.enabled
    }

    /// A checker, enabled or not.
    pub fn new(enabled: bool) -> (r: Self)
        ensures
            r.is_enabled() == enabled,
    {
        Self { enabled }
    }

    /// The default checker, which is enabled.
    pub fn default() -> (r: Self)
        ensures
            r.is_enabled(),
    {
        Self { enabled: true }
    }

    /// Checks a translation into `target_lang` and repairs it: repeated words are
    /// collapsed; a translation that still looks broken has its punctuation runs
    /// reduced, and is replaced by the empty text when that does not help.  A disabled
    /// checker returns the translation unchanged.
    pub fn check_and_fix(&self, src_text: &str, tgt_text: &str, target_lang: &str) -> (r: String)
        ensures
            !self.is_enabled() ==> r@ == tgt_text@,
            self.is_enabled() ==> r@ == checked_translation(tgt_text@, target_lang@),
    {
        if !self.enabled {
            return tgt_text.to_string();
        }
        let v = to_chars(tgt_text);
        let mut result = remove_repetitions_chars(&v);
        if is_suspicious_chars(&result, target_lang) {
            result = self.attempt_fix_chars(&result, target_lang);
        }
        string_of(&result)
    }

    /// Collapses every run of three or more identical consecutive words into one word;
    /// words are re-joined with single spaces.
    pub fn remove_repetitive_sequences(&self, text: &str) -> (r: String)
        ensures
            r@ == without_repetitions(text@),
    {
        let v = to_chars(text);
        let r = remove_repetitions_chars(&v);
        string_of(&r)
    }

    /// Whether a translation into `target_lang` looks broken.
    pub fn is_suspicious_quality(&self, text: &str, target_lang: &str) -> (r: bool)
        ensures
            r == suspicious(text@, target_lang@),
    {
        let v = to_chars(text);
        is_suspicious_chars(&v, target_lang)
    }

    fn attempt_fix_chars(&self, v: &Vec<char>, target_lang: &str) -> (r: Vec<char>)
        ensures
            r@ == repaired(v@, target_lang@),
    {
        let r = remove_excessive_punctuation_chars(v);
        if is_suspicious_chars(&r, target_lang) {
            return Vec::new();
        }
        r
    }

    /// Repairs a suspicious translation, or gives the empty text.
    fn attempt_fix(&self, text: &str, target_lang: &str) -> (r: String)
        ensures
            r@ == repaired(text@, target_lang@),
    {
        let v = to_chars(text);
        let r = self.attempt_fix_chars(&v, target_lang);
        string_of(&r)
    }

    /// Reduces runs of three identical punctuation marks (`...`, `!!!`, `???` and their
    /// full-width forms) to one mark.
    pub fn remove_excessive_punctuation(&self, text: &str) -> (r: String)
        ensures
            r@ == without_excess_punctuation(text@),
    {
        let v = to_chars(text);
        let r = remove_excessive_punctuation_chars(&v);
        string_of(&r)
    }

    /// Whether `c` is a CJK ideograph.
    fn is_chinese_char(&self, c: char) -> (r: bool)
        ensures
            r == text::is_cjk(c),
    {
        is_chinese_char(c)
    }
}

} // verus!
