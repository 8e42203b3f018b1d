//! Splitting long text into short sentences for incremental speech synthesis.
//!
//! The segmenter scans the text once, character by character.  It cuts after
//! sentence-ending punctuation (Western and full-width), optionally after
//! commas, and, when the pending sentence reaches the length limit (in
//! characters), after its last clause separator or before its last whitespace.
//! A period between two digits, one followed by a lower-case letter, and one
//! closing a title abbreviation such as "Dr." does not end a sentence.
use vstd::prelude::*;
use crate::text;
use crate::text::{
    is_alphabetic, is_ascii_digit, is_lowercase, is_whitespace, string_of, to_chars, trim_chars,
    trim_range,
};

verus! {

/// The pause that follows a segment when it is spoken.
#[derive(Debug, Clone, Copy, PartialEq, Eq, Structural)]
pub enum PauseType {
    /// No pause.
    NoPause,
    /// A short pause, after a comma.
    Comma,
    /// A sentence-final pause.
    SentenceEnd,
}

/// A piece of text together with the pause that follows it.
#[derive(Debug, Clone)]
pub struct TextSegment {
    pub text: String,
    pub pause_type: PauseType,
}

impl View for TextSegment {
    type V = (Seq<char>, PauseType);

    open spec fn view(&self) -> (Seq<char>, PauseType) {
        (self.text@, self.pause_type)
    }
}

/// Splits text into short sentences.
pub struct TextSegmenter {
    /// Length limit of a pending sentence, in characters.
    max_sentence_length: usize,
    /// Whether every comma ends a segment.
    pub split_on_comma: bool,
}

// ---------------------------------------------------------------------------
// Specification
// ---------------------------------------------------------------------------

pub type SegSpec = (Seq<char>, PauseType);

/// Scanner state: segments emitted so far and the pending sentence.
pub type SegState = (Seq<SegSpec>, Seq<char>);

pub open spec fn is_sentence_end_char(c: char) -> bool {
    c == '.' || c == '!' || c == '?' || c == '。' || c == '！' || c == '？'
}

pub open spec fn is_comma_char(c: char) -> bool {
    c == ',' || c == '，'
}

pub open spec fn is_clause_sep(c: char) -> bool {
    c == ',' || c == ';' || c == '，' || c == '；'
}

pub open spec fn push_nonempty(segs: Seq<SegSpec>, s: Seq<char>, p: PauseType) -> Seq<SegSpec> {
    if s.len() > 0 {
        segs.push((s, p))
    } else {
        segs
    }
}

/// The run of ASCII letters that ends `s`.
pub open spec fn letter_suffix(s: Seq<char>) -> Seq<char>
    decreases s.len(),
{
    if s.len() > 0 && text::ascii_letter(s.last()) {
        letter_suffix(s.drop_last()).push(s.last())
    } else {
        seq![]
    }
}

/// Title abbreviations whose period does not end a sentence.
pub open spec fn is_title_abbreviation(w: Seq<char>) -> bool {
    ||| w == "Mr"@
    ||| w == "Mrs"@
    ||| w == "Ms"@
    ||| w == "Dr"@
    ||| w == "Prof"@
    ||| w == "Sr"@
    ||| w == "Jr"@
    ||| w == "St"@
    ||| w == "vs"@
}

/// Whether the period at position `k` of `t` ends a sentence; `cur` is the pending
/// sentence including that period.  A period between two digits is a decimal point;
/// after a digit it ends the sentence; otherwise it is an abbreviation's period when
/// a lower-case letter follows or when it closes a title abbreviation ("Dr.").
pub open spec fn period_splits(t: Seq<char>, k: int, cur: Seq<char>) -> bool {
    let prev_digit = cur.len() >= 2 && text::is_digit(cur[cur.len() - 2]);
    let has_next = k + 1 < t.len();
    let next_digit = has_next && text::is_digit(t[k + 1]);
    if prev_digit && next_digit {
        false
    } else if prev_digit {
        true
    } else {
        !(has_next && text::char_is_alphabetic(t[k + 1]) && text::char_is_lowercase(t[k + 1]))
            && !is_title_abbreviation(letter_suffix(cur.drop_last()))
    }
}

/// Index of the last clause separator of `s`, or -1.
pub open spec fn last_clause_sep(s: Seq<char>) -> int
    decreases s.len(),
{
    if s.len() == 0 {
        -1
    } else if is_clause_sep(s.last()) {
        s.len() - 1
    } else {
        last_clause_sep(s.drop_last())
    }
}

/// Index of the last whitespace character of `s`, or -1.
pub open spec fn last_ws(s: Seq<char>) -> int
    decreases s.len(),
{
    if s.len() == 0 {
        -1
    } else if text::is_ws(s.last()) {
        s.len() - 1
    } else {
        last_ws(s.drop_last())
    }
}

/// Cutting an over-long pending sentence: after its last clause separator (ASCII or
/// full-width comma or semicolon), else before its last whitespace, else not at all.
pub open spec fn shorten(segs: Seq<SegSpec>, cur: Seq<char>) -> SegState {
    let p = last_clause_sep(cur);
    if p >= 0 {
        (
            push_nonempty(segs, text::trim(cur.subrange(0, p + 1)), PauseType::Comma),
            text::trim(cur.subrange(p + 1, cur.len() as int)),
        )
    } else {
        let q = last_ws(cur);
        if q >= 0 {
            (
                push_nonempty(segs, text::trim(cur.subrange(0, q)), PauseType::NoPause),
                text::trim(cur.subrange(q, cur.len() as int)),
            )
        } else {
            (segs, cur)
        }
    }
}

/// The scanner's reaction to character `k` of `t`.
pub open spec fn seg_step(t: Seq<char>, max: nat, comma: bool, k: int, st: SegState) -> SegState {
    let c = t[k];
    let cur = st.1.push(c);
    if is_sentence_end_char(c) && (c != '.' || period_splits(t, k, cur)) {
        (push_nonempty(st.0, text::trim(cur), PauseType::SentenceEnd), seq![])
    } else if !is_sentence_end_char(c) && is_comma_char(c) && comma {
        (push_nonempty(st.0, text::trim(cur), PauseType::Comma), seq![])
    } else if cur.len() >= max {
        shorten(st.0, cur)
    } else {
        (st.0, cur)
    }
}

/// The scanner state after the first `k` characters of `t`.
pub open spec fn seg_run(t: Seq<char>, max: nat, comma: bool, k: nat) -> SegState
    decreases k,
{
    if k == 0 {
        (seq![], seq![])
    } else {
        seg_step(t, max, comma, k - 1, seg_run(t, max, comma, (k - 1) as nat))
    }
}

/// The segments of `t`: those emitted by the scan, then the trimmed remainder; when
/// there are none and `t` is not blank, `t` itself.
pub open spec fn segmentation(t: Seq<char>, max: nat, comma: bool) -> Seq<SegSpec> {
    let st = seg_run(t, max, comma, t.len());
    let segs = push_nonempty(st.0, text::trim(st.1), PauseType::NoPause);
    if segs.len() == 0 && text::trim(t).len() > 0 {
        seq![(t, PauseType::NoPause)]
    } else {
        segs
    }
}

/// The concatenation of the texts of `segs`.
pub open spec fn concat_texts(segs: Seq<SegSpec>) -> Seq<char>
    decreases segs.len(),
{
    if segs.len() == 0 {
        seq![]
    } else {
        concat_texts(segs.drop_last()) + segs.last().0
    }
}

/// Every segment is non-empty and trimmed; a sentence-end segment ends with
/// sentence-ending punctuation and a comma segment with a clause separator.
pub open spec fn segs_well_formed(segs: Seq<SegSpec>) -> bool {
    forall|i: int|
        0 <= i < segs.len() ==> {
            let s = #[trigger] segs[i];
            &&& s.0.len() > 0
            &&& text::trim(s.0) == s.0
            &&& s.1 == PauseType::SentenceEnd ==> is_sentence_end_char(s.0.last())
            &&& s.1 == PauseType::Comma ==> is_clause_sep(s.0.last())
        }
}

pub open spec fn seg_views(v: Seq<TextSegment>) -> Seq<SegSpec> {
    v.map_values(|s: TextSegment| s@)
}

pub open spec fn string_views(v: Seq<String>) -> Seq<Seq<char>> {
    v.map_values(|s: String| s@)
}

// ---------------------------------------------------------------------------
// Lemmas
// ---------------------------------------------------------------------------

proof fn lemma_last_clause_sep_range(s: Seq<char>)
    ensures
        -1 <= last_clause_sep(s) < s.len(),
        last_clause_sep(s) >= 0 ==> is_clause_sep(s[last_clause_sep(s)]),
        forall|j: int| last_clause_sep(s) < j < s.len() ==> !is_clause_sep(#[trigger] s[j]),
    decreases s.len(),
{
    if s.len() > 0 && !is_clause_sep(s.last()) {
        lemma_last_clause_sep_range(s.drop_last());
        assert forall|j: int| last_clause_sep(s) < j < s.len() implies !is_clause_sep(
            #[trigger] s[j],
        ) by {
            if j < s.len() - 1 {
                assert(s[j] == s.drop_last()[j]);
            }
        }
    }
}

proof fn lemma_last_ws_range(s: Seq<char>)
    ensures
        -1 <= last_ws(s) < s.len(),
        last_ws(s) >= 0 ==> text::is_ws(s[last_ws(s)]),
        forall|j: int| last_ws(s) < j < s.len() ==> !text::is_ws(#[trigger] s[j]),
    decreases s.len(),
{
    if s.len() > 0 && !text::is_ws(s.last()) {
        lemma_last_ws_range(s.drop_last());
        assert forall|j: int| last_ws(s) < j < s.len() implies !text::is_ws(#[trigger] s[j]) by {
            if j < s.len() - 1 {
                assert(s[j] == s.drop_last()[j]);
            }
        }
    }
}

proof fn lemma_concat_push(segs: Seq<SegSpec>, x: SegSpec)
    ensures
        concat_texts(segs.push(x)) == concat_texts(segs) + x.0,
{
    assert(segs.push(x).drop_last() == segs);
}

/// Trimming a string whose last character is not whitespace keeps that character last.
proof fn lemma_trim_keeps_last(s: Seq<char>)
    requires
        s.len() > 0,
        !text::is_ws(s.last()),
    ensures
        text::trim(s).len() > 0,
        text::trim(s).last() == s.last(),
{
    text::lemma_trim_start_props(s);
    let a = text::trim_start(s);
    if a.len() == 0 {
        text::lemma_trim_props(s);
        text::lemma_strip_last_nonws(s);
    }
    assert(a.last() == s.last());
    assert(text::trim_end(a) == a);
}

/// Pushing a trimmed, possibly empty, string keeps the segments well formed and adds
/// its non-whitespace characters to their concatenation.
proof fn lemma_push_nonempty(segs: Seq<SegSpec>, raw: Seq<char>, p: PauseType)
    requires
        segs_well_formed(segs),
        p == PauseType::SentenceEnd ==> raw.len() > 0 && is_sentence_end_char(raw.last()),
        p == PauseType::Comma ==> raw.len() > 0 && is_clause_sep(raw.last()),
    ensures
        segs_well_formed(push_nonempty(segs, text::trim(raw), p)),
        text::strip_ws(concat_texts(push_nonempty(segs, text::trim(raw), p))) == text::strip_ws(concat_texts(segs))
            + text::strip_ws(raw),
{
    text::lemma_trim_props(raw);
    text::lemma_strip_ws_trim(raw);
    if p != PauseType::NoPause {
        lemma_trim_keeps_last(raw);
    }
    if text::trim(raw).len() > 0 {
        let n = segs.push((text::trim(raw), p));
        lemma_concat_push(segs, (text::trim(raw), p));
        text::lemma_strip_ws_concat(concat_texts(segs), text::trim(raw));
        assert forall|i: int| 0 <= i < n.len() implies {
            let s = #[trigger] n[i];
            &&& s.0.len() > 0
            &&& text::trim(s.0) == s.0
            &&& s.1 == PauseType::SentenceEnd ==> is_sentence_end_char(s.0.last())
            &&& s.1 == PauseType::Comma ==> is_clause_sep(s.0.last())
        } by {
            if i < segs.len() {
                assert(n[i] == segs[i]);
            }
        }
    } else {
        assert(text::strip_ws(raw) == Seq::<char>::empty());
        assert(text::strip_ws(concat_texts(segs)) + text::strip_ws(raw) == text::strip_ws(concat_texts(segs)));
    }
}

pub open spec fn run_inv(t: Seq<char>, k: int, st: SegState) -> bool {
    &&& segs_well_formed(st.0)
    &&& text::strip_ws(concat_texts(st.0)) + text::strip_ws(st.1) == text::strip_ws(t.subrange(0, k))
}

proof fn lemma_step_inv(t: Seq<char>, max: nat, comma: bool, k: int, st: SegState)
    requires
        0 <= k < t.len(),
        run_inv(t, k, st),
    ensures
        run_inv(t, k + 1, seg_step(t, max, comma, k, st)),
{
    {
        let c = t[k];
        let cur = st.1.push(c);
        let segs = st.0;
        assert(t.subrange(0, k + 1) == t.subrange(0, k) + seq![c]);
        assert(cur == st.1 + seq![c]);
        text::lemma_strip_ws_concat(t.subrange(0, k), seq![c]);
        text::lemma_strip_ws_concat(st.1, seq![c]);
        // strip(concat(segs)) + strip(cur) == strip(t[0..k+1])
        assert(text::strip_ws(concat_texts(segs)) + text::strip_ws(cur) == text::strip_ws(t.subrange(0, k + 1)));
        assert(cur.last() == c);
        let next = seg_step(t, max, comma, k, st);
        let base = text::strip_ws(concat_texts(segs));
        let e = Seq::<char>::empty();
        assert(text::strip_ws(e) == e);
        if is_sentence_end_char(c) && (c != '.' || period_splits(t, k, cur)) {
            lemma_push_nonempty(segs, cur, PauseType::SentenceEnd);
            assert(next.1 == e);
            assert(text::strip_ws(concat_texts(next.0)) + text::strip_ws(next.1) =~= base
                + text::strip_ws(cur));
        } else if !is_sentence_end_char(c) && is_comma_char(c) && comma {
            lemma_push_nonempty(segs, cur, PauseType::Comma);
            assert(next.1 == e);
            assert(text::strip_ws(concat_texts(next.0)) + text::strip_ws(next.1) =~= base
                + text::strip_ws(cur));
        } else if cur.len() >= max {
            let p = last_clause_sep(cur);
            lemma_last_clause_sep_range(cur);
            if p >= 0 {
                let a = cur.subrange(0, p + 1);
                let b = cur.subrange(p + 1, cur.len() as int);
                assert(cur == a + b);
                assert(a.last() == cur[p]);
                lemma_push_nonempty(segs, a, PauseType::Comma);
                text::lemma_strip_ws_trim(b);
                text::lemma_strip_ws_concat(a, b);
                assert(next.1 == text::trim(b));
                assert(text::strip_ws(concat_texts(next.0)) + text::strip_ws(next.1) =~= base
                    + text::strip_ws(cur));
            } else {
                let q = last_ws(cur);
                lemma_last_ws_range(cur);
                if q >= 0 {
                    let a = cur.subrange(0, q);
                    let b = cur.subrange(q, cur.len() as int);
                    assert(cur == a + b);
                    lemma_push_nonempty(segs, a, PauseType::NoPause);
                    text::lemma_strip_ws_trim(b);
                    text::lemma_strip_ws_concat(a, b);
                    assert(next.1 == text::trim(b));
                    assert(text::strip_ws(concat_texts(next.0)) + text::strip_ws(next.1) =~= base
                        + text::strip_ws(cur));
                }
            }
        }
    }
}

proof fn lemma_run_inv(t: Seq<char>, max: nat, comma: bool, k: nat)
    requires
        k <= t.len(),
    ensures
        run_inv(t, k as int, seg_run(t, max, comma, k)),
    decreases k,
{
    if k == 0 {
        assert(t.subrange(0, 0) == Seq::<char>::empty());
        assert(text::strip_ws(Seq::<char>::empty()) == Seq::<char>::empty());
        assert(concat_texts(Seq::<SegSpec>::empty()) == Seq::<char>::empty());
    } else {
        lemma_run_inv(t, max, comma, (k - 1) as nat);
        lemma_step_inv(t, max, comma, k - 1, seg_run(t, max, comma, (k - 1) as nat));
    }
}

// ---------------------------------------------------------------------------
// Laws
// ---------------------------------------------------------------------------

/// Segmentation loses no character and reorders nothing: apart from whitespace, the
/// segments spell out the input text.  Every segment is non-empty and carries no
/// leading or trailing whitespace; a sentence-end segment ends with sentence-ending
/// punctuation and a comma segment ends with a comma or semicolon.
pub proof fn law_segmentation_preserves_text(t: Seq<char>, max: nat, comma: bool)
    ensures
        text::strip_ws(concat_texts(segmentation(t, max, comma))) == text::strip_ws(t),
        segs_well_formed(segmentation(t, max, comma)),
{
    let st = seg_run(t, max, comma, t.len());
    lemma_run_inv(t, max, comma, t.len());
    assert(t.subrange(0, t.len() as int) == t);
    lemma_push_nonempty(st.0, st.1, PauseType::NoPause);
    let segs = push_nonempty(st.0, text::trim(st.1), PauseType::NoPause);
    if segs.len() == 0 && text::trim(t).len() > 0 {
        assert(concat_texts(segs) == Seq::<char>::empty());
        assert(text::strip_ws(Seq::<char>::empty()) == Seq::<char>::empty());
        text::lemma_trim_props(t);
        assert(false);
    }
}

/// The marks that always end a sentence: `!`, `?`, `。`, `！` and `？` (a period may be a
/// decimal point or close an abbreviation).
pub open spec fn closes_sentence(c: char) -> bool {
    c == '!' || c == '?' || c == '。' || c == '！' || c == '？'
}

/// The characters that end the segment they stand in: the closing marks, and with
/// comma splitting `,` and `，`.
pub open spec fn stops_segment(c: char, comma: bool) -> bool {
    closes_sentence(c) || (comma && (c == ',' || c == '，'))
}

/// No stopping character anywhere in `s`.
pub open spec fn free_of_stops(s: Seq<char>, comma: bool) -> bool {
    forall|i: int| 0 <= i < s.len() ==> !stops_segment(#[trigger] s[i], comma)
}

/// A stopping character stands only at the end of a segment; a segment closed by a
/// closing mark ends a sentence, one closed by a comma gets a comma pause.
pub open spec fn stops_end_segments(segs: Seq<SegSpec>, comma: bool) -> bool {
    forall|i: int|
        0 <= i < segs.len() ==> {
            let s = #[trigger] segs[i];
            &&& forall|k: int| 0 <= k < s.0.len() - 1 ==> !stops_segment(#[trigger] s.0[k], comma)
            &&& s.0.len() > 0 && closes_sentence(s.0.last()) ==> s.1 == PauseType::SentenceEnd
            &&& s.0.len() > 0 && comma && (s.0.last() == ',' || s.0.last() == '，') ==> s.1 == PauseType::Comma
        }
}

proof fn lemma_trim_within(x: Seq<char>)
    ensures
        ({
            let a = x.len() - text::trim_start(x).len();
            &&& 0 <= a
            &&& a + text::trim(x).len() <= x.len()
            &&& text::trim(x) == x.subrange(a, a + text::trim(x).len())
            &&& x.len() > 0 && !text::is_ws(x.last()) ==> a + text::trim(x).len() == x.len()
        }),
{
    text::lemma_trim_start_props(x);
    let ts = text::trim_start(x);
    text::lemma_trim_end_props(ts);
    let a = x.len() - ts.len();
    assert(text::trim(x) == ts.subrange(0, text::trim(x).len() as int));
    assert(text::trim(x) =~= x.subrange(a, a + text::trim(x).len()));
    if x.len() > 0 && !text::is_ws(x.last()) && ts.len() > 0 {
        assert(ts.last() == x.last());
        assert(text::trim_end(ts) == ts);
    }
}

proof fn lemma_free_sub(x: Seq<char>, comma: bool, i: int, j: int)
    requires
        free_of_stops(x, comma),
        0 <= i <= j <= x.len(),
    ensures
        free_of_stops(x.subrange(i, j), comma),
        free_of_stops(text::trim(x), comma),
{
    assert forall|k: int| 0 <= k < j - i implies !stops_segment(#[trigger] x.subrange(i, j)[k], comma) by {
        assert(x.subrange(i, j)[k] == x[i + k]);
    }
    lemma_trim_within(x);
    let a = x.len() - text::trim_start(x).len();
    assert forall|k: int| 0 <= k < text::trim(x).len() implies !stops_segment(#[trigger] text::trim(x)[k], comma) by {
        assert(text::trim(x)[k] == x[a + k]);
    }
}

proof fn lemma_push_free(segs: Seq<SegSpec>, x: Seq<char>, p: PauseType, comma: bool)
    requires
        stops_end_segments(segs, comma),
        free_of_stops(x, comma),
    ensures
        stops_end_segments(push_nonempty(segs, text::trim(x), p), comma),
{
    lemma_free_sub(x, comma, 0, x.len() as int);
    let r = push_nonempty(segs, text::trim(x), p);
    assert forall|i: int| 0 <= i < r.len() implies {
        let s = #[trigger] r[i];
        &&& forall|k: int| 0 <= k < s.0.len() - 1 ==> !stops_segment(#[trigger] s.0[k], comma)
        &&& s.0.len() > 0 && closes_sentence(s.0.last()) ==> s.1 == PauseType::SentenceEnd
        &&& s.0.len() > 0 && comma && (s.0.last() == ',' || s.0.last() == '，') ==> s.1 == PauseType::Comma
    } by {
        if i < segs.len() {
            assert(r[i] == segs[i]);
        } else {
            assert(r[i].0 == text::trim(x));
            if r[i].0.len() > 0 {
                assert(r[i].0.last() == text::trim(x)[text::trim(x).len() - 1]);
            }
        }
    }
}

proof fn lemma_push_stopped(segs: Seq<SegSpec>, prev: Seq<char>, c: char, p: PauseType, comma: bool)
    requires
        stops_end_segments(segs, comma),
        free_of_stops(prev, comma),
        stops_segment(c, comma),
        !text::is_ws(c),
        closes_sentence(c) ==> p == PauseType::SentenceEnd,
        !closes_sentence(c) ==> p == PauseType::Comma,
    ensures
        stops_end_segments(push_nonempty(segs, text::trim(prev.push(c)), p), comma),
{
    let cur = prev.push(c);
    lemma_trim_within(cur);
    let a = cur.len() - text::trim_start(cur).len();
    let tr = text::trim(cur);
    assert(tr.len() > 0) by {
        if tr.len() == 0 {
            text::lemma_trim_props(cur);
            text::lemma_strip_last_nonws(cur);
        }
    }
    let r = push_nonempty(segs, tr, p);
    assert forall|i: int| 0 <= i < r.len() implies {
        let s = #[trigger] r[i];
        &&& forall|q: int| 0 <= q < s.0.len() - 1 ==> !stops_segment(#[trigger] s.0[q], comma)
        &&& s.0.len() > 0 && closes_sentence(s.0.last()) ==> s.1 == PauseType::SentenceEnd
        &&& s.0.len() > 0 && comma && (s.0.last() == ',' || s.0.last() == '，') ==> s.1 == PauseType::Comma
    } by {
        if i < segs.len() {
            assert(r[i] == segs[i]);
        } else {
            assert(r[i] == (tr, p));
            assert(tr.last() == cur[a + tr.len() - 1]);
            assert forall|q: int| 0 <= q < tr.len() - 1 implies !stops_segment(#[trigger] tr[q], comma) by {
                assert(tr[q] == cur[a + q]);
                assert(cur[a + q] == prev[a + q]);
            }
        }
    }
}

proof fn lemma_step_stops(t: Seq<char>, max: nat, comma: bool, k: int, st: SegState)
    requires
        0 <= k < t.len(),
        stops_end_segments(st.0, comma),
        free_of_stops(st.1, comma),
    ensures
        stops_end_segments(seg_step(t, max, comma, k, st).0, comma),
        free_of_stops(seg_step(t, max, comma, k, st).1, comma),
{
    let c = t[k];
    let cur = st.1.push(c);
    if closes_sentence(c) {
        assert(is_sentence_end_char(c) && c != '.');
        lemma_push_stopped(st.0, st.1, c, PauseType::SentenceEnd, comma);
    } else if stops_segment(c, comma) {
        assert(!is_sentence_end_char(c) && is_comma_char(c) && comma);
        lemma_push_stopped(st.0, st.1, c, PauseType::Comma, comma);
    } else {
        assert forall|i: int| 0 <= i < cur.len() implies !stops_segment(#[trigger] cur[i], comma) by {
            if i < st.1.len() {
                assert(cur[i] == st.1[i]);
            }
        }
        lemma_free_sub(cur, comma, 0, cur.len() as int);
        if is_sentence_end_char(c) && (c != '.' || period_splits(t, k, cur)) {
            lemma_push_free(st.0, cur, PauseType::SentenceEnd, comma);
        } else if !is_sentence_end_char(c) && is_comma_char(c) && comma {
            lemma_push_free(st.0, cur, PauseType::Comma, comma);
        } else if cur.len() >= max {
            lemma_last_clause_sep_range(cur);
            let p = last_clause_sep(cur);
            if p >= 0 {
                lemma_free_sub(cur, comma, 0, p + 1);
                lemma_free_sub(cur, comma, p + 1, cur.len() as int);
                lemma_push_free(st.0, cur.subrange(0, p + 1), PauseType::Comma, comma);
                lemma_free_sub(cur.subrange(p + 1, cur.len() as int), comma, 0, cur.len() - (p + 1));
            } else {
                lemma_last_ws_range(cur);
                let q = last_ws(cur);
                if q >= 0 {
                    lemma_free_sub(cur, comma, 0, q);
                    lemma_free_sub(cur, comma, q, cur.len() as int);
                    lemma_push_free(st.0, cur.subrange(0, q), PauseType::NoPause, comma);
                    lemma_free_sub(cur.subrange(q, cur.len() as int), comma, 0, cur.len() - q);
                }
            }
        }
    }
}

proof fn lemma_run_stops(t: Seq<char>, max: nat, comma: bool, k: nat)
    requires
        k <= t.len(),
    ensures
        stops_end_segments(seg_run(t, max, comma, k).0, comma),
        free_of_stops(seg_run(t, max, comma, k).1, comma),
    decreases k,
{
    if k > 0 {
        lemma_run_stops(t, max, comma, (k - 1) as nat);
        lemma_step_stops(t, max, comma, k - 1, seg_run(t, max, comma, (k - 1) as nat));
    }
}

/// Each of `!`, `?`, `。`, `！` and `？` ends the segment it stands in, which ends a
/// sentence; with comma splitting, so do `,` and `，`, whose segments get a comma
/// pause.  No segment holds such a character anywhere but at its end.
pub proof fn law_closing_marks_end_segments(t: Seq<char>, max: nat, comma: bool)
    ensures
        stops_end_segments(segmentation(t, max, comma), comma),
{
    let st = seg_run(t, max, comma, t.len());
    lemma_run_stops(t, max, comma, t.len());
    lemma_push_free(st.0, st.1, PauseType::NoPause, comma);
    lemma_run_inv(t, max, comma, t.len());
    assert(t.subrange(0, t.len() as int) == t);
    lemma_push_nonempty(st.0, st.1, PauseType::NoPause);
    let segs = push_nonempty(st.0, text::trim(st.1), PauseType::NoPause);
    if segs.len() == 0 && text::trim(t).len() > 0 {
        assert(concat_texts(segs) == Seq::<char>::empty());
        assert(text::strip_ws(Seq::<char>::empty()) == Seq::<char>::empty());
        text::lemma_trim_props(t);
        assert(false);
    }
}

/// Text without any non-whitespace character gives no segment.
pub proof fn law_blank_text_has_no_segments(t: Seq<char>, max: nat, comma: bool)
    requires
        text::strip_ws(t).len() == 0,
    ensures
        segmentation(t, max, comma).len() == 0,
{
    law_segmentation_preserves_text(t, max, comma);
    let segs = segmentation(t, max, comma);
    if segs.len() > 0 {
        assert(segs[segs.len() - 1].0.len() > 0);
        text::lemma_trim_props(segs.last().0);
        text::lemma_strip_ws_concat(concat_texts(segs.drop_last()), segs.last().0);
    }
}

// ---------------------------------------------------------------------------
// Implementation
// ---------------------------------------------------------------------------

fn is_sentence_end(c: char) -> (r: bool)
    ensures
        r == is_sentence_end_char(c),
{
    c == '.' || c == '!' || c == '?' || c == '。' || c == '！' || c == '？'
}

fn is_comma(c: char) -> (r: bool)
    ensures
        r == is_comma_char(c),
{
    c == ',' || c == '，'
}

fn is_clause_separator(c: char) -> (r: bool)
    ensures
        r == is_clause_sep(c),
{
    c == ',' || c == ';' || c == '，' || c == '；'
}

fn is_ascii_letter_exec(c: char) -> (r: bool)
    ensures
        r == text::ascii_letter(c),
{
    ('a' <= c && c <= 'z') || ('A' <= c && c <= 'Z')
}

/// The run of ASCII letters that ends `v[..end]`.
fn letter_suffix_before(v: &Vec<char>, end: usize) -> (r: Vec<char>)
    requires
        end <= v.len(),
    ensures
        r@ == letter_suffix(v@.subrange(0, end as int)),
{
    let mut j: usize = end;
    assert(v@.subrange(end as int, end as int) =~= Seq::<char>::empty());
    assert(letter_suffix(v@.subrange(0, end as int)) =~= letter_suffix(v@.subrange(0, end as int)) + v@.subrange(end as int, end as int));
    while j > 0 && is_ascii_letter_exec(v[j - 1])
        invariant
            j <= end <= v.len(),
            letter_suffix(v@.subrange(0, end as int)) == letter_suffix(v@.subrange(0, j as int)) + v@.subrange(
                j as int,
                end as int,
            ),
        decreases j,
    {
        let ghost pre = v@.subrange(0, j as int);
        assert(pre.drop_last() =~= v@.subrange(0, j - 1));
        assert(pre.last() == v@[j - 1]);
        assert(letter_suffix(pre) == letter_suffix(v@.subrange(0, j - 1)).push(v@[j - 1]));
        assert(v@.subrange(j - 1, end as int) =~= seq![v@[j - 1]] + v@.subrange(j as int, end as int));
        assert(letter_suffix(v@.subrange(0, j - 1)).push(v@[j - 1]) + v@.subrange(j as int, end as int)
            =~= letter_suffix(v@.subrange(0, j - 1)) + v@.subrange(j - 1, end as int));
        j -= 1;
    }
    if j > 0 {
        assert(v@.subrange(0, j as int).last() == v@[j - 1]);
    }
    assert(letter_suffix(v@.subrange(0, j as int)) =~= Seq::<char>::empty());
    text::copy_range(v, j, end)
}

fn is_title_abbrev(w: &Vec<char>) -> (r: bool)
    ensures
        r == is_title_abbreviation(w@),
{
    text::chars_eq(w, &to_chars("Mr")) || text::chars_eq(w, &to_chars("Mrs")) || text::chars_eq(w, &to_chars("Ms"))
        || text::chars_eq(w, &to_chars("Dr")) || text::chars_eq(w, &to_chars("Prof")) || text::chars_eq(
        w,
        &to_chars("Sr"),
    ) || text::chars_eq(w, &to_chars("Jr")) || text::chars_eq(w, &to_chars("St")) || text::chars_eq(
        w,
        &to_chars("vs"),
    )
}

fn push_segment(segs: &mut Vec<TextSegment>, s: Vec<char>, p: PauseType)
    ensures
        seg_views(final(segs)@) == push_nonempty(seg_views(old(segs)@), s@, p),
{
    if s.len() > 0 {
        let ghost before = old(segs)@;
        segs.push(TextSegment { text: string_of(&s), pause_type: p });
        assert(seg_views(segs@) =~= seg_views(before).push((s@, p)));
    }
}

fn find_last_clause_sep(v: &Vec<char>) -> (r: Option<usize>)
    ensures
        match r {
            Some(p) => p == last_clause_sep(v@),
            None => last_clause_sep(v@) == -1,
        },
{
    let mut j: usize = v.len();
    assert(v@.subrange(0, v@.len() as int) == v@);
    while j > 0
        invariant
            j <= v.len(),
            last_clause_sep(v@) == last_clause_sep(v@.subrange(0, j as int)),
        decreases j,
    {
        assert(v@.subrange(0, j as int).last() == v@[j - 1]);
        if is_clause_separator(v[j - 1]) {
            return Some(j - 1);
        }
        assert(v@.subrange(0, j as int).drop_last() == v@.subrange(0, j - 1));
        j -= 1;
    }
    None
}

fn find_last_ws(v: &Vec<char>) -> (r: Option<usize>)
    ensures
        match r {
            Some(p) => p == last_ws(v@),
            None => last_ws(v@) == -1,
        },
{
    let mut j: usize = v.len();
    assert(v@.subrange(0, v@.len() as int) == v@);
    while j > 0
        invariant
            j <= v.len(),
            last_ws(v@) == last_ws(v@.subrange(0, j as int)),
        decreases j,
    {
        assert(v@.subrange(0, j as int).last() == v@[j - 1]);
        if is_whitespace(v[j - 1]) {
            return Some(j - 1);
        }
        assert(v@.subrange(0, j as int).drop_last() == v@.subrange(0, j - 1));
        j -= 1;
    }
    None
}

impl TextSegmenter {
    /// The length limit of a pending sentence, in characters.
    pub closed spec fn max_len(&self) -> nat {
        self.max_sentence_length as nat
    }

    /// Whether every comma ends a segment.
    pub closed spec fn splits_comma(&self) -> bool {
        self.split_on_comma
    }

    /// A segmenter that cuts at sentence ends only, with the given length limit.
    pub fn new(max_sentence_length: usize) -> (r: Self)
        ensures
            r.max_len() == max_sentence_length,
            !r.splits_comma(),
    {
        Self { max_sentence_length, split_on_comma: false }
    }

    /// A segmenter that also cuts at every comma, with the given length limit.
    pub fn new_with_comma_splitting(max_sentence_length: usize) -> (r: Self)
        ensures
            r.max_len() == max_sentence_length,
            r.splits_comma(),
    {
        Self { max_sentence_length, split_on_comma: true }
    }

    /// The default segmenter: limit 50 characters, no comma cuts.
    pub fn default() -> (r: Self)
        ensures
            r.max_len() == 50,
            !r.splits_comma(),
    {
        Self { max_sentence_length: 50, split_on_comma: false }
    }

    /// Splits `text` into segments, each with the pause that follows it.
    pub fn segment_with_pause_type(&self, text: &str) -> (r: Vec<TextSegment>)
        ensures
            seg_views(r@) == segmentation(text@, self.max_len(), self.splits_comma()),
    {
        let ghost t = text@;
        let ghost max = self.max_len();
        let ghost comma = self.split_on_comma;
        let tv = to_chars(text);
        let n = tv.len();
        let mut segs: Vec<TextSegment> = Vec::new();
        let mut cur: Vec<char> = Vec::new();
        let mut k: usize = 0;
        assert(seg_views(segs@) =~= Seq::<SegSpec>::empty());
        while k < n
            invariant
                tv@ == t,
                n == t.len(),
                k <= n,
                max == self.max_sentence_length,
                comma == self.split_on_comma,
                seg_run(t, max, comma, k as nat) == (seg_views(segs@), cur@),
            decreases n - k,
        {
            let ghost st = seg_run(t, max, comma, k as nat);
            let c = tv[k];
            cur.push(c);
            let is_end = is_sentence_end(c);
            let mut handled = false;
            if is_end {
                let should_split = if c == '.' {
                    let prev_digit = cur.len() >= 2 && is_ascii_digit(cur[cur.len() - 2]);
                    let has_next = k + 1 < n;
                    let next_digit = has_next && is_ascii_digit(tv[k + 1]);
                    if prev_digit && next_digit {
                        false
                    } else if prev_digit {
                        true
                    } else {
                        let abbreviation = has_next && is_alphabetic(tv[k + 1]) && is_lowercase(
                            tv[k + 1],
                        );
                        let before = letter_suffix_before(&cur, cur.len() - 1);
                        proof {
                            assert(cur@.subrange(0, cur.len() - 1) == cur@.drop_last());
                        }
                        !abbreviation && !is_title_abbrev(&before)
                    }
                } else {
                    true
                };
                if should_split {
                    let seg = trim_chars(&cur);
                    push_segment(&mut segs, seg, PauseType::SentenceEnd);
                    cur = Vec::new();
                    handled = true;
                }
            } else if is_comma(c) && self.split_on_comma {
                let seg = trim_chars(&cur);
                push_segment(&mut segs, seg, PauseType::Comma);
                cur = Vec::new();
                handled = true;
            }
            if !handled && cur.len() >= self.max_sentence_length {
                proof {
                    lemma_last_clause_sep_range(cur@);
                }
                match find_last_clause_sep(&cur) {
                    Some(p) => {
                        let clen = cur.len();
                        assert(p < clen);
                        let first = trim_range(&cur, 0, p + 1);
                        push_segment(&mut segs, first, PauseType::Comma);
                        let rest = trim_range(&cur, p + 1, cur.len());
                        cur = rest;
                    },
                    None => {
                        proof {
                            lemma_last_ws_range(cur@);
                        }
                        match find_last_ws(&cur) {
                            Some(q) => {
                                let first = trim_range(&cur, 0, q);
                                push_segment(&mut segs, first, PauseType::NoPause);
                                let rest = trim_range(&cur, q, cur.len());
                                cur = rest;
                            },
                            None => {},
                        }
                    },
                }
            }
            assert(seg_run(t, max, comma, (k + 1) as nat) == seg_step(t, max, comma, k as int, st));
            assert(seg_run(t, max, comma, (k + 1) as nat) == (seg_views(segs@), cur@));
            k += 1;
        }
        let last = trim_chars(&cur);
        push_segment(&mut segs, last, PauseType::NoPause);
        if segs.len() == 0 {
            let whole = trim_chars(&tv);
            if whole.len() > 0 {
                let ghost before = segs@;
                segs.push(TextSegment { text: string_of(&tv), pause_type: PauseType::NoPause });
                assert(seg_views(segs@) =~= seq![(t, PauseType::NoPause)]);
            }
        }
        segs
    }

    /// Splits `text` into segments and returns their texts.
    pub fn segment(&self, text: &str) -> (r: Vec<String>)
        ensures
            string_views(r@) == segmentation(text@, self.max_len(), self.splits_comma()).map_values(
                |s: SegSpec| s.0,
            ),
    {
        let segs = self.segment_with_pause_type(text);
        let mut out: Vec<String> = Vec::new();
        let mut i: usize = 0;
        while i < segs.len()
            invariant
                i <= segs.len(),
                string_views(out@) == seg_views(segs@).subrange(0, i as int).map_values(
                    |s: SegSpec| s.0,
                ),
            decreases segs.len() - i,
        {
            let ghost before = out@;
            let t = segs[i].text.clone();
            assert(t@ == seg_views(segs@)[i as int].0);
            out.push(t);
            assert(string_views(out@) =~= string_views(before).push(t@));
            assert(seg_views(segs@).subrange(0, i + 1) =~= seg_views(segs@).subrange(0, i as int).push(seg_views(segs@)[i as int]));
            assert(string_views(out@) =~= seg_views(segs@).subrange(0, i + 1).map_values(
                |s: SegSpec| s.0,
            ));
            i += 1;
        }
        assert(seg_views(segs@).subrange(0, segs@.len() as int) == seg_views(segs@));
        out
    }
}

} // verus!
