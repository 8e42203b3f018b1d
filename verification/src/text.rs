//! Character and string primitives shared by the text-processing modules.
//!
//! Strings are modelled by their view, a `Seq<char>`.  The executable helpers
//! work on `Vec<char>` buffers and convert at the boundaries.
use vstd::prelude::*;

verus! {

// ---------------------------------------------------------------------------
// Character classes
// ---------------------------------------------------------------------------

/// The Unicode `White_Space` property, which is what `char::is_whitespace` tests.
pub open spec fn is_ws(c: char) -> bool {
    let u = c as u32;
    ||| (0x09 <= u && u <= 0x0D)
    ||| u == 0x20
    ||| u == 0x85
    ||| u == 0xA0
    ||| u == 0x1680
    ||| (0x2000 <= u && u <= 0x200A)
    ||| u == 0x2028
    ||| u == 0x2029
    ||| u == 0x202F
    ||| u == 0x205F
    ||| u == 0x3000
}

/// Executable `White_Space` test.
pub fn is_whitespace(c: char) -> (r: bool)
    ensures
        r == is_ws(c),
{
    let u = c as u32;
    (0x09 <= u && u <= 0x0D) || u == 0x20 || u == 0x85 || u == 0xA0 || u == 0x1680 || (0x2000
        <= u && u <= 0x200A) || u == 0x2028 || u == 0x2029 || u == 0x202F || u == 0x205F || u
        == 0x3000
}

/// An ASCII decimal digit.
pub open spec fn is_digit(c: char) -> bool {
    '0' <= c && c <= '9'
}

pub fn is_ascii_digit(c: char) -> (r: bool)
    ensures
        r == is_digit(c),
{
    '0' <= c && c <= '9'
}

/// An ASCII punctuation character (the class of `char::is_ascii_punctuation`).
pub open spec fn is_ascii_punct(c: char) -> bool {
    let u = c as u32;
    (0x21 <= u && u <= 0x2F) || (0x3A <= u && u <= 0x40) || (0x5B <= u && u <= 0x60) || (0x7B
        <= u && u <= 0x7E)
}

pub fn is_ascii_punctuation(c: char) -> (r: bool)
    ensures
        r == is_ascii_punct(c),
{
    let u = c as u32;
    (0x21 <= u && u <= 0x2F) || (0x3A <= u && u <= 0x40) || (0x5B <= u && u <= 0x60) || (0x7B
        <= u && u <= 0x7E)
}

/// A CJK ideograph of the basic block, extension A or extension B.
pub open spec fn is_cjk(c: char) -> bool {
    let u = c as u32;
    (0x4E00 <= u && u <= 0x9FFF) || (0x3400 <= u && u <= 0x4DBF) || (0x20000 <= u && u
        <= 0x2A6DF)
}

pub fn is_chinese_char(c: char) -> (r: bool)
    ensures
        r == is_cjk(c),
{
    let u = c as u32;
    (0x4E00 <= u && u <= 0x9FFF) || (0x3400 <= u && u <= 0x4DBF) || (0x20000 <= u && u
        <= 0x2A6DF)
}

/// What `char::is_alphabetic` returns (the Unicode `Alphabetic` property).
pub uninterp spec fn char_is_alphabetic(c: char) -> bool;

/// What `char::is_lowercase` returns (the Unicode `Lowercase` property).
pub uninterp spec fn char_is_lowercase(c: char) -> bool;

/// What `char::is_alphanumeric` returns (`Alphabetic` or a numeric general category).
pub uninterp spec fn char_is_alphanumeric(c: char) -> bool;

/// What `str::to_lowercase` returns (full Unicode lower-case mapping of every character).
pub uninterp spec fn str_lowercase(s: Seq<char>) -> Seq<char>;

/// An ASCII letter, `A`..`Z` or `a`..`z`.
pub open spec fn ascii_letter(c: char) -> bool {
    ('A' <= c && c <= 'Z') || ('a' <= c && c <= 'z')
}

/// Calls `char::is_alphabetic`; the result is the named property of `c`.  Among ASCII
/// characters the `Alphabetic` property holds exactly for `A`..`Z` and `a`..`z`.
#[verifier::external_body]
pub(crate) fn is_alphabetic(c: char) -> (r: bool)
    ensures
        r == char_is_alphabetic(c),
        (c as u32) < 128 ==> (r <==> ascii_letter(c)),
{
    c.is_alphabetic()
}

/// Calls `char::is_lowercase`; the result is the named property of `c`.  Among ASCII
/// characters the `Lowercase` property holds exactly for `a`..`z`.
#[verifier::external_body]
pub(crate) fn is_lowercase(c: char) -> (r: bool)
    ensures
        r == char_is_lowercase(c),
        (c as u32) < 128 ==> (r <==> ('a' <= c && c <= 'z')),
{
    c.is_lowercase()
}

/// Calls `char::is_alphanumeric`; the result is the named property of `c`.  Among ASCII
/// characters it holds exactly for letters and the digits `0`..`9`.
#[verifier::external_body]
pub(crate) fn is_alphanumeric(c: char) -> (r: bool)
    ensures
        r == char_is_alphanumeric(c),
        (c as u32) < 128 ==> (r <==> (ascii_letter(c) || ('0' <= c && c <= '9'))),
{
    c.is_alphanumeric()
}

/// ASCII lower-case mapping of one character.
pub open spec fn ascii_lower(c: char) -> char {
    if 'A' <= c && c <= 'Z' {
        ((c as u32) + 32) as char
    } else {
        c
    }
}

/// Every character of `s` is ASCII.
pub open spec fn all_ascii(s: Seq<char>) -> bool {
    forall|i: int| 0 <= i < s.len() ==> (#[trigger] s[i] as u32) < 128
}

/// The lower-case form of `s`: on ASCII text, `A`..`Z` become `a`..`z` and every other
/// character stays; on other text, the named Unicode mapping.
pub open spec fn lowercase(s: Seq<char>) -> Seq<char> {
    if all_ascii(s) {
        s.map_values(|c: char| ascii_lower(c))
    } else {
        str_lowercase(s)
    }
}

/// Calls `str::to_lowercase`; the result is the named lower-case mapping of `s`.  On
/// ASCII text the mapping turns `A`..`Z` into `a`..`z` and keeps every other character,
/// as the standard library documents for ASCII.
#[verifier::external_body]
pub(crate) fn to_lowercase(s: &str) -> (r: String)
    ensures
        r@ == str_lowercase(s@),
        all_ascii(s@) ==> r@ == s@.map_values(|c: char| ascii_lower(c)),
{
    s.to_lowercase()
}

/// Calls `String::push`: appends one character.
#[verifier::external_body]
pub(crate) fn push_char(s: &mut String, c: char)
    ensures
        final(s)@ == old(s)@.push(c),
{
    s.push(c)
}

// ---------------------------------------------------------------------------
// Conversions between `&str`, `String` and `Vec<char>`
// ---------------------------------------------------------------------------

/// The characters of a string slice.
pub fn to_chars(s: &str) -> (v: Vec<char>)
    ensures
        v@ == s@,
{
    broadcast use vstd::string::group_string_axioms;

    let mut v: Vec<char> = Vec::new();
    for c in it: s.chars()
        invariant
            v@ == it.seq().take(it.index() as int),
            it.seq() == s@,
    {
        v.push(c);
    }
    v
}

/// A string made of the characters `v[lo..hi]`.
pub fn string_of_range(v: &Vec<char>, lo: usize, hi: usize) -> (s: String)
    requires
        lo <= hi <= v.len(),
    ensures
        s@ == v@.subrange(lo as int, hi as int),
{
    let mut s = String::new();
    let mut i: usize = lo;
    while i < hi
        invariant
            lo <= i <= hi <= v.len(),
            s@ == v@.subrange(lo as int, i as int),
        decreases hi - i,
    {
        push_char(&mut s, v[i]);
        assert(v@.subrange(lo as int, i + 1) == v@.subrange(lo as int, i as int).push(v@[i as int]));
        i += 1;
    }
    s
}

/// A string made of all the characters of `v`.
pub fn string_of(v: &Vec<char>) -> (s: String)
    ensures
        s@ == v@,
{
    let s = string_of_range(v, 0, v.len());
    assert(v@.subrange(0, v@.len() as int) == v@);
    s
}

/// A copy of `v[lo..hi]`.
pub fn copy_range(v: &Vec<char>, lo: usize, hi: usize) -> (r: Vec<char>)
    requires
        lo <= hi <= v.len(),
    ensures
        r@ == v@.subrange(lo as int, hi as int),
{
    let mut r: Vec<char> = Vec::new();
    let mut i: usize = lo;
    while i < hi
        invariant
            lo <= i <= hi <= v.len(),
            r@ == v@.subrange(lo as int, i as int),
        decreases hi - i,
    {
        r.push(v[i]);
        assert(v@.subrange(lo as int, i + 1) == v@.subrange(lo as int, i as int).push(v@[i as int]));
        i += 1;
    }
    r
}

/// Appends the characters of `b` to `a`.
pub fn append_chars(a: &mut Vec<char>, b: &Vec<char>)
    ensures
        final(a)@ == old(a)@ + b@,
{
    let mut i: usize = 0;
    while i < b.len()
        invariant
            i <= b.len(),
            a@ == old(a)@ + b@.subrange(0, i as int),
        decreases b.len() - i,
    {
        a.push(b[i]);
        assert(b@.subrange(0, i + 1) == b@.subrange(0, i as int).push(b@[i as int]));
        i += 1;
    }
    assert(b@.subrange(0, b@.len() as int) == b@);
}

/// Appends the characters of a string slice to `a`.
pub fn append_str(a: &mut Vec<char>, s: &str)
    ensures
        final(a)@ == old(a)@ + s@,
{
    let b = to_chars(s);
    append_chars(a, &b);
}

/// Equality of two character buffers.
pub fn chars_eq(a: &Vec<char>, b: &Vec<char>) -> (r: bool)
    ensures
        r == (a@ == b@),
{
    if a.len() != b.len() {
        return false;
    }
    let mut i: usize = 0;
    while i < a.len()
        invariant
            i <= a.len() == b.len(),
            forall|j: int| 0 <= j < i ==> a@[j] == b@[j],
        decreases a.len() - i,
    {
        if a[i] != b[i] {
            return false;
        }
        i += 1;
    }
    assert(a@ =~= b@);
    true
}

/// Equality of two string slices.
pub fn str_eq(a: &str, b: &str) -> (r: bool)
    ensures
        r == (a@ == b@),
{
    let va = to_chars(a);
    let vb = to_chars(b);
    chars_eq(&va, &vb)
}

// ---------------------------------------------------------------------------
// Trimming
// ---------------------------------------------------------------------------

/// `s` without its leading whitespace.
pub open spec fn trim_start(s: Seq<char>) -> Seq<char>
    decreases s.len(),
{
    if s.len() > 0 && is_ws(s[0]) {
        trim_start(s.drop_first())
    } else {
        s
    }
}

/// `s` without its trailing whitespace.
pub open spec fn trim_end(s: Seq<char>) -> Seq<char>
    decreases s.len(),
{
    if s.len() > 0 && is_ws(s.last()) {
        trim_end(s.drop_last())
    } else {
        s
    }
}

/// `s` without leading and trailing whitespace (what `str::trim` returns).
pub open spec fn trim(s: Seq<char>) -> Seq<char> {
    trim_end(trim_start(s))
}

/// The characters of `s` that are not whitespace, in order.
pub open spec fn strip_ws(s: Seq<char>) -> Seq<char>
    decreases s.len(),
{
    if s.len() == 0 {
        seq![]
    } else if is_ws(s.last()) {
        strip_ws(s.drop_last())
    } else {
        strip_ws(s.drop_last()).push(s.last())
    }
}

pub proof fn lemma_strip_ws_concat(a: Seq<char>, b: Seq<char>)
    ensures
        strip_ws(a + b) == strip_ws(a) + strip_ws(b),
    decreases b.len(),
{
    if b.len() == 0 {
        assert(a + b == a);
        assert(strip_ws(b) == Seq::<char>::empty());
        assert(strip_ws(a) + strip_ws(b) == strip_ws(a));
    } else {
        lemma_strip_ws_concat(a, b.drop_last());
        assert((a + b).drop_last() == a + b.drop_last());
        assert((a + b).last() == b.last());
    }
}

pub proof fn lemma_strip_ws_trim_start(s: Seq<char>)
    ensures
        strip_ws(trim_start(s)) == strip_ws(s),
    decreases s.len(),
{
    if s.len() > 0 && is_ws(s[0]) {
        lemma_strip_ws_trim_start(s.drop_first());
        assert(s == seq![s[0]] + s.drop_first());
        lemma_strip_ws_concat(seq![s[0]], s.drop_first());
        assert(seq![s[0]].drop_last() == Seq::<char>::empty());
        assert(seq![s[0]].last() == s[0]);
        assert(strip_ws(Seq::<char>::empty()) == Seq::<char>::empty());
        assert(strip_ws(seq![s[0]]) == strip_ws(seq![s[0]].drop_last()));
        assert(strip_ws(seq![s[0]]) == Seq::<char>::empty());
    }
}

pub proof fn lemma_strip_ws_trim_end(s: Seq<char>)
    ensures
        strip_ws(trim_end(s)) == strip_ws(s),
    decreases s.len(),
{
    if s.len() > 0 && is_ws(s.last()) {
        lemma_strip_ws_trim_end(s.drop_last());
    }
}

/// Trimming drops whitespace only.
pub proof fn lemma_strip_ws_trim(s: Seq<char>)
    ensures
        strip_ws(trim(s)) == strip_ws(s),
{
    lemma_strip_ws_trim_start(s);
    lemma_strip_ws_trim_end(trim_start(s));
}

pub proof fn lemma_trim_start_props(s: Seq<char>)
    ensures
        trim_start(s).len() <= s.len(),
        trim_start(s).len() > 0 ==> !is_ws(trim_start(s)[0]),
        trim_start(s) == s.subrange(s.len() - trim_start(s).len(), s.len() as int),
    decreases s.len(),
{
    if s.len() > 0 && is_ws(s[0]) {
        lemma_trim_start_props(s.drop_first());
        assert(s.drop_first() == s.subrange(1, s.len() as int));
        assert(s.drop_first().subrange(
            s.drop_first().len() - trim_start(s).len(),
            s.drop_first().len() as int,
        ) == s.subrange(s.len() - trim_start(s).len(), s.len() as int));
    } else {
        assert(s.subrange(0, s.len() as int) == s);
    }
}

pub proof fn lemma_trim_end_props(s: Seq<char>)
    ensures
        trim_end(s).len() <= s.len(),
        trim_end(s).len() > 0 ==> !is_ws(trim_end(s).last()),
        trim_end(s) == s.subrange(0, trim_end(s).len() as int),
        trim_end(s).len() == 0 ==> strip_ws(s).len() == 0,
    decreases s.len(),
{
    if s.len() > 0 && is_ws(s.last()) {
        lemma_trim_end_props(s.drop_last());
        assert(s.drop_last().subrange(0, trim_end(s).len() as int) == s.subrange(
            0,
            trim_end(s).len() as int,
        ));
    } else {
        assert(s.subrange(0, s.len() as int) == s);
    }
}

/// A trimmed string has no whitespace at either end, and is empty exactly when `s` has
/// no non-whitespace character.
pub proof fn lemma_trim_props(s: Seq<char>)
    ensures
        trim(s).len() > 0 ==> !is_ws(trim(s)[0]) && !is_ws(trim(s).last()),
        trim(s).len() == 0 <==> strip_ws(s).len() == 0,
        trim(trim(s)) == trim(s),
{
    lemma_trim_start_props(s);
    let a = trim_start(s);
    lemma_trim_end_props(a);
    lemma_strip_ws_trim(s);
    if trim(s).len() > 0 {
        assert(trim(s)[0] == a[0]);
        assert(trim_start(trim(s)) == trim(s));
        assert(trim_end(trim(s)) == trim(s));
    } else {
        assert(strip_ws(trim(s)).len() == 0) by {
            assert(trim(s) == Seq::<char>::empty());
        }
        assert(trim_start(trim(s)) == trim(s));
    }
    if strip_ws(s).len() == 0 && trim(s).len() > 0 {
        lemma_strip_last_nonws(trim(s));
    }
}

pub proof fn lemma_strip_last_nonws(s: Seq<char>)
    requires
        s.len() > 0,
        !is_ws(s.last()),
    ensures
        strip_ws(s).len() > 0,
{
}

/// The trimmed copy of `v[lo..hi]`.
pub fn trim_range(v: &Vec<char>, lo: usize, hi: usize) -> (r: Vec<char>)
    requires
        lo <= hi <= v.len(),
    ensures
        r@ == trim(v@.subrange(lo as int, hi as int)),
{
    let mut i: usize = lo;
    while i < hi && is_whitespace(v[i])
        invariant
            lo <= i <= hi <= v.len(),
            trim_start(v@.subrange(lo as int, hi as int)) == trim_start(
                v@.subrange(i as int, hi as int),
            ),
        decreases hi - i,
    {
        assert(v@.subrange(i as int, hi as int).drop_first() == v@.subrange(i + 1, hi as int));
        i += 1;
    }
    assert(trim_start(v@.subrange(lo as int, hi as int)) == v@.subrange(i as int, hi as int));
    let mut j: usize = hi;
    while j > i && is_whitespace(v[j - 1])
        invariant
            lo <= i <= j <= hi <= v.len(),
            trim_end(v@.subrange(i as int, hi as int)) == trim_end(
                v@.subrange(i as int, j as int),
            ),
        decreases j,
    {
        assert(v@.subrange(i as int, j as int).drop_last() == v@.subrange(i as int, j - 1));
        j -= 1;
    }
    copy_range(v, i, j)
}

/// The trimmed copy of all of `v`.
pub fn trim_chars(v: &Vec<char>) -> (r: Vec<char>)
    ensures
        r@ == trim(v@),
{
    assert(v@.subrange(0, v@.len() as int) == v@);
    trim_range(v, 0, v.len())
}

// ---------------------------------------------------------------------------
// UTF-8 byte length
// ---------------------------------------------------------------------------

/// Number of bytes of the UTF-8 encoding of `c` (what `char::len_utf8` returns).
pub open spec fn utf8_len(c: char) -> nat {
    let u = c as u32;
    if u < 0x80 {
        1
    } else if u < 0x800 {
        2
    } else if u < 0x10000 {
        3
    } else {
        4
    }
}

/// Number of bytes of the UTF-8 encoding of `s` (what `str::len` returns).
pub open spec fn byte_len(s: Seq<char>) -> nat
    decreases s.len(),
{
    if s.len() == 0 {
        0
    } else {
        byte_len(s.drop_last()) + utf8_len(s.last())
    }
}

pub fn char_utf8_len(c: char) -> (n: usize)
    ensures
        n == utf8_len(c),
        1 <= n <= 4,
{
    let u = c as u32;
    if u < 0x80 {
        1
    } else if u < 0x800 {
        2
    } else if u < 0x10000 {
        3
    } else {
        4
    }
}

/// The number of bytes of the UTF-8 encoding of `v`, saturating at `usize::MAX`.
pub fn byte_len_of(v: &Vec<char>) -> (n: usize)
    ensures
        byte_len(v@) <= usize::MAX ==> n == byte_len(v@),
{
    let mut sum: usize = 0;
    let mut i: usize = 0;
    while i < v.len()
        invariant
            i <= v.len(),
            byte_len(v@.subrange(0, i as int)) <= usize::MAX ==> sum == byte_len(
                v@.subrange(0, i as int),
            ),
            byte_len(v@.subrange(0, i as int)) > usize::MAX ==> sum == usize::MAX,
        decreases v.len() - i,
    {
        assert(v@.subrange(0, i + 1).drop_last() == v@.subrange(0, i as int));
        let l = char_utf8_len(v[i]);
        if sum > usize::MAX - l {
            sum = usize::MAX;
        } else {
            sum = sum + l;
        }
        i += 1;
    }
    assert(v@.subrange(0, v@.len() as int) == v@);
    sum
}

// ---------------------------------------------------------------------------
// Substring search and replacement
// ---------------------------------------------------------------------------

/// Whether `pat` occurs in `s` at position `i`.
pub open spec fn occurs_at(s: Seq<char>, pat: Seq<char>, i: int) -> bool {
    0 <= i && i + pat.len() <= s.len() && s.subrange(i, i + pat.len()) == pat
}

/// Whether `pat` occurs in `s` (what `str::contains` returns for a string pattern).
pub open spec fn contains(s: Seq<char>, pat: Seq<char>) -> bool {
    exists|i: int| occurs_at(s, pat, i)
}

/// Whether `s` begins with `pat`.
pub open spec fn starts_with(s: Seq<char>, pat: Seq<char>) -> bool {
    occurs_at(s, pat, 0)
}

/// Whether `s` ends with `pat`.
pub open spec fn ends_with(s: Seq<char>, pat: Seq<char>) -> bool {
    occurs_at(s, pat, s.len() - pat.len())
}

/// `s[i..]` with every non-overlapping occurrence of the non-empty `pat`, searched
/// left to right, replaced by `rep`.
pub open spec fn replace_from(s: Seq<char>, pat: Seq<char>, rep: Seq<char>, i: int) -> Seq<char>
    recommends
        pat.len() > 0,
    decreases s.len() - i,
{
    if i >= s.len() || i < 0 || pat.len() == 0 {
        seq![]
    } else if occurs_at(s, pat, i) {
        rep + replace_from(s, pat, rep, i + pat.len())
    } else {
        seq![s[i]] + replace_from(s, pat, rep, i + 1)
    }
}

/// `rep` before every character of `s[i..]` and once more at the end.
pub open spec fn interleave_from(s: Seq<char>, rep: Seq<char>, i: int) -> Seq<char>
    decreases s.len() - i,
{
    if i >= s.len() || i < 0 {
        rep
    } else {
        rep + seq![s[i]] + interleave_from(s, rep, i + 1)
    }
}

/// What `str::replace(s, pat, rep)` returns: left-to-right, non-overlapping
/// replacement; an empty pattern matches before every character and at the end.
pub open spec fn replace_all(s: Seq<char>, pat: Seq<char>, rep: Seq<char>) -> Seq<char> {
    if pat.len() == 0 {
        interleave_from(s, rep, 0)
    } else {
        replace_from(s, pat, rep, 0)
    }
}

/// Whether `pat` occurs in `v` at position `i`.
pub fn occurs_at_exec(v: &Vec<char>, pat: &Vec<char>, i: usize) -> (r: bool)
    ensures
        r == occurs_at(v@, pat@, i as int),
{
    if pat.len() > v.len() || i > v.len() - pat.len() {
        return false;
    }
    let mut j: usize = 0;
    while j < pat.len()
        invariant
            i + pat.len() <= v.len(),
            j <= pat.len(),
            forall|k: int| 0 <= k < j ==> v@[i + k] == pat@[k],
        decreases pat.len() - j,
    {
        if v[i + j] != pat[j] {
            assert(v@.subrange(i as int, i + pat.len())[j as int] != pat@[j as int]);
            return false;
        }
        j += 1;
    }
    assert(v@.subrange(i as int, i + pat.len()) =~= pat@);
    true
}

/// Whether `pat` occurs in `v`.
pub fn contains_exec(v: &Vec<char>, pat: &Vec<char>) -> (r: bool)
    ensures
        r == contains(v@, pat@),
{
    let mut i: usize = 0;
    while i < v.len()
        invariant
            i <= v.len(),
            forall|k: int| 0 <= k < i ==> !occurs_at(v@, pat@, k),
        decreases v.len() - i,
    {
        if occurs_at_exec(v, pat, i) {
            return true;
        }
        i += 1;
    }
    if occurs_at_exec(v, pat, v.len()) {
        return true;
    }
    assert forall|k: int| !occurs_at(v@, pat@, k) by {
        if 0 <= k < v@.len() {
        } else if k == v@.len() {
        } else if k > v@.len() {
            assert(k + pat@.len() > v@.len());
        }
    }
    false
}

/// `v` with every occurrence of `pat` replaced by `rep`, as `str::replace` does.
pub fn replace_chars(v: &Vec<char>, pat: &Vec<char>, rep: &Vec<char>) -> (r: Vec<char>)
    ensures
        r@ == replace_all(v@, pat@, rep@),
{
    let mut out: Vec<char> = Vec::new();
    let mut i: usize = 0;
    if pat.len() == 0 {
        while i < v.len()
            invariant
                i <= v.len(),
                out@ + interleave_from(v@, rep@, i as int) == interleave_from(v@, rep@, 0),
            decreases v.len() - i,
        {
            let ghost before = out@;
            append_chars(&mut out, rep);
            out.push(v[i]);
            assert(before + interleave_from(v@, rep@, i as int) =~= out@ + interleave_from(
                v@,
                rep@,
                i + 1,
            ));
            i += 1;
        }
        let ghost before = out@;
        append_chars(&mut out, rep);
        assert(out@ == before + interleave_from(v@, rep@, i as int));
        return out;
    }
    assert(out@ + replace_from(v@, pat@, rep@, 0) =~= replace_from(v@, pat@, rep@, 0));
    while i < v.len()
        invariant
            pat.len() > 0,
            i <= v.len(),
            out@ + replace_from(v@, pat@, rep@, i as int) == replace_from(v@, pat@, rep@, 0),
        decreases v.len() - i,
    {
        let ghost before = out@;
        if occurs_at_exec(v, pat, i) {
            append_chars(&mut out, rep);
            assert(before + replace_from(v@, pat@, rep@, i as int) =~= out@ + replace_from(
                v@,
                pat@,
                rep@,
                i + pat.len(),
            ));
            i += pat.len();
        } else {
            out.push(v[i]);
            assert(before + replace_from(v@, pat@, rep@, i as int) =~= out@ + replace_from(
                v@,
                pat@,
                rep@,
                i + 1,
            ));
            i += 1;
        }
    }
    assert(replace_from(v@, pat@, rep@, i as int) == Seq::<char>::empty());
    assert(out@ + Seq::<char>::empty() =~= out@);
    out
}

/// `v` with every occurrence of the string slice `pat` replaced by `rep`.
pub fn replace_str(v: &Vec<char>, pat: &str, rep: &str) -> (r: Vec<char>)
    ensures
        r@ == replace_all(v@, pat@, rep@),
{
    let p = to_chars(pat);
    let q = to_chars(rep);
    replace_chars(v, &p, &q)
}

proof fn lemma_replace_from_len(s: Seq<char>, pat: Seq<char>, rep: Seq<char>, i: int)
    requires
        0 <= i <= s.len(),
        pat.len() > rep.len(),
    ensures
        replace_from(s, pat, rep, i).len() <= s.len() - i,
        (exists|j: int| i <= j && #[trigger] occurs_at(s, pat, j)) ==> replace_from(
            s,
            pat,
            rep,
            i,
        ).len() < s.len() - i,
    decreases s.len() - i,
{
    if i < s.len() {
        if occurs_at(s, pat, i) {
            lemma_replace_from_len(s, pat, rep, i + pat.len());
        } else {
            lemma_replace_from_len(s, pat, rep, i + 1);
            if exists|j: int| i <= j && #[trigger] occurs_at(s, pat, j) {
                let j = choose|j: int| i <= j && #[trigger] occurs_at(s, pat, j);
                assert(j != i);
                assert(i + 1 <= j);
            }
        }
    } else {
        if exists|j: int| i <= j && #[trigger] occurs_at(s, pat, j) {
            let j = choose|j: int| i <= j && #[trigger] occurs_at(s, pat, j);
            assert(false);
        }
    }
}

/// Replacing an occurring pattern by a shorter string shortens the text.
pub proof fn lemma_replace_shrinks(s: Seq<char>, pat: Seq<char>, rep: Seq<char>)
    requires
        pat.len() > rep.len(),
        contains(s, pat),
    ensures
        replace_all(s, pat, rep).len() < s.len(),
{
    let j = choose|j: int| occurs_at(s, pat, j);
    assert(0 <= j && occurs_at(s, pat, j));
    lemma_replace_from_len(s, pat, rep, 0);
}

// ---------------------------------------------------------------------------
// Words
// ---------------------------------------------------------------------------

/// The maximal runs of non-whitespace characters of `s` (what `str::split_whitespace`
/// yields).
pub open spec fn words(s: Seq<char>) -> Seq<Seq<char>>
    decreases s.len(),
{
    if s.len() == 0 {
        seq![]
    } else if is_ws(s.last()) {
        words(s.drop_last())
    } else if s.len() > 1 && !is_ws(s[s.len() - 2]) {
        let w = words(s.drop_last());
        w.update(w.len() - 1, w.last().push(s.last()))
    } else {
        words(s.drop_last()).push(seq![s.last()])
    }
}

/// The pieces of `ws` joined with `sep` between consecutive pieces.
pub open spec fn join(ws: Seq<Seq<char>>, sep: Seq<char>) -> Seq<char>
    decreases ws.len(),
{
    if ws.len() == 0 {
        seq![]
    } else if ws.len() == 1 {
        ws[0]
    } else {
        join(ws.drop_last(), sep) + sep + ws.last()
    }
}

/// A non-empty piece of text without whitespace: what a word is.
pub open spec fn is_word(w: Seq<char>) -> bool {
    w.len() > 0 && forall|i: int| 0 <= i < w.len() ==> !is_ws(#[trigger] w[i])
}

proof fn lemma_words_of_word(w: Seq<char>)
    requires
        is_word(w),
    ensures
        words(w) == seq![w],
    decreases w.len(),
{
    assert(!is_ws(w[w.len() - 1]));
    assert(w.last() == w[w.len() - 1]);
    if w.len() > 1 {
        let d = w.drop_last();
        assert(is_word(d));
        lemma_words_of_word(d);
        assert(!is_ws(w[w.len() - 2]));
        assert(d.push(w.last()) == w);
        assert(words(w) == words(d).update(0, d.push(w.last())));
        assert(seq![d].update(0, w) =~= seq![w]);
    } else {
        assert(w.drop_last() =~= Seq::<char>::empty());
        assert(words(w) == words(w.drop_last()).push(seq![w.last()]));
        assert(w =~= seq![w.last()]);
        assert(Seq::<Seq<char>>::empty().push(w) =~= seq![w]);
    }
}

proof fn lemma_words_after_space(a: Seq<char>, w: Seq<char>)
    requires
        is_word(w),
    ensures
        words(a + seq![' '] + w) == words(a).push(w),
    decreases w.len(),
{
    let s = a + seq![' '] + w;
    assert(!is_ws(w[w.len() - 1]));
    assert(s.last() == w.last());
    assert(w.last() == w[w.len() - 1]);
    if w.len() > 1 {
        let d = w.drop_last();
        assert(is_word(d));
        lemma_words_after_space(a, d);
        assert(s.drop_last() =~= a + seq![' '] + d);
        assert(s[s.len() - 2] == w[w.len() - 2]);
        assert(!is_ws(w[w.len() - 2]));
        assert(d.push(w.last()) == w);
        assert(words(s) == words(s.drop_last()).update(
            words(s.drop_last()).len() - 1,
            words(s.drop_last()).last().push(s.last()),
        ));
        assert(words(a).push(d).update(words(a).len() as int, d.push(w.last())) =~= words(a).push(w));
    } else {
        assert(s.drop_last() =~= a + seq![' ']);
        assert((a + seq![' ']).drop_last() =~= a);
        assert((a + seq![' ']).last() == ' ');
        assert(is_ws(' '));
        assert(s[s.len() - 2] == ' ');
        assert(words(s) == words(s.drop_last()).push(seq![s.last()]));
        assert(words(a + seq![' ']) == words(a));
        assert(w =~= seq![w.last()]);
    }
}

/// Words joined by single spaces split back into the same words.
pub proof fn lemma_words_of_join(ws: Seq<Seq<char>>)
    requires
        forall|k: int| 0 <= k < ws.len() ==> is_word(#[trigger] ws[k]),
    ensures
        words(join(ws, seq![' '])) == ws,
    decreases ws.len(),
{
    if ws.len() == 0 {
    } else if ws.len() == 1 {
        lemma_words_of_word(ws[0]);
        assert(ws =~= seq![ws[0]]);
    } else {
        let d = ws.drop_last();
        assert forall|k: int| 0 <= k < d.len() implies is_word(#[trigger] d[k]) by {
            assert(d[k] == ws[k]);
        }
        lemma_words_of_join(d);
        assert(is_word(ws[ws.len() - 1]));
        lemma_words_after_space(join(d, seq![' ']), ws.last());
        assert(d.push(ws.last()) == ws);
    }
}

/// Every word of a text is non-empty and holds no whitespace.
pub proof fn lemma_words_are_words(s: Seq<char>)
    ensures
        forall|k: int| 0 <= k < words(s).len() ==> is_word(#[trigger] words(s)[k]),
    decreases s.len(),
{
    if s.len() > 0 {
        let d = s.drop_last();
        lemma_words_are_words(d);
        let w = words(d);
        if is_ws(s.last()) {
        } else if s.len() > 1 && !is_ws(s[s.len() - 2]) {
            lemma_words_nonempty_when_word_char(d);
            assert(d.last() == s[s.len() - 2]);
            let u = w.update(w.len() - 1, w.last().push(s.last()));
            assert forall|k: int| 0 <= k < u.len() implies is_word(#[trigger] u[k]) by {
                if k == w.len() - 1 {
                    assert(is_word(w[k]));
                    assert forall|i: int| 0 <= i < u[k].len() implies !is_ws(#[trigger] u[k][i]) by {
                        if i < w[k].len() {
                            assert(u[k][i] == w[k][i]);
                        }
                    }
                } else {
                    assert(u[k] == w[k]);
                }
            }
        } else {
            let u = w.push(seq![s.last()]);
            assert forall|k: int| 0 <= k < u.len() implies is_word(#[trigger] u[k]) by {
                if k < w.len() {
                    assert(u[k] == w[k]);
                } else {
                    assert(u[k] == seq![s.last()]);
                }
            }
        }
    }
}

/// The pieces one after the other.
pub open spec fn flatten(ws: Seq<Seq<char>>) -> Seq<char>
    decreases ws.len(),
{
    if ws.len() == 0 {
        seq![]
    } else {
        flatten(ws.drop_last()) + ws.last()
    }
}

proof fn lemma_strip_ws_of_word(w: Seq<char>)
    requires
        forall|i: int| 0 <= i < w.len() ==> !is_ws(#[trigger] w[i]),
    ensures
        strip_ws(w) == w,
    decreases w.len(),
{
    if w.len() > 0 {
        let d = w.drop_last();
        assert forall|i: int| 0 <= i < d.len() implies !is_ws(#[trigger] d[i]) by {
            assert(d[i] == w[i]);
        }
        lemma_strip_ws_of_word(d);
        assert(!is_ws(w[w.len() - 1]));
        assert(d.push(w.last()) == w);
    } else {
        assert(w =~= Seq::<char>::empty());
    }
}

/// Without whitespace, words joined by spaces are the words one after the other.
pub proof fn lemma_strip_ws_join(ws: Seq<Seq<char>>)
    requires
        forall|k: int| 0 <= k < ws.len() ==> is_word(#[trigger] ws[k]),
    ensures
        strip_ws(join(ws, seq![' '])) == flatten(ws),
    decreases ws.len(),
{
    if ws.len() == 1 {
        assert(is_word(ws[0]));
        lemma_strip_ws_of_word(ws[0]);
        assert(ws.drop_last() =~= Seq::<Seq<char>>::empty());
        assert(flatten(ws.drop_last()) == Seq::<char>::empty());
        assert(ws.last() == ws[0]);
        assert(flatten(ws) =~= ws[0]);
    } else if ws.len() > 1 {
        let d = ws.drop_last();
        assert forall|k: int| 0 <= k < d.len() implies is_word(#[trigger] d[k]) by {
            assert(d[k] == ws[k]);
        }
        lemma_strip_ws_join(d);
        assert(is_word(ws[ws.len() - 1]));
        lemma_strip_ws_of_word(ws.last());
        lemma_strip_ws_concat(join(d, seq![' ']), seq![' ']);
        lemma_strip_ws_concat(join(d, seq![' ']) + seq![' '], ws.last());
        assert(seq![' '].drop_last() =~= Seq::<char>::empty());
        assert(is_ws(' '));
        assert(strip_ws(seq![' ']) == strip_ws(Seq::<char>::empty()));
        assert(strip_ws(join(d, seq![' ']) + seq![' ']) =~= strip_ws(join(d, seq![' '])));
    } else {
        assert(flatten(ws) =~= Seq::<char>::empty());
    }
}

/// Without whitespace, a text is its words one after the other.
pub proof fn lemma_strip_ws_words(s: Seq<char>)
    ensures
        strip_ws(s) == flatten(words(s)),
    decreases s.len(),
{
    if s.len() > 0 {
        let d = s.drop_last();
        lemma_strip_ws_words(d);
        let w = words(d);
        if is_ws(s.last()) {
        } else if s.len() > 1 && !is_ws(s[s.len() - 2]) {
            assert(d.last() == s[s.len() - 2]);
            lemma_words_nonempty_when_word_char(d);
            let u = w.update(w.len() - 1, w.last().push(s.last()));
            assert(u.drop_last() == w.drop_last());
            assert(flatten(u) =~= flatten(w).push(s.last()));
        } else {
            let u = w.push(seq![s.last()]);
            assert(u.drop_last() == w);
            assert(flatten(u) =~= flatten(w).push(s.last()));
        }
    }
}

pub proof fn lemma_words_nonempty_when_word_char(s: Seq<char>)
    requires
        s.len() > 0,
        !is_ws(s.last()),
    ensures
        words(s).len() > 0,
    decreases s.len(),
{
    if s.len() > 1 && !is_ws(s[s.len() - 2]) {
        assert(s.drop_last().last() == s[s.len() - 2]);
        lemma_words_nonempty_when_word_char(s.drop_last());
    }
}

/// The whitespace-separated words of `v`.
pub fn split_words(v: &Vec<char>) -> (r: Vec<Vec<char>>)
    ensures
        r@.map_values(|w: Vec<char>| w@) == words(v@),
{
    let mut out: Vec<Vec<char>> = Vec::new();
    let mut i: usize = 0;
    assert(v@.subrange(0, 0) =~= Seq::<char>::empty());
    assert(out@.map_values(|w: Vec<char>| w@) =~= Seq::<Seq<char>>::empty());
    while i < v.len()
        invariant
            i <= v.len(),
            out@.map_values(|w: Vec<char>| w@) == words(v@.subrange(0, i as int)),
        decreases v.len() - i,
    {
        let ghost pre = v@.subrange(0, i as int);
        let ghost post = v@.subrange(0, i + 1);
        assert(post.drop_last() == pre);
        assert(post.last() == v@[i as int]);
        let c = v[i];
        if is_whitespace(c) {
        } else if i > 0 && !is_whitespace(v[i - 1]) {
            assert(post[post.len() - 2] == v@[i - 1]);
            assert(pre.last() == v@[i - 1]);
            proof {
                lemma_words_nonempty_when_word_char(pre);
            }
            let ghost before = out@;
            let last = out.len() - 1;
            let mut w = out.remove(last);
            w.push(c);
            out.push(w);
            assert(out@.map_values(|w: Vec<char>| w@) =~= words(post));
        } else {
            let mut w: Vec<char> = Vec::new();
            w.push(c);
            out.push(w);
            assert(out@.map_values(|w: Vec<char>| w@) =~= words(post));
        }
        i += 1;
    }
    assert(v@.subrange(0, v@.len() as int) == v@);
    out
}

/// The pieces joined with `sep`.
pub fn join_chars(ws: &Vec<Vec<char>>, sep: &Vec<char>) -> (r: Vec<char>)
    ensures
        r@ == join(ws@.map_values(|w: Vec<char>| w@), sep@),
{
    let ghost m = ws@.map_values(|w: Vec<char>| w@);
    let mut out: Vec<char> = Vec::new();
    let mut i: usize = 0;
    while i < ws.len()
        invariant
            i <= ws.len(),
            m == ws@.map_values(|w: Vec<char>| w@),
            out@ == join(m.subrange(0, i as int), sep@),
        decreases ws.len() - i,
    {
        let ghost pre = m.subrange(0, i as int);
        let ghost post = m.subrange(0, i + 1);
        assert(post.drop_last() == pre);
        assert(post.last() == ws@[i as int]@);
        if i > 0 {
            append_chars(&mut out, sep);
        }
        append_chars(&mut out, &ws[i]);
        if i == 0 {
            assert(post.len() == 1);
            assert(out@ =~= post[0]);
        } else {
            assert(out@ =~= join(pre, sep@) + sep@ + post.last());
        }
        i += 1;
    }
    assert(m.subrange(0, m.len() as int) == m);
    out
}

// ---------------------------------------------------------------------------
// Splitting on a separator character
// ---------------------------------------------------------------------------

/// The pieces of `s` between occurrences of `sep`, empty pieces included (what
/// `str::split` yields for a character pattern).
pub open spec fn split_on(s: Seq<char>, sep: char) -> Seq<Seq<char>>
    decreases s.len(),
{
    if s.len() == 0 {
        seq![seq![]]
    } else {
        let p = split_on(s.drop_last(), sep);
        if s.last() == sep {
            p.push(seq![])
        } else {
            p.update(p.len() - 1, p.last().push(s.last()))
        }
    }
}

/// Text without the separator splits into itself alone.
pub proof fn lemma_split_on_without_sep(a: Seq<char>, sep: char)
    requires
        forall|i: int| 0 <= i < a.len() ==> a[i] != sep,
    ensures
        split_on(a, sep) == seq![a],
    decreases a.len(),
{
    if a.len() > 0 {
        lemma_split_on_without_sep(a.drop_last(), sep);
        assert(a.drop_last().push(a.last()) == a);
    } else {
        assert(a =~= Seq::<char>::empty());
    }
}

/// Text after a final separator becomes the last piece.
pub proof fn lemma_split_on_after_sep(pre: Seq<char>, a: Seq<char>, sep: char)
    requires
        forall|i: int| 0 <= i < a.len() ==> a[i] != sep,
        pre.len() > 0,
        pre.last() == sep,
    ensures
        split_on(pre + a, sep) == split_on(pre.drop_last(), sep).push(a),
    decreases a.len(),
{
    lemma_split_on_nonempty(pre.drop_last(), sep);
    assert(pre.drop_last().push(pre.last()) == pre);
    if a.len() == 0 {
        assert(pre + a == pre);
        assert(a =~= Seq::<char>::empty());
    } else {
        lemma_split_on_after_sep(pre, a.drop_last(), sep);
        assert((pre + a).drop_last() == pre + a.drop_last());
        assert((pre + a).last() == a.last());
        assert(a.drop_last().push(a.last()) == a);
        assert(split_on(pre + a, sep) =~= split_on(pre.drop_last(), sep).push(a));
    }
}

pub proof fn lemma_split_on_nonempty(s: Seq<char>, sep: char)
    ensures
        split_on(s, sep).len() >= 1,
    decreases s.len(),
{
    if s.len() > 0 {
        lemma_split_on_nonempty(s.drop_last(), sep);
    }
}

/// The pieces of `v` between occurrences of `sep`.
pub fn split_chars(v: &Vec<char>, sep: char) -> (r: Vec<Vec<char>>)
    ensures
        r@.map_values(|w: Vec<char>| w@) == split_on(v@, sep),
        r@.len() >= 1,
{
    let mut out: Vec<Vec<char>> = Vec::new();
    out.push(Vec::new());
    let mut i: usize = 0;
    assert(v@.subrange(0, 0) =~= Seq::<char>::empty());
    assert(out@.map_values(|w: Vec<char>| w@) =~= seq![Seq::<char>::empty()]);
    while i < v.len()
        invariant
            i <= v.len(),
            out@.len() >= 1,
            out@.map_values(|w: Vec<char>| w@) == split_on(v@.subrange(0, i as int), sep),
        decreases v.len() - i,
    {
        let ghost pre = v@.subrange(0, i as int);
        let ghost post = v@.subrange(0, i + 1);
        assert(post.drop_last() == pre);
        assert(post.last() == v@[i as int]);
        let c = v[i];
        if c == sep {
            out.push(Vec::new());
            assert(out@.map_values(|w: Vec<char>| w@) =~= split_on(post, sep));
        } else {
            let last = out.len() - 1;
            let mut w = out.remove(last);
            w.push(c);
            out.push(w);
            assert(out@.map_values(|w: Vec<char>| w@) =~= split_on(post, sep));
        }
        i += 1;
    }
    assert(v@.subrange(0, v@.len() as int) == v@);
    out
}

/// Whether `v` begins with `pat`.
pub fn starts_with_exec(v: &Vec<char>, pat: &Vec<char>) -> (r: bool)
    ensures
        r == starts_with(v@, pat@),
{
    occurs_at_exec(v, pat, 0)
}

/// Whether `v` ends with `pat`.
pub fn ends_with_exec(v: &Vec<char>, pat: &Vec<char>) -> (r: bool)
    ensures
        r == ends_with(v@, pat@),
{
    if pat.len() > v.len() {
        return false;
    }
    occurs_at_exec(v, pat, v.len() - pat.len())
}

// ---------------------------------------------------------------------------
// Decimal numerals
// ---------------------------------------------------------------------------

/// The decimal digits of `n`.
pub open spec fn decimal(n: nat) -> Seq<char>
    decreases n,
{
    if n < 10 {
        seq![digit_char(n)]
    } else {
        decimal(n / 10).push(digit_char(n % 10))
    }
}

pub open spec fn digit_char(d: nat) -> char {
    (('0' as u32) + d) as char
}

pub fn digit(d: u64) -> (c: char)
    requires
        d < 10,
    ensures
        c == digit_char(d as nat),
{
    match d {
        0 => '0',
        1 => '1',
        2 => '2',
        3 => '3',
        4 => '4',
        5 => '5',
        6 => '6',
        7 => '7',
        8 => '8',
        _ => '9',
    }
}

/// The decimal digits of `n`.
pub fn decimal_digits(n: u64) -> (r: Vec<char>)
    ensures
        r@ == decimal(n as nat),
    decreases n,
{
    if n < 10 {
        let mut r: Vec<char> = Vec::new();
        r.push(digit(n));
        assert(r@ =~= decimal(n as nat));
        r
    } else {
        let mut r = decimal_digits(n / 10);
        r.push(digit(n % 10));
        r
    }
}

} // verus!
