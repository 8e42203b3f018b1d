//! Plain-text tables (one entry per line, fields separated by whitespace) and the
//! reading of their integer fields as `str::parse::<i64>` reads them.
use vstd::prelude::*;
use crate::text;
use crate::text::{to_chars, split_chars, split_words, words, split_on, is_ascii_digit};
use crate::json::distinct_keys;
use crate::marian_tokenizer::lookup;
use crate::trie::lemma_lookup_push;

verus! {

/// Why an integer field could not be read (the kinds of `ParseIntError`).
#[derive(Debug, Clone, Copy, PartialEq, Eq, Structural)]
pub enum IntErrorKind {
    Empty,
    InvalidDigit,
    PosOverflow,
    NegOverflow,
}

impl IntErrorKind {
    /// The text `ParseIntError` displays for this kind.
    pub open spec fn message_spec(self) -> Seq<char> {
        match self {
            IntErrorKind::Empty => "cannot parse integer from empty string"@,
            IntErrorKind::InvalidDigit => "invalid digit found in string"@,
            IntErrorKind::PosOverflow => "number too large to fit in target type"@,
            IntErrorKind::NegOverflow => "number too small to fit in target type"@,
        }
    }

    pub fn message(&self) -> (r: &'static str)
        ensures
            r@ == self.message_spec(),
    {
        match self {
            IntErrorKind::Empty => "cannot parse integer from empty string",
            IntErrorKind::InvalidDigit => "invalid digit found in string",
            IntErrorKind::PosOverflow => "number too large to fit in target type",
            IntErrorKind::NegOverflow => "number too small to fit in target type",
        }
    }
}

pub open spec fn is_digit(c: char) -> bool {
    '0' <= c && c <= '9'
}

/// Digits read left to right from position `i` onto `acc`, negated for a negative
/// number; stops at the first non-digit or at the first step out of the `i64` range.
pub open spec fn scan_digits(ds: Seq<char>, i: int, acc: int, neg: bool) -> Result<int, IntErrorKind>
    decreases ds.len() - i,
{
    if i < 0 || i >= ds.len() {
        Ok(acc)
    } else if !is_digit(ds[i]) {
        Err(IntErrorKind::InvalidDigit)
    } else {
        let d = (ds[i] as int) - ('0' as int);
        let a = if neg { acc * 10 - d } else { acc * 10 + d };
        if a > i64::MAX {
            Err(IntErrorKind::PosOverflow)
        } else if a < i64::MIN {
            Err(IntErrorKind::NegOverflow)
        } else {
            scan_digits(ds, i + 1, a, neg)
        }
    }
}

/// What `s.parse::<i64>()` gives: an optional sign, then at least one decimal digit.
pub open spec fn parse_i64(s: Seq<char>) -> Result<i64, IntErrorKind> {
    if s.len() == 0 {
        Err(IntErrorKind::Empty)
    } else {
        let signed = s[0] == '+' || s[0] == '-';
        let ds = if signed { s.subrange(1, s.len() as int) } else { s };
        if ds.len() == 0 {
            Err(IntErrorKind::InvalidDigit)
        } else {
            match scan_digits(ds, 0, 0, s[0] == '-') {
                Ok(v) => Ok(v as i64),
                Err(e) => Err(e),
            }
        }
    }
}

proof fn lemma_scan_in_range(ds: Seq<char>, i: int, acc: int, neg: bool)
    requires
        i64::MIN <= acc <= i64::MAX,
    ensures
        scan_digits(ds, i, acc, neg) is Ok ==> i64::MIN <= scan_digits(ds, i, acc, neg)->Ok_0 <= i64::MAX,
    decreases ds.len() - i,
{
    if 0 <= i < ds.len() && is_digit(ds[i]) {
        let d = (ds[i] as int) - ('0' as int);
        let a = if neg { acc * 10 - d } else { acc * 10 + d };
        if i64::MIN <= a <= i64::MAX {
            lemma_scan_in_range(ds, i + 1, a, neg);
        }
    }
}

/// Reads `s` as `str::parse::<i64>` does.
pub fn parse_i64_chars(s: &Vec<char>) -> (r: Result<i64, IntErrorKind>)
    ensures
        r == parse_i64(s@),
{
    if s.len() == 0 {
        return Err(IntErrorKind::Empty);
    }
    let signed = s[0] == '+' || s[0] == '-';
    let neg = s[0] == '-';
    let start: usize = if signed { 1 } else { 0 };
    let ghost ds = if signed { s@.subrange(1, s@.len() as int) } else { s@ };
    if start == s.len() {
        return Err(IntErrorKind::InvalidDigit);
    }
    let mut acc: i128 = 0;
    let mut i: usize = start;
    while i < s.len()
        invariant
            start <= i <= s.len(),
            s@.len() > 0,
            signed == (s@[0] == '+' || s@[0] == '-'),
            neg == (s@[0] == '-'),
            ds == (if signed { s@.subrange(1, s@.len() as int) } else { s@ }),
            ds.len() > 0,
            start == (if signed { 1int } else { 0int }),
            ds.len() == s@.len() - start,
            forall|k: int| 0 <= k < ds.len() ==> ds[k] == s@[k + start],
            i64::MIN <= acc <= i64::MAX,
            scan_digits(ds, (i - start) as int, acc as int, neg) == scan_digits(ds, 0, 0, neg),
        decreases s.len() - i,
    {
        let c = s[i];
        assert(ds[(i - start) as int] == c);
        if !is_ascii_digit(c) {
            return Err(IntErrorKind::InvalidDigit);
        }
        let d = (c as u32 - '0' as u32) as i128;
        let a = if neg { acc * 10 - d } else { acc * 10 + d };
        if a > 9223372036854775807i128 {
            return Err(IntErrorKind::PosOverflow);
        }
        if a < -9223372036854775808i128 {
            return Err(IntErrorKind::NegOverflow);
        }
        acc = a;
        i += 1;
    }
    proof {
        lemma_scan_in_range(ds, 0, 0, neg);
    }
    Ok(acc as i64)
}

/// The whitespace-separated fields of each line of `content`.
pub open spec fn table_rows(content: Seq<char>) -> Seq<Seq<Seq<char>>> {
    split_on(content, '\n').map_values(|l: Seq<char>| words(l))
}

pub open spec fn row_views(rows: Seq<Vec<Vec<char>>>) -> Seq<Seq<Seq<char>>> {
    rows.map_values(|r: Vec<Vec<char>>| r@.map_values(|w: Vec<char>| w@))
}

/// The fields of each line of `content`.
pub fn rows_of(content: &str) -> (r: Vec<Vec<Vec<char>>>)
    ensures
        row_views(r@) == table_rows(content@),
{
    let v = to_chars(content);
    let lines = split_chars(&v, '\n');
    let ghost ls = lines@.map_values(|w: Vec<char>| w@);
    let mut out: Vec<Vec<Vec<char>>> = Vec::new();
    let mut i: usize = 0;
    while i < lines.len()
        invariant
            i <= lines.len(),
            ls == lines@.map_values(|w: Vec<char>| w@),
            ls == split_on(content@, '\n'),
            row_views(out@) == ls.subrange(0, i as int).map_values(|l: Seq<char>| words(l)),
        decreases lines.len() - i,
    {
        let ws = split_words(&lines[i]);
        let ghost before = out@;
        assert(ls[i as int] == lines@[i as int]@);
        out.push(ws);
        assert(row_views(out@) =~= row_views(before).push(words(ls[i as int])));
        assert(ls.subrange(0, i + 1).map_values(|l: Seq<char>| words(l)) =~= ls.subrange(0, i as int).map_values(
            |l: Seq<char>| words(l),
        ).push(words(ls[i as int])));
        i += 1;
    }
    assert(ls.subrange(0, ls.len() as int) == ls);
    out
}

// ---------------------------------------------------------------------------
// Maps kept as vectors of distinct keys
// ---------------------------------------------------------------------------

pub open spec fn entry_pairs(v: Seq<(String, i64)>) -> Seq<(Seq<char>, i64)> {
    v.map_values(|p: (String, i64)| (p.0@, p.1))
}

pub proof fn lemma_lookup_at_distinct<V>(es: Seq<(Seq<char>, V)>, j: int)
    requires
        distinct_keys(es),
        0 <= j < es.len(),
    ensures
        lookup(es, es[j].0) == Some(es[j].1),
    decreases es.len(),
{
    if j < es.len() - 1 {
        assert(es.last().0 != es[j].0);
        assert(distinct_keys(es.drop_last()));
        assert(es.drop_last()[j] == es[j]);
        lemma_lookup_at_distinct(es.drop_last(), j);
    }
}

pub proof fn lemma_lookup_update_other<V>(es: Seq<(Seq<char>, V)>, j: int, p: (Seq<char>, V), q: Seq<char>)
    requires
        0 <= j < es.len(),
        es[j].0 != q,
        p.0 != q,
    ensures
        lookup(es.update(j, p), q) == lookup(es, q),
    decreases es.len(),
{
    let u = es.update(j, p);
    if j < es.len() - 1 {
        assert(u.last() == es.last());
        assert(u.drop_last() == es.drop_last().update(j, p));
        lemma_lookup_update_other(es.drop_last(), j, p, q);
    } else {
        assert(u.drop_last() == es.drop_last());
    }
}

/// Sets the value of `k` in the map `m` (adding `k` when absent).
pub fn map_insert(m: &mut Vec<(String, i64)>, k: String, v: i64)
    requires
        distinct_keys(entry_pairs(old(m)@)),
    ensures
        distinct_keys(entry_pairs(final(m)@)),
        forall|q: Seq<char>| #[trigger] lookup(entry_pairs(final(m)@), q) == lookup(entry_pairs(old(m)@).push((k@, v)), q),
{
    let ghost es = entry_pairs(m@);
    let kv = to_chars(k.as_str());
    let mut j: usize = 0;
    while j < m.len()
        invariant
            j <= m.len(),
            es == entry_pairs(m@),
            es == entry_pairs(old(m)@),
            distinct_keys(es),
            kv@ == k@,
            forall|i: int| 0 <= i < j ==> (#[trigger] es[i]).0 != k@,
        decreases m.len() - j,
    {
        let cand = to_chars(m[j].0.as_str());
        if text::chars_eq(&cand, &kv) {
            m.set(j, (k, v));
            proof {
                let u = entry_pairs(m@);
                assert(u =~= es.update(j as int, (k@, v)));
                assert(es[j as int].0 == k@);
                assert forall|a: int, b: int| 0 <= a < b < u.len() implies u[a].0 != u[b].0 by {
                    if a != j && b != j {
                        assert(u[a] == es[a] && u[b] == es[b]);
                    } else if a == j {
                        assert(u[b] == es[b]);
                        assert(es[a].0 != es[b].0);
                    } else {
                        assert(u[a] == es[a]);
                        assert(es[a].0 != es[b].0);
                    }
                }
                assert forall|q: Seq<char>| #[trigger] lookup(u, q) == lookup(es.push((k@, v)), q) by {
                    lemma_lookup_push(es, k@, v, q);
                    if q == k@ {
                        lemma_lookup_at_distinct(u, j as int);
                    } else {
                        lemma_lookup_update_other(es, j as int, (k@, v), q);
                    }
                }
            }
            return;
        }
        j += 1;
    }
    let ghost before = m@;
    m.push((k, v));
    proof {
        let u = entry_pairs(m@);
        assert(u =~= es.push((k@, v)));
        assert forall|a: int, b: int| 0 <= a < b < u.len() implies u[a].0 != u[b].0 by {
            if b == u.len() - 1 {
                assert(u[a] == es[a]);
            } else {
                assert(u[a] == es[a] && u[b] == es[b]);
            }
        }
    }
}

/// The value of `key` in the entries `m` (the last entry for it).
pub fn map_get(m: &Vec<(String, i64)>, key: &Vec<char>) -> (r: Option<i64>)
    ensures
        r == lookup(entry_pairs(m@), key@),
{
    let ghost v = entry_pairs(m@);
    let mut j: usize = m.len();
    assert(v.subrange(0, v.len() as int) == v);
    while j > 0
        invariant
            j <= m.len(),
            v == entry_pairs(m@),
            lookup(v, key@) == lookup(v.subrange(0, j as int), key@),
        decreases j,
    {
        let ghost pre = v.subrange(0, j as int);
        assert(pre.last() == v[j - 1]);
        assert(pre.drop_last() == v.subrange(0, j - 1));
        let k = to_chars(m[j - 1].0.as_str());
        if text::chars_eq(&k, key) {
            return Some(m[j - 1].1);
        }
        j -= 1;
    }
    None
}

} // verus!
