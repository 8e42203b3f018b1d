//! Per-request performance records: timings, an ISO 8601 timestamp and a check for
//! suspect translations.
use vstd::prelude::*;
use crate::text;
use crate::text::{to_chars, is_alphabetic, is_alphanumeric, is_chinese_char, byte_len_of, string_of, decimal, decimal_digits};

verus! {

/// One request's record.
#[derive(Debug, Clone)]
pub struct PerformanceLog {
    /// When the record was made, in ISO 8601 (UTC).
    pub ts: String,
    pub id: String,
    pub src_lang: String,
    pub tgt_lang: String,
    pub asr_ms: u64,
    pub nmt_ms: u64,
    pub tts_ms: u64,
    pub total_ms: u64,
    pub ok: bool,
    pub suspect_translation: Option<bool>,
    /// Byte lengths of the source and of the translation.
    pub src_text_len: Option<usize>,
    pub tgt_text_len: Option<usize>,
}

// ---------------------------------------------------------------------------
// Calendar
// ---------------------------------------------------------------------------

pub open spec fn is_leap(y: int) -> bool {
    y % 4 == 0 && (y % 100 != 0 || y % 400 == 0)
}

pub open spec fn year_days(y: int) -> int {
    if is_leap(y) {
        366
    } else {
        365
    }
}

/// The year and the day within it (from 0) of day `d` counted from 1 January of `y`.
pub open spec fn year_and_day(y: int, d: int) -> (int, int)
    decreases d,
{
    if d < 365 || d < year_days(y) {
        (y, d)
    } else {
        year_and_day(y + 1, d - year_days(y))
    }
}

pub open spec fn month_len(m: int, leap: bool) -> int {
    if m == 2 {
        if leap {
            29
        } else {
            28
        }
    } else if m == 4 || m == 6 || m == 9 || m == 11 {
        30
    } else {
        31
    }
}

/// The month (from `m`) and day of month of day `d` (from 1) counted from month `m`.
pub open spec fn month_and_day(m: int, d: int, leap: bool) -> (int, int)
    decreases 13 - m,
{
    if m >= 12 || d <= month_len(m, leap) {
        (m, d)
    } else {
        month_and_day(m + 1, d - month_len(m, leap), leap)
    }
}

/// `n` in decimal, with zeros in front up to `w` digits.
pub open spec fn padded(n: nat, w: nat) -> Seq<char> {
    let d = decimal(n);
    if d.len() < w {
        Seq::new((w - d.len()) as nat, |i: int| '0') + d
    } else {
        d
    }
}

/// `YYYY-MM-DDTHH:MM:SSZ` for `secs` seconds after 1970-01-01T00:00:00Z.
pub open spec fn iso8601(secs: nat) -> Seq<char> {
    let days = secs / 86400;
    let rest = secs % 86400;
    let (y, doy) = year_and_day(1970, days as int);
    let (m, d) = month_and_day(1, doy + 1, is_leap(y));
    padded(y as nat, 4) + "-"@ + padded(m as nat, 2) + "-"@ + padded(d as nat, 2) + "T"@ + padded(
        (rest / 3600) as nat,
        2,
    ) + ":"@ + padded(((rest % 3600) / 60) as nat, 2) + ":"@ + padded((rest % 60) as nat, 2) + "Z"@
}

proof fn lemma_year_and_day_bounds(y: int, d: int)
    requires
        d >= 0,
    ensures
        year_and_day(y, d).0 >= y,
        year_and_day(y, d).0 <= y + d / 365,
        0 <= year_and_day(y, d).1 < year_days(year_and_day(y, d).0),
        year_and_day(y, d).1 <= d,
    decreases d,
{
    if d < 365 || d < year_days(y) {
    } else {
        lemma_year_and_day_bounds(y + 1, d - year_days(y));
        assert((d - year_days(y)) / 365 + 1 <= d / 365) by (nonlinear_arith)
            requires
                d >= year_days(y),
                year_days(y) >= 365,
        ;
    }
}

/// The decimal digits of `n` pushed onto `out`, zero-padded to `w` digits.
fn push_padded(out: &mut Vec<char>, n: u64, w: usize)
    ensures
        final(out)@ == old(out)@ + padded(n as nat, w as nat),
{
    let digits = decimal_digits(n);
    let len = digits.len();
    let ghost before = out@;
    if len < w {
        let mut pad: usize = 0;
        while pad < w - len
            invariant
                len < w,
                pad <= w - len,
                out@ == before + Seq::new(pad as nat, |i: int| '0'),
            decreases w - len - pad,
        {
            out.push('0');
            assert(out@ =~= before + Seq::new((pad + 1) as nat, |i: int| '0'));
            pad += 1;
        }
    }
    let ghost mid = out@;
    text::append_chars(out, &digits);
    assert(out@ =~= before + padded(n as nat, w as nat));
}

/// The year and the day within it (from 0) of day `days` counted from 1 January 1970.
fn split_year(days: u64) -> (r: (u64, u64))
    ensures
        (r.0 as int, r.1 as int) == year_and_day(1970, days as int),
        r.1 < year_days(r.0 as int),
{
    let mut year: u64 = 1970;
    let mut day_of_year: u64 = days;
    proof {
        lemma_year_and_day_bounds(1970, days as int);
    }
    while day_of_year >= 365
        invariant
            year_and_day(year as int, day_of_year as int) == year_and_day(1970, days as int),
            1970 <= year,
            year + day_of_year / 365 <= 1970 + days / 365,
        ensures
            year_and_day(year as int, day_of_year as int) == year_and_day(1970, days as int),
            day_of_year < year_days(year as int),
        decreases day_of_year,
    {
        let leap = year % 4 == 0 && (year % 100 != 0 || year % 400 == 0);
        let days_in_year: u64 = if leap { 366 } else { 365 };
        if day_of_year >= days_in_year {
            assert((day_of_year - days_in_year) / 365 + 1 <= day_of_year / 365) by (nonlinear_arith)
                requires
                    day_of_year >= days_in_year,
                    days_in_year >= 365,
            ;
            year = year + 1;
            day_of_year = day_of_year - days_in_year;
        } else {
            break;
        }
    }
    assert(year_and_day(year as int, day_of_year as int) == (year as int, day_of_year as int));
    (year, day_of_year)
}

/// The calendar year (UTC) of `secs` seconds after the Unix epoch.
pub fn year_of_secs(secs: u64) -> (r: u64)
    ensures
        r == year_and_day(1970, (secs / 86400) as int).0,
{
    split_year(secs / 86400).0
}

/// Seconds since the Unix epoch as `YYYY-MM-DDTHH:MM:SSZ`, UTC.  The year must fit an
/// `i32`.
pub fn format_iso8601(secs: u64) -> (r: String)
    requires
        year_and_day(1970, (secs / 86400) as int).0 <= i32::MAX,
    ensures
        r@ == iso8601(secs as nat),
{
    let days = secs / 86400;
    let secs_in_day = secs % 86400;
    let (year, day_of_year) = split_year(days);
    let leap = year % 4 == 0 && (year % 100 != 0 || year % 400 == 0);
    let mut month: u64 = 1;
    let mut day: u64 = day_of_year + 1;
    let ghost doy = day_of_year;
    while month < 12
        invariant
            1 <= month <= 12,
            1 <= day <= 367,
            month_and_day(month as int, day as int, leap) == month_and_day(1, doy + 1, leap),
            leap == is_leap(year as int),
        ensures
            month_and_day(month as int, day as int, leap) == month_and_day(1, doy + 1, leap),
            month_and_day(month as int, day as int, leap) == (month as int, day as int),
        decreases 12 - month,
    {
        let days: u64 = if month == 2 {
            if leap { 29 } else { 28 }
        } else if month == 4 || month == 6 || month == 9 || month == 11 {
            30
        } else {
            31
        };
        if day > days {
            day = day - days;
            month = month + 1;
        } else {
            break;
        }
    }
    let mut out: Vec<char> = Vec::new();
    push_padded(&mut out, year, 4);
    out.push('-');
    push_padded(&mut out, month, 2);
    out.push('-');
    push_padded(&mut out, day, 2);
    out.push('T');
    push_padded(&mut out, secs_in_day / 3600, 2);
    out.push(':');
    push_padded(&mut out, (secs_in_day % 3600) / 60, 2);
    out.push(':');
    push_padded(&mut out, secs_in_day % 60, 2);
    out.push('Z');
    proof {
        reveal_strlit("-");
        reveal_strlit("T");
        reveal_strlit(":");
        reveal_strlit("Z");
    }
    let ghost ymd = year_and_day(1970, days as int);
    let ghost md = month_and_day(1, ymd.1 + 1, is_leap(ymd.0));
    assert(ymd.0 == year && ymd.1 == day_of_year);
    assert(md.0 == month && md.1 == day);
    assert(days == secs as nat / 86400);
    assert(out@ =~= iso8601(secs as nat));
    string_of(&out)
}

/// Reads the clock: seconds since the Unix epoch, `None` for a clock set before it.
/// Calls `SystemTime::now` and `SystemTime::duration_since`; nothing is promised of the
/// value, which depends on the time of the call.
#[verifier::external_body]
fn unix_now_secs() -> (r: Option<u64>) {
    std::time::SystemTime::now().duration_since(std::time::UNIX_EPOCH).ok().map(|d| d.as_secs())
}

// ---------------------------------------------------------------------------
// Suspect translations
// ---------------------------------------------------------------------------

/// Characters that are neither letters, digits nor CJK ideographs.
pub open spec fn count_odd_chars(s: Seq<char>) -> nat
    decreases s.len(),
{
    if s.len() == 0 {
        0
    } else {
        count_odd_chars(s.drop_last()) + if !text::char_is_alphabetic(s.last())
            && !text::char_is_alphanumeric(s.last()) && !text::is_cjk(s.last()) {
            1nat
        } else {
            0nat
        }
    }
}

/// A suspect translation: a source of more than 20 characters translated to fewer
/// than 3, or a translation in which such characters make more than 70% of the
/// characters (an empty translation counts as 100%).
pub open spec fn suspect(src: Seq<char>, tgt: Seq<char>) -> bool {
    ||| (src.len() > 20 && tgt.len() < 3)
    ||| tgt.len() == 0
    ||| 10 * count_odd_chars(tgt) > 7 * tgt.len()
}

impl PerformanceLog {
    /// A record made at `secs` seconds after the epoch, with no text checked yet.
    pub fn new_at(
        secs: u64,
        id: String,
        src_lang: String,
        tgt_lang: String,
        asr_ms: u64,
        nmt_ms: u64,
        tts_ms: u64,
        total_ms: u64,
        ok: bool,
    ) -> (r: Self)
        requires
            year_and_day(1970, (secs / 86400) as int).0 <= i32::MAX,
        ensures
            r.ts@ == iso8601(secs as nat),
            r.id == id,
            r.src_lang == src_lang,
            r.tgt_lang == tgt_lang,
            r.asr_ms == asr_ms,
            r.nmt_ms == nmt_ms,
            r.tts_ms == tts_ms,
            r.total_ms == total_ms,
            r.ok == ok,
            r.suspect_translation is None,
            r.src_text_len is None,
            r.tgt_text_len is None,
    {
        PerformanceLog {
            ts: format_iso8601(secs),
            id,
            src_lang,
            tgt_lang,
            asr_ms,
            nmt_ms,
            tts_ms,
            total_ms,
            ok,
            suspect_translation: None,
            src_text_len: None,
            tgt_text_len: None,
        }
    }

    /// A record stamped with the current time (a clock before the epoch, or so far
    /// ahead that the year leaves `i32`, stamps the epoch), with no text checked yet.
    pub fn new(
        id: String,
        src_lang: String,
        tgt_lang: String,
        asr_ms: u64,
        nmt_ms: u64,
        tts_ms: u64,
        total_ms: u64,
        ok: bool,
    ) -> (r: Self)
        ensures
            exists|secs: u64| r.ts@ == iso8601(secs as nat),
            r.id == id,
            r.src_lang == src_lang,
            r.tgt_lang == tgt_lang,
            r.asr_ms == asr_ms,
            r.nmt_ms == nmt_ms,
            r.tts_ms == tts_ms,
            r.total_ms == total_ms,
            r.ok == ok,
            r.suspect_translation is None,
            r.src_text_len is None,
            r.tgt_text_len is None,
    {
        let secs = match unix_now_secs() {
            Some(s) => if year_of_secs(s) <= 2147483647 { s } else { 0 },
            None => 0,
        };
        Self::new_at(secs, id, src_lang, tgt_lang, asr_ms, nmt_ms, tts_ms, total_ms, ok)
    }

    /// Records the byte lengths of both texts and whether the translation is suspect
    /// (by character counts).
    pub fn check_suspect_translation(&mut self, src_text: &str, tgt_text: &str)
        requires
            text::byte_len(src_text@) <= usize::MAX,
            text::byte_len(tgt_text@) <= usize::MAX,
        ensures
            final(self).src_text_len == Some(text::byte_len(src_text@) as usize),
            final(self).tgt_text_len == Some(text::byte_len(tgt_text@) as usize),
            final(self).suspect_translation == Some(suspect(src_text@, tgt_text@)),
            final(self).ts == old(self).ts,
            final(self).id == old(self).id,
            final(self).src_lang == old(self).src_lang,
            final(self).tgt_lang == old(self).tgt_lang,
            final(self).asr_ms == old(self).asr_ms,
            final(self).nmt_ms == old(self).nmt_ms,
            final(self).tts_ms == old(self).tts_ms,
            final(self).total_ms == old(self).total_ms,
            final(self).ok == old(self).ok,
    {
        let sv = to_chars(src_text);
        let tv = to_chars(tgt_text);
        let sl = byte_len_of(&sv);
        let tl = byte_len_of(&tv);
        self.src_text_len = Some(sl);
        self.tgt_text_len = Some(tl);
        if sv.len() > 20 && tv.len() < 3 {
            self.suspect_translation = Some(true);
            return;
        }
        let mut odd: usize = 0;
        let mut i: usize = 0;
        while i < tv.len()
            invariant
                i <= tv.len(),
                odd == count_odd_chars(tv@.subrange(0, i as int)),
                odd <= i,
            decreases tv.len() - i,
        {
            assert(tv@.subrange(0, i + 1).drop_last() == tv@.subrange(0, i as int));
            let c = tv[i];
            if !is_alphabetic(c) && !is_alphanumeric(c) && !is_chinese_char(c) {
                odd = odd + 1;
            }
            i += 1;
        }
        assert(tv@.subrange(0, tv@.len() as int) == tv@);
        if tv.len() == 0 {
            self.suspect_translation = Some(true);
            return;
        }
        let r = (odd as u128) * 10 > (tv.len() as u128) * 7;
        self.suspect_translation = Some(r);
    }
}

/// Whether records are written, and whether suspect translations get a warning too.
pub struct PerformanceLogger {
    pub enabled: bool,
    pub log_suspect: bool,
}

impl PerformanceLogger {
    pub fn new(enabled: bool, log_suspect: bool) -> (r: Self)
        ensures
            r.enabled == enabled,
            r.log_suspect == log_suspect,
    {
        PerformanceLogger { enabled, log_suspect }
    }

    /// Whether `log` is written.
    pub fn writes(&self, log: &PerformanceLog) -> (r: bool)
        ensures
            r == self.enabled,
    {
        self.enabled
    }

    /// Whether a warning follows the record of `log`: logging on, warnings on, and the
    /// translation found suspect.
    pub fn warns(&self, log: &PerformanceLog) -> (r: bool)
        ensures
            r == (self.enabled && self.log_suspect && log.suspect_translation == Some(true)),
    {
        self.enabled && self.log_suspect && match log.suspect_translation {
            Some(b) => b,
            None => false,
        }
    }
}

impl Default for PerformanceLogger {
    fn default() -> (r: Self)
        ensures
            r.enabled,
            r.log_suspect,
    {
        PerformanceLogger { enabled: true, log_suspect: true }
    }
}

} // verus!
