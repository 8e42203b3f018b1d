//! Language codes and language pairs of translation models; a model directory is
//! named `marian-{source}-{target}`.
use vstd::prelude::*;
use crate::text;
use crate::text::{split_chars, string_of, to_chars, to_lowercase, chars_eq};
use crate::paths;
use crate::paths::{path_file_name, path_join};

verus! {

/// The languages the translation models support.
#[derive(Debug, Clone, Copy, PartialEq, Eq, Hash, Structural)]
pub enum LanguageCode {
    En,
    Zh,
    Es,
    Ja,
}

/// A translation direction.
#[derive(Debug, Clone, Copy, PartialEq, Eq, Hash, Structural)]
pub struct LanguagePair {
    pub source: LanguageCode,
    pub target: LanguageCode,
}

/// Why a language code, pair or model directory was refused; each carries the text
/// that was refused.
#[derive(Debug, Clone)]
pub enum LanguageError {
    UnsupportedLanguageCode(String),
    InvalidPairFormat(String),
    InvalidModelDirName(String),
    InvalidModelDirFormat(String),
    InvalidModelDirPath(String),
}

/// The error variant and its text, as plain values.
pub enum LanguageErrorKind {
    UnsupportedLanguageCode,
    InvalidPairFormat,
    InvalidModelDirName,
    InvalidModelDirFormat,
    InvalidModelDirPath,
}

impl LanguageError {
    pub open spec fn kind(&self) -> LanguageErrorKind {
        match self {
            LanguageError::UnsupportedLanguageCode(_) => LanguageErrorKind::UnsupportedLanguageCode,
            LanguageError::InvalidPairFormat(_) => LanguageErrorKind::InvalidPairFormat,
            LanguageError::InvalidModelDirName(_) => LanguageErrorKind::InvalidModelDirName,
            LanguageError::InvalidModelDirFormat(_) => LanguageErrorKind::InvalidModelDirFormat,
            LanguageError::InvalidModelDirPath(_) => LanguageErrorKind::InvalidModelDirPath,
        }
    }

    pub open spec fn subject(&self) -> Seq<char> {
        match self {
            LanguageError::UnsupportedLanguageCode(s) => s@,
            LanguageError::InvalidPairFormat(s) => s@,
            LanguageError::InvalidModelDirName(s) => s@,
            LanguageError::InvalidModelDirFormat(s) => s@,
            LanguageError::InvalidModelDirPath(s) => s@,
        }
    }
}

// ---------------------------------------------------------------------------
// Specification
// ---------------------------------------------------------------------------

/// The language named by an already lower-cased code or name.
pub open spec fn code_of(lower: Seq<char>) -> Option<LanguageCode> {
    if lower == "en"@ || lower == "eng"@ || lower == "english"@ {
        Some(LanguageCode::En)
    } else if lower == "zh"@ || lower == "zho"@ || lower == "chinese"@ || lower == "中文"@ {
        Some(LanguageCode::Zh)
    } else if lower == "es"@ || lower == "spa"@ || lower == "spanish"@ || lower == "español"@ {
        Some(LanguageCode::Es)
    } else if lower == "ja"@ || lower == "jpn"@ || lower == "japanese"@ || lower == "日本語"@ {
        Some(LanguageCode::Ja)
    } else {
        None
    }
}

/// The language named by `s`, compared case-insensitively.
pub open spec fn parse_code(s: Seq<char>) -> Option<LanguageCode> {
    code_of(text::lowercase(s))
}

/// The two-letter directory name of a language.
pub open spec fn dir_name(c: LanguageCode) -> Seq<char> {
    match c {
        LanguageCode::En => seq!['e', 'n'],
        LanguageCode::Zh => seq!['z', 'h'],
        LanguageCode::Es => seq!['e', 's'],
        LanguageCode::Ja => seq!['j', 'a'],
    }
}

/// `marian-{source}-{target}`.
pub open spec fn model_dir_name(p: LanguagePair) -> Seq<char> {
    seq!['m', 'a', 'r', 'i', 'a', 'n', '-'] + dir_name(p.source) + seq!['-'] + dir_name(p.target)
}

/// The outcome of parsing two `-`-separated language codes, with `whole` the text to
/// report when the shape is wrong.
pub open spec fn pair_of_parts(parts: Seq<Seq<char>>) -> Result<LanguagePair, (LanguageErrorKind, Seq<char>)> {
    match parse_code(parts[0]) {
        None => Err((LanguageErrorKind::UnsupportedLanguageCode, parts[0])),
        Some(s) => match parse_code(parts[1]) {
            None => Err((LanguageErrorKind::UnsupportedLanguageCode, parts[1])),
            Some(t) => Ok(LanguagePair { source: s, target: t }),
        },
    }
}

/// What `LanguagePair::from_str` yields for `s`.
pub open spec fn parse_pair(s: Seq<char>) -> Result<LanguagePair, (LanguageErrorKind, Seq<char>)> {
    let parts = text::split_on(s, '-');
    if parts.len() != 2 {
        Err((LanguageErrorKind::InvalidPairFormat, s))
    } else {
        pair_of_parts(parts)
    }
}

/// What `LanguagePair::from_model_dir_name` yields for `d`.
pub open spec fn parse_model_dir_name(d: Seq<char>) -> Result<LanguagePair, (LanguageErrorKind, Seq<char>)> {
    let prefix = seq!['m', 'a', 'r', 'i', 'a', 'n', '-'];
    if !text::starts_with(d, prefix) {
        Err((LanguageErrorKind::InvalidModelDirName, d))
    } else {
        let parts = text::split_on(d.subrange(7, d.len() as int), '-');
        if parts.len() != 2 {
            Err((LanguageErrorKind::InvalidModelDirFormat, d))
        } else {
            pair_of_parts(parts)
        }
    }
}

pub open spec fn result_view(r: Result<LanguagePair, LanguageError>) -> Result<LanguagePair, (LanguageErrorKind, Seq<char>)> {
    match r {
        Ok(p) => Ok(p),
        Err(e) => Err((e.kind(), e.subject())),
    }
}

pub open spec fn code_result_view(r: Result<LanguageCode, LanguageError>) -> Result<LanguageCode, (LanguageErrorKind, Seq<char>)> {
    match r {
        Ok(p) => Ok(p),
        Err(e) => Err((e.kind(), e.subject())),
    }
}

// ---------------------------------------------------------------------------
// Laws
// ---------------------------------------------------------------------------

/// A language's two-letter directory name parses back to that language.
pub proof fn law_code_dir_name_roundtrip(c: LanguageCode)
    ensures
        parse_code(dir_name(c)) == Some(c),
{
    assert(text::lowercase(dir_name(c)) =~= dir_name(c));
    reveal_strlit("en");
    reveal_strlit("eng");
    reveal_strlit("english");
    reveal_strlit("zh");
    reveal_strlit("zho");
    reveal_strlit("chinese");
    reveal_strlit("中文");
    reveal_strlit("es");
    reveal_strlit("spa");
    reveal_strlit("spanish");
    reveal_strlit("español");
    reveal_strlit("ja");
    reveal_strlit("jpn");
    reveal_strlit("japanese");
    reveal_strlit("日本語");
    let d = dir_name(c);
    assert(d.len() != "eng"@.len() && d.len() != "english"@.len() && d.len() != "zho"@.len());
    assert(d.len() != "chinese"@.len() && d.len() != "spa"@.len());
    assert(d[0] != "中文"@[0]);
    assert(d.len() != "spanish"@.len() && d.len() != "español"@.len() && d.len() != "jpn"@.len());
    assert(d.len() != "japanese"@.len() && d.len() != "日本語"@.len());
    match c {
        LanguageCode::En => {
            assert(d =~= "en"@);
        },
        LanguageCode::Zh => {
            assert(d =~= "zh"@);
            assert(d[0] != "en"@[0]);
        },
        LanguageCode::Es => {
            assert(d =~= "es"@);
            assert(d[1] != "en"@[1]);
            assert(d[0] != "zh"@[0]);
        },
        LanguageCode::Ja => {
            assert(d =~= "ja"@);
            assert(d[0] != "en"@[0]);
            assert(d[0] != "zh"@[0]);
            assert(d[0] != "es"@[0]);
        },
    }
}

/// A model directory name gives back the language pair it was made from.
pub proof fn law_model_dir_name_roundtrip(p: LanguagePair)
    ensures
        parse_model_dir_name(model_dir_name(p)) == Ok::<LanguagePair, (LanguageErrorKind, Seq<char>)>(p),
{
    let d = model_dir_name(p);
    let prefix = seq!['m', 'a', 'r', 'i', 'a', 'n', '-'];
    assert(d.subrange(0, 7) =~= prefix);
    let rest = d.subrange(7, d.len() as int);
    assert(rest =~= dir_name(p.source) + seq!['-'] + dir_name(p.target));
    lemma_split_two(dir_name(p.source), dir_name(p.target));
    law_code_dir_name_roundtrip(p.source);
    law_code_dir_name_roundtrip(p.target);
}

/// The directory that `find_model_dir` names under any base directory is read back by
/// `from_model_dir` as the same language pair.
pub proof fn law_model_dir_roundtrip(p: LanguagePair, base: Seq<char>)
    ensures
        paths::file_name(paths::join_path(base, model_dir_name(p))) == Some(model_dir_name(p)),
        parse_model_dir_name(model_dir_name(p)) == Ok::<LanguagePair, (LanguageErrorKind, Seq<char>)>(p),
{
    let d = model_dir_name(p);
    assert(d[0] == 'm' && d.len() == 12);
    assert forall|i: int| 0 <= i < d.len() implies d[i] != '/' by {
        if i >= 7 {
            assert(d[i] == (dir_name(p.source) + seq!['-'] + dir_name(p.target))[i - 7]);
        }
    }
    assert(d != seq!['.']);
    assert(d != seq!['.', '.']);
    paths::law_file_name_of_join(base, d);
    law_model_dir_name_roundtrip(p);
}

proof fn lemma_split_two(a: Seq<char>, b: Seq<char>)
    requires
        forall|i: int| 0 <= i < a.len() ==> a[i] != '-',
        forall|i: int| 0 <= i < b.len() ==> b[i] != '-',
    ensures
        text::split_on(a + seq!['-'] + b, '-') == seq![a, b],
{
    let pre = a + seq!['-'];
    text::lemma_split_on_without_sep(a, '-');
    assert(pre.drop_last() == a);
    text::lemma_split_on_after_sep(pre, b, '-');
    assert(text::split_on(a + seq!['-'] + b, '-') =~= seq![a, b]);
}

// ---------------------------------------------------------------------------
// Implementation
// ---------------------------------------------------------------------------

fn parse_code_chars(s: &Vec<char>) -> (r: Result<LanguageCode, LanguageError>)
    ensures
        code_result_view(r) == match parse_code(s@) {
            Some(c) => Ok(c),
            None => Err((LanguageErrorKind::UnsupportedLanguageCode, s@)),
        },
{
    let st = string_of(s);
    let lower = to_lowercase(st.as_str());
    match LanguageCode::from_lowercase(lower.as_str()) {
        Some(c) => Ok(c),
        None => Err(LanguageError::UnsupportedLanguageCode(st)),
    }
}

fn pair_from_parts(parts: &Vec<Vec<char>>) -> (r: Result<LanguagePair, LanguageError>)
    requires
        parts@.len() == 2,
    ensures
        result_view(r) == pair_of_parts(parts@.map_values(|w: Vec<char>| w@)),
{
    let ghost m = parts@.map_values(|w: Vec<char>| w@);
    assert(m[0] == parts@[0]@ && m[1] == parts@[1]@);
    let source = match parse_code_chars(&parts[0]) {
        Ok(c) => c,
        Err(e) => return Err(e),
    };
    let target = match parse_code_chars(&parts[1]) {
        Ok(c) => c,
        Err(e) => return Err(e),
    };
    Ok(LanguagePair { source, target })
}

impl LanguageCode {
    /// The language named by an already lower-cased code or name.
    pub fn from_lowercase(lower: &str) -> (r: Option<LanguageCode>)
        ensures
            r == code_of(lower@),
    {
        if text::str_eq(lower, "en") || text::str_eq(lower, "eng") || text::str_eq(lower, "english") {
            Some(LanguageCode::En)
        } else if text::str_eq(lower, "zh") || text::str_eq(lower, "zho") || text::str_eq(lower, "chinese")
            || text::str_eq(lower, "中文") {
            Some(LanguageCode::Zh)
        } else if text::str_eq(lower, "es") || text::str_eq(lower, "spa") || text::str_eq(lower, "spanish")
            || text::str_eq(lower, "español") {
            Some(LanguageCode::Es)
        } else if text::str_eq(lower, "ja") || text::str_eq(lower, "jpn") || text::str_eq(
            lower,
            "japanese",
        ) || text::str_eq(lower, "日本語") {
            Some(LanguageCode::Ja)
        } else {
            None
        }
    }

    /// The language named by `s` (a code such as `en` or `eng`, or a name such as
    /// `English`), compared case-insensitively.
    pub fn from_str(s: &str) -> (r: Result<LanguageCode, LanguageError>)
        ensures
            code_result_view(r) == match parse_code(s@) {
                Some(c) => Ok(c),
                None => Err((LanguageErrorKind::UnsupportedLanguageCode, s@)),
            },
    {
        let v = to_chars(s);
        parse_code_chars(&v)
    }

    /// The two-letter directory name of the language.
    pub fn to_dir_name(&self) -> (r: &'static str)
        ensures
            r@ == dir_name(*self),
    {
        match self {
            LanguageCode::En => {
                proof {
                    reveal_strlit("en");
                }
                "en"
            },
            LanguageCode::Zh => {
                proof {
                    reveal_strlit("zh");
                }
                "zh"
            },
            LanguageCode::Es => {
                proof {
                    reveal_strlit("es");
                }
                "es"
            },
            LanguageCode::Ja => {
                proof {
                    reveal_strlit("ja");
                }
                "ja"
            },
        }
    }
}

impl LanguagePair {
    /// The pair from `source` to `target`.
    pub fn new(source: LanguageCode, target: LanguageCode) -> (r: Self)
        ensures
            r.source == source,
            r.target == target,
    {
        Self { source, target }
    }

    /// A pair written `{source}-{target}`, such as `en-zh` or `eng-zho`.
    pub fn from_str(s: &str) -> (r: Result<LanguagePair, LanguageError>)
        ensures
            result_view(r) == parse_pair(s@),
    {
        let v = to_chars(s);
        let parts = split_chars(&v, '-');
        if parts.len() != 2 {
            return Err(LanguageError::InvalidPairFormat(string_of(&v)));
        }
        pair_from_parts(&parts)
    }

    /// The model directory name `marian-{source}-{target}`.
    pub fn to_model_dir_name(&self) -> (r: String)
        ensures
            r@ == model_dir_name(*self),
    {
        let v = self.model_dir_name_chars();
        string_of(&v)
    }

    fn model_dir_name_chars(&self) -> (r: Vec<char>)
        ensures
            r@ == model_dir_name(*self),
    {
        let mut v: Vec<char> = Vec::new();
        text::append_str(&mut v, "marian-");
        proof {
            reveal_strlit("marian-");
        }
        text::append_str(&mut v, self.source.to_dir_name());
        v.push('-');
        text::append_str(&mut v, self.target.to_dir_name());
        assert(v@ =~= model_dir_name(*self));
        v
    }

    /// The pair named by a model directory name `marian-{source}-{target}`.
    pub fn from_model_dir_name(dir_name: &str) -> (r: Result<LanguagePair, LanguageError>)
        ensures
            result_view(r) == parse_model_dir_name(dir_name@),
    {
        let v = to_chars(dir_name);
        let mut prefix: Vec<char> = Vec::new();
        text::append_str(&mut prefix, "marian-");
        proof {
            reveal_strlit("marian-");
        }
        assert(prefix@ =~= seq!['m', 'a', 'r', 'i', 'a', 'n', '-']);
        if !text::starts_with_exec(&v, &prefix) {
            return Err(LanguageError::InvalidModelDirName(string_of(&v)));
        }
        let name = text::copy_range(&v, 7, v.len());
        let parts = split_chars(&name, '-');
        if parts.len() != 2 {
            return Err(LanguageError::InvalidModelDirFormat(string_of(&v)));
        }
        pair_from_parts(&parts)
    }

    /// The directory of this pair's model under `base_dir`.
    pub fn find_model_dir(&self, base_dir: &str) -> (r: String)
        ensures
            r@ == paths::join_path(base_dir@, model_dir_name(*self)),
    {
        let name = self.model_dir_name_chars();
        let p = path_join(base_dir, &name);
        string_of(&p)
    }

    /// The pair named by the last component of a model directory path.
    pub fn from_model_dir(model_dir: &str) -> (r: Result<LanguagePair, LanguageError>)
        ensures
            result_view(r) == match paths::file_name(model_dir@) {
                Some(n) => parse_model_dir_name(n),
                None => Err((LanguageErrorKind::InvalidModelDirPath, model_dir@)),
            },
    {
        match path_file_name(model_dir) {
            Some(n) => {
                let s = string_of(&n);
                Self::from_model_dir_name(s.as_str())
            },
            None => Err(LanguageError::InvalidModelDirPath(model_dir.to_string())),
        }
    }
}

} // verus!
