//! Who is speaking: speakers told apart by the gaps between utterance boundaries, and
//! the TTS voice given to each speaker.
use vstd::prelude::*;
use crate::json::distinct_keys;
use crate::marian_tokenizer::lookup;
use crate::tables::{lemma_lookup_at_distinct, lemma_lookup_update_other};
use crate::text;
use crate::text::{to_chars, string_of, str_eq, to_lowercase, contains_exec, decimal, decimal_digits};
use crate::trie::lemma_lookup_push;
use crate::layout::copy_of;

verus! {

// ---------------------------------------------------------------------------
// Speakers from boundary gaps
// ---------------------------------------------------------------------------

/// How a boundary relates to the previous one.
#[derive(Debug, Clone, Copy, PartialEq, Eq, Structural)]
pub enum SpeakerChange {
    /// The first boundary: a first speaker.
    First,
    /// A gap shorter than the switch interval: someone cut in.
    Interruption,
    /// A gap longer than the same-speaker interval: someone new.
    LongPause,
    /// A gap in between: the same speaker goes on.
    Continuation,
}

/// The outcome for one boundary.
#[derive(Debug, Clone)]
pub struct SpeakerDecision {
    pub speaker_id: String,
    pub is_new_speaker: bool,
    pub change: SpeakerChange,
}

/// The id of the `n`-th speaker: `speaker_n`.
pub open spec fn speaker_name(n: nat) -> Seq<char> {
    "speaker_"@ + decimal(n)
}

/// Tells speakers apart by the time between boundaries.
#[derive(Debug)]
pub struct VadBasedSpeakerIdentifier {
    min_switch_interval_ms: u64,
    max_same_speaker_interval_ms: u64,
    last_boundary_timestamp: Option<u64>,
    current_speaker_id: Option<String>,
    next_speaker_id: u32,
}

impl VadBasedSpeakerIdentifier {
    pub closed spec fn min_switch(&self) -> u64 {
        self.min_switch_interval_ms
    }

    pub closed spec fn max_same(&self) -> u64 {
        self.max_same_speaker_interval_ms
    }

    pub closed spec fn last(&self) -> Option<u64> {
        self.last_boundary_timestamp
    }

    pub closed spec fn current(&self) -> Option<Seq<char>> {
        match self.current_speaker_id {
            Some(s) => Some(s@),
            None => None,
        }
    }

    /// The number the next new speaker gets.
    pub closed spec fn next(&self) -> u32 {
        self.next_speaker_id
    }

    pub fn new(min_switch_interval_ms: u64, max_same_speaker_interval_ms: u64) -> (r: Self)
        ensures
            r.min_switch() == min_switch_interval_ms,
            r.max_same() == max_same_speaker_interval_ms,
            r.last() is None,
            r.current() is None,
            r.next() == 1,
    {
        VadBasedSpeakerIdentifier {
            min_switch_interval_ms,
            max_same_speaker_interval_ms,
            last_boundary_timestamp: None,
            current_speaker_id: None,
            next_speaker_id: 1,
        }
    }

    fn generate_speaker_id(&mut self) -> (r: String)
        requires
            old(self).next() < u32::MAX,
        ensures
            r@ == speaker_name(old(self).next() as nat),
            final(self).next() == old(self).next() + 1,
            final(self).last() == old(self).last(),
            final(self).current() == old(self).current(),
            final(self).min_switch() == old(self).min_switch(),
            final(self).max_same() == old(self).max_same(),
    {
        let mut v = to_chars("speaker_");
        let d = decimal_digits(self.next_speaker_id as u64);
        text::append_chars(&mut v, &d);
        self.next_speaker_id = self.next_speaker_id + 1;
        string_of(&v)
    }

    /// The speaker of the utterance that ends at `boundary_timestamp_ms`.  The first
    /// boundary brings `speaker_1`; after that a gap below the switch interval or above
    /// the same-speaker interval brings the next new speaker, and any other gap keeps
    /// the current one.
    pub fn identify_speaker(&mut self, boundary_timestamp_ms: u64) -> (r: SpeakerDecision)
        requires
            old(self).next() < u32::MAX,
        ensures
            final(self).min_switch() == old(self).min_switch(),
            final(self).max_same() == old(self).max_same(),
            final(self).last() == Some(boundary_timestamp_ms),
            final(self).current() == Some(r.speaker_id@),
            match old(self).last() {
                None => {
                    &&& r.change is First
                    &&& r.is_new_speaker
                    &&& r.speaker_id@ == speaker_name(old(self).next() as nat)
                    &&& final(self).next() == old(self).next() + 1
                },
                Some(l) => {
                    let gap = if boundary_timestamp_ms >= l { boundary_timestamp_ms - l } else { 0 };
                    &&& r.change == if gap < old(self).min_switch() {
                        SpeakerChange::Interruption
                    } else if gap > old(self).max_same() {
                        SpeakerChange::LongPause
                    } else {
                        SpeakerChange::Continuation
                    }
                    &&& r.is_new_speaker == (gap < old(self).min_switch() || gap > old(self).max_same())
                    &&& if r.is_new_speaker || old(self).current() is None {
                        &&& r.speaker_id@ == speaker_name(old(self).next() as nat)
                        &&& final(self).next() == old(self).next() + 1
                    } else {
                        &&& r.speaker_id@ == old(self).current()->0
                        &&& final(self).next() == old(self).next()
                    }
                },
            },
    {
        match self.last_boundary_timestamp {
            None => {
                let id = self.generate_speaker_id();
                self.last_boundary_timestamp = Some(boundary_timestamp_ms);
                self.current_speaker_id = Some(id.clone());
                SpeakerDecision { speaker_id: id, is_new_speaker: true, change: SpeakerChange::First }
            },
            Some(l) => {
                let interval = boundary_timestamp_ms.saturating_sub(l);
                let change = if interval < self.min_switch_interval_ms {
                    SpeakerChange::Interruption
                } else if interval > self.max_same_speaker_interval_ms {
                    SpeakerChange::LongPause
                } else {
                    SpeakerChange::Continuation
                };
                let is_new = interval < self.min_switch_interval_ms || interval > self.max_same_speaker_interval_ms;
                let id = if is_new || self.current_speaker_id.is_none() {
                    let id = self.generate_speaker_id();
                    self.current_speaker_id = Some(id.clone());
                    id
                } else {
                    match &self.current_speaker_id {
                        Some(c) => c.clone(),
                        None => String::new(),
                    }
                };
                self.last_boundary_timestamp = Some(boundary_timestamp_ms);
                SpeakerDecision { speaker_id: id, is_new_speaker: is_new, change }
            },
        }
    }

    /// Forgets all speakers: the next boundary brings `speaker_1` again.
    pub fn reset(&mut self)
        ensures
            final(self).min_switch() == old(self).min_switch(),
            final(self).max_same() == old(self).max_same(),
            final(self).last() is None,
            final(self).current() is None,
            final(self).next() == 1,
    {
        self.last_boundary_timestamp = None;
        self.current_speaker_id = None;
        self.next_speaker_id = 1;
    }

    /// The number the next new speaker will get.
    pub fn next_speaker_number(&self) -> (r: u32)
        ensures
            r == self.next(),
    {
        self.next_speaker_id
    }
}

proof fn lemma_decimal_nonempty(n: nat)
    ensures
        decimal(n).len() >= 1,
    decreases n,
{
    if n >= 10 {
        lemma_decimal_nonempty(n / 10);
    }
}

proof fn lemma_decimal_injective(a: nat, b: nat)
    requires
        decimal(a) == decimal(b),
    ensures
        a == b,
    decreases a + b,
{
    lemma_decimal_nonempty(a);
    lemma_decimal_nonempty(b);
    if a < 10 && b < 10 {
        assert(decimal(a)[0] == text::digit_char(a));
        assert(decimal(b)[0] == text::digit_char(b));
    } else if a >= 10 && b >= 10 {
        lemma_decimal_nonempty(a / 10);
        lemma_decimal_nonempty(b / 10);
        assert(decimal(a).drop_last() == decimal(a / 10));
        assert(decimal(b).drop_last() == decimal(b / 10));
        assert(decimal(a).last() == text::digit_char(a % 10));
        assert(decimal(b).last() == text::digit_char(b % 10));
        lemma_decimal_injective(a / 10, b / 10);
    } else if a < 10 {
        lemma_decimal_nonempty(b / 10);
        assert(decimal(a).len() == 1);
        assert(decimal(b).len() == decimal(b / 10).len() + 1);
    } else {
        lemma_decimal_nonempty(a / 10);
        assert(decimal(b).len() == 1);
        assert(decimal(a).len() == decimal(a / 10).len() + 1);
    }
}

/// New speakers never share an id: distinct speaker numbers give distinct ids.
pub proof fn law_speaker_ids_distinct(a: nat, b: nat)
    requires
        a != b,
    ensures
        speaker_name(a) != speaker_name(b),
{
    if speaker_name(a) == speaker_name(b) {
        let p = "speaker_"@;
        assert(speaker_name(a).subrange(p.len() as int, speaker_name(a).len() as int) =~= decimal(a));
        assert(speaker_name(b).subrange(p.len() as int, speaker_name(b).len() as int) =~= decimal(b));
        lemma_decimal_injective(a, b);
    }
}

// ---------------------------------------------------------------------------
// Voices for speakers
// ---------------------------------------------------------------------------

pub open spec fn voice_pairs(m: Seq<(String, String)>) -> Seq<(Seq<char>, Seq<char>)> {
    m.map_values(|p: (String, String)| (p.0@, p.1@))
}

pub open spec fn string_views(v: Seq<String>) -> Seq<Seq<char>> {
    v.map_values(|s: String| s@)
}

/// What `assign_voice` does to a map (an association list, the last entry counting)
/// and a rotation index: a speaker with a voice keeps it; a new one gets the voice at
/// the index, which moves on by one.
pub open spec fn assign_spec(m: Seq<(Seq<char>, Seq<char>)>, voices: Seq<Seq<char>>, next: nat, s: Seq<char>) -> (
    Seq<(Seq<char>, Seq<char>)>,
    nat,
    Seq<char>,
) {
    match lookup(m, s) {
        Some(v) => (m, next, v),
        None => {
            let v = voices[(next % voices.len()) as int];
            (m.push((s, v)), ((next + 1) % voices.len()) as nat, v)
        },
    }
}

/// Whether the lower-case name `l` contains one of `keys`.
pub open spec fn mentions_any(l: Seq<char>, keys: Seq<Seq<char>>) -> bool {
    exists|k: int| 0 <= k < keys.len() && text::contains(l, #[trigger] keys[k])
}

/// The first voice whose lower-case name contains one of `keys` and none of `excluded`.
pub open spec fn first_voice_with(voices: Seq<Seq<char>>, keys: Seq<Seq<char>>, excluded: Seq<Seq<char>>) -> Option<Seq<char>>
    decreases voices.len(),
{
    if voices.len() == 0 {
        None
    } else {
        match first_voice_with(voices.drop_last(), keys, excluded) {
            Some(v) => Some(v),
            None => {
                let l = text::lowercase(voices.last());
                if mentions_any(l, keys) && !mentions_any(l, excluded) {
                    Some(voices.last())
                } else {
                    None
                }
            },
        }
    }
}

/// A male-sounding voice: the first whose name says `male` or `man` but neither
/// `female` nor `woman`, else the first with a known male Chinese voice name.
pub open spec fn male_voice(voices: Seq<Seq<char>>) -> Option<Seq<char>> {
    match first_voice_with(voices, seq!["male"@, "man"@], seq!["female"@, "woman"@]) {
        Some(v) => Some(v),
        None => first_voice_with(voices, seq!["huayan"@, "xiaoyi"@, "xiaofeng"@], seq![]),
    }
}

/// A female-sounding voice: the first whose name says `female` or `woman`, else the
/// first with a known female Chinese voice name.
pub open spec fn female_voice(voices: Seq<Seq<char>>) -> Option<Seq<char>> {
    match first_voice_with(voices, seq!["female"@, "woman"@], seq![]) {
        Some(v) => Some(v),
        None => first_voice_with(voices, seq!["xiaoyan"@, "xiaoxiao"@, "xiaomei"@], seq![]),
    }
}

/// The voice a default speaker id gets when it has none: a male-sounding voice (else
/// the first) for `default_male` and `default_speaker`, a female-sounding voice (else
/// the second, else the first) for `default_female`.
pub open spec fn default_voice(voices: Seq<Seq<char>>, s: Seq<char>) -> Seq<char> {
    if s == "default_female"@ {
        match female_voice(voices) {
            Some(v) => v,
            None => if voices.len() >= 2 { voices[1] } else { voices[0] },
        }
    } else {
        match male_voice(voices) {
            Some(v) => v,
            None => voices[0],
        }
    }
}

pub open spec fn is_default_speaker(s: Seq<char>) -> bool {
    s == "default_male"@ || s == "default_female"@ || s == "default_speaker"@
}

/// Gives each speaker a voice, turning through the available voices.
#[derive(Debug)]
pub struct SpeakerVoiceMapper {
    mapping: Vec<(String, String)>,
    available_voices: Vec<String>,
    next_voice_index: usize,
}

impl SpeakerVoiceMapper {
    /// The speakers and their voices, no speaker twice.
    pub closed spec fn mapping(&self) -> Seq<(Seq<char>, Seq<char>)> {
        voice_pairs(self.mapping@)
    }

    pub closed spec fn voices(&self) -> Seq<Seq<char>> {
        string_views(self.available_voices@)
    }

    pub closed spec fn next(&self) -> nat {
        self.next_voice_index as nat
    }

    #[verifier::type_invariant]
    closed spec fn inv(&self) -> bool {
        &&& self.available_voices@.len() > 0
        &&& self.next_voice_index < self.available_voices@.len()
        &&& distinct_keys(voice_pairs(self.mapping@))
    }

    /// A mapper over `available_voices`, which must not be empty.
    pub fn new(available_voices: Vec<String>) -> (r: Self)
        requires
            available_voices@.len() > 0,
        ensures
            r.voices() == string_views(available_voices@),
            r.mapping().len() == 0,
            r.next() == 0,
    {
        SpeakerVoiceMapper { mapping: Vec::new(), available_voices, next_voice_index: 0 }
    }

    fn find(&self, speaker_id: &str) -> (r: Option<usize>)
        ensures
            match r {
                Some(j) => j < self.mapping@.len() && self.mapping()[j as int].0 == speaker_id@ && lookup(
                    self.mapping(),
                    speaker_id@,
                ) == Some(self.mapping()[j as int].1),
                None => lookup(self.mapping(), speaker_id@) is None,
            },
    {
        proof {
            use_type_invariant(self);
        }
        let ghost es = self.mapping();
        let mut j: usize = 0;
        while j < self.mapping.len()
            invariant
                j <= self.mapping.len(),
                es == self.mapping(),
                distinct_keys(es),
                forall|i: int| 0 <= i < j ==> (#[trigger] es[i]).0 != speaker_id@,
            decreases self.mapping.len() - j,
        {
            if str_eq(self.mapping[j].0.as_str(), speaker_id) {
                proof {
                    lemma_lookup_at_distinct(es, j as int);
                }
                return Some(j);
            }
            j += 1;
        }
        proof {
            crate::trie::lemma_lookup_none(es, speaker_id@);
        }
        None
    }

    /// Sets the voice of `speaker_id`.
    pub fn set_voice(&mut self, speaker_id: &str, voice_id: String)
        ensures
            forall|q: Seq<char>| #[trigger] lookup(final(self).mapping(), q) == lookup(
                old(self).mapping().push((speaker_id@, voice_id@)),
                q,
            ),
            final(self).voices() == old(self).voices(),
            final(self).next() == old(self).next(),
            final(self).mapping().len() == old(self).mapping().len() + if lookup(old(self).mapping(), speaker_id@) is Some {
                0int
            } else {
                1int
            },
    {
        proof {
            use_type_invariant(&*self);
        }
        let ghost es = self.mapping();
        match self.find(speaker_id) {
            Some(j) => {
                let ghost vv = voice_id@;
                let mut entries: Vec<(String, String)> = Vec::new();
                std::mem::swap(&mut entries, &mut self.mapping);
                entries.set(j, (speaker_id.to_owned(), voice_id));
                proof {
                    let u = voice_pairs(entries@);
                    assert(u =~= es.update(j as int, (speaker_id@, vv)));
                    assert forall|a: int, b: int| 0 <= a < b < u.len() implies u[a].0 != u[b].0 by {
                        if a != j && b != j {
                            assert(u[a] == es[a] && u[b] == es[b]);
                        } else if a == j {
                            assert(u[b] == es[b]);
                            assert(es[a].0 != es[b].0);
                        } else {
                            assert(u[a] == es[a]);
                            assert(es[a].0 != es[b].0);
                        }
                    }
                    assert forall|q: Seq<char>| #[trigger] lookup(u, q) == lookup(es.push((speaker_id@, vv)), q) by {
                        lemma_lookup_push(es, speaker_id@, vv, q);
                        if q == speaker_id@ {
                            lemma_lookup_at_distinct(u, j as int);
                        } else {
                            lemma_lookup_update_other(es, j as int, (speaker_id@, vv), q);
                        }
                    }
                }
                self.mapping = entries;
            },
            None => {
                let ghost vv = voice_id@;
                let mut entries: Vec<(String, String)> = Vec::new();
                std::mem::swap(&mut entries, &mut self.mapping);
                entries.push((speaker_id.to_owned(), voice_id));
                proof {
                    let u = voice_pairs(entries@);
                    assert(u =~= es.push((speaker_id@, vv)));
                    assert forall|i: int| 0 <= i < es.len() implies (#[trigger] es[i]).0 != speaker_id@ by {
                        if es[i].0 == speaker_id@ {
                            crate::trie::lemma_lookup_some(es, i);
                        }
                    }
                    assert forall|a: int, b: int| 0 <= a < b < u.len() implies u[a].0 != u[b].0 by {
                        if b == u.len() - 1 {
                            assert(u[a] == es[a]);
                        } else {
                            assert(u[a] == es[a] && u[b] == es[b]);
                        }
                    }
                }
                self.mapping = entries;
            },
        }
    }

    /// The voice of `speaker_id`, if it has one.
    pub fn get_voice(&self, speaker_id: &str) -> (r: Option<String>)
        ensures
            match r {
                Some(v) => lookup(self.mapping(), speaker_id@) == Some(v@),
                None => lookup(self.mapping(), speaker_id@) is None,
            },
    {
        match self.find(speaker_id) {
            Some(j) => Some(self.mapping[j].1.clone()),
            None => None,
        }
    }

    /// The voice of `speaker_id`: the one it has, else the voice at the rotation index,
    /// which then moves on.
    pub fn assign_voice(&mut self, speaker_id: &str) -> (r: String)
        ensures
            ({
                let (m, n, v) = assign_spec(old(self).mapping(), old(self).voices(), old(self).next(), speaker_id@);
                &&& r@ == v
                &&& final(self).next() == n
                &&& forall|q: Seq<char>| #[trigger] lookup(final(self).mapping(), q) == lookup(m, q)
            }),
            final(self).voices() == old(self).voices(),
            final(self).mapping().len() == old(self).mapping().len() + if lookup(old(self).mapping(), speaker_id@) is Some {
                0int
            } else {
                1int
            },
    {
        proof {
            use_type_invariant(&*self);
        }
        match self.get_voice(speaker_id) {
            Some(v) => v,
            None => {
                let n = self.available_voices.len();
                let voice_index = self.next_voice_index % n;
                let voice = self.available_voices[voice_index].clone();
                let next = (self.next_voice_index + 1) % n;
                self.set_voice(speaker_id, voice.clone());
                proof {
                    use_type_invariant(&*self);
                }
                assert(self.voices().len() == n);
                assert(self.available_voices@.len() == n);
                self.next_voice_index = next;
                voice
            },
        }
    }

    fn pick_voice(&self, keys1: &Vec<&str>, excl1: &Vec<&str>, keys2: &Vec<&str>) -> (r: Option<String>)
        ensures
            ({
                let k1 = key_views(keys1@);
                let e1 = key_views(excl1@);
                let k2 = key_views(keys2@);
                let none = Seq::<Seq<char>>::empty();
                r.is_some() == (first_voice_with(self.voices(), k1, e1) is Some || first_voice_with(self.voices(), k2, none) is Some)
                && (r.is_some() ==> r->0@ == match first_voice_with(self.voices(), k1, e1) {
                    Some(v) => v,
                    None => first_voice_with(self.voices(), k2, none)->0,
                })
            }),
    {
        match self.first_with(keys1, excl1) {
            Some(v) => Some(v),
            None => {
                let e: Vec<&str> = Vec::new();
                assert(key_views(e@) =~= Seq::<Seq<char>>::empty());
                self.first_with(keys2, &e)
            },
        }
    }

    fn first_with(&self, keys: &Vec<&str>, excl: &Vec<&str>) -> (r: Option<String>)
        ensures
            match r {
                Some(v) => first_voice_with(self.voices(), key_views(keys@), key_views(excl@)) == Some(v@),
                None => first_voice_with(self.voices(), key_views(keys@), key_views(excl@)) is None,
            },
    {
        let ghost ks = key_views(keys@);
        let ghost es = key_views(excl@);
        let ghost vs = self.voices();
        let mut i: usize = 0;
        assert(vs.subrange(0, 0) =~= Seq::<Seq<char>>::empty());
        while i < self.available_voices.len()
            invariant
                i <= self.available_voices.len(),
                vs == self.voices(),
                ks == key_views(keys@),
                es == key_views(excl@),
                first_voice_with(vs.subrange(0, i as int), ks, es) is None,
            decreases self.available_voices.len() - i,
        {
            let ghost post = vs.subrange(0, i + 1);
            assert(post.drop_last() == vs.subrange(0, i as int));
            assert(post.last() == vs[i as int]);
            let lower = to_lowercase(self.available_voices[i].as_str());
            let lv = to_chars(lower.as_str());
            if mentions_any_exec(&lv, keys) && !mentions_any_exec(&lv, excl) {
                proof {
                    lemma_first_voice_extends(vs, ks, es, i as int + 1);
                }
                return Some(self.available_voices[i].clone());
            }
            i += 1;
        }
        assert(vs.subrange(0, vs.len() as int) == vs);
        None
    }

    /// The voice of `speaker_id`, assigned if it has none: `default_male`,
    /// `default_female` and `default_speaker` get a voice chosen by name (see
    /// [`default_voice`]) and leave the rotation alone; other speakers go through
    /// [`Self::assign_voice`].
    pub fn get_or_assign_voice(&mut self, speaker_id: &str) -> (r: String)
        ensures
            final(self).voices() == old(self).voices(),
            match lookup(old(self).mapping(), speaker_id@) {
                Some(v) => r@ == v && final(self).next() == old(self).next() && forall|q: Seq<char>|
                    #[trigger] lookup(final(self).mapping(), q) == lookup(old(self).mapping(), q),
                None => if is_default_speaker(speaker_id@) {
                    &&& r@ == default_voice(old(self).voices(), speaker_id@)
                    &&& final(self).next() == old(self).next()
                    &&& forall|q: Seq<char>| #[trigger] lookup(final(self).mapping(), q) == lookup(
                        old(self).mapping().push((speaker_id@, r@)),
                        q,
                    )
                } else {
                    let (m, n, v) = assign_spec(old(self).mapping(), old(self).voices(), old(self).next(), speaker_id@);
                    &&& r@ == v
                    &&& final(self).next() == n
                    &&& forall|q: Seq<char>| #[trigger] lookup(final(self).mapping(), q) == lookup(m, q)
                },
            },
    {
        proof {
            use_type_invariant(&*self);
        }
        if let Some(v) = self.get_voice(speaker_id) {
            return v;
        }
        if str_eq(speaker_id, "default_female") {
            let mut k1: Vec<&str> = Vec::new();
            k1.push("female");
            k1.push("woman");
            let mut k2: Vec<&str> = Vec::new();
            k2.push("xiaoyan");
            k2.push("xiaoxiao");
            k2.push("xiaomei");
            let e1: Vec<&str> = Vec::new();
            proof {
                assert(key_views(k1@) =~= seq!["female"@, "woman"@]);
                assert(key_views(e1@) =~= Seq::<Seq<char>>::empty());
                assert(key_views(k2@) =~= seq!["xiaoyan"@, "xiaoxiao"@, "xiaomei"@]);
            }
            let v = match self.pick_voice(&k1, &e1, &k2) {
                Some(v) => v,
                None => if self.available_voices.len() >= 2 {
                    self.available_voices[1].clone()
                } else {
                    self.available_voices[0].clone()
                },
            };
            self.set_voice(speaker_id, v.clone());
            v
        } else if str_eq(speaker_id, "default_male") || str_eq(speaker_id, "default_speaker") {
            let mut k1: Vec<&str> = Vec::new();
            k1.push("male");
            k1.push("man");
            let mut k2: Vec<&str> = Vec::new();
            k2.push("huayan");
            k2.push("xiaoyi");
            k2.push("xiaofeng");
            let mut e1: Vec<&str> = Vec::new();
            e1.push("female");
            e1.push("woman");
            proof {
                assert(key_views(k1@) =~= seq!["male"@, "man"@]);
                assert(key_views(e1@) =~= seq!["female"@, "woman"@]);
                assert(key_views(k2@) =~= seq!["huayan"@, "xiaoyi"@, "xiaofeng"@]);
            }
            let v = match self.pick_voice(&k1, &e1, &k2) {
                Some(v) => v,
                None => self.available_voices[0].clone(),
            };
            self.set_voice(speaker_id, v.clone());
            v
        } else {
            self.assign_voice(speaker_id)
        }
    }

    /// Forgets every speaker and restarts the rotation.
    pub fn clear(&mut self)
        ensures
            final(self).mapping().len() == 0,
            final(self).next() == 0,
            final(self).voices() == old(self).voices(),
    {
        proof {
            use_type_invariant(&*self);
        }
        self.mapping = Vec::new();
        self.next_voice_index = 0;
        assert(voice_pairs(self.mapping@) =~= Seq::<(Seq<char>, Seq<char>)>::empty());
    }

    /// The number of speakers with a voice.
    pub fn count(&self) -> (r: usize)
        ensures
            r == self.mapping().len(),
    {
        self.mapping.len()
    }
}

pub open spec fn key_views(keys: Seq<&str>) -> Seq<Seq<char>> {
    keys.map_values(|k: &str| k@)
}

fn mentions_any_exec(lv: &Vec<char>, keys: &Vec<&str>) -> (r: bool)
    ensures
        r == mentions_any(lv@, key_views(keys@)),
{
    let ghost ks = key_views(keys@);
    let mut k: usize = 0;
    let mut found = false;
    while k < keys.len()
        invariant
            k <= keys.len(),
            ks == key_views(keys@),
            found <==> exists|q: int| 0 <= q < k && text::contains(lv@, #[trigger] ks[q]),
        decreases keys.len() - k,
    {
        let kv = to_chars(keys[k]);
        if contains_exec(lv, &kv) {
            found = true;
        }
        proof {
            if found {
                if text::contains(lv@, ks[k as int]) {
                    assert(exists|q: int| 0 <= q < k + 1 && text::contains(lv@, #[trigger] ks[q]));
                }
            }
        }
        k += 1;
    }
    found
}

proof fn lemma_first_voice_extends(vs: Seq<Seq<char>>, ks: Seq<Seq<char>>, es: Seq<Seq<char>>, k: int)
    requires
        0 <= k <= vs.len(),
        first_voice_with(vs.subrange(0, k), ks, es) is Some,
    ensures
        first_voice_with(vs, ks, es) == first_voice_with(vs.subrange(0, k), ks, es),
    decreases vs.len() - k,
{
    if k < vs.len() {
        assert(vs.subrange(0, k + 1).drop_last() == vs.subrange(0, k));
        lemma_first_voice_extends(vs, ks, es, k + 1);
    } else {
        assert(vs.subrange(0, k) == vs);
    }
}

/// A voice, once assigned, stays: assigning again to the same speaker gives the same
/// voice and changes nothing.
pub proof fn law_assign_voice_stable(m: Seq<(Seq<char>, Seq<char>)>, voices: Seq<Seq<char>>, next: nat, s: Seq<char>)
    requires
        voices.len() > 0,
    ensures
        ({
            let (m1, n1, v) = assign_spec(m, voices, next, s);
            &&& lookup(m1, s) == Some(v)
            &&& assign_spec(m1, voices, n1, s) == (m1, n1, v)
        }),
{
    let (m1, n1, v) = assign_spec(m, voices, next, s);
    lemma_lookup_push(m, s, v, s);
}

/// Voices go round: from a rotation index `next`, new speakers get the voices at
/// `next`, `next + 1`, ... (modulo the number of voices).
pub proof fn law_round_robin(m: Seq<(Seq<char>, Seq<char>)>, voices: Seq<Seq<char>>, next: nat, s1: Seq<char>, s2: Seq<char>)
    requires
        voices.len() > 0,
        next < voices.len(),
        lookup(m, s1) is None,
        lookup(m, s2) is None,
        s1 != s2,
    ensures
        ({
            let (m1, n1, v1) = assign_spec(m, voices, next, s1);
            let (m2, n2, v2) = assign_spec(m1, voices, n1, s2);
            &&& v1 == voices[next as int]
            &&& v2 == voices[((next + 1) % voices.len()) as int]
            &&& n2 == (next + 2) % voices.len()
        }),
{
    let (m1, n1, v1) = assign_spec(m, voices, next, s1);
    lemma_lookup_push(m, s1, v1, s2);
    let n = voices.len();
    assert(next % n == next) by (nonlinear_arith)
        requires
            next < n;
    assert(((next + 1) % n) % n == (next + 1) % n) by (nonlinear_arith)
        requires
            n > 0;
    assert(((next + 1) % n + 1) % n == (next + 2) % n) by (nonlinear_arith)
        requires
            n > 0;
}

// ---------------------------------------------------------------------------
// Speakers from voice features
// ---------------------------------------------------------------------------

/// The default speaker for a voice of the estimated gender, read in lower case:
/// `default_male` for `male` or `m`, `default_female` for `female` or `f`, and
/// `default_speaker` for anything else or no estimate.
pub open spec fn gender_speaker(gender: Option<Seq<char>>) -> Seq<char> {
    match gender {
        None => "default_speaker"@,
        Some(g) => {
            let l = text::lowercase(g);
            if l == "male"@ || l == "m"@ {
                "default_male"@
            } else if l == "female"@ || l == "f"@ {
                "default_female"@
            } else {
                "default_speaker"@
            }
        },
    }
}

/// The default speaker for a voice of the estimated gender.
pub fn default_speaker_for_gender(gender: Option<&str>) -> (r: String)
    ensures
        r@ == gender_speaker(
            match gender {
                Some(g) => Some(g@),
                None => None,
            },
        ),
{
    match gender {
        None => "default_speaker".to_string(),
        Some(g) => {
            let l = to_lowercase(g);
            let l = l.as_str();
            if str_eq(l, "male") || str_eq(l, "m") {
                "default_male".to_string()
            } else if str_eq(l, "female") || str_eq(l, "f") {
                "default_female".to_string()
            } else {
                "default_speaker".to_string()
            }
        },
    }
}

pub open spec fn vec_views<T>(v: Seq<Vec<T>>) -> Seq<Seq<T>> {
    v.map_values(|x: Vec<T>| x@)
}

/// The audio kept of one speaker as reference for voice cloning: the segments heard so
/// far, merged once they are long enough.
pub struct ReferenceSegments<T> {
    segments: Vec<Vec<T>>,
}

impl<T: Copy> ReferenceSegments<T> {
    /// The segments kept, oldest first.
    pub closed spec fn segments(&self) -> Seq<Seq<T>> {
        vec_views(self.segments@)
    }

    pub fn new() -> (r: Self)
        ensures
            r.segments().len() == 0,
    {
        let r = ReferenceSegments { segments: Vec::new() };
        assert(r.segments() =~= Seq::<Seq<T>>::empty());
        r
    }

    /// Forgets every segment.
    pub fn clear(&mut self)
        ensures
            final(self).segments().len() == 0,
    {
        self.segments = Vec::new();
        assert(self.segments() =~= Seq::<Seq<T>>::empty());
    }

    /// All the samples kept, in order.
    fn merged(&self) -> (r: Vec<T>)
        ensures
            r@ == self.segments().flatten(),
    {
        let ghost segs = self.segments();
        let mut out: Vec<T> = Vec::new();
        let mut i: usize = 0;
        assert(segs.subrange(0, 0) =~= Seq::<Seq<T>>::empty());
        while i < self.segments.len()
            invariant
                i <= self.segments.len(),
                segs == self.segments(),
                out@ == segs.subrange(0, i as int).flatten(),
            decreases self.segments.len() - i,
        {
            let seg = &self.segments[i];
            assert(segs.subrange(0, i + 1) =~= segs.subrange(0, i as int).push(seg@));
            proof {
                segs.subrange(0, i as int).lemma_flatten_push(seg@);
            }
            let mut j: usize = 0;
            let ghost before = out@;
            while j < seg.len()
                invariant
                    j <= seg.len(),
                    out@ == before + seg@.subrange(0, j as int),
                decreases seg.len() - j,
            {
                out.push(seg[j]);
                assert(out@ =~= before + seg@.subrange(0, j + 1));
                j += 1;
            }
            assert(seg@.subrange(0, seg@.len() as int) == seg@);
            i += 1;
        }
        assert(segs.subrange(0, segs.len() as int) == segs);
        out
    }

    /// The number of samples kept, or `usize::MAX` when there are more.
    fn total_samples(&self) -> (r: usize)
        ensures
            r == if self.segments().flatten().len() < usize::MAX {
                self.segments().flatten().len()
            } else {
                usize::MAX as nat
            },
    {
        let ghost segs = self.segments();
        let mut total: usize = 0;
        let mut i: usize = 0;
        assert(segs.subrange(0, 0) =~= Seq::<Seq<T>>::empty());
        while i < self.segments.len()
            invariant
                i <= self.segments.len(),
                segs == self.segments(),
                total == if segs.subrange(0, i as int).flatten().len() < usize::MAX {
                    segs.subrange(0, i as int).flatten().len()
                } else {
                    usize::MAX as nat
                },
            decreases self.segments.len() - i,
        {
            assert(segs.subrange(0, i + 1) =~= segs.subrange(0, i as int).push(segs[i as int]));
            proof {
                segs.subrange(0, i as int).lemma_flatten_push(segs[i as int]);
            }
            total = total.saturating_add(self.segments[i].len());
            i += 1;
        }
        assert(segs.subrange(0, segs.len() as int) == segs);
        total
    }

    /// Adds the segment just heard.  Once all the samples kept reach `min_merged` they
    /// are merged into one segment; the reference audio is then all of them, as it is
    /// once they reach `min_extraction`, and the segment itself before that.  The
    /// second result is the audio to take voice features from: all the samples kept,
    /// once they reach `min_extraction`.
    pub fn add_segment(&mut self, current: Vec<T>, min_merged: usize, min_extraction: usize) -> (r: (
        Vec<T>,
        Option<Vec<T>>,
    ))
        ensures
            ({
                let segs = old(self).segments().push(current@);
                let all = segs.flatten();
                &&& all.len() >= min_merged ==> final(self).segments() == seq![all] && r.0@ == all
                &&& all.len() < min_merged ==> final(self).segments() == segs && r.0@ == if all.len()
                    >= min_extraction {
                    all
                } else {
                    current@
                }
                &&& r.1 is Some <==> all.len() >= min_extraction
                &&& r.1 is Some ==> r.1->0@ == all
            }),
            final(self).segments().flatten() == old(self).segments().flatten() + current@,
    {
        let ghost segs = old(self).segments().push(current@);
        proof {
            old(self).segments().lemma_flatten_push(current@);
            seq![segs.flatten()].lemma_flatten_one_element();
        }
        let cur = copy_of(&current);
        self.segments.push(current);
        assert(self.segments() =~= segs);
        let total = self.total_samples();
        let all = self.merged();
        if total >= min_merged {
            let kept = copy_of(&all);
            self.segments = Vec::new();
            self.segments.push(kept);
            assert(self.segments() =~= seq![all@]);
            let embed = if total >= min_extraction {
                Some(copy_of(&all))
            } else {
                None
            };
            (all, embed)
        } else if total >= min_extraction {
            let embed = copy_of(&all);
            (all, Some(embed))
        } else {
            (cur, None)
        }
    }
}


} // verus!
