//! Audio enhancement for incremental playback: reading and writing 16-bit PCM WAV
//! data and appending pauses.  The fades, which scale samples by fractions, are done
//! by the caller.
use vstd::prelude::*;
use crate::error::EngineError;
use crate::text;
use crate::text::{to_chars, string_of, decimal, decimal_digits};
use crate::tts::{le16, le32, riff_tag, wave_tag, fmt_tag, data_tag, push_tag, push_le16, push_le32};

verus! {

/// What the enhancer does and the format it assumes.
#[derive(Debug, Clone, Copy)]
pub struct AudioEnhancementConfig {
    pub enable_fade: bool,
    pub fade_duration_ms: u32,
    pub enable_pause: bool,
    pub pause_duration_ms: u32,
    pub sample_rate: u32,
    pub channels: u16,
}

impl Default for AudioEnhancementConfig {
    fn default() -> (r: Self)
        ensures
            r.enable_fade,
            r.fade_duration_ms == 20,
            r.enable_pause,
            r.pause_duration_ms == 100,
            r.sample_rate == 22050,
            r.channels == 1,
    {
        AudioEnhancementConfig {
            enable_fade: true,
            fade_duration_ms: 20,
            enable_pause: true,
            pause_duration_ms: 100,
            sample_rate: 22050,
            channels: 1,
        }
    }
}

// ---------------------------------------------------------------------------
// Reading WAV data
// ---------------------------------------------------------------------------

/// The unsigned little-endian value of `w[i..i+n]`.
pub open spec fn le_at(w: Seq<u8>, i: int, n: nat) -> nat
    decreases n,
{
    if n == 0 {
        0
    } else {
        w[i] as nat + 256 * le_at(w, i + 1, (n - 1) as nat)
    }
}

/// The signed 16-bit sample of two little-endian bytes.
pub open spec fn sample_of(lo: u8, hi: u8) -> i16 {
    let u = lo as int + 256 * hi as int;
    (if u >= 32768 { u - 65536 } else { u }) as i16
}

pub open spec fn tag_at(w: Seq<u8>, i: int, t: Seq<u8>) -> bool {
    w.subrange(i, i + 4) == t
}

/// Where the chunk walk ends.
pub enum WavScan {
    /// A `data` chunk whose bytes start at the offset, with the format read so far.
    Data(int, int, int, int),
    /// The walk ran out of chunks.
    NoData,
    /// A `fmt ` chunk with a format other than PCM.
    BadFormat(int),
    /// A read past the end of the data, or a chunk size that overflows the offset.
    OutOfBounds,
}

/// The walk over the chunks from `offset`, with the rate, channels and sample size read
/// so far: a `fmt ` chunk sets them, a `data` chunk ends the walk, other chunks are
/// skipped by their size.
pub open spec fn wav_scan(w: Seq<u8>, offset: int, rate: int, channels: int, bits: int) -> WavScan
    decreases w.len() - offset,
{
    if offset < 0 || offset >= w.len() - 8 {
        WavScan::NoData
    } else {
        let size = le_at(w, offset + 4, 4);
        if tag_at(w, offset, fmt_tag()) {
            if offset + 10 > w.len() {
                WavScan::OutOfBounds
            } else if le_at(w, offset + 8, 2) != 1 {
                WavScan::BadFormat(le_at(w, offset + 8, 2) as int)
            } else if offset + 24 > w.len() || offset + 8 + size > usize::MAX {
                WavScan::OutOfBounds
            } else if offset + 8 + size >= w.len() - 8 {
                WavScan::NoData
            } else {
                wav_scan(
                    w,
                    offset + 8 + size,
                    le_at(w, offset + 12, 4) as int,
                    le_at(w, offset + 10, 2) as int,
                    le_at(w, offset + 22, 2) as int,
                )
            }
        } else if tag_at(w, offset, data_tag()) {
            WavScan::Data(offset + 8, rate, channels, bits)
        } else if offset + 8 + size > usize::MAX {
            WavScan::OutOfBounds
        } else if offset + 8 + size >= w.len() - 8 {
            WavScan::NoData
        } else {
            wav_scan(w, offset + 8 + size, rate, channels, bits)
        }
    }
}

/// The samples of `pcm` read two bytes at a time, `count` of them.
pub open spec fn samples_of(pcm: Seq<u8>, count: nat) -> Seq<i16> {
    Seq::new(count, |i: int| sample_of(pcm[2 * i], pcm[2 * i + 1]))
}

/// What reading `w` gives: the samples, the rate and the channels; or the error.
pub open spec fn wav_read(w: Seq<u8>) -> Result<(Seq<i16>, u32, u16), Seq<char>> {
    if w.len() < 44 {
        Err("Invalid WAV file: too short"@)
    } else if w.subrange(0, 4) != riff_tag() {
        Err("Invalid WAV file: missing RIFF header"@)
    } else if w.subrange(8, 12) != wave_tag() {
        Err("Invalid WAV file: missing WAVE identifier"@)
    } else {
        match wav_scan(w, 12, 22050, 1, 16) {
            WavScan::BadFormat(f) => Err("Unsupported audio format: "@ + decimal(f as nat)),
            WavScan::OutOfBounds => Err("Invalid WAV file: truncated chunk"@),
            WavScan::Data(d, r, c, b) => if d == 0 {
                Err("Invalid WAV file: missing data chunk"@)
            } else if b != 16 {
                Err("Unsupported bits per sample: "@ + decimal(b as nat))
            } else if c == 0 {
                Err("Invalid WAV file: no channels"@)
            } else {
                let pcm = w.subrange(d, w.len() as int);
                let frames = (pcm.len() as int) / (b / 8) / c;
                Ok((samples_of(pcm, (frames * c) as nat), r as u32, c as u16))
            },
            _ => Err("Invalid WAV file: missing data chunk"@),
        }
    }
}

/// `parse_wav` reads any bytes without failing outright, and gives an error for data
/// shorter than a header, without the `RIFF` or `WAVE` tags, or without a `data` chunk
/// of 16-bit PCM samples in at least one channel; it succeeds exactly when such a chunk
/// is found.
pub proof fn law_wav_read_refuses_bad_input(w: Seq<u8>)
    ensures
        w.len() < 44 ==> wav_read(w) is Err,
        w.len() >= 44 && w.subrange(0, 4) != riff_tag() ==> wav_read(w) is Err,
        w.len() >= 44 && w.subrange(8, 12) != wave_tag() ==> wav_read(w) is Err,
        w.len() >= 44 && w.subrange(0, 4) == riff_tag() && w.subrange(8, 12) == wave_tag() ==> (wav_read(w) is Ok
            <==> (wav_scan(w, 12, 22050, 1, 16) matches WavScan::Data(d, r, c, b) && d != 0 && b == 16 && c != 0)),
{
}

fn le_u16_at(w: &[u8], i: usize) -> (r: u32)
    requires
        i + 2 <= w@.len(),
    ensures
        r == le_at(w@, i as int, 2),
        r < 65536,
{
    proof {
        reveal_with_fuel(le_at, 3);
    }
    (w[i] as u32) + 256 * (w[i + 1] as u32)
}

fn le_u32_at(w: &[u8], i: usize) -> (r: u64)
    requires
        i + 4 <= w@.len(),
    ensures
        r == le_at(w@, i as int, 4),
        r < 0x1_0000_0000,
{
    proof {
        reveal_with_fuel(le_at, 5);
    }
    (w[i] as u64) + 256 * ((w[i + 1] as u64) + 256 * ((w[i + 2] as u64) + 256 * (w[i + 3] as u64)))
}

fn tag_is(w: &[u8], i: usize, a: u8, b: u8, c: u8, d: u8) -> (r: bool)
    requires
        i + 4 <= w@.len(),
    ensures
        r == tag_at(w@, i as int, seq![a, b, c, d]),
{
    let r = w[i] == a && w[i + 1] == b && w[i + 2] == c && w[i + 3] == d;
    if r {
        assert(w@.subrange(i as int, i + 4) =~= seq![a, b, c, d]);
    } else {
        assert(w@.subrange(i as int, i + 4)[0] == w@[i as int]);
        assert(w@.subrange(i as int, i + 4)[1] == w@[i + 1]);
        assert(w@.subrange(i as int, i + 4)[2] == w@[i + 2]);
        assert(w@.subrange(i as int, i + 4)[3] == w@[i + 3]);
    }
    r
}

fn number_message(prefix: &str, n: u64) -> (r: EngineError)
    ensures
        r.message@ == prefix@ + decimal(n as nat),
{
    let mut m = to_chars(prefix);
    let d = decimal_digits(n);
    text::append_chars(&mut m, &d);
    EngineError::new(string_of(&m))
}

fn sample_exec(lo: u8, hi: u8) -> (r: i16)
    ensures
        r == sample_of(lo, hi),
{
    let u: u32 = (lo as u32) + 256 * (hi as u32);
    if u >= 32768 {
        (u as i32 - 65536) as i16
    } else {
        u as i16
    }
}

/// Reads 16-bit PCM WAV data: the samples, the rate and the channels (22050 Hz mono
/// 16-bit until a `fmt ` chunk says otherwise).
pub fn parse_wav(wav_data: &[u8]) -> (r: Result<(Vec<i16>, u32, u16), EngineError>)
    ensures
        match wav_read(wav_data@) {
            Ok((s, rate, ch)) => r is Ok && r->Ok_0.0@ == s && r->Ok_0.1 == rate && r->Ok_0.2 == ch,
            Err(m) => r is Err && r->Err_0.message@ == m,
        },
{
    let w = wav_data;
    if w.len() < 44 {
        return Err(EngineError::from_str("Invalid WAV file: too short"));
    }
    if !tag_is(w, 0, 82, 73, 70, 70) {
        return Err(EngineError::from_str("Invalid WAV file: missing RIFF header"));
    }
    if !tag_is(w, 8, 87, 65, 86, 69) {
        return Err(EngineError::from_str("Invalid WAV file: missing WAVE identifier"));
    }
    let mut offset: usize = 12;
    let mut sample_rate: u64 = 22050;
    let mut channels: u64 = 1;
    let mut bits: u64 = 16;
    let mut data_offset: usize = 0;
    while offset < w.len() - 8
        invariant_except_break
            data_offset == 0,
        invariant
            w@ == wav_data@,
            w.len() >= 44,
            wav_scan(w@, offset as int, sample_rate as int, channels as int, bits as int) == wav_scan(
                w@,
                12,
                22050,
                1,
                16,
            ),
            w@.subrange(0, 4) == riff_tag(),
            w@.subrange(8, 12) == wave_tag(),
            sample_rate < 0x1_0000_0000,
            channels < 65536,
            bits < 65536,
        ensures
            data_offset == 0 ==> wav_scan(w@, 12, 22050, 1, 16) is NoData,
            data_offset > 0 ==> wav_scan(w@, 12, 22050, 1, 16) == WavScan::Data(
                data_offset as int,
                sample_rate as int,
                channels as int,
                bits as int,
            ),
            data_offset <= w@.len(),
            sample_rate < 0x1_0000_0000,
            channels < 65536,
            bits < 65536,
        decreases if offset <= w.len() { w.len() - offset } else { 0 },
    {
        let size = le_u32_at(w, offset + 4);
        if tag_is(w, offset, 102, 109, 116, 32) {
            if w.len() - offset < 10 {
                return Err(EngineError::from_str("Invalid WAV file: truncated chunk"));
            }
            let format = le_u16_at(w, offset + 8);
            if format != 1 {
                assert(wav_scan(w@, offset as int, sample_rate as int, channels as int, bits as int)
                    == WavScan::BadFormat(format as int));
                assert(wav_scan(w@, 12, 22050, 1, 16) == WavScan::BadFormat(format as int));
                assert(wav_read(w@) == Err::<(Seq<i16>, u32, u16), Seq<char>>(
                    "Unsupported audio format: "@ + decimal(format as nat),
                ));
                let e = number_message("Unsupported audio format: ", format as u64);
                assert(e.message@ == "Unsupported audio format: "@ + decimal(format as nat));
                return Err(e);
            }
            if w.len() - offset < 24 {
                return Err(EngineError::from_str("Invalid WAV file: truncated chunk"));
            }
            channels = le_u16_at(w, offset + 10) as u64;
            sample_rate = le_u32_at(w, offset + 12);
            bits = le_u16_at(w, offset + 22) as u64;
        } else if tag_is(w, offset, 100, 97, 116, 97) {
            data_offset = offset + 8;
            break;
        }
        match offset.checked_add(8) {
            None => return Err(EngineError::from_str("Invalid WAV file: truncated chunk")),
            Some(o) => match o.checked_add(size as usize) {
                None => return Err(EngineError::from_str("Invalid WAV file: truncated chunk")),
                Some(next) => {
                    offset = next;
                },
            },
        }
    }
    if data_offset == 0 {
        return Err(EngineError::from_str("Invalid WAV file: missing data chunk"));
    }
    if bits != 16 {
        return Err(number_message("Unsupported bits per sample: ", bits));
    }
    if channels == 0 {
        return Err(EngineError::from_str("Invalid WAV file: no channels"));
    }
    let pcm_len = w.len() - data_offset;
    let frames = pcm_len / 2 / (channels as usize);
    assert((frames as int) * (channels as int) <= (pcm_len as int) / 2) by (nonlinear_arith)
        requires
            frames as int == (pcm_len as int) / 2 / (channels as int),
            channels > 0,
    ;
    let count = frames * (channels as usize);
    assert(2 * count <= pcm_len);
    let ghost pcm = w@.subrange(data_offset as int, w@.len() as int);
    let mut samples: Vec<i16> = Vec::new();
    let mut i: usize = 0;
    let wlen = w.len();
    while i < count
        invariant
            i <= count,
            wlen == w@.len(),
            w@ == wav_data@,
            count <= pcm_len / 2,
            2 * count <= pcm_len,
            pcm_len == w@.len() - data_offset,
            pcm == w@.subrange(data_offset as int, w@.len() as int),
            data_offset <= w@.len(),
            samples@ == samples_of(pcm, i as nat),
        decreases count - i,
    {
        assert(2 * i + 1 < pcm_len);
        assert(data_offset + 2 * i + 1 < w@.len());
        let lo = w[data_offset + 2 * i];
        let hi = w[data_offset + 2 * i + 1];
        assert(lo == pcm[2 * i] && hi == pcm[2 * i + 1]);
        samples.push(sample_exec(lo, hi));
        assert(samples@ =~= samples_of(pcm, (i + 1) as nat));
        i += 1;
    }
    assert(pcm.len() as int / (bits as int / 8) / (channels as int) == frames);
    Ok((samples, sample_rate as u32, channels as u16))
}

// ---------------------------------------------------------------------------
// Writing WAV data
// ---------------------------------------------------------------------------

/// The two little-endian bytes of a sample.
pub open spec fn sample_bytes(s: i16) -> Seq<u8> {
    le16(if s < 0 { s + 65536 } else { s as int })
}

pub open spec fn samples_bytes(s: Seq<i16>) -> Seq<u8>
    decreases s.len(),
{
    if s.len() == 0 {
        seq![]
    } else {
        samples_bytes(s.drop_last()) + sample_bytes(s.last())
    }
}

/// The WAV data the enhancer writes: the standard 44-byte header, whose RIFF size counts
/// 36 bytes plus the samples and whose data size is the samples' bytes (both 32-bit
/// fields), then the samples.
pub open spec fn wav_written(samples: Seq<i16>, rate: int, channels: int) -> Seq<u8> {
    written_header(2 * (samples.len() as int), rate, channels) + samples_bytes(samples)
}

/// The header the enhancer writes before the samples.
#[verifier::opaque]
pub open spec fn written_header(n: int, rate: int, channels: int) -> Seq<u8> {
    riff_tag() + le32((36 + n) % 0x1_0000_0000) + wave_tag() + fmt_tag() + le32(16) + le16(1) + le16(channels)
        + le32(rate) + le32(rate * channels * 2) + le16(channels * 2) + le16(16) + data_tag() + le32(n % 0x1_0000_0000)
}

#[verifier::rlimit(30)]
fn push_written_header(wav: &mut Vec<u8>, n: usize, sample_rate: u32, channels: u16)
    requires
        36 + n <= usize::MAX,
        sample_rate * channels * 2 <= u32::MAX,
        channels * 2 <= u16::MAX,
    ensures
        final(wav)@ == old(wav)@ + written_header(n as int, sample_rate as int, channels as int),
{
    let ghost w0 = wav@;
    push_tag(wav, 82, 73, 70, 70);
    push_le32(wav, ((36 + n as u64) % 0x1_0000_0000) as u32);
    push_tag(wav, 87, 65, 86, 69);
    push_tag(wav, 102, 109, 116, 32);
    let ghost w1 = wav@;
    assert(w1 =~= w0 + riff_tag() + le32((36 + n) % 0x1_0000_0000) + wave_tag() + fmt_tag());
    push_le32(wav, 16);
    push_le16(wav, 1);
    push_le16(wav, channels as u32);
    push_le32(wav, sample_rate);
    let ghost w2 = wav@;
    assert(w2 =~= w1 + le32(16) + le16(1) + le16(channels as int) + le32(sample_rate as int));
    push_le32(wav, sample_rate * (channels as u32) * 2);
    push_le16(wav, (channels * 2) as u32);
    push_le16(wav, 16);
    push_tag(wav, 100, 97, 116, 97);
    let ghost w3 = wav@;
    assert(w3 =~= w2 + le32(sample_rate * channels * 2) + le16(channels * 2) + le16(16) + data_tag());
    push_le32(wav, (n as u64 % 0x1_0000_0000) as u32);
    assert(wav@ =~= w3 + le32((n as int) % 0x1_0000_0000));
    reveal(written_header);
    assert(wav@ =~= w0 + written_header(n as int, sample_rate as int, channels as int));
}

/// What is wrong with a block of 16-bit PCM data, if anything.
#[derive(Debug, Clone, Copy, PartialEq, Eq, Structural)]
pub enum PcmProblem {
    /// The length is odd, so the data is not made of whole 2-byte samples.
    OddLength,
    /// The data lasts less than 10 ms at the expected sample rate.
    TooShort,
}

/// What `validate_pcm_audio` finds in `len` bytes of 16-bit PCM at `rate` Hz: an odd
/// length first, then fewer samples than 10 ms need (`100 * samples < rate`).  At rate
/// 0 the duration is infinite (or undefined for no data), never too short.
pub open spec fn pcm_problem_spec(len: nat, rate: nat) -> Option<PcmProblem> {
    if len % 2 != 0 {
        Some(PcmProblem::OddLength)
    } else if rate > 0 && 100 * (len / 2) < rate {
        Some(PcmProblem::TooShort)
    } else {
        None
    }
}

/// Checks 16-bit PCM data of `pcm_len` bytes: whole samples, and at least 10 ms of
/// audio at `expected_sample_rate`.
pub fn pcm_problem(pcm_len: usize, expected_sample_rate: u32) -> (r: Option<PcmProblem>)
    ensures
        r == pcm_problem_spec(pcm_len as nat, expected_sample_rate as nat),
{
    if pcm_len % 2 != 0 {
        Some(PcmProblem::OddLength)
    } else if expected_sample_rate > 0 && (pcm_len / 2) as u128 * 100 < expected_sample_rate as u128 {
        Some(PcmProblem::TooShort)
    } else {
        None
    }
}

/// The samples framed as WAV data.
pub fn encode_wav(samples: &[i16], sample_rate: u32, channels: u16) -> (r: Result<Vec<u8>, EngineError>)
    requires
        36 + 2 * samples@.len() <= usize::MAX,
        sample_rate * channels * 2 <= u32::MAX,
        channels * 2 <= u16::MAX,
    ensures
        r is Ok,
        r->Ok_0@ == wav_written(samples@, sample_rate as int, channels as int),
{
    let mut wav: Vec<u8> = Vec::new();
    let n = samples.len() * 2;
    push_written_header(&mut wav, n, sample_rate, channels);
    let ghost head = wav@;
    let mut i: usize = 0;
    while i < samples.len()
        invariant
            i <= samples.len(),
            wav@ == head + samples_bytes(samples@.subrange(0, i as int)),
        decreases samples.len() - i,
    {
        let s = samples[i];
        let u: u32 = if s < 0 { (s as i32 + 65536) as u32 } else { s as u32 };
        push_le16(&mut wav, u);
        assert(samples@.subrange(0, i + 1).drop_last() == samples@.subrange(0, i as int));
        assert(wav@ =~= head + samples_bytes(samples@.subrange(0, i + 1)));
        i += 1;
    }
    assert(samples@.subrange(0, samples@.len() as int) == samples@);
    Ok(wav)
}

/// The samples with `pause_samples` silent samples per channel appended.
pub fn add_pause(samples: &mut Vec<i16>, pause_samples: usize, channels: u16)
    requires
        pause_samples * channels <= usize::MAX,
    ensures
        final(samples)@ == old(samples)@ + Seq::new((pause_samples * channels) as nat, |i: int| 0i16),
{
    let total = pause_samples * (channels as usize);
    let mut k: usize = 0;
    while k < total
        invariant
            k <= total,
            total == pause_samples * channels,
            samples@ == old(samples)@ + Seq::new(k as nat, |i: int| 0i16),
        decreases total - k,
    {
        samples.push(0);
        assert(samples@ =~= old(samples)@ + Seq::new((k + 1) as nat, |i: int| 0i16));
        k += 1;
    }
}

/// The enhancer.
#[derive(Debug, Clone, Copy)]
pub struct AudioEnhancer {
    pub config: AudioEnhancementConfig,
}

impl AudioEnhancer {
    pub fn new(config: AudioEnhancementConfig) -> (r: Self)
        ensures
            r.config == config,
    {
        AudioEnhancer { config }
    }

    /// Whether the audio is returned untouched: neither fades nor pauses are on.
    pub fn passes_through(&self) -> (r: bool)
        ensures
            r == (!self.config.enable_fade && !self.config.enable_pause),
    {
        !self.config.enable_fade && !self.config.enable_pause
    }

    /// Whether a pause is appended to a segment: pauses on, and the segment is the last
    /// or ends a sentence.
    pub fn appends_pause(&self, is_last: bool, has_sentence_end: bool) -> (r: bool)
        ensures
            r == (self.config.enable_pause && (is_last || has_sentence_end)),
    {
        self.config.enable_pause && (is_last || has_sentence_end)
    }
}

impl Default for AudioEnhancer {
    fn default() -> (r: Self)
        ensures
            r.config.enable_fade,
            r.config.fade_duration_ms == 20,
            r.config.enable_pause,
            r.config.pause_duration_ms == 100,
            r.config.sample_rate == 22050,
            r.config.channels == 1,
    {
        AudioEnhancer { config: AudioEnhancementConfig::default() }
    }
}

// ---------------------------------------------------------------------------
// Reading back what was written
// ---------------------------------------------------------------------------

proof fn lemma_le16_read(w: Seq<u8>, i: int, x: int)
    requires
        0 <= i,
        i + 2 <= w.len(),
        0 <= x < 65536,
        w[i] == le16(x)[0],
        w[i + 1] == le16(x)[1],
    ensures
        le_at(w, i, 2) == x,
{
    reveal_with_fuel(le_at, 3);
    assert((x % 256) + 256 * ((x / 256) % 256) == x) by (nonlinear_arith)
        requires
            0 <= x < 65536,
    ;
}

proof fn lemma_le32_read(w: Seq<u8>, i: int, x: int)
    requires
        0 <= i,
        i + 4 <= w.len(),
        0 <= x < 0x1_0000_0000,
        w.subrange(i, i + 4) == le32(x),
    ensures
        le_at(w, i, 4) == x,
{
    reveal_with_fuel(le_at, 5);
    let lo = x % 65536;
    let hi = x / 65536;
    assert(w[i] == w.subrange(i, i + 4)[0]);
    assert(w[i + 1] == w.subrange(i, i + 4)[1]);
    assert(w[i + 2] == w.subrange(i, i + 4)[2]);
    assert(w[i + 3] == w.subrange(i, i + 4)[3]);
    assert(0 <= hi < 65536);
    assert((lo % 256) + 256 * ((lo / 256) % 256) == lo) by (nonlinear_arith)
        requires
            0 <= lo < 65536,
    ;
    assert((hi % 256) + 256 * ((hi / 256) % 256) == hi) by (nonlinear_arith)
        requires
            0 <= hi < 65536,
    ;
    assert(lo + 65536 * hi == x) by (nonlinear_arith)
        requires
            lo == x % 65536,
            hi == x / 65536,
    ;
}

proof fn lemma_samples_bytes_len(s: Seq<i16>)
    ensures
        samples_bytes(s).len() == 2 * s.len(),
    decreases s.len(),
{
    if s.len() > 0 {
        lemma_samples_bytes_len(s.drop_last());
    }
}

proof fn lemma_samples_bytes(s: Seq<i16>)
    ensures
        samples_bytes(s).len() == 2 * s.len(),
        forall|k: int|
            0 <= k < s.len() ==> sample_of(#[trigger] samples_bytes(s)[2 * k], samples_bytes(s)[2 * k + 1]) == s[k],
    decreases s.len(),
{
    if s.len() > 0 {
        let d = s.drop_last();
        lemma_samples_bytes(d);
        let b = samples_bytes(s);
        assert forall|k: int| 0 <= k < s.len() implies sample_of(#[trigger] b[2 * k], b[2 * k + 1]) == s[k] by {
            if k < d.len() {
                assert(b[2 * k] == samples_bytes(d)[2 * k]);
                assert(b[2 * k + 1] == samples_bytes(d)[2 * k + 1]);
                assert(d[k] == s[k]);
            } else {
                let v = s.last();
                let u: int = if v < 0 { v + 65536 } else { v as int };
                assert(b[2 * k] == le16(u)[0]);
                assert(b[2 * k + 1] == le16(u)[1]);
                assert((u % 256) + 256 * ((u / 256) % 256) == u) by (nonlinear_arith)
                    requires
                        0 <= u < 65536,
                ;
            }
        }
    }
}

/// The fields of the header written for `n` data bytes of mono audio at `rate`.
#[verifier::rlimit(80)]
#[verifier::spinoff_prover]
proof fn lemma_written_header(n: int, rate: int)
    requires
        0 <= n,
        n + 48 < 0x1_0000_0000,
        0 <= rate,
        rate * 2 <= u32::MAX,
    ensures
        ({
            let h = written_header(n, rate, 1);
            &&& h.len() == 44
            &&& h.subrange(0, 4) == riff_tag()
            &&& h.subrange(8, 12) == wave_tag()
            &&& h.subrange(12, 16) == fmt_tag()
            &&& h.subrange(16, 20) == le32(16)
            &&& h[20] == le16(1)[0] && h[21] == le16(1)[1]
            &&& h[22] == le16(1)[0] && h[23] == le16(1)[1]
            &&& h.subrange(24, 28) == le32(rate)
            &&& h[34] == le16(16)[0] && h[35] == le16(16)[1]
            &&& h.subrange(36, 40) == data_tag()
        }),
{
    let p0 = riff_tag() + le32((36 + n) % 0x1_0000_0000) + wave_tag() + fmt_tag();
    assert(p0.len() == 16);
    assert(p0.subrange(0, 4) =~= riff_tag());
    assert(p0.subrange(8, 12) =~= wave_tag());
    assert(p0.subrange(12, 16) =~= fmt_tag());
    let p1 = le32(16) + le16(1) + le16(1) + le32(rate) + le32(rate * 2) + le16(2) + le16(16);
    assert(p1.len() == 20);
    assert(p1.subrange(0, 4) =~= le32(16));
    assert(p1[4] == le16(1)[0] && p1[5] == le16(1)[1]);
    assert(p1[6] == le16(1)[0] && p1[7] == le16(1)[1]);
    assert(p1.subrange(8, 12) =~= le32(rate));
    assert(p1[18] == le16(16)[0] && p1[19] == le16(16)[1]);
    let p2 = data_tag() + le32(n % 0x1_0000_0000);
    assert(p2.subrange(0, 4) =~= data_tag());
    assert(p2.len() == 8);
    let h = written_header(n, rate, 1);
    reveal(written_header);
    assert(h =~= p0 + p1 + p2);
    assert(h.subrange(0, 4) =~= p0.subrange(0, 4));
    assert(h.subrange(8, 12) =~= p0.subrange(8, 12));
    assert(h.subrange(12, 16) =~= p0.subrange(12, 16));
    assert(h.subrange(16, 20) =~= p1.subrange(0, 4));
    assert(h.subrange(24, 28) =~= p1.subrange(8, 12));
    assert(h.subrange(36, 40) =~= p2.subrange(0, 4));
}

/// The chunk walk over written mono data finds the `fmt ` chunk, then the `data` chunk.
#[verifier::rlimit(50)]
#[verifier::spinoff_prover]
proof fn lemma_scan_written(s: Seq<i16>, rate: u32)
    requires
        48 + 2 * s.len() < 0x1_0000_0000,
        rate * 2 <= u32::MAX,
        s.len() > 0,
    ensures
        wav_written(s, rate as int, 1).len() >= 44,
        wav_written(s, rate as int, 1).subrange(0, 4) == riff_tag(),
        wav_written(s, rate as int, 1).subrange(8, 12) == wave_tag(),
        wav_scan(wav_written(s, rate as int, 1), 12, 22050, 1, 16) == WavScan::Data(44, rate as int, 1, 16),
{
    let n: int = 2 * (s.len() as int);
    let h = written_header(n, rate as int, 1);
    let sb = samples_bytes(s);
    let w = wav_written(s, rate as int, 1);
    lemma_samples_bytes(s);
    lemma_written_header(n, rate as int);
    assert(w == h + sb);
    assert(w.len() == h.len() + n);
    assert(w.subrange(0, 4) =~= h.subrange(0, 4));
    assert(w.subrange(8, 12) =~= h.subrange(8, 12));
    assert(w.subrange(12, 16) =~= h.subrange(12, 16));
    assert(w.subrange(16, 20) =~= h.subrange(16, 20));
    assert(w.subrange(24, 28) =~= h.subrange(24, 28));
    assert(w.subrange(36, 40) =~= h.subrange(36, 40));
    assert(w[20] == h[20] && w[21] == h[21] && w[22] == h[22] && w[23] == h[23]);
    assert(w[34] == h[34] && w[35] == h[35]);
    lemma_le32_read(w, 16, 16);
    lemma_le16_read(w, 20, 1);
    lemma_le16_read(w, 22, 1);
    lemma_le16_read(w, 34, 16);
    lemma_le32_read(w, 24, rate as int);
    assert(!tag_at(w, 36, fmt_tag())) by {
        assert(w.subrange(36, 40)[0] == 100);
        assert(fmt_tag()[0] == 102);
    }
    assert(wav_scan(w, 36, rate as int, 1, 16) == WavScan::Data(44, rate as int, 1, 16));
}

/// The bytes after the header of written mono data: the samples.
#[verifier::rlimit(50)]
#[verifier::spinoff_prover]
proof fn lemma_pcm_written(s: Seq<i16>, rate: u32)
    requires
        48 + 2 * s.len() < 0x1_0000_0000,
        rate * 2 <= u32::MAX,
    ensures
        ({
            let w = wav_written(s, rate as int, 1);
            w.subrange(44, w.len() as int) == samples_bytes(s)
        }),
{
    let n: int = 2 * (s.len() as int);
    let h = written_header(n, rate as int, 1);
    let sb = samples_bytes(s);
    let w = wav_written(s, rate as int, 1);
    lemma_samples_bytes_len(s);
    lemma_written_header(n, rate as int);
    assert(w == h + sb);
    assert(w.subrange(44, w.len() as int) =~= sb);
}

proof fn lemma_read_samples(s: Seq<i16>)
    ensures
        samples_of(samples_bytes(s), s.len()) == s,
{
    lemma_samples_bytes(s);
    let sb = samples_bytes(s);
    assert(samples_of(sb, s.len()) =~= s);
}

/// What the enhancer writes it reads back: one or more mono samples written and read
/// again come back as written, with the rate.
pub proof fn law_wav_roundtrip(s: Seq<i16>, rate: u32)
    requires
        48 + 2 * s.len() < 0x1_0000_0000,
        rate * 2 <= u32::MAX,
        s.len() > 0,
    ensures
        wav_read(wav_written(s, rate as int, 1)) == Ok::<(Seq<i16>, u32, u16), Seq<char>>((s, rate, 1u16)),
{
    lemma_scan_written(s, rate);
    lemma_pcm_written(s, rate);
    lemma_read_samples(s);
    lemma_samples_bytes_len(s);
    let w = wav_written(s, rate as int, 1);
    let pcm = w.subrange(44, w.len() as int);
    let frames = (pcm.len() as int) / (16int / 8) / 1;
    assert(pcm.len() == 2 * s.len());
    assert(frames == s.len());
    assert(samples_of(pcm, (frames * 1) as nat) == s);
}

// ---------------------------------------------------------------------------
// Streaming chunks
// ---------------------------------------------------------------------------

/// The chunks of `audio` from byte `offset` on: `chunk_bytes` bytes each (the last may
/// be shorter), with the time (ms) of the chunk's first sample and whether it is the
/// last.
pub open spec fn chunks_from(audio: Seq<u8>, offset: int, chunk_bytes: int, rate: int) -> Seq<(Seq<u8>, u64, bool)>
    decreases audio.len() - offset,
{
    if offset < 0 || offset >= audio.len() || chunk_bytes <= 0 {
        seq![]
    } else {
        let end = if offset + chunk_bytes < audio.len() { offset + chunk_bytes } else { audio.len() as int };
        seq![(audio.subrange(offset, end), ((offset / 2) * 1000 / rate) as u64, end >= audio.len())] + chunks_from(
            audio,
            end,
            chunk_bytes,
            rate,
        )
    }
}

/// The chunks of `audio`; one empty final chunk at time 0 when there is no audio.
pub open spec fn audio_chunks(audio: Seq<u8>, chunk_bytes: int, rate: int) -> Seq<(Seq<u8>, u64, bool)> {
    if audio.len() == 0 {
        seq![(seq![], 0u64, true)]
    } else {
        chunks_from(audio, 0, chunk_bytes, rate)
    }
}

pub open spec fn chunk_views(v: Seq<(Vec<u8>, u64, bool)>) -> Seq<(Seq<u8>, u64, bool)> {
    v.map_values(|c: (Vec<u8>, u64, bool)| (c.0@, c.1, c.2))
}

/// `audio` (16-bit PCM) cut into chunks of `chunk_size_samples` samples for streaming.
pub fn split_audio_to_chunks(audio: &[u8], chunk_size_samples: usize, sample_rate: u32) -> (r: Vec<(Vec<u8>, u64, bool)>)
    requires
        chunk_size_samples > 0,
        sample_rate > 0,
        2 * chunk_size_samples <= usize::MAX,
        audio@.len() + 2 * chunk_size_samples <= usize::MAX,
        (audio@.len() / 2) * 1000 <= u64::MAX,
    ensures
        chunk_views(r@) == audio_chunks(audio@, 2 * chunk_size_samples as int, sample_rate as int),
{
    let chunk_bytes = chunk_size_samples * 2;
    let mut chunks: Vec<(Vec<u8>, u64, bool)> = Vec::new();
    let mut offset: usize = 0;
    let ghost cb = chunk_bytes as int;
    while offset < audio.len()
        invariant
            offset <= audio@.len(),
            chunk_bytes == 2 * chunk_size_samples,
            cb == chunk_bytes,
            chunk_bytes > 0,
            sample_rate > 0,
            audio@.len() + chunk_bytes <= usize::MAX,
            (audio@.len() / 2) * 1000 <= u64::MAX,
            chunk_views(chunks@) + chunks_from(audio@, offset as int, cb, sample_rate as int) == chunks_from(
                audio@,
                0,
                cb,
                sample_rate as int,
            ),
        decreases audio.len() - offset,
    {
        let end = if offset + chunk_bytes < audio.len() { offset + chunk_bytes } else { audio.len() };
        let mut piece: Vec<u8> = Vec::new();
        let mut k: usize = offset;
        while k < end
            invariant
                offset <= k <= end <= audio@.len(),
                piece@ == audio@.subrange(offset as int, k as int),
            decreases end - k,
        {
            piece.push(audio[k]);
            assert(piece@ =~= audio@.subrange(offset as int, k + 1));
            k += 1;
        }
        assert((offset / 2) * 1000 <= (audio@.len() / 2) * 1000) by (nonlinear_arith)
            requires
                offset <= audio@.len(),
        ;
        let ts = ((offset / 2) as u64 * 1000) / (sample_rate as u64);
        let ghost before = chunk_views(chunks@);
        chunks.push((piece, ts, end >= audio.len()));
        assert(chunk_views(chunks@) =~= before.push((audio@.subrange(offset as int, end as int), ts, end >= audio@.len())));
        assert(chunks_from(audio@, offset as int, cb, sample_rate as int) == seq![
            (audio@.subrange(offset as int, end as int), ts, end >= audio@.len()),
        ] + chunks_from(audio@, end as int, cb, sample_rate as int));
        assert(chunk_views(chunks@) + chunks_from(audio@, end as int, cb, sample_rate as int) =~= before
            + chunks_from(audio@, offset as int, cb, sample_rate as int));
        offset = end;
    }
    if chunks.len() == 0 {
        chunks.push((Vec::new(), 0, true));
        assert(chunk_views(chunks@) =~= audio_chunks(audio@, 2 * chunk_size_samples as int, sample_rate as int));
    } else {
        assert(audio@.len() > 0);
        assert(chunk_views(chunks@) =~= audio_chunks(audio@, 2 * chunk_size_samples as int, sample_rate as int));
    }
    chunks
}

pub open spec fn concat_chunks(cs: Seq<(Seq<u8>, u64, bool)>) -> Seq<u8>
    decreases cs.len(),
{
    if cs.len() == 0 {
        seq![]
    } else {
        cs[0].0 + concat_chunks(cs.drop_first())
    }
}

proof fn lemma_chunks_concat(audio: Seq<u8>, offset: int, chunk_bytes: int, rate: int)
    requires
        0 <= offset <= audio.len(),
        chunk_bytes > 0,
    ensures
        concat_chunks(chunks_from(audio, offset, chunk_bytes, rate)) == audio.subrange(offset, audio.len() as int),
        forall|k: int|
            0 <= k < chunks_from(audio, offset, chunk_bytes, rate).len() ==> (#[trigger] chunks_from(
                audio,
                offset,
                chunk_bytes,
                rate,
            )[k]).2 == (k == chunks_from(audio, offset, chunk_bytes, rate).len() - 1),
    decreases audio.len() - offset,
{
    if offset < audio.len() {
        let end = if offset + chunk_bytes < audio.len() { offset + chunk_bytes } else { audio.len() as int };
        lemma_chunks_concat(audio, end, chunk_bytes, rate);
        let cs = chunks_from(audio, offset, chunk_bytes, rate);
        let rest = chunks_from(audio, end, chunk_bytes, rate);
        assert(cs.drop_first() =~= rest);
        assert(audio.subrange(offset, audio.len() as int) =~= audio.subrange(offset, end) + audio.subrange(
            end,
            audio.len() as int,
        ));
        assert forall|k: int| 0 <= k < cs.len() implies (#[trigger] cs[k]).2 == (k == cs.len() - 1) by {
            if k > 0 {
                assert(cs[k] == rest[k - 1]);
            } else if end < audio.len() {
                assert(rest.len() > 0);
            }
        }
    } else {
        assert(audio.subrange(offset, audio.len() as int) =~= Seq::<u8>::empty());
    }
}

/// Streaming chunks lose nothing: joined in order they give back the audio, and only
/// the last one is marked last.
pub proof fn law_chunks_cover_audio(audio: Seq<u8>, chunk_bytes: int, rate: int)
    requires
        chunk_bytes > 0,
    ensures
        concat_chunks(audio_chunks(audio, chunk_bytes, rate)) == audio,
        forall|k: int|
            0 <= k < audio_chunks(audio, chunk_bytes, rate).len() ==> (#[trigger] audio_chunks(audio, chunk_bytes, rate)[k]).2
                == (k == audio_chunks(audio, chunk_bytes, rate).len() - 1),
{
    if audio.len() == 0 {
        let cs = audio_chunks(audio, chunk_bytes, rate);
        assert(cs.drop_first() =~= Seq::<(Seq<u8>, u64, bool)>::empty());
        assert(concat_chunks(cs.drop_first()) == Seq::<u8>::empty());
        assert(cs[0].0 == Seq::<u8>::empty());
        assert(concat_chunks(cs) =~= audio);
    } else {
        lemma_chunks_concat(audio, 0, chunk_bytes, rate);
        assert(audio.subrange(0, audio.len() as int) =~= audio);
    }
}

} // verus!
