//! Row-major tensor layouts for the speech models: repeating each value across an
//! embedding, transposing a matrix, orienting a mel spectrogram, widening its frames
//! for the vocoder and reading a waveform out of the vocoder's output.  The element
//! type is left open; the engine uses these on the models' samples.
use vstd::prelude::*;
use crate::error::EngineError;
use crate::text;
use crate::text::{decimal, decimal_digits, string_of, to_chars};

verus! {

/// Each value of `s` repeated `k` times in place.
pub open spec fn repeated<T>(s: Seq<T>, k: nat) -> Seq<T> {
    Seq::new(s.len() * k, |p: int| s[p / (k as int)])
}

/// The `rows` by `cols` matrix `s` (row-major) transposed: entry `(r, c)` goes to
/// position `c * rows + r`.
pub open spec fn transposed<T>(s: Seq<T>, rows: nat, cols: nat) -> Seq<T> {
    Seq::new(rows * cols, |p: int| s[(p % (rows as int)) * (cols as int) + p / (rows as int)])
}

/// The `frames` by `dim` matrix `s` widened to `frames` by `target`: column `d` of a
/// frame takes column `d % dim`.
pub open spec fn widened<T>(s: Seq<T>, frames: nat, dim: nat, target: nat) -> Seq<T> {
    Seq::new(
        frames * target,
        |p: int| s[(p / (target as int)) * (dim as int) + (p % (target as int)) % (dim as int)],
    )
}

proof fn lemma_div_below(p: int, n: int, k: int)
    requires
        0 <= p < n * k,
        k > 0,
    ensures
        0 <= p / k < n,
{
    assert(0 <= p / k < n) by (nonlinear_arith)
        requires
            0 <= p < n * k,
            k > 0,
    ;
}

proof fn lemma_cell_below(i: int, j: int, n: int, m: int)
    requires
        0 <= i < n,
        0 <= j < m,
    ensures
        0 <= i * m + j < n * m,
{
    assert(0 <= i * m + j < n * m) by (nonlinear_arith)
        requires
            0 <= i < n,
            0 <= j < m,
    ;
}

/// A copy of `v`.
pub(crate) fn copy_of<T: Copy>(v: &Vec<T>) -> (r: Vec<T>)
    ensures
        r@ == v@,
{
    let mut out: Vec<T> = Vec::new();
    let mut i: usize = 0;
    while i < v.len()
        invariant
            i <= v.len(),
            out@ =~= v@.subrange(0, i as int),
        decreases v.len() - i,
    {
        out.push(v[i]);
        i += 1;
    }
    out
}

/// Each value of `v` repeated `k` times in place: the input of a model that reads every
/// token as a `k`-wide embedding of its id.
pub fn repeat_each<T: Copy>(v: &Vec<T>, k: usize) -> (r: Vec<T>)
    requires
        v@.len() * k <= usize::MAX,
    ensures
        r@ == repeated(v@, k as nat),
{
    let n = v.len() * k;
    let mut out: Vec<T> = Vec::new();
    let mut p: usize = 0;
    while p < n
        invariant
            n == v@.len() * k,
            p <= n,
            out@ =~= Seq::new(p as nat, |q: int| v@[q / (k as int)]),
        decreases n - p,
    {
        proof {
            lemma_div_below(p as int, v@.len() as int, k as int);
        }
        out.push(v[p / k]);
        p += 1;
    }
    out
}

/// The `rows` by `cols` matrix `data` (row-major) transposed.
pub fn transpose<T: Copy>(data: &Vec<T>, rows: usize, cols: usize) -> (r: Vec<T>)
    requires
        data@.len() == rows * cols,
    ensures
        r@ == transposed(data@, rows as nat, cols as nat),
{
    let n = data.len();
    let mut out: Vec<T> = Vec::new();
    let mut p: usize = 0;
    while p < n
        invariant
            n == rows * cols,
            n == data@.len(),
            p <= n,
            out@ =~= Seq::new(p as nat, |q: int| data@[(q % (rows as int)) * (cols as int) + q / (rows as int)]),
        decreases n - p,
    {
        proof {
            assert(rows > 0) by (nonlinear_arith)
                requires
                    p < rows * cols,
            ;
            assert(p < cols * rows) by (nonlinear_arith)
                requires
                    p < rows * cols,
            ;
            lemma_div_below(p as int, cols as int, rows as int);
            lemma_cell_below((p % rows) as int, (p / rows) as int, rows as int, cols as int);
        }
        out.push(data[(p % rows) * cols + p / rows]);
        p += 1;
    }
    out
}

/// The mel spectrogram `mel`, a `dim1` by `dim2` matrix, with its 80 mel bins along the
/// rows: kept when its second dimension has 80 entries, transposed when only its first
/// has, kept otherwise.  Returns the matrix with its numbers of frames and of bins.
pub fn orient_mel<T: Copy>(mel: &Vec<T>, dim1: usize, dim2: usize) -> (r: (Vec<T>, usize, usize))
    requires
        mel@.len() == dim1 * dim2,
    ensures
        dim2 != 80 && dim1 == 80 ==> r.0@ == transposed(mel@, dim1 as nat, dim2 as nat) && r.1 == dim2 && r.2 == dim1,
        !(dim2 != 80 && dim1 == 80) ==> r.0@ == mel@ && r.1 == dim1 && r.2 == dim2,
        r.0@.len() == r.1 * r.2,
{
    if dim2 != 80 && dim1 == 80 {
        let t = transpose(mel, dim1, dim2);
        proof {
            assert(dim1 * dim2 == dim2 * dim1) by (nonlinear_arith);
        }
        (t, dim2, dim1)
    } else {
        (copy_of(mel), dim1, dim2)
    }
}

/// The vocoder's input from a `frames` by `mel_dim` mel spectrogram: 80 bins are
/// widened to the vocoder's 384 (bin `d` of the wide frame is bin `d % 80`), 384 bins
/// pass as they are, any other width is an error.  Returns the frames with their width.
pub fn vocoder_input<T: Copy>(mel: &Vec<T>, frames: usize, mel_dim: usize) -> (r: Result<(Vec<T>, usize), EngineError>)
    requires
        mel@.len() == frames * mel_dim,
        frames * 384 <= usize::MAX,
    ensures
        mel_dim == 80 ==> r is Ok && r->Ok_0.0@ == widened(mel@, frames as nat, 80, 384) && r->Ok_0.1 == 384,
        mel_dim == 384 ==> r is Ok && r->Ok_0.0@ == mel@ && r->Ok_0.1 == 384,
        mel_dim != 80 && mel_dim != 384 ==> r is Err && r->Err_0.message@ == "Unsupported mel-spectrogram dimension: "@
            + decimal(mel_dim as nat) + ", expected 80 or 384"@,
{
    if mel_dim == 384 {
        return Ok((copy_of(mel), 384));
    }
    if mel_dim != 80 {
        let mut m = to_chars("Unsupported mel-spectrogram dimension: ");
        text::append_chars(&mut m, &decimal_digits(mel_dim as u64));
        text::append_str(&mut m, ", expected 80 or 384");
        return Err(EngineError::new(string_of(&m)));
    }
    let n = frames * 384;
    let mut out: Vec<T> = Vec::new();
    let mut p: usize = 0;
    while p < n
        invariant
            n == frames * 384,
            mel@.len() == frames * 80,
            p <= n,
            out@ =~= Seq::new(p as nat, |q: int| mel@[(q / 384) * 80 + (q % 384) % 80]),
        decreases n - p,
    {
        proof {
            lemma_div_below(p as int, frames as int, 384);
            lemma_cell_below((p / 384) as int, ((p % 384) % 80) as int, frames as int, 80);
        }
        out.push(mel[(p / 384) * 80 + (p % 384) % 80]);
        p += 1;
    }
    Ok((out, 384))
}

/// The waveform in the vocoder's `time_steps` by `feature_dim` output: one feature per
/// step is read down the steps, one step along its features, and otherwise the matrix
/// is read column after column.  Every case is the transposed matrix.
pub fn vocoder_waveform<T: Copy>(out: &Vec<T>, time_steps: usize, feature_dim: usize) -> (r: Vec<T>)
    requires
        out@.len() == time_steps * feature_dim,
    ensures
        r@ == transposed(out@, time_steps as nat, feature_dim as nat),
{
    if feature_dim == 1 || time_steps == 1 {
        proof {
            let t = transposed(out@, time_steps as nat, feature_dim as nat);
            assert forall|p: int| 0 <= p < out@.len() implies t[p] == out@[p] by {
                let ts = time_steps as int;
                let fd = feature_dim as int;
                if feature_dim == 1 {
                    assert((p % ts) * fd + p / ts == p) by (nonlinear_arith)
                        requires
                            0 <= p < ts * fd,
                            fd == 1,
                    ;
                } else {
                    assert((p % ts) * fd + p / ts == p) by (nonlinear_arith)
                        requires
                            0 <= p,
                            ts == 1,
                    ;
                }
            }
            assert(t.len() == out@.len());
            assert(t =~= out@);
        }
        copy_of(out)
    } else {
        transpose(out, time_steps, feature_dim)
    }
}

/// Samples waiting to make up a model's fixed-size input frame.
pub struct FrameBuffer<T> {
    samples: Vec<T>,
}

impl<T: Copy> FrameBuffer<T> {
    /// The samples waiting, oldest first.
    pub closed spec fn pending(&self) -> Seq<T> {
        self.samples@
    }

    pub fn new() -> (r: Self)
        ensures
            r.pending().len() == 0,
    {
        FrameBuffer { samples: Vec::new() }
    }

    /// Drops the samples waiting.
    pub fn clear(&mut self)
        ensures
            final(self).pending().len() == 0,
    {
        self.samples = Vec::new();
    }

    /// Adds `data`.  Once `frame_size` samples are waiting, the first `frame_size` of
    /// them make the frame returned and the rest wait on.
    pub fn push(&mut self, data: &[T], frame_size: usize) -> (r: Option<Vec<T>>)
        ensures
            ({
                let all = old(self).pending() + data@;
                &&& all.len() < frame_size ==> r is None && final(self).pending() == all
                &&& all.len() >= frame_size ==> r is Some && r->0@ == all.take(frame_size as int)
                    && final(self).pending() == all.skip(frame_size as int)
            }),
    {
        let ghost all = old(self).pending() + data@;
        let mut i: usize = 0;
        let ghost before = self.samples@;
        while i < data.len()
            invariant
                i <= data.len(),
                before == old(self).pending(),
                all == before + data@,
                self.samples@ == before + data@.subrange(0, i as int),
            decreases data.len() - i,
        {
            self.samples.push(data[i]);
            assert(self.samples@ =~= before + data@.subrange(0, i + 1));
            i += 1;
        }
        assert(data@.subrange(0, data@.len() as int) == data@);
        if self.samples.len() < frame_size {
            return None;
        }
        let mut frame: Vec<T> = Vec::new();
        let mut rest: Vec<T> = Vec::new();
        let mut k: usize = 0;
        while k < self.samples.len()
            invariant
                frame_size <= self.samples@.len(),
                self.samples@ == all,
                k <= self.samples@.len(),
                frame@ == all.subrange(0, if k < frame_size { k as int } else { frame_size as int }),
                rest@ == if k < frame_size { Seq::<T>::empty() } else { all.subrange(frame_size as int, k as int) },
            decreases self.samples.len() - k,
        {
            if k < frame_size {
                frame.push(self.samples[k]);
                assert(frame@ =~= all.subrange(0, k + 1));
                if k + 1 == frame_size {
                    assert(rest@ =~= all.subrange(frame_size as int, k + 1));
                }
            } else {
                rest.push(self.samples[k]);
                assert(rest@ =~= all.subrange(frame_size as int, k + 1));
            }
            k += 1;
        }
        if frame_size == 0 {
            assert(rest@ =~= all.subrange(0, all.len() as int));
        }
        assert(all.take(frame_size as int) =~= frame@);
        assert(all.skip(frame_size as int) =~= rest@);
        self.samples = rest;
        Some(frame)
    }
}

} // verus!
