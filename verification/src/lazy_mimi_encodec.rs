//! The codec as callers see it: whole recordings, or chunk by chunk.
//!
//! Streaming keeps everything heard so far, runs the codec over it again and
//! hands out only what is new.

use crate::common::one_extent;
use crate::double::{truncated_ratio, whole_ratio};
use crate::error::Error;
use crate::lazy::{outcome, LazyTensor, Tensor, Term};
use crate::lazy_mimi::{MimiConfig, MimiModel, MimiWeights};
use crate::scalar::{div64, Precision, Scalar};
use crate::shape::{fits, ints, numel, product};
use crate::streaming::product3;
use std::sync::Arc;
use vstd::prelude::*;

verus! {

/// How signals pass between the frame rates of the encoder and of the codes.
#[derive(Debug, Copy, Clone, PartialEq, Eq, Structural)]
pub enum ResampleMethod {
    /// By strided convolutions.
    Conv,
    /// By interpolation, which has no implementation.
    Interpolate,
}

#[derive(Debug, Clone)]
pub struct MimiEncodecConfig {
    /// Channels of the audio.
    pub channels: usize,
    /// Samples for each second, as the bits of a double-precision number.
    pub sample_rate: u64,
    /// Frames of codes for each second, as the bits of a double-precision number.
    pub frame_rate: u64,
    /// Whether the audio is to be normalised; this is left to the caller.
    pub renormalize: bool,
    pub resample_method: ResampleMethod,
    pub inner: MimiConfig,
}

impl MimiEncodecConfig {
    /// Audio samples for each frame of the encoder.
    pub open spec fn hop(&self) -> int {
        product(ints(self.inner.seanet.ratios@))
    }

    /// The samples for each frame can be counted.
    pub open spec fn countable(&self) -> bool {
        fits(ints(self.inner.seanet.ratios@))
    }

    /// Encoder frames for each frame of codes.
    pub open spec fn stride(&self) -> int {
        whole_ratio(self.sample_rate, self.hop(), self.frame_rate)
    }

    /// Audio samples for each frame of codes.
    pub open spec fn total_stride(&self) -> int {
        self.hop() * self.stride()
    }

    /// The rates and sizes of version 0.1: 24000 samples and 12.5 frames for
    /// each second.
    pub fn v0_1(num_codebooks: Option<usize>) -> (r: Self)
        ensures
            r.channels == 1,
            r.sample_rate == 0x40D7_7000_0000_0000,
            r.frame_rate == 0x4029_0000_0000_0000,
            r.renormalize,
            r.resample_method == ResampleMethod::Conv,
            r.inner.seanet.is_v0_1(),
            r.inner.transformer.is_v0_1(),
            r.inner.channels == 1,
            r.inner.n_q == (match num_codebooks {
                Some(n) => n,
                None => 16,
            }),
            r.inner.quantizer_bins == 2048,
            r.inner.quantizer_dim == 256,
    {
        MimiEncodecConfig {
            channels: 1,
            sample_rate: 0x40D7_7000_0000_0000,
            frame_rate: 0x4029_0000_0000_0000,
            renormalize: true,
            resample_method: ResampleMethod::Conv,
            inner: MimiConfig::v0_1(num_codebooks),
        }
    }

    fn samples_per_frame(&self) -> (r: usize)
        requires
            self.countable(),
        ensures
            r == self.hop(),
    {
        match numel(self.inner.seanet.ratios.as_slice()) {
            Some(n) => n,
            None => 0,
        }
    }

    /// Frames of the encoder for each second.
    pub fn encoder_frame_rate(&self) -> (r: Scalar)
        requires
            self.countable(),
        ensures
            r == div64(
                Scalar::F64(self.sample_rate),
                Scalar::Nat(Precision::Double, self.hop() as usize),
            ),
    {
        Scalar::F64(self.sample_rate).div64(Scalar::Nat(Precision::Double, self.samples_per_frame()))
    }

    /// Encoder frames for each frame of codes: the whole part of the encoder
    /// frame rate over the frame rate of the codes.
    pub fn resampler_stride(&self) -> (r: usize)
        requires
            self.countable(),
        ensures
            r == self.stride(),
    {
        truncated_ratio(self.sample_rate, self.samples_per_frame(), self.frame_rate)
    }

    /// Audio samples for each frame of codes.
    pub fn total_audio_stride(&self) -> (r: usize)
        requires
            self.countable(),
            self.total_stride() <= usize::MAX,
        ensures
            r == self.total_stride(),
    {
        self.samples_per_frame() * self.resampler_stride()
    }
}

#[derive(Debug, Clone)]
pub struct MimiEncodecModel {
    pub config: MimiEncodecConfig,
    pub inner: MimiModel,
}

/// What was heard so far and how many frames of codes are out.
#[derive(Debug, Clone)]
pub struct MimiEncodecEncodeState {
    /// Channel after channel: sample `t` of channel `c` stands at
    /// `c * buffered_samples + t`.
    pub buffer: Vec<Scalar>,
    pub buffered_samples: usize,
    pub emitted_frames: usize,
}

/// Which codes came so far and how many frames of them are out as audio.
#[derive(Debug, Clone)]
pub struct MimiEncodecDecodeState {
    /// One row for each codebook.
    pub buffer: Vec<Vec<u32>>,
    pub buffered_frames: usize,
    pub emitted_frames: usize,
}

impl MimiEncodecEncodeState {
    /// Whether the buffer holds its samples for each of the channels.
    pub open spec fn wf(&self, channels: int) -> bool {
        self.buffer@.len() == channels * self.buffered_samples
    }

    /// Nothing heard yet.
    pub open spec fn is_empty_state(&self) -> bool {
        self.buffer@.len() == 0 && self.buffered_samples == 0 && self.emitted_frames == 0
    }

    pub fn empty() -> (r: Self)
        ensures
            r.is_empty_state(),
            forall|channels: int| #[trigger] r.wf(channels),
    {
        let r = MimiEncodecEncodeState { buffer: Vec::new(), buffered_samples: 0, emitted_frames: 0 };
        assert forall|channels: int| #[trigger] r.wf(channels) by {
            assert(channels * 0 == 0) by (nonlinear_arith);
        }
        r
    }
}

impl Default for MimiEncodecEncodeState {
    fn default() -> (r: Self)
        ensures
            r.is_empty_state(),
    {
        MimiEncodecEncodeState::empty()
    }
}

impl MimiEncodecDecodeState {
    /// Whether there is a full row for each codebook, or nothing at all.
    pub open spec fn wf(&self, n_q: int) -> bool {
        ||| self.buffer@.len() == 0 && self.buffered_frames == 0
        ||| self.buffer@.len() == n_q && forall|q: int|
            0 <= q < n_q ==> (#[trigger] self.buffer@[q])@.len() == self.buffered_frames
    }

    /// No codes yet.
    pub open spec fn is_empty_state(&self) -> bool {
        self.buffer@.len() == 0 && self.buffered_frames == 0 && self.emitted_frames == 0
    }

    /// The codes of codebook `q` so far.
    pub open spec fn row(&self, q: int) -> Seq<u32> {
        if 0 <= q < self.buffer@.len() {
            self.buffer@[q]@
        } else {
            seq![]
        }
    }

    pub fn empty() -> (r: Self)
        ensures
            r.is_empty_state(),
    {
        MimiEncodecDecodeState { buffer: Vec::new(), buffered_frames: 0, emitted_frames: 0 }
    }
}

impl Default for MimiEncodecDecodeState {
    fn default() -> (r: Self)
        ensures
            r.is_empty_state(),
    {
        MimiEncodecDecodeState::empty()
    }
}

/// The rows of `a`, each `n` long, followed by those of `b`, each `m` long.
pub open spec fn rows_joined(a: Seq<Scalar>, n: int, b: Seq<Scalar>, m: int, rows: int) -> Seq<Scalar> {
    Seq::new(
        (rows * (n + m)) as nat,
        |k: int|
            {
                let c = k / (n + m);
                let t = k % (n + m);
                if t < n {
                    a[c * n + t]
                } else {
                    b[c * m + (t - n)]
                }
            },
    )
}

/// The first `len` elements of each row of `a`, each `n` long.
pub open spec fn rows_taken(a: Seq<Scalar>, n: int, len: int, rows: int) -> Seq<Scalar> {
    Seq::new((rows * len) as nat, |k: int| a[(k / len) * n + k % len])
}

/// The position of column `t` of row `c`.
proof fn row_position(c: int, t: int, rows: int, width: int)
    requires
        0 <= c < rows,
        0 <= t < width,
    ensures
        0 <= c * width + t < rows * width,
        (c * width + t) / width == c,
        (c * width + t) % width == t,
        c * width >= 0,
        (c + 1) * width == c * width + width,
        c * width + width <= rows * width,
{
    assert(0 <= c * width && c * width + width <= rows * width && (c + 1) * width == c * width + width)
        by (nonlinear_arith)
        requires
            0 <= c < rows,
            0 <= width,
    ;
    vstd::arithmetic::div_mod::lemma_fundamental_div_mod_converse(c * width + t, width, c, t);
}

fn join_rows(a: &Vec<Scalar>, n: usize, b: &Vec<Scalar>, m: usize, rows: usize) -> (r: Vec<Scalar>)
    requires
        a@.len() == rows * n,
        b@.len() == rows * m,
        n + m <= usize::MAX,
        rows * (n + m) <= usize::MAX,
    ensures
        r@ == rows_joined(a@, n as int, b@, m as int, rows as int),
{
    let w: usize = n + m;
    let ghost want = rows_joined(a@, n as int, b@, m as int, rows as int);
    let mut out: Vec<Scalar> = Vec::new();
    let mut c: usize = 0;
    proof {
        assert(0 * w == 0) by (nonlinear_arith);
    }
    while c < rows
        invariant
            c <= rows,
            w == n + m,
            a@.len() == rows * n,
            b@.len() == rows * m,
            rows * w <= usize::MAX,
            want == rows_joined(a@, n as int, b@, m as int, rows as int),
            out@.len() == c * w,
            forall|j: int| 0 <= j < out@.len() ==> out@[j] == want[j],
        decreases rows - c,
    {
        assert(c * n + n <= rows * n && c * m + m <= rows * m && c * w + w <= rows * w && c * n >= 0 && c
            * m >= 0 && c * w >= 0 && (c + 1) * w == c * w + w) by (nonlinear_arith)
            requires
                c < rows,
                n >= 0,
                m >= 0,
                w >= 0,
        ;
        assert(a.len() == rows * n);
        assert(b.len() == rows * m);
        let from_a: usize = c * n;
        let from_b: usize = c * m;
        let mut t: usize = 0;
        while t < w
            invariant
                t <= w,
                c < rows,
                w == n + m,
                from_a == c * n,
                from_b == c * m,
                from_a + n <= a@.len() == rows * n,
                from_b + m <= b@.len() == rows * m,
                from_a + n <= usize::MAX,
                from_b + m <= usize::MAX,
                want == rows_joined(a@, n as int, b@, m as int, rows as int),
                out@.len() == c * w + t,
                forall|j: int| 0 <= j < out@.len() ==> out@[j] == want[j],
            decreases w - t,
        {
            proof {
                row_position(c as int, t as int, rows as int, w as int);
            }
            if t < n {
                out.push(a[from_a + t].clone());
            } else {
                out.push(b[from_b + (t - n)].clone());
            }
            t = t + 1;
        }
        c = c + 1;
    }
    assert(out@ =~= want);
    out
}

fn take_rows(a: &Vec<Scalar>, n: usize, len: usize, rows: usize) -> (r: Vec<Scalar>)
    requires
        a@.len() == rows * n,
        len <= n,
        rows * n <= usize::MAX,
    ensures
        r@ == rows_taken(a@, n as int, len as int, rows as int),
{
    let ghost want = rows_taken(a@, n as int, len as int, rows as int);
    let mut out: Vec<Scalar> = Vec::new();
    let mut c: usize = 0;
    proof {
        assert(0 * len == 0) by (nonlinear_arith);
    }
    while c < rows
        invariant
            c <= rows,
            len <= n,
            a@.len() == rows * n,
            rows * n <= usize::MAX,
            want == rows_taken(a@, n as int, len as int, rows as int),
            out@.len() == c * len,
            forall|j: int| 0 <= j < out@.len() ==> out@[j] == want[j],
        decreases rows - c,
    {
        assert(c * n + n <= rows * n && c * n >= 0 && (c + 1) * len == c * len + len && c * len >= 0)
            by (nonlinear_arith)
            requires
                c < rows,
                n >= 0,
                len >= 0,
        ;
        let from: usize = c * n;
        let mut t: usize = 0;
        while t < len
            invariant
                t <= len <= n,
                c < rows,
                from == c * n,
                from + n <= a@.len() == rows * n,
                from + n <= usize::MAX,
                want == rows_taken(a@, n as int, len as int, rows as int),
                out@.len() == c * len + t,
                forall|j: int| 0 <= j < out@.len() ==> out@[j] == want[j],
            decreases len - t,
        {
            proof {
                row_position(c as int, t as int, rows as int, len as int);
            }
            out.push(a[from + t].clone());
            t = t + 1;
        }
        c = c + 1;
    }
    assert(out@ =~= want);
    out
}

impl MimiEncodecModel {
    /// The parts of the codec fit together, and a frame of codes stands for some
    /// samples.
    pub open spec fn valid(&self) -> bool {
        &&& self.inner.valid()
        &&& self.config.inner.n_q == self.inner.weights.quantizer.n_q
        &&& self.config.countable()
        &&& 0 < self.config.total_stride() <= usize::MAX
    }

    /// Joins configuration and weights; their resampling strides have to agree.
    pub fn new(config: MimiEncodecConfig, weights: MimiWeights) -> (r: Result<Self, Error>)
        requires
            config.countable(),
        ensures
            match r {
                Ok(m) => weights.resampler_stride == config.stride() && m.config == config
                    && m.inner.weights == weights && m.inner.config.same(&config.inner),
                Err(e) => weights.resampler_stride != config.stride() && e == (Error::StrideMismatch {
                    expected: config.stride() as usize,
                    found: weights.resampler_stride,
                }),
            },
    {
        let expected: usize = config.resampler_stride();
        if weights.resampler_stride != expected {
            return Err(Error::StrideMismatch { expected, found: weights.resampler_stride });
        }
        let inner = MimiModel { config: config.inner.clone(), weights };
        Ok(MimiEncodecModel { config, inner })
    }

    /// Codes audio `(1, channels, time)` as `(1, n_q, frames)`.
    pub fn encode(&self, pcm: &LazyTensor) -> (r: Result<LazyTensor, Error>)
        requires
            self.inner.valid(),
        ensures
            if pcm@.rank() != 3 || pcm@.dim(1) != self.config.channels {
                r == Err::<LazyTensor, Error>(Error::InputShape)
            } else {
                outcome(r, self.inner.encoded(pcm@))
            },
    {
        if pcm.rank() != 3 || pcm.dim(1) != self.config.channels {
            return Err(Error::InputShape);
        }
        self.inner.encode(pcm)
    }

    /// Rebuilds audio `(1, channels, time)` from codes `(1, n_q, frames)`.
    pub fn decode(&self, codes: &LazyTensor) -> (r: Result<LazyTensor, Error>)
        requires
            self.inner.valid(),
            self.config.inner.n_q == self.inner.weights.quantizer.n_q,
        ensures
            if codes@.rank() != 3 || codes@.dim(1) != self.config.inner.n_q {
                r == Err::<LazyTensor, Error>(Error::InputShape)
            } else {
                outcome(r, self.inner.decoded(codes@))
            },
    {
        if codes.rank() != 3 || codes.dim(1) != self.config.inner.n_q {
            return Err(Error::InputShape);
        }
        self.inner.decode(codes)
    }

    /// The recording after a further chunk of `len` samples.
    pub open spec fn heard(&self, state: &MimiEncodecEncodeState, chunk: Seq<Scalar>, len: int) -> Seq<Scalar> {
        rows_joined(
            state.buffer@,
            state.buffered_samples as int,
            chunk,
            len,
            self.config.channels as int,
        )
    }

    /// The first `frames` frames of a recording of `n` samples, as audio.
    pub open spec fn whole_frames(&self, buffer: Seq<Scalar>, n: int, frames: int) -> Tensor {
        let len = frames * self.config.total_stride();
        let channels = self.config.channels as int;
        Tensor::constant(rows_taken(buffer, n, len, channels), seq![1, channels, len])
    }

    /// The codes of the frames `from..to` of a recording of `n` samples.
    pub open spec fn new_codes(&self, buffer: Seq<Scalar>, n: int, from: int, to: int) -> Tensor {
        self.inner.encoded(self.whole_frames(buffer, n, to)).narrow(2, from, to - from)
    }

    /// What a step of encoding returns.
    pub open spec fn encode_step_result(
        &self,
        state: MimiEncodecEncodeState,
        pcm: Tensor,
        chunk: Seq<Scalar>,
        r: Result<(MimiEncodecEncodeState, Option<LazyTensor>), Error>,
    ) -> bool {
        let len = pcm.dim(2);
        let n = state.buffered_samples + len;
        let buffer = self.heard(&state, chunk, len);
        let frames = n / self.config.total_stride();
        let codes = self.new_codes(buffer, n, state.emitted_frames as int, frames);
        if pcm.rank() != 3 || pcm.dim(0) != 1 || pcm.dim(1) != self.config.channels {
            r matches Err(e) && e == Error::InputShape
        } else if chunk.len() != self.config.channels * len {
            r matches Err(e) && e == (Error::ChunkLength {
                expected: (self.config.channels * len) as usize,
                found: chunk.len() as usize,
            })
        } else if frames > state.emitted_frames && codes.bad() {
            r matches Err(e) && codes.term == Term::Invalid(e)
        } else {
            &&& r is Ok
            &&& r->Ok_0.0.buffer@ == buffer
            &&& r->Ok_0.0.buffered_samples == n
            &&& r->Ok_0.0.wf(self.config.channels as int)
            &&& if frames > state.emitted_frames {
                &&& r->Ok_0.0.emitted_frames == frames
                &&& r->Ok_0.1 matches Some(y) && y@ == codes
            } else {
                &&& r->Ok_0.0.emitted_frames == state.emitted_frames
                &&& r->Ok_0.1 is None
            }
        }
    }

    /// Takes in a chunk of audio `(1, channels, len)` and returns the codes of the
    /// frames that it completes, if any. `samples` are the elements of the chunk,
    /// channel after channel.
    pub fn encode_step(
        &self,
        state: MimiEncodecEncodeState,
        pcm_chunk: &LazyTensor,
        samples: &Vec<Scalar>,
    ) -> (r: Result<(MimiEncodecEncodeState, Option<LazyTensor>), Error>)
        requires
            self.valid(),
            state.wf(self.config.channels as int),
            state.buffered_samples + pcm_chunk@.dim(2) <= usize::MAX,
            self.config.channels * (state.buffered_samples + pcm_chunk@.dim(2)) <= usize::MAX,
        ensures
            self.encode_step_result(state, pcm_chunk@, samples@, r),
    {
        let channels: usize = self.config.channels;
        if pcm_chunk.rank() != 3 || pcm_chunk.dim(0) != 1 || pcm_chunk.dim(1) != channels {
            return Err(Error::InputShape);
        }
        let len: usize = pcm_chunk.dim(2);
        let held: usize = state.buffered_samples;
        assert(channels * len <= channels * (held + len)) by (nonlinear_arith)
            requires
                channels >= 0,
                held >= 0,
                len >= 0,
        ;
        assert(channels * len >= 0) by (nonlinear_arith)
            requires
                channels >= 0,
                len >= 0,
        ;
        if samples.len() != channels * len {
            return Err(Error::ChunkLength { expected: channels * len, found: samples.len() });
        }
        let n: usize = held + len;
        let buffer = join_rows(&state.buffer, held, samples, len, channels);
        assert(buffer@.len() == channels * n);
        let stride: usize = self.config.total_audio_stride();
        let frames: usize = n / stride;
        let emitted: usize = state.emitted_frames;
        if frames <= emitted {
            return Ok(
                (MimiEncodecEncodeState { buffer, buffered_samples: n, emitted_frames: emitted }, None),
            );
        }
        assert(frames * stride <= n && frames * stride >= 0) by (nonlinear_arith)
            requires
                frames == n / stride,
                stride > 0,
                n >= 0,
        ;
        let usable: usize = frames * stride;
        let part = Arc::new(take_rows(&buffer, n, usable, channels));
        let pcm = LazyTensor::const3(&part, 1, channels, usable);
        let codes = match self.inner.encode(&pcm) {
            Ok(c) => c,
            Err(e) => {
                proof {
                    reveal(Tensor::narrow);
                }
                return Err(e);
            },
        };
        match codes.narrow(2, emitted, frames - emitted).finish() {
            Err(e) => Err(e),
            Ok(y) => Ok(
                (MimiEncodecEncodeState { buffer, buffered_samples: n, emitted_frames: frames }, Some(y)),
            ),
        }
    }
}

/// The rows of codes after a further chunk of `len` frames.
pub open spec fn rows_extended(state: &MimiEncodecDecodeState, chunk: Seq<u32>, len: int, n_q: int) -> Seq<
    Seq<u32>,
> {
    Seq::new(n_q as nat, |q: int| state.row(q) + chunk.subrange(q * len, q * len + len))
}

/// The contents of a list of rows.
pub open spec fn row_views(rows: Seq<Vec<u32>>) -> Seq<Seq<u32>> {
    Seq::new(rows.len(), |q: int| rows[q]@)
}

/// The first `n` rows, one after the other.
pub open spec fn flattened(rows: Seq<Seq<u32>>, n: int) -> Seq<u32>
    decreases n,
{
    if n <= 0 {
        seq![]
    } else {
        flattened(rows, n - 1) + rows[n - 1]
    }
}

pub proof fn flattened_len(rows: Seq<Seq<u32>>, n: int, len: int)
    requires
        0 <= n <= rows.len(),
        forall|q: int| 0 <= q < rows.len() ==> (#[trigger] rows[q]).len() == len,
    ensures
        flattened(rows, n).len() == n * len,
    decreases n,
{
    if n > 0 {
        flattened_len(rows, n - 1, len);
        assert((n - 1) * len + len == n * len) by (nonlinear_arith);
    } else {
        assert(0 * len == 0) by (nonlinear_arith);
    }
}

/// Codes laid out in rows keep the extents that they are given.
pub proof fn codes_have_rows(data: Seq<u32>, n_q: int, frames: int)
    requires
        0 <= n_q <= usize::MAX,
        0 <= frames,
        data.len() == n_q * frames,
        data.len() <= usize::MAX,
    ensures
        !Tensor::ids(data).reshape(seq![1, n_q, frames]).bad(),
        Tensor::ids(data).reshape(seq![1, n_q, frames]).dims == seq![1, n_q, frames],
{
    reveal(Tensor::ids);
    reveal(Tensor::reshape);
    let to = seq![1, n_q, frames];
    product3(1, n_q, frames);
    assert(to.drop_last() =~= seq![1, n_q]);
    assert(seq![1, n_q].drop_last() =~= seq![1int]);
    assert(seq![1int].drop_last() =~= Seq::<int>::empty());
    assert(fits(Seq::<int>::empty()));
    one_extent(1);
    assert(product(seq![1, n_q]) == n_q);
    assert(fits(seq![1int]));
    assert(fits(seq![1, n_q]));
    assert(fits(to));
    one_extent(data.len() as int);
    assert(1 * n_q * frames == n_q * frames) by (nonlinear_arith);
    assert(fits(seq![data.len() as int])) by {
        assert(seq![data.len() as int].drop_last() =~= Seq::<int>::empty());
    }
}

fn push_range(to: &mut Vec<u32>, from: &Vec<u32>, start: usize, len: usize)
    requires
        start + len <= from@.len(),
    ensures
        final(to)@ == old(to)@ + from@.subrange(start as int, start + len),
{
    let ghost before = to@;
    let mut i: usize = 0;
    assert(from.len() == from@.len());
    while i < len
        invariant
            i <= len,
            start + len <= from@.len() <= usize::MAX,
            to@ == before + from@.subrange(start as int, start + i),
        decreases len - i,
    {
        to.push(from[start + i]);
        i = i + 1;
        assert(to@ =~= before + from@.subrange(start as int, start + i));
    }
    assert(to@ =~= before + from@.subrange(start as int, start + len));
}

fn copy_row(row: &Vec<u32>) -> (r: Vec<u32>)
    ensures
        r@ == row@,
{
    let mut r: Vec<u32> = Vec::new();
    push_range(&mut r, row, 0, row.len());
    assert(r@ =~= row@);
    r
}

fn extend_rows(state: &MimiEncodecDecodeState, chunk: &Vec<u32>, len: usize, n_q: usize) -> (r: Vec<
    Vec<u32>,
>)
    requires
        state.wf(n_q as int),
        chunk@.len() == n_q * len,
    ensures
        row_views(r@) == rows_extended(state, chunk@, len as int, n_q as int),
{
    let ghost want = rows_extended(state, chunk@, len as int, n_q as int);
    let mut rows: Vec<Vec<u32>> = Vec::new();
    let mut q: usize = 0;
    while q < n_q
        invariant
            q <= n_q,
            state.wf(n_q as int),
            chunk@.len() == n_q * len,
            want == rows_extended(state, chunk@, len as int, n_q as int),
            rows@.len() == q,
            forall|j: int| 0 <= j < q ==> (#[trigger] rows@[j])@ == want[j],
        decreases n_q - q,
    {
        assert(q * len + len <= n_q * len && q * len >= 0) by (nonlinear_arith)
            requires
                q < n_q,
                len >= 0,
        ;
        assert(chunk.len() == n_q * len);
        let mut row: Vec<u32> = if state.buffer.len() == 0 {
            Vec::new()
        } else {
            copy_row(&state.buffer[q])
        };
        assert(row@ =~= state.row(q as int));
        push_range(&mut row, chunk, q * len, len);
        rows.push(row);
        q = q + 1;
    }
    assert(row_views(rows@) =~= want);
    rows
}

fn flatten(rows: &Vec<Vec<u32>>) -> (r: Vec<u32>)
    ensures
        r@ == flattened(row_views(rows@), rows@.len() as int),
{
    let mut out: Vec<u32> = Vec::new();
    let mut q: usize = 0;
    while q < rows.len()
        invariant
            q <= rows@.len(),
            out@ == flattened(row_views(rows@), q as int),
        decreases rows@.len() - q,
    {
        push_range(&mut out, &rows[q], 0, rows[q].len());
        assert(rows@[q as int]@.subrange(0, rows@[q as int]@.len() as int) =~= rows@[q as int]@);
        q = q + 1;
    }
    out
}

impl MimiEncodecModel {
    /// Codes `(1, n_q, frames)` with the given rows.
    pub open spec fn all_codes(&self, rows: Seq<Seq<u32>>, frames: int) -> Tensor {
        Tensor::ids(flattened(rows, rows.len() as int)).reshape(
            seq![1, self.config.inner.n_q as int, frames],
        )
    }

    /// The audio of the frames `from..to` of the codes with the given rows.
    pub open spec fn new_audio(&self, rows: Seq<Seq<u32>>, from: int, to: int) -> Tensor {
        let stride = self.config.total_stride();
        self.inner.decoded(self.all_codes(rows, to)).narrow(2, from * stride, (to - from) * stride)
    }

    /// What a step of decoding returns.
    pub open spec fn decode_step_result(
        &self,
        state: MimiEncodecDecodeState,
        codes: Tensor,
        chunk: Seq<u32>,
        r: Result<(MimiEncodecDecodeState, Option<LazyTensor>), Error>,
    ) -> bool {
        let n_q = self.config.inner.n_q as int;
        let len = codes.dim(2);
        let frames = state.buffered_frames + len;
        let rows = rows_extended(&state, chunk, len, n_q);
        let pcm = self.new_audio(rows, state.emitted_frames as int, frames);
        if codes.rank() != 3 || codes.dim(0) != 1 || codes.dim(1) != n_q {
            r matches Err(e) && e == Error::InputShape
        } else if len == 0 {
            r == Ok::<_, Error>((state, None::<LazyTensor>))
        } else if chunk.len() != n_q * len {
            r matches Err(e) && e == (Error::ChunkLength {
                expected: (n_q * len) as usize,
                found: chunk.len() as usize,
            })
        } else if frames > state.emitted_frames && pcm.bad() {
            r matches Err(e) && pcm.term == Term::Invalid(e)
        } else {
            &&& r is Ok
            &&& row_views(r->Ok_0.0.buffer@) == rows
            &&& r->Ok_0.0.buffered_frames == frames
            &&& r->Ok_0.0.wf(n_q)
            &&& if frames > state.emitted_frames {
                &&& r->Ok_0.0.emitted_frames == frames
                &&& r->Ok_0.1 matches Some(y) && y@ == pcm
            } else {
                &&& r->Ok_0.0.emitted_frames == state.emitted_frames
                &&& r->Ok_0.1 is None
            }
        }
    }

    /// Takes in a chunk of codes `(1, n_q, len)` and returns the audio of its
    /// frames. `indices` are the elements of the chunk, codebook after codebook.
    pub fn decode_step(
        &self,
        state: MimiEncodecDecodeState,
        codes_chunk: &LazyTensor,
        indices: &Vec<u32>,
    ) -> (r: Result<(MimiEncodecDecodeState, Option<LazyTensor>), Error>)
        requires
            self.valid(),
            state.wf(self.config.inner.n_q as int),
            state.buffered_frames + codes_chunk@.dim(2) <= usize::MAX,
            self.config.inner.n_q * (state.buffered_frames + codes_chunk@.dim(2)) <= usize::MAX,
            (state.buffered_frames + codes_chunk@.dim(2)) * self.config.total_stride() <= usize::MAX,
        ensures
            self.decode_step_result(state, codes_chunk@, indices@, r),
    {
        let n_q: usize = self.config.inner.n_q;
        if codes_chunk.rank() != 3 || codes_chunk.dim(0) != 1 || codes_chunk.dim(1) != n_q {
            return Err(Error::InputShape);
        }
        let len: usize = codes_chunk.dim(2);
        if len == 0 {
            return Ok((state, None));
        }
        let held: usize = state.buffered_frames;
        assert(n_q * len <= n_q * (held + len)) by (nonlinear_arith)
            requires
                n_q >= 0,
                held >= 0,
                len >= 0,
        ;
        assert(n_q * len >= 0) by (nonlinear_arith)
            requires
                n_q >= 0,
                len >= 0,
        ;
        if indices.len() != n_q * len {
            return Err(Error::ChunkLength { expected: n_q * len, found: indices.len() });
        }
        let frames: usize = held + len;
        let rows = extend_rows(&state, indices, len, n_q);
        let ghost views = row_views(rows@);
        proof {
            assert forall|q: int| 0 <= q < n_q implies (#[trigger] views[q]).len() == frames by {
                assert(q * len + len <= n_q * len && q * len >= 0) by (nonlinear_arith)
                    requires
                        0 <= q < n_q,
                        len >= 0,
                ;
                assert(state.row(q).len() == held);
            }
            assert(rows@.len() == views.len() == n_q);
            assert forall|q: int| 0 <= q < n_q implies (#[trigger] rows@[q])@.len() == frames by {
                assert(views[q] == rows@[q]@);
                assert(views[q].len() == frames);
            }
            flattened_len(views, n_q as int, frames as int);
        }
        let emitted: usize = state.emitted_frames;
        if frames <= emitted {
            return Ok(
                (
                    MimiEncodecDecodeState {
                        buffer: rows,
                        buffered_frames: frames,
                        emitted_frames: emitted,
                    },
                    None,
                ),
            );
        }
        let flat = flatten(&rows);
        let codes = LazyTensor::ids(flat.as_slice()).reshape3(1, n_q, frames);
        proof {
            codes_have_rows(flat@, n_q as int, frames as int);
        }
        let pcm = match self.inner.decode(&codes) {
            Ok(p) => p,
            Err(e) => {
                proof {
                    reveal(Tensor::narrow);
                }
                return Err(e);
            },
        };
        let stride: usize = self.config.total_audio_stride();
        assert(emitted * stride <= frames * stride && (frames - emitted) * stride <= frames * stride)
            by (nonlinear_arith)
            requires
                0 <= emitted < frames,
                stride >= 0,
        ;
        match pcm.narrow(2, emitted * stride, (frames - emitted) * stride).finish() {
            Err(e) => Err(e),
            Ok(y) => Ok(
                (
                    MimiEncodecDecodeState {
                        buffer: rows,
                        buffered_frames: frames,
                        emitted_frames: frames,
                    },
                    Some(y),
                ),
            ),
        }
    }
}

} // verus!
