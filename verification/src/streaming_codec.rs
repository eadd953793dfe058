//! The codec gives, chunk by chunk, what it gives at once.
//!
//! Under every lawful evaluation the codes that the steps of encoding hand out are
//! those of the whole recording, and the samples that the steps of decoding hand
//! out are those of all codes.

use crate::codec_causality::{downsample_is_causal, encoder_is_causal, transformer_is_causal};
use crate::codec_extents::{
    codec_decode_succeeds, codec_encode_succeeds, codec_frames, decoder_frames_multiply, decoder_hop_is_product,
    downsample_succeeds, encoder_succeeds, resample_up_succeeds, split_decode_succeeds,
    transformer_succeeds,
};
use crate::codec_streaming::{
    are_chunks, are_code_chunks, code_row, code_rows, code_total, code_total_grows,
    decode_steps_succeed, decodes_causally, encodes_causally, frames_grow, picks, recording,
    steps_succeed, streamed, streamed_audio, streaming_decode_equals_one_shot,
    streaming_encode_equals_one_shot, total, total_is_counted, Chunk, CodeChunk,
};
use crate::decoder_causality::{decoder_is_causal, resample_up_is_causal};
use crate::evaluation::{agrees, lawful, moment, same, At};
use crate::extents::{constant_has, extents, has, products};
use crate::lazy::Tensor;
use crate::lazy_mimi::MimiModel;
use crate::lazy_mimi_encodec::{
    codes_have_rows, flattened, flattened_len, rows_taken, MimiEncodecModel,
};
use crate::lazy_mimi_resampler::{ConvDownsample1dWeights, ConvTrUpsample1dWeights};
use crate::quantizer_causality::{quantizer_decode_agrees, quantizer_encode_agrees};
use crate::scalar::Scalar;
use crate::shape::ints;
use vstd::prelude::*;

verus! {

/// Audio that agrees at its first `m` samples has codes that agree at as many
/// frames as the latents of `m` samples make up.
pub proof fn mimi_encode_is_causal<V>(
    at: At<V>,
    model: &MimiModel,
    x: Tensor,
    y: Tensor,
    t: int,
    u: int,
    f: int,
    g: int,
    m: int,
)
    requires
        lawful(at),
        model.encodes(t, f),
        model.encodes(u, g),
        has(x, seq![1, model.config.seanet.channels as int, t]),
        has(y, seq![1, model.config.seanet.channels as int, u]),
        1 <= m <= t,
        m <= u,
        model.latent_frames(m) >= model.weights.resampler_stride,
        agrees(at, x, y, 2, m),
    ensures
        agrees(
            at,
            model.encoded(x),
            model.encoded(y),
            2,
            model.latent_frames(m) / model.weights.resampler_stride as int,
        ),
{
    let w = &model.weights;
    let cfg = &model.config.seanet;
    let tc = &model.config.transformer;
    let d = cfg.dimension as int;
    let s = w.resampler_stride as int;
    let l = model.latent_frames(m);
    encoder_succeeds(&w.encoder, cfg, x, 1, t);
    encoder_succeeds(&w.encoder, cfg, y, 1, u);
    encoder_is_causal(at, &w.encoder, cfg, x, y, t, u, m);
    let (lx, ly) = (w.encoder.value(cfg, x), w.encoder.value(cfg, y));
    transformer_succeeds(&w.encoder_transformer, tc, d, lx, 1, f);
    transformer_succeeds(&w.encoder_transformer, tc, d, ly, 1, g);
    transformer_is_causal(at, &w.encoder_transformer, tc, d, lx, ly, f, g, l);
    let mx = w.encoder_transformer.first_output(tc, d, lx);
    let my = w.encoder_transformer.first_output(tc, d, ly);
    let down = ConvDownsample1dWeights {
        weight: w.downsample_weight,
        dim: cfg.dimension,
        stride: w.resampler_stride,
    };
    downsample_succeeds(&down, mx, 1, f);
    downsample_succeeds(&down, my, 1, g);
    downsample_is_causal(at, &down, mx, my, f, g, l);
    vstd::arithmetic::div_mod::lemma_div_is_ordered(l, f, s);
    vstd::arithmetic::div_mod::lemma_div_is_ordered(l, g, s);
    quantizer_encode_agrees(
        at,
        &w.quantizer,
        model.downsampled(mx),
        model.downsampled(my),
        d,
        d,
        f / s,
        g / s,
        l / s,
    );
}

impl MimiEncodecModel {
    /// The parts of the encoder are those that the configuration describes.
    pub open spec fn encoder_in_step(&self) -> bool {
        let ratios = self.config.inner.seanet.ratios@;
        &&& self.config.total_stride() > 0
        &&& self.config.stride() >= 1
        &&& self.inner.weights.resampler_stride == self.config.stride()
        &&& self.inner.config.seanet.channels == self.config.channels
        &&& self.inner.weights.encoder.strides_are(ratios)
        &&& forall|j: int| 0 <= j < ratios.len() ==> #[trigger] ratios[j] >= 1
    }

    /// Audio of `t` samples can be encoded: all parts fit together for it.
    pub open spec fn encodes_samples(&self, t: int) -> bool {
        &&& self.inner.encodes(t, self.inner.latent_frames(t))
        &&& self.config.channels * t <= usize::MAX
    }

    /// Audio of `k` frames can be encoded.
    pub open spec fn encodes_frames(&self, k: int) -> bool {
        self.encodes_samples(k * self.config.total_stride())
    }

    /// All chunks can be encoded, and so can any number of their first frames.
    pub open spec fn encodes_chunks(&self, chunks: Seq<Chunk>) -> bool {
        &&& self.frames_in(chunks) >= 1 ==> self.encodes_samples(total(chunks))
        &&& forall|k: int| 1 <= k <= self.frames_in(chunks) ==> #[trigger] self.encodes_frames(k)
    }

    /// All chunks, as audio.
    pub open spec fn heard_audio(&self, chunks: Seq<Chunk>) -> Tensor {
        let channels = self.config.channels as int;
        Tensor::constant(recording(chunks, channels), seq![1, channels, total(chunks)])
    }

    /// The parts of the decoder are those that the configuration describes.
    pub open spec fn decoder_in_step(&self) -> bool {
        &&& self.config.total_stride() > 0
        &&& self.inner.weights.resampler_stride == self.config.stride()
        &&& self.inner.weights.quantizer.n_q == self.config.inner.n_q
        &&& self.inner.weights.decoder.strides_are(self.config.inner.seanet.ratios@)
    }

    /// `k` frames of codes can be decoded: all parts fit together for them.
    pub open spec fn decodes_frames(&self, k: int) -> bool {
        &&& self.inner.decodes(k)
        &&& self.config.inner.n_q * k <= usize::MAX
    }
}

/// The values of a tensor along time.
pub open spec fn along_time<V>(at: At<V>) -> spec_fn(Tensor, int) -> V {
    |t: Tensor, j: int| at(t, 2, j)
}

/// What stands at a moment of the first samples.
proof fn taken_at(a: Seq<Scalar>, n: int, len: int, rows: int, c: int, j: int)
    requires
        0 <= c < rows,
        0 <= j < len,
    ensures
        rows_taken(a, n, len, rows)[c * len + j] == a[c * n + j],
        0 <= c * len + j < rows * len,
{
    vstd::arithmetic::div_mod::lemma_fundamental_div_mod_converse(c * len + j, len, c, j);
    assert(0 <= c * len + j < rows * len) by (nonlinear_arith)
        requires
            0 <= c < rows,
            0 <= j < len,
    ;
}

/// A recording has its samples for each of the channels.
proof fn recording_counts(chunks: Seq<Chunk>, channels: int)
    requires
        are_chunks(chunks, channels),
        channels >= 0,
    ensures
        recording(chunks, channels).len() == channels * total(chunks),
        total(chunks) >= 0,
{
    total_is_counted(chunks, channels);
    assert(channels * total(chunks) >= 0) by (nonlinear_arith)
        requires
            channels >= 0,
            total(chunks) >= 0,
    ;
    if chunks.len() == 0 {
        assert(channels * 0 == 0) by (nonlinear_arith);
    }
}

/// The first frames of a recording begin all of it.
proof fn frames_agree<V>(at: At<V>, model: &MimiEncodecModel, chunks: Seq<Chunk>, k: int)
    requires
        lawful(at),
        1 <= k <= model.frames_in(chunks),
        are_chunks(chunks, model.config.channels as int),
        model.encoder_in_step(),
        model.encodes_chunks(chunks),
    ensures
        ({
            let s = model.config.total_stride();
            let c = model.config.channels as int;
            let x = model.first_frames(chunks, k);
            let y = model.heard_audio(chunks);
            &&& has(x, seq![1, c, k * s])
            &&& has(y, seq![1, c, total(chunks)])
            &&& s <= k * s <= total(chunks)
            &&& agrees(at, x, y, 2, k * s)
        }),
{
    let s = model.config.total_stride();
    let c = model.config.channels as int;
    let a = recording(chunks, c);
    let n = total(chunks);
    let l = k * s;
    recording_counts(chunks, c);
    assert(s <= l <= n) by (nonlinear_arith)
        requires
            l == k * s,
            1 <= k <= n / s,
            s >= 1,
    ;
    assert(model.encodes_frames(k));
    let d = rows_taken(a, n, l, c);
    assert(c * l >= 0) by (nonlinear_arith)
        requires
            c >= 0,
            l >= 0,
    ;
    products(1, c, l, 1, 1, 1);
    products(1, c, n, 1, 1, 1);
    assert(1 * c * l == c * l && 1 * c * n == c * n);
    constant_has(d, seq![1, c, l]);
    constant_has(a, seq![1, c, n]);
    let x = Tensor::constant(d, seq![1, c, l]);
    let y = Tensor::constant(a, seq![1, c, n]);
    assert forall|j: int| 0 <= j < l implies #[trigger] same(at, x, y, 2, j) by {
        assert forall|r: int| 0 <= r < c implies #[trigger] moment(d, c, l, j)[r] == moment(a, c, n, j)[r] by {
            taken_at(a, n, l, c, r, j);
        }
        assert(moment(d, c, l, j) =~= moment(a, c, n, j));
    }
}

/// The codes of the first `k` frames of a recording.
pub proof fn frames_have_codes(model: &MimiEncodecModel, chunks: Seq<Chunk>, k: int)
    requires
        1 <= k <= model.frames_in(chunks),
        model.encoder_in_step(),
        model.encodes_frames(k),
    ensures
        has(
            model.inner.encoded(model.first_frames(chunks, k)),
            seq![1, model.inner.weights.quantizer.n_q as int, k],
        ),
{
    let s = model.config.total_stride();
    let c = model.config.channels as int;
    let l = k * s;
    let d = rows_taken(recording(chunks, c), total(chunks), l, c);
    assert(l >= 1) by (nonlinear_arith)
        requires
            l == k * s,
            k >= 1,
            s >= 1,
    ;
    assert(c * l >= 0) by (nonlinear_arith)
        requires
            c >= 0,
            l >= 0,
    ;
    products(1, c, l, 1, 1, 1);
    assert(1 * c * l == c * l);
    constant_has(d, seq![1, c, l]);
    vstd::arithmetic::div_mod::lemma_div_by_multiple(k, s);
    codec_encode_succeeds(model, model.first_frames(chunks, k), l);
}

proof fn steps_do_succeed(model: &MimiEncodecModel, chunks: Seq<Chunk>)
    requires
        are_chunks(chunks, model.config.channels as int),
        model.encoder_in_step(),
        forall|k: int| 1 <= k <= model.frames_in(chunks) ==> #[trigger] model.encodes_frames(k),
    ensures
        steps_succeed(model, chunks),
    decreases chunks.len(),
{
    broadcast use extents;

    if chunks.len() > 0 {
        let before = model.frames_in(chunks.drop_last());
        let after = model.frames_in(chunks);
        frames_grow(model, chunks);
        steps_do_succeed(model, chunks.drop_last());
        if after > before {
            assert(model.encodes_frames(after));
            frames_have_codes(model, chunks, after);
        }
    }
}

/// The codes of the first `k` frames begin those of the whole recording.
proof fn codes_begin<V>(at: At<V>, model: &MimiEncodecModel, chunks: Seq<Chunk>, k: int)
    requires
        lawful(at),
        1 <= k <= model.frames_in(chunks),
        are_chunks(chunks, model.config.channels as int),
        model.encoder_in_step(),
        model.encodes_chunks(chunks),
    ensures
        agrees(
            at,
            model.inner.encoded(model.first_frames(chunks, k)),
            model.inner.encoded(model.heard_audio(chunks)),
            2,
            k,
        ),
{
    let s = model.config.total_stride();
    let m = k * s;
    let x = model.first_frames(chunks, k);
    let y = model.heard_audio(chunks);
    frames_agree(at, model, chunks, k);
    assert(model.encodes_frames(k));
    codec_frames(model, m);
    vstd::arithmetic::div_mod::lemma_div_by_multiple(k, s);
    mimi_encode_is_causal(
        at,
        &model.inner,
        x,
        y,
        m,
        total(chunks),
        model.inner.latent_frames(m),
        model.inner.latent_frames(total(chunks)),
        m,
    );
}

/// The codes of a frame do not depend on what follows it.
proof fn frames_encode_causally<V>(at: At<V>, model: &MimiEncodecModel, chunks: Seq<Chunk>)
    requires
        lawful(at),
        are_chunks(chunks, model.config.channels as int),
        model.encoder_in_step(),
        model.encodes_chunks(chunks),
    ensures
        encodes_causally(model, along_time(at), chunks),
{
    let reading = along_time(at);
    let all = model.frames_in(chunks);
    let whole = model.inner.encoded(model.heard_audio(chunks));
    assert forall|k: int, j: int| 0 <= j < k <= all implies #[trigger] reading(
        model.inner.encoded(model.first_frames(chunks, k)),
        j,
    ) == reading(model.inner.encoded(model.first_frames(chunks, all)), j) by {
        codes_begin(at, model, chunks, k);
        codes_begin(at, model, chunks, all);
        assert(same(at, model.inner.encoded(model.first_frames(chunks, k)), whole, 2, j));
        assert(same(at, model.inner.encoded(model.first_frames(chunks, all)), whole, 2, j));
    }
}

/// The codes of the whole recording.
proof fn recording_has_codes<V>(at: At<V>, model: &MimiEncodecModel, chunks: Seq<Chunk>)
    requires
        lawful(at),
        are_chunks(chunks, model.config.channels as int),
        model.encoder_in_step(),
        model.encodes_chunks(chunks),
        model.frames_in(chunks) >= 1,
    ensures
        has(
            model.inner.encoded(model.heard_audio(chunks)),
            seq![1, model.inner.weights.quantizer.n_q as int, model.frames_in(chunks)],
        ),
{
    frames_agree(at, model, chunks, model.frames_in(chunks));
    codec_encode_succeeds(model, model.heard_audio(chunks), total(chunks));
}

/// A lawful evaluation reads a narrowed tensor at its positions.
proof fn narrowing_picks<V>(at: At<V>)
    requires
        lawful(at),
    ensures
        picks(along_time(at)),
{
}

/// Tensors that agree have the same values.
proof fn values_alike<V>(at: At<V>, x: Tensor, y: Tensor, n: int)
    requires
        n >= 0,
        n >= 1 ==> agrees(at, x, y, 2, n),
    ensures
        Seq::new(n as nat, |j: int| along_time(at)(x, j)) == Seq::new(n as nat, |j: int| at(y, 2, j)),
{
    assert forall|j: int| 0 <= j < n implies #[trigger] at(x, 2, j) == at(y, 2, j) by {
        assert(same(at, x, y, 2, j));
    }
    assert(Seq::new(n as nat, |j: int| along_time(at)(x, j)) =~= Seq::new(
        n as nat,
        |j: int| at(y, 2, j),
    ));
}

/// Encoding chunk by chunk hands out, in order and each once, the codes that
/// encoding the whole recording at once gives, whatever its length.
pub proof fn streaming_encode_is_exact<V>(at: At<V>, model: &MimiEncodecModel, chunks: Seq<Chunk>)
    requires
        lawful(at),
        are_chunks(chunks, model.config.channels as int),
        model.encoder_in_step(),
        model.encodes_chunks(chunks),
    ensures
        steps_succeed(model, chunks),
        model.frames_in(chunks) >= 1 ==> has(
            model.inner.encoded(model.heard_audio(chunks)),
            seq![1, model.inner.weights.quantizer.n_q as int, model.frames_in(chunks)],
        ),
        streamed(model, along_time(at), chunks) == Seq::new(
            model.frames_in(chunks) as nat,
            |j: int| at(model.inner.encoded(model.heard_audio(chunks)), 2, j),
        ),
{
    let all = model.frames_in(chunks);
    let first = model.inner.encoded(model.first_frames(chunks, all));
    let whole = model.inner.encoded(model.heard_audio(chunks));
    total_is_counted(chunks, model.config.channels as int);
    vstd::arithmetic::div_mod::lemma_div_pos_is_pos(total(chunks), model.config.total_stride());
    steps_do_succeed(model, chunks);
    frames_encode_causally(at, model, chunks);
    narrowing_picks(at);
    streaming_encode_equals_one_shot(model, along_time(at), chunks);
    if all >= 1 {
        recording_has_codes(at, model, chunks);
        codes_begin(at, model, chunks, all);
    }
    values_alike(at, first, whole, all);
}

/// Codes that agree at their first `m` frames give audio that agrees at as many
/// samples as `m` frames give.
pub proof fn mimi_decode_is_causal<V>(
    at: At<V>,
    model: &MimiModel,
    x: Tensor,
    y: Tensor,
    t: int,
    u: int,
    m: int,
)
    requires
        lawful(at),
        model.decodes(t),
        model.decodes(u),
        has(x, seq![1, model.weights.quantizer.n_q as int, t]),
        has(y, seq![1, model.weights.quantizer.n_q as int, u]),
        1 <= m <= t,
        m <= u,
        agrees(at, x, y, 2, m),
    ensures
        agrees(
            at,
            model.decoded(x),
            model.decoded(y),
            2,
            m * model.weights.resampler_stride * model.weights.decoder.hop(
                model.weights.decoder.layers@.len() as int,
            ),
        ),
{
    let w = &model.weights;
    let cfg = &model.config.seanet;
    let tc = &model.config.transformer;
    let d = cfg.dimension as int;
    let s = w.resampler_stride as int;
    split_decode_succeeds(&w.quantizer, x, d, d, 1, t);
    split_decode_succeeds(&w.quantizer, y, d, d, 1, u);
    quantizer_decode_agrees(at, &w.quantizer, x, y, d, d, t, u, m);
    let (qx, qy) = (w.quantizer.decoded(x), w.quantizer.decoded(y));
    let up = ConvTrUpsample1dWeights {
        weight: w.upsample_weight,
        dim: cfg.dimension,
        stride: w.resampler_stride,
    };
    resample_up_succeeds(&up, qx, 1, t);
    resample_up_succeeds(&up, qy, 1, u);
    resample_up_is_causal(at, &up, qx, qy, t, u, m);
    assert(1 <= m * s <= t * s && m * s <= u * s) by (nonlinear_arith)
        requires
            1 <= m <= t,
            m <= u,
            s >= 1,
    ;
    let (lx, ly) = (model.upsampled(qx), model.upsampled(qy));
    transformer_succeeds(&w.decoder_transformer, tc, d, lx, 1, t * s);
    transformer_succeeds(&w.decoder_transformer, tc, d, ly, 1, u * s);
    transformer_is_causal(at, &w.decoder_transformer, tc, d, lx, ly, t * s, u * s, m * s);
    decoder_is_causal(
        at,
        &w.decoder,
        cfg,
        w.decoder_transformer.first_output(tc, d, lx),
        w.decoder_transformer.first_output(tc, d, ly),
        t * s,
        u * s,
        m * s,
    );
    decoder_frames_multiply(&w.decoder, w.decoder.layers@.len() as int, m * s);
}

/// The codes of a codebook, one for each frame.
proof fn code_row_counts(chunks: Seq<CodeChunk>, n_q: int, q: int)
    requires
        are_code_chunks(chunks, n_q),
        0 <= q < n_q,
    ensures
        code_row(chunks, q).len() == code_total(chunks),
    decreases chunks.len(),
{
    if chunks.len() > 0 {
        let front = chunks.drop_last();
        let c = chunks.last();
        code_front(chunks, n_q);
        code_row_counts(front, n_q, q);
        assert(chunks[chunks.len() - 1].len > 0);
        assert(0 <= q * c.len && q * c.len + c.len <= n_q * c.len) by (nonlinear_arith)
            requires
                0 <= q < n_q,
                c.len > 0,
        ;
    }
}

proof fn code_front(chunks: Seq<CodeChunk>, n_q: int)
    requires
        are_code_chunks(chunks, n_q),
        chunks.len() > 0,
    ensures
        are_code_chunks(chunks.drop_last(), n_q),
{
    let front = chunks.drop_last();
    assert forall|i: int| 0 <= i < front.len() implies (#[trigger] front[i]).len > 0
        && front[i].indices.len() == n_q * front[i].len by {
        assert(front[i] == chunks[i]);
    }
}

/// The codes of the first chunks begin those of all chunks.
proof fn code_row_begins(chunks: Seq<CodeChunk>, n_q: int, q: int, k: int, j: int)
    requires
        are_code_chunks(chunks, n_q),
        0 <= q < n_q,
        0 <= k <= chunks.len(),
        0 <= j < code_total(chunks.take(k)),
    ensures
        code_row(chunks.take(k), q)[j] == code_row(chunks, q)[j],
    decreases chunks.len(),
{
    if k == chunks.len() {
        assert(chunks.take(k) =~= chunks);
    } else {
        let front = chunks.drop_last();
        code_front(chunks, n_q);
        assert(front.take(k) =~= chunks.take(k));
        code_row_begins(front, n_q, q, k, j);
        code_total_grows(front, n_q, k);
        code_row_counts(front, n_q, q);
    }
}

/// What stands at a frame of a codebook when the rows follow each other.
proof fn flattened_at(rows: Seq<Seq<u32>>, n: int, len: int, q: int, j: int)
    requires
        0 <= q < n <= rows.len(),
        0 <= j < len,
        forall|i: int| 0 <= i < rows.len() ==> (#[trigger] rows[i]).len() == len,
    ensures
        flattened(rows, n)[q * len + j] == rows[q][j],
    decreases n,
{
    flattened_len(rows, n - 1, len);
    if q < n - 1 {
        flattened_at(rows, n - 1, len, q, j);
        assert(0 <= q * len + j < (n - 1) * len) by (nonlinear_arith)
            requires
                0 <= q < n - 1,
                0 <= j < len,
        ;
    } else {
        assert(q == n - 1);
    }
}

/// The codes of all chunks, as a tensor.
proof fn all_codes_have(model: &MimiEncodecModel, chunks: Seq<CodeChunk>)
    requires
        are_code_chunks(chunks, model.config.inner.n_q as int),
        code_total(chunks) >= 0,
        model.config.inner.n_q * code_total(chunks) <= usize::MAX,
    ensures
        has(
            model.all_codes(code_rows(chunks, model.config.inner.n_q as int), code_total(chunks)),
            seq![1, model.config.inner.n_q as int, code_total(chunks)],
        ),
        forall|i: int|
            0 <= i < model.config.inner.n_q ==> (#[trigger] code_rows(
                chunks,
                model.config.inner.n_q as int,
            )[i]).len() == code_total(chunks),
{
    let n_q = model.config.inner.n_q as int;
    let rows = code_rows(chunks, n_q);
    let len = code_total(chunks);
    assert forall|i: int| 0 <= i < n_q implies (#[trigger] rows[i]).len() == len by {
        code_row_counts(chunks, n_q, i);
    }
    flattened_len(rows, n_q, len);
    codes_have_rows(flattened(rows, n_q), n_q, len);
}

/// The codes of the first chunks begin those of all chunks.
proof fn codes_agree<V>(at: At<V>, model: &MimiEncodecModel, chunks: Seq<CodeChunk>, k: int)
    requires
        lawful(at),
        are_code_chunks(chunks, model.config.inner.n_q as int),
        0 <= k <= chunks.len(),
        1 <= code_total(chunks.take(k)),
        model.config.inner.n_q * code_total(chunks) <= usize::MAX,
    ensures
        ({
            let n_q = model.config.inner.n_q as int;
            let front = chunks.take(k);
            let x = model.all_codes(code_rows(front, n_q), code_total(front));
            let y = model.all_codes(code_rows(chunks, n_q), code_total(chunks));
            &&& code_total(front) <= code_total(chunks)
            &&& has(x, seq![1, n_q, code_total(front)])
            &&& has(y, seq![1, n_q, code_total(chunks)])
            &&& agrees(at, x, y, 2, code_total(front))
        }),
{
    let n_q = model.config.inner.n_q as int;
    let front = chunks.take(k);
    let (nx, ny) = (code_total(front), code_total(chunks));
    code_total_grows(chunks, n_q, k);
    assert(are_code_chunks(front, n_q)) by {
        assert forall|i: int| 0 <= i < front.len() implies (#[trigger] front[i]).len > 0
            && front[i].indices.len() == n_q * front[i].len by {
            assert(front[i] == chunks[i]);
        }
    }
    assert(n_q * nx <= n_q * ny) by (nonlinear_arith)
        requires
            n_q >= 0,
            nx <= ny,
    ;
    all_codes_have(model, front);
    all_codes_have(model, chunks);
    let (rx, ry) = (code_rows(front, n_q), code_rows(chunks, n_q));
    let (fx, fy) = (flattened(rx, n_q), flattened(ry, n_q));
    let (dx, dy) = (seq![1, n_q, nx], seq![1, n_q, ny]);
    assert forall|j: int| 0 <= j < nx implies #[trigger] same(
        at,
        Tensor::ids(fx).reshape(dx),
        Tensor::ids(fy).reshape(dy),
        2,
        j,
    ) by {
        assert forall|q: int| 0 <= q < n_q implies #[trigger] moment(fx, n_q, nx, j)[q] == moment(
            fy,
            n_q,
            ny,
            j,
        )[q] by {
            flattened_at(rx, n_q, nx, q, j);
            flattened_at(ry, n_q, ny, q, j);
            code_row_begins(chunks, n_q, q, k, j);
        }
        assert(moment(fx, n_q, nx, j) =~= moment(fy, n_q, ny, j));
    }
}

/// The audio of all chunks has the samples of all frames.
proof fn audio_has(model: &MimiEncodecModel, chunks: Seq<CodeChunk>)
    requires
        are_code_chunks(chunks, model.config.inner.n_q as int),
        model.decoder_in_step(),
        code_total(chunks) >= 1,
        model.decodes_frames(code_total(chunks)),
    ensures
        has(
            model.all_audio(chunks),
            seq![
                1,
                model.inner.config.seanet.channels as int,
                code_total(chunks) * model.config.total_stride(),
            ],
        ),
{
    all_codes_have(model, chunks);
    codec_decode_succeeds(
        model,
        model.all_codes(code_rows(chunks, model.config.inner.n_q as int), code_total(chunks)),
        code_total(chunks),
    );
}

/// Every step of decoding succeeds and hands out the samples of its chunk.
pub proof fn decode_steps_do_succeed(model: &MimiEncodecModel, chunks: Seq<CodeChunk>)
    requires
        are_code_chunks(chunks, model.config.inner.n_q as int),
        model.decoder_in_step(),
        forall|k: int| 1 <= k <= code_total(chunks) ==> #[trigger] model.decodes_frames(k),
    ensures
        decode_steps_succeed(model, chunks),
        code_total(chunks) >= 0,
        chunks.len() > 0 ==> model.last_audio(chunks).dim(2) == chunks.last().len * model.config.total_stride(),
    decreases chunks.len(),
{
    broadcast use extents;

    if chunks.len() > 0 {
        let s = model.config.total_stride();
        let front = chunks.drop_last();
        let len = chunks.last().len;
        code_front(chunks, model.config.inner.n_q as int);
        assert(chunks[chunks.len() - 1].len > 0);
        decode_steps_do_succeed(model, front);
        let before = code_total(front);
        assert(model.decodes_frames(code_total(chunks)));
        audio_has(model, chunks);
        assert(code_total(chunks) * s == before * s + len * s && before * s >= 0 && len * s >= 0)
            by (nonlinear_arith)
            requires
                code_total(chunks) == before + len,
                before >= 0,
                len >= 0,
                s > 0,
        ;
    }
}

/// Decoding chunk by chunk hands out, in order and each once, the samples that
/// decoding all codes at once does.
pub proof fn streaming_decode_is_exact<V>(at: At<V>, model: &MimiEncodecModel, chunks: Seq<CodeChunk>)
    requires
        lawful(at),
        are_code_chunks(chunks, model.config.inner.n_q as int),
        model.decoder_in_step(),
        forall|k: int| 1 <= k <= code_total(chunks) ==> #[trigger] model.decodes_frames(k),
    ensures
        decode_steps_succeed(model, chunks),
        streamed_audio(model, along_time(at), chunks) == Seq::new(
            (code_total(chunks) * model.config.total_stride()) as nat,
            |j: int| at(model.all_audio(chunks), 2, j),
        ),
{
    let reading = along_time(at);
    let s = model.config.total_stride();
    let n_q = model.config.inner.n_q as int;
    decode_steps_do_succeed(model, chunks);
    assert forall|k: int, j: int|
        0 <= k <= chunks.len() && 0 <= j < code_total(chunks.take(k)) * s implies #[trigger] reading(
        model.all_audio(chunks.take(k)),
        j,
    ) == reading(model.all_audio(chunks), j) by {
        let front = chunks.take(k);
        let (nx, ny) = (code_total(front), code_total(chunks));
        assert(nx >= 1) by (nonlinear_arith)
            requires
                0 <= j < nx * s,
                s > 0,
        ;
        code_total_grows(chunks, n_q, k);
        assert(model.decodes_frames(nx));
        assert(model.decodes_frames(ny));
        codes_agree(at, model, chunks, k);
        let x = model.all_codes(code_rows(front, n_q), nx);
        let y = model.all_codes(code_rows(chunks, n_q), ny);
        mimi_decode_is_causal(at, &model.inner, x, y, nx, ny, nx);
        let ratios = model.config.inner.seanet.ratios@;
        decoder_hop_is_product(&model.inner.weights.decoder, ratios, ratios.len() as int);
        assert(ints(ratios).take(ratios.len() as int) =~= ints(ratios));
        let (st, h) = (model.config.stride(), model.config.hop());
        assert(nx * st * h == nx * (h * st)) by (nonlinear_arith);
        assert(same(at, model.inner.decoded(x), model.inner.decoded(y), 2, j));
    }
    assert(decodes_causally(model, reading, chunks));
    assert(picks(reading));
    streaming_decode_equals_one_shot(model, reading, chunks);
    assert(streamed_audio(model, reading, chunks) =~= Seq::new(
        (code_total(chunks) * s) as nat,
        |j: int| at(model.all_audio(chunks), 2, j),
    ));
}

} // verus!
