//! Running the codec chunk by chunk gives what running it at once gives.
//!
//! The laws speak of any reading of tensors position by position, such as the
//! numbers that an evaluation yields, in which narrowing a tensor picks its
//! positions and the codec is causal: what it makes of a position does not depend
//! on what comes after it.

use crate::error::Error;
use crate::lazy::{LazyTensor, Tensor};
use crate::lazy_mimi_encodec::{
    row_views, rows_extended, rows_joined, rows_taken, MimiEncodecDecodeState,
    MimiEncodecEncodeState, MimiEncodecModel,
};
use crate::scalar::Scalar;
use vstd::prelude::*;

verus! {

/// A chunk of audio: its samples, channel after channel, and its length.
pub ghost struct Chunk {
    pub samples: Seq<Scalar>,
    pub len: int,
}

/// Every chunk has its samples for each of the channels.
pub open spec fn are_chunks(chunks: Seq<Chunk>, channels: int) -> bool {
    forall|i: int|
        0 <= i < chunks.len() ==> (#[trigger] chunks[i]).len >= 0 && chunks[i].samples.len() == channels
            * chunks[i].len
}

/// Samples of all chunks for each channel.
pub open spec fn total(chunks: Seq<Chunk>) -> int
    decreases chunks.len(),
{
    if chunks.len() == 0 {
        0
    } else {
        total(chunks.drop_last()) + chunks.last().len
    }
}

/// All chunks as one recording, channel after channel.
pub open spec fn recording(chunks: Seq<Chunk>, channels: int) -> Seq<Scalar>
    decreases chunks.len(),
{
    if chunks.len() == 0 {
        seq![]
    } else {
        rows_joined(
            recording(chunks.drop_last(), channels),
            total(chunks.drop_last()),
            chunks.last().samples,
            chunks.last().len,
            channels,
        )
    }
}

/// Row `c` of rows of `n` elements.
pub open spec fn row(a: Seq<Scalar>, n: int, c: int) -> Seq<Scalar> {
    Seq::new(n as nat, |t: int| a[c * n + t])
}

proof fn position(c: int, t: int, rows: int, width: int)
    requires
        0 <= c < rows,
        0 <= t < width,
    ensures
        0 <= c * width + t < rows * width,
        (c * width + t) / width == c,
        (c * width + t) % width == t,
{
    assert(0 <= c * width && c * width + width <= rows * width) by (nonlinear_arith)
        requires
            0 <= c < rows,
            0 <= width,
    ;
    vstd::arithmetic::div_mod::lemma_fundamental_div_mod_converse(c * width + t, width, c, t);
}

/// Joining puts the row of a channel after the row of the same channel.
pub proof fn rows_join(a: Seq<Scalar>, n: int, b: Seq<Scalar>, m: int, rows: int, c: int)
    requires
        0 <= c < rows,
        0 <= n,
        0 <= m,
    ensures
        row(rows_joined(a, n, b, m, rows), n + m, c) == row(a, n, c) + row(b, m, c),
{
    let j = rows_joined(a, n, b, m, rows);
    assert forall|t: int| 0 <= t < n + m implies #[trigger] row(j, n + m, c)[t] == (row(a, n, c) + row(
        b,
        m,
        c,
    ))[t] by {
        position(c, t, rows, n + m);
    }
    assert(row(j, n + m, c) =~= row(a, n, c) + row(b, m, c));
}

/// The first samples of a recording do not change when it goes on.
pub proof fn prefix_stays(a: Seq<Scalar>, n: int, b: Seq<Scalar>, m: int, rows: int, len: int)
    requires
        0 <= len <= n,
        0 <= m,
        0 <= rows,
    ensures
        rows_taken(rows_joined(a, n, b, m, rows), n + m, len, rows) == rows_taken(a, n, len, rows),
{
    let j = rows_joined(a, n, b, m, rows);
    assert forall|k: int| 0 <= k < rows * len implies #[trigger] rows_taken(j, n + m, len, rows)[k]
        == rows_taken(a, n, len, rows)[k] by {
        let c = k / len;
        let t = k % len;
        assert(len > 0 && 0 <= t < len && 0 <= c < rows) by (nonlinear_arith)
            requires
                0 <= k < rows * len,
                rows >= 0,
                len >= 0,
                c == k / len,
                t == k % len,
        ;
        position(c, t, rows, n + m);
    }
    assert(rows_taken(j, n + m, len, rows) =~= rows_taken(a, n, len, rows));
}

impl MimiEncodecModel {
    /// Whole frames of codes in all chunks.
    pub open spec fn frames_in(&self, chunks: Seq<Chunk>) -> int {
        total(chunks) / self.config.total_stride()
    }

    /// Whether a state is the one after the chunks: it holds the recording, and
    /// all whole frames are out.
    pub open spec fn stands_after(&self, state: MimiEncodecEncodeState, chunks: Seq<Chunk>) -> bool {
        &&& state.buffer@ == recording(chunks, self.config.channels as int)
        &&& state.buffered_samples == total(chunks)
        &&& state.emitted_frames == self.frames_in(chunks)
    }

    /// The first `k` frames of the chunks, as audio.
    pub open spec fn first_frames(&self, chunks: Seq<Chunk>, k: int) -> Tensor {
        self.whole_frames(recording(chunks, self.config.channels as int), total(chunks), k)
    }

    /// The codes that the last of the chunks completes, if any.
    pub open spec fn last_codes(&self, chunks: Seq<Chunk>) -> Option<Tensor> {
        let before = self.frames_in(chunks.drop_last());
        let after = self.frames_in(chunks);
        if after > before {
            Some(self.inner.encoded(self.first_frames(chunks, after)).narrow(2, before, after - before))
        } else {
            None
        }
    }
}

pub proof fn total_is_counted(chunks: Seq<Chunk>, channels: int)
    requires
        are_chunks(chunks, channels),
    ensures
        total(chunks) >= 0,
    decreases chunks.len(),
{
    if chunks.len() > 0 {
        assert(chunks[chunks.len() - 1].len >= 0);
        front_is_chunks(chunks, channels);
        total_is_counted(chunks.drop_last(), channels);
    }
}

pub proof fn front_is_chunks(chunks: Seq<Chunk>, channels: int)
    requires
        are_chunks(chunks, channels),
        chunks.len() > 0,
    ensures
        are_chunks(chunks.drop_last(), channels),
{
    let front = chunks.drop_last();
    assert forall|i: int| 0 <= i < front.len() implies (#[trigger] front[i]).len >= 0
        && front[i].samples.len() == channels * front[i].len by {
        assert(front[i] == chunks[i]);
    }
}

/// Nothing heard yet is the state after no chunks.
pub proof fn empty_state_stands(model: &MimiEncodecModel, state: MimiEncodecEncodeState)
    requires
        state.is_empty_state(),
        model.config.total_stride() > 0,
    ensures
        model.stands_after(state, seq![]),
{
    let s = model.config.total_stride();
    vstd::arithmetic::div_mod::lemma_fundamental_div_mod_converse(0, s, 0, 0);
    assert(state.buffer@ =~= recording(seq![], model.config.channels as int));
}

/// A step that succeeds leads from the state after some chunks to the state after
/// one more, and returns the codes of the frames that this chunk completes.
pub proof fn encode_step_keeps_up(
    model: &MimiEncodecModel,
    chunks: Seq<Chunk>,
    state: MimiEncodecEncodeState,
    pcm: Tensor,
    r: Result<(MimiEncodecEncodeState, Option<LazyTensor>), Error>,
)
    requires
        chunks.len() > 0,
        are_chunks(chunks, model.config.channels as int),
        model.config.total_stride() > 0,
        model.stands_after(state, chunks.drop_last()),
        pcm.dim(2) == chunks.last().len,
        model.encode_step_result(state, pcm, chunks.last().samples, r),
        r is Ok,
    ensures
        model.stands_after(r->Ok_0.0, chunks),
        match model.last_codes(chunks) {
            None => r->Ok_0.1 is None,
            Some(t) => r->Ok_0.1 matches Some(y) && y@ == t,
        },
{
    let s = model.config.total_stride();
    let n = total(chunks.drop_last());
    assert(chunks[chunks.len() - 1].len >= 0);
    front_is_chunks(chunks, model.config.channels as int);
    total_is_counted(chunks.drop_last(), model.config.channels as int);
    vstd::arithmetic::div_mod::lemma_div_is_ordered(n, total(chunks), s);
}

/// What the steps hand out, frame by frame, under a reading of tensors.
pub open spec fn streamed<V>(
    model: &MimiEncodecModel,
    reading: spec_fn(Tensor, int) -> V,
    chunks: Seq<Chunk>,
) -> Seq<V>
    decreases chunks.len(),
{
    if chunks.len() == 0 {
        seq![]
    } else {
        let before = streamed(model, reading, chunks.drop_last());
        match model.last_codes(chunks) {
            None => before,
            Some(t) => before + Seq::new(
                (model.frames_in(chunks) - model.frames_in(chunks.drop_last())) as nat,
                |j: int| reading(t, j),
            ),
        }
    }
}

/// Narrowing a tensor along time picks its positions.
pub open spec fn picks<V>(reading: spec_fn(Tensor, int) -> V) -> bool {
    forall|t: Tensor, start: int, len: int, j: int|
        0 <= j < len && !t.narrow(2, start, len).bad() ==> #[trigger] reading(
            t.narrow(2, start, len),
            j,
        ) == reading(t, start + j)
}

/// Every step hands out codes that could be built.
pub open spec fn steps_succeed(model: &MimiEncodecModel, chunks: Seq<Chunk>) -> bool
    decreases chunks.len(),
{
    chunks.len() == 0 || {
        &&& steps_succeed(model, chunks.drop_last())
        &&& model.last_codes(chunks) matches Some(t) ==> !t.bad()
    }
}

/// The codes of a frame do not depend on later frames: those of the first `k`
/// frames of the recording agree with those of all its frames.
pub open spec fn encodes_causally<V>(
    model: &MimiEncodecModel,
    reading: spec_fn(Tensor, int) -> V,
    chunks: Seq<Chunk>,
) -> bool {
    let all = model.frames_in(chunks);
    forall|k: int, j: int|
        0 <= j < k <= all ==> #[trigger] reading(
            model.inner.encoded(model.first_frames(chunks, k)),
            j,
        ) == reading(model.inner.encoded(model.first_frames(chunks, all)), j)
}

/// The frames that were there before the last chunk.
pub proof fn first_frames_stay(model: &MimiEncodecModel, chunks: Seq<Chunk>, k: int)
    requires
        chunks.len() > 0,
        are_chunks(chunks, model.config.channels as int),
        model.config.total_stride() > 0,
        0 <= k <= model.frames_in(chunks.drop_last()),
    ensures
        model.first_frames(chunks, k) == model.first_frames(chunks.drop_last(), k),
{
    let s = model.config.total_stride();
    let front = chunks.drop_last();
    let n = total(front);
    front_is_chunks(chunks, model.config.channels as int);
    total_is_counted(front, model.config.channels as int);
    assert(chunks[chunks.len() - 1].len >= 0);
    assert(0 <= k * s <= n) by (nonlinear_arith)
        requires
            0 <= k <= n / s,
            s > 0,
            n >= 0,
    ;
    prefix_stays(
        recording(front, model.config.channels as int),
        n,
        chunks.last().samples,
        chunks.last().len,
        model.config.channels as int,
        k * s,
    );
}

/// Frames do not count less than before.
pub proof fn frames_grow(model: &MimiEncodecModel, chunks: Seq<Chunk>)
    requires
        chunks.len() > 0,
        are_chunks(chunks, model.config.channels as int),
        model.config.total_stride() > 0,
    ensures
        are_chunks(chunks.drop_last(), model.config.channels as int),
        0 <= model.frames_in(chunks.drop_last()) <= model.frames_in(chunks),
{
    let s = model.config.total_stride();
    let n = total(chunks.drop_last());
    front_is_chunks(chunks, model.config.channels as int);
    total_is_counted(chunks.drop_last(), model.config.channels as int);
    assert(chunks[chunks.len() - 1].len >= 0);
    vstd::arithmetic::div_mod::lemma_div_is_ordered(n, total(chunks), s);
    assert(n / s >= 0) by (nonlinear_arith)
        requires
            n >= 0,
            s > 0,
    ;
}

/// What holds of all chunks holds of those before the last.
proof fn front_encodes_causally<V>(
    model: &MimiEncodecModel,
    reading: spec_fn(Tensor, int) -> V,
    chunks: Seq<Chunk>,
)
    requires
        chunks.len() > 0,
        are_chunks(chunks, model.config.channels as int),
        model.config.total_stride() > 0,
        encodes_causally(model, reading, chunks),
    ensures
        encodes_causally(model, reading, chunks.drop_last()),
{
    let front = chunks.drop_last();
    let before = model.frames_in(front);
    let all = model.frames_in(chunks);
    frames_grow(model, chunks);
    assert forall|k: int, j: int| 0 <= j < k <= before implies #[trigger] reading(
        model.inner.encoded(model.first_frames(front, k)),
        j,
    ) == reading(model.inner.encoded(model.first_frames(front, before)), j) by {
        first_frames_stay(model, chunks, k);
        first_frames_stay(model, chunks, before);
        assert(reading(model.inner.encoded(model.first_frames(chunks, k)), j) == reading(
            model.inner.encoded(model.first_frames(chunks, all)),
            j,
        ));
        assert(reading(model.inner.encoded(model.first_frames(chunks, before)), j) == reading(
            model.inner.encoded(model.first_frames(chunks, all)),
            j,
        ));
    }
}

/// A sequence in two pieces.
proof fn pieces_join<V>(n: int, m: int, f: spec_fn(int) -> V, front: Seq<V>, rest: Seq<V>)
    requires
        0 <= n <= m,
        front.len() == n,
        rest.len() == m - n,
        forall|j: int| 0 <= j < n ==> #[trigger] front[j] == f(j),
        forall|j: int| 0 <= j < m - n ==> #[trigger] rest[j] == f(n + j),
    ensures
        front + rest == Seq::new(m as nat, f),
{
    assert(front + rest =~= Seq::new(m as nat, f));
}

/// Encoding chunk by chunk hands out, in order and each once, the codes of all
/// whole frames of the recording, as encoding them at once does.
pub proof fn streaming_encode_equals_one_shot<V>(
    model: &MimiEncodecModel,
    reading: spec_fn(Tensor, int) -> V,
    chunks: Seq<Chunk>,
)
    requires
        are_chunks(chunks, model.config.channels as int),
        model.config.total_stride() > 0,
        picks(reading),
        steps_succeed(model, chunks),
        encodes_causally(model, reading, chunks),
    ensures
        streamed(model, reading, chunks) == Seq::new(
            model.frames_in(chunks) as nat,
            |j: int| reading(model.inner.encoded(model.first_frames(chunks, model.frames_in(chunks))), j),
        ),
    decreases chunks.len(),
{
    let s = model.config.total_stride();
    let all = model.frames_in(chunks);
    let whole = model.inner.encoded(model.first_frames(chunks, all));
    let f = |j: int| reading(whole, j);
    if chunks.len() == 0 {
        vstd::arithmetic::div_mod::lemma_fundamental_div_mod_converse(0, s, 0, 0);
        assert(streamed(model, reading, chunks) =~= Seq::new(all as nat, f));
    } else {
        let front = chunks.drop_last();
        let before = model.frames_in(front);
        frames_grow(model, chunks);
        front_encodes_causally(model, reading, chunks);
        streaming_encode_equals_one_shot(model, reading, front);
        first_frames_stay(model, chunks, before);
        let was = streamed(model, reading, front);
        assert forall|j: int| 0 <= j < before implies #[trigger] was[j] == f(j) by {
            assert(reading(model.inner.encoded(model.first_frames(chunks, before)), j) == reading(
                whole,
                j,
            ));
        }
        let t = whole.narrow(2, before, all - before);
        let rest = Seq::new((all - before) as nat, |j: int| reading(t, j));
        assert forall|j: int| 0 <= j < all - before implies #[trigger] rest[j] == f(before + j) by {
            assert(reading(t, j) == reading(whole, before + j));
        }
        pieces_join(before, all, f, was, rest);
        if all == before {
            assert(rest =~= Seq::<V>::empty());
            assert(was + rest =~= was);
        }
    }
}

/// A chunk of codes: its indices, codebook after codebook, and its frames.
pub ghost struct CodeChunk {
    pub indices: Seq<u32>,
    pub len: int,
}

/// Every chunk has frames, and indices for each of the codebooks.
pub open spec fn are_code_chunks(chunks: Seq<CodeChunk>, n_q: int) -> bool {
    forall|i: int|
        0 <= i < chunks.len() ==> (#[trigger] chunks[i]).len > 0 && chunks[i].indices.len() == n_q
            * chunks[i].len
}

/// Frames of all chunks.
pub open spec fn code_total(chunks: Seq<CodeChunk>) -> int
    decreases chunks.len(),
{
    if chunks.len() == 0 {
        0
    } else {
        code_total(chunks.drop_last()) + chunks.last().len
    }
}

/// The codes of codebook `q` in all chunks.
pub open spec fn code_row(chunks: Seq<CodeChunk>, q: int) -> Seq<u32>
    decreases chunks.len(),
{
    if chunks.len() == 0 {
        seq![]
    } else {
        let c = chunks.last();
        code_row(chunks.drop_last(), q) + c.indices.subrange(q * c.len, q * c.len + c.len)
    }
}

/// The codes of all codebooks in all chunks.
pub open spec fn code_rows(chunks: Seq<CodeChunk>, n_q: int) -> Seq<Seq<u32>> {
    Seq::new(n_q as nat, |q: int| code_row(chunks, q))
}

impl MimiEncodecModel {
    /// Whether a state is the one after the chunks: it holds their codes, and all
    /// of them are out as audio.
    pub open spec fn decode_stands_after(&self, state: MimiEncodecDecodeState, chunks: Seq<CodeChunk>) -> bool {
        &&& forall|q: int|
            0 <= q < self.config.inner.n_q ==> #[trigger] state.row(q) == code_row(chunks, q)
        &&& state.buffered_frames == code_total(chunks)
        &&& state.emitted_frames == code_total(chunks)
    }

    /// The audio of all chunks.
    pub open spec fn all_audio(&self, chunks: Seq<CodeChunk>) -> Tensor {
        self.inner.decoded(
            self.all_codes(code_rows(chunks, self.config.inner.n_q as int), code_total(chunks)),
        )
    }

    /// The audio of the last of the chunks.
    pub open spec fn last_audio(&self, chunks: Seq<CodeChunk>) -> Tensor {
        let s = self.config.total_stride();
        let before = code_total(chunks.drop_last());
        self.all_audio(chunks).narrow(2, before * s, chunks.last().len * s)
    }
}

/// No codes yet is the state after no chunks.
pub proof fn empty_decode_state_stands(model: &MimiEncodecModel, state: MimiEncodecDecodeState)
    requires
        state.is_empty_state(),
    ensures
        model.decode_stands_after(state, seq![]),
{
    assert forall|q: int| 0 <= q < model.config.inner.n_q implies #[trigger] state.row(q) == code_row(
        seq![],
        q,
    ) by {
        assert(state.row(q) =~= code_row(seq![], q));
    }
}

/// A step that succeeds leads from the state after some chunks to the state after
/// one more, and returns the audio of this chunk.
pub proof fn decode_step_keeps_up(
    model: &MimiEncodecModel,
    chunks: Seq<CodeChunk>,
    state: MimiEncodecDecodeState,
    codes: Tensor,
    r: Result<(MimiEncodecDecodeState, Option<LazyTensor>), Error>,
)
    requires
        chunks.len() > 0,
        are_code_chunks(chunks, model.config.inner.n_q as int),
        model.decode_stands_after(state, chunks.drop_last()),
        codes.dim(2) == chunks.last().len,
        model.decode_step_result(state, codes, chunks.last().indices, r),
        r is Ok,
    ensures
        model.decode_stands_after(r->Ok_0.0, chunks),
        r->Ok_0.1 matches Some(y) && y@ == model.last_audio(chunks),
{
    let n_q = model.config.inner.n_q as int;
    let c = chunks.last();
    assert(chunks[chunks.len() - 1].len > 0);
    let rows = rows_extended(&state, c.indices, c.len, n_q);
    assert forall|q: int| 0 <= q < n_q implies #[trigger] rows[q] == code_row(chunks, q) by {
        assert(state.row(q) == code_row(chunks.drop_last(), q));
    }
    assert(rows =~= code_rows(chunks, n_q));
    let next = r->Ok_0.0;
    assert(next.buffer@.len() == rows.len()) by {
        assert(row_views(next.buffer@).len() == rows.len());
    }
    assert forall|q: int| 0 <= q < n_q implies #[trigger] next.row(q) == code_row(chunks, q) by {
        assert(row_views(next.buffer@)[q] == rows[q]);
    }
}

/// What the steps hand out, sample by sample, under a reading of tensors.
pub open spec fn streamed_audio<V>(
    model: &MimiEncodecModel,
    reading: spec_fn(Tensor, int) -> V,
    chunks: Seq<CodeChunk>,
) -> Seq<V>
    decreases chunks.len(),
{
    if chunks.len() == 0 {
        seq![]
    } else {
        streamed_audio(model, reading, chunks.drop_last()) + Seq::new(
            (chunks.last().len * model.config.total_stride()) as nat,
            |j: int| reading(model.last_audio(chunks), j),
        )
    }
}

/// Every step hands out audio that could be built.
pub open spec fn decode_steps_succeed(model: &MimiEncodecModel, chunks: Seq<CodeChunk>) -> bool
    decreases chunks.len(),
{
    chunks.len() == 0 || {
        &&& decode_steps_succeed(model, chunks.drop_last())
        &&& !model.last_audio(chunks).bad()
    }
}

/// The audio of a frame does not depend on later frames: that of the first chunks
/// agrees with that of all of them.
pub open spec fn decodes_causally<V>(
    model: &MimiEncodecModel,
    reading: spec_fn(Tensor, int) -> V,
    chunks: Seq<CodeChunk>,
) -> bool {
    let s = model.config.total_stride();
    forall|k: int, j: int|
        0 <= k <= chunks.len() && 0 <= j < code_total(chunks.take(k)) * s ==> #[trigger] reading(
            model.all_audio(chunks.take(k)),
            j,
        ) == reading(model.all_audio(chunks), j)
}

/// Decoding chunk by chunk hands out, in order and each once, the samples that
/// decoding all chunks at once does.
pub proof fn streaming_decode_equals_one_shot<V>(
    model: &MimiEncodecModel,
    reading: spec_fn(Tensor, int) -> V,
    chunks: Seq<CodeChunk>,
)
    requires
        are_code_chunks(chunks, model.config.inner.n_q as int),
        model.config.total_stride() > 0,
        picks(reading),
        decode_steps_succeed(model, chunks),
        decodes_causally(model, reading, chunks),
    ensures
        streamed_audio(model, reading, chunks) == Seq::new(
            (code_total(chunks) * model.config.total_stride()) as nat,
            |j: int| reading(model.all_audio(chunks), j),
        ),
        code_total(chunks) >= 0,
    decreases chunks.len(),
{
    let s = model.config.total_stride();
    let whole = model.all_audio(chunks);
    let all = code_total(chunks);
    let f = |j: int| reading(whole, j);
    if chunks.len() == 0 {
        assert(0 * s == 0) by (nonlinear_arith);
        assert(streamed_audio(model, reading, chunks) =~= Seq::new((all * s) as nat, f));
    } else {
        let front = chunks.drop_last();
        let k = front.len() as int;
        assert(chunks.take(k) =~= front);
        assert(chunks[k].len > 0);
        assert forall|i: int| 0 <= i < front.len() implies (#[trigger] front[i]).len > 0
            && front[i].indices.len() == model.config.inner.n_q * front[i].len by {
            assert(front[i] == chunks[i]);
        }
        assert forall|i: int, j: int|
            0 <= i <= front.len() && 0 <= j < code_total(front.take(i)) * s implies #[trigger] reading(
            model.all_audio(front.take(i)),
            j,
        ) == reading(model.all_audio(front), j) by {
            assert(front.take(i) =~= chunks.take(i));
            assert(reading(model.all_audio(chunks.take(i)), j) == reading(whole, j));
            code_total_grows(front, model.config.inner.n_q as int, i);
            assert(code_total(front.take(i)) * s <= code_total(front) * s) by (nonlinear_arith)
                requires
                    code_total(front.take(i)) <= code_total(front),
                    s > 0,
            ;
            assert(reading(model.all_audio(chunks.take(k)), j) == reading(whole, j));
        }
        streaming_decode_equals_one_shot(model, reading, front);
        let before = code_total(front);
        let len = chunks.last().len;
        assert(all * s == before * s + len * s && before * s >= 0 && len * s >= 0) by (nonlinear_arith)
            requires
                all == before + len,
                before >= 0,
                len >= 0,
                s > 0,
        ;
        let was = streamed_audio(model, reading, front);
        assert forall|j: int| 0 <= j < before * s implies #[trigger] was[j] == f(j) by {
            assert(reading(model.all_audio(chunks.take(k)), j) == reading(whole, j));
        }
        let t = model.last_audio(chunks);
        let rest = Seq::new((len * s) as nat, |j: int| reading(t, j));
        assert forall|j: int| 0 <= j < len * s implies #[trigger] rest[j] == f(before * s + j) by {
            assert(reading(t, j) == reading(whole, before * s + j));
        }
        pieces_join(before * s, all * s, f, was, rest);
    }
}

pub proof fn code_total_grows(chunks: Seq<CodeChunk>, n_q: int, k: int)
    requires
        are_code_chunks(chunks, n_q),
        0 <= k <= chunks.len(),
    ensures
        code_total(chunks.take(k)) <= code_total(chunks),
    decreases chunks.len(),
{
    if k == chunks.len() {
        assert(chunks.take(k) =~= chunks);
    } else {
        let front = chunks.drop_last();
        assert forall|i: int| 0 <= i < front.len() implies (#[trigger] front[i]).len > 0
            && front[i].indices.len() == n_q * front[i].len by {
            assert(front[i] == chunks[i]);
        }
        assert(chunks[chunks.len() - 1].len > 0);
        assert(front.take(k) =~= chunks.take(k));
        code_total_grows(front, n_q, k);
    }
}

} // verus!
