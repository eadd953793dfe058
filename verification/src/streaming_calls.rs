//! Runs of calls: the results of calling a streaming step over and over, each
//! time with the state that the last call returned.
//!
//! What the calls of a run hand out, one after the other, is what one call on the
//! whole input gives.

use crate::codec_streaming::{
    are_chunks, are_code_chunks, code_row, code_rows, code_total, code_total_grows,
    decode_step_keeps_up,
    empty_decode_state_stands, empty_state_stands, encode_step_keeps_up, frames_grow, recording,
    row, rows_join, streamed, streamed_audio, total, total_is_counted, Chunk, CodeChunk,
};
use crate::error::Error;
use crate::evaluation::{lawful, At};
use crate::extents::narrow_has;
use crate::lazy::{LazyTensor, Tensor};
use crate::lazy_mimi_conv::{opt_view, StreamConv1dState, StreamState, StreamableConv1dWeights};
use crate::lazy_mimi_conv_transpose::{
    StreamConvTranspose1dState, StreamableConvTranspose1dWeights,
};
use crate::lazy_mimi_encodec::{
    rows_extended, MimiEncodecDecodeState, MimiEncodecEncodeState, MimiEncodecModel,
};
use crate::scalar::Scalar;
use crate::streaming::{
    columns, emitted, is_signal, joined, stream, stream_stands, streaming_equals_one_shot, well_grouped,
    Column,
};
use crate::streaming_codec::{
    along_time, decode_steps_do_succeed, frames_have_codes, streaming_decode_is_exact, streaming_encode_is_exact,
};
use crate::streaming_transpose::{
    are_pieces, gapless, mixes, step_upsamples, stream_upsamples, transpose_stream,
    transpose_streaming_equals_one_shot, upsampled, Mix,
};
use vstd::prelude::*;

verus! {

/// The values of the first `n` results of a run along time, one after the other.
pub open spec fn handed_out<V>(at: At<V>, outs: Seq<Option<LazyTensor>>, n: int) -> Seq<V>
    decreases n,
{
    if n <= 0 {
        seq![]
    } else {
        handed_out(at, outs, n - 1) + match outs[n - 1] {
            None => seq![],
            Some(y) => Seq::new(y@.dim(2) as nat, |j: int| at(y@, 2, j)),
        }
    }
}

/// Call `i` of a run took in chunk `i` and succeeded.
pub open spec fn encode_call(
    model: &MimiEncodecModel,
    chunks: Seq<Chunk>,
    pcms: Seq<Tensor>,
    states: Seq<MimiEncodecEncodeState>,
    outs: Seq<Option<LazyTensor>>,
    i: int,
) -> bool {
    &&& pcms[i].dim(2) == chunks[i].len
    &&& model.encode_step_result(states[i], pcms[i], chunks[i].samples, Ok((states[i + 1], outs[i])))
}

/// Calls of `encode_step` on the chunks in order, from the empty state on, all of
/// which succeed: `states[i]` goes into call `i`, `states[i + 1]` and `outs[i]`
/// come out of it.
pub open spec fn is_encode_run(
    model: &MimiEncodecModel,
    chunks: Seq<Chunk>,
    pcms: Seq<Tensor>,
    states: Seq<MimiEncodecEncodeState>,
    outs: Seq<Option<LazyTensor>>,
) -> bool {
    &&& pcms.len() == chunks.len()
    &&& outs.len() == chunks.len()
    &&& states.len() == chunks.len() + 1
    &&& states[0].is_empty_state()
    &&& forall|i: int| 0 <= i < chunks.len() ==> #[trigger] encode_call(model, chunks, pcms, states, outs, i)
}

/// The samples of channel `c` in all chunks.
pub open spec fn channel(chunks: Seq<Chunk>, c: int) -> Seq<Scalar>
    decreases chunks.len(),
{
    if chunks.len() == 0 {
        seq![]
    } else {
        channel(chunks.drop_last(), c) + row(chunks.last().samples, chunks.last().len, c)
    }
}

/// The first chunks are chunks.
proof fn first_are_chunks(chunks: Seq<Chunk>, channels: int, n: int)
    requires
        are_chunks(chunks, channels),
        0 <= n <= chunks.len(),
    ensures
        are_chunks(chunks.take(n), channels),
{
    let front = chunks.take(n);
    assert forall|i: int| 0 <= i < front.len() implies (#[trigger] front[i]).len >= 0
        && front[i].samples.len() == channels * front[i].len by {
        assert(front[i] == chunks[i]);
    }
}

/// After `n` calls the state is the one after the first `n` chunks, and the last
/// of these calls handed out the codes that its chunk completes.
pub proof fn encode_run_stands(
    model: &MimiEncodecModel,
    chunks: Seq<Chunk>,
    pcms: Seq<Tensor>,
    states: Seq<MimiEncodecEncodeState>,
    outs: Seq<Option<LazyTensor>>,
    n: int,
)
    requires
        are_chunks(chunks, model.config.channels as int),
        model.config.total_stride() > 0,
        is_encode_run(model, chunks, pcms, states, outs),
        0 <= n <= chunks.len(),
    ensures
        model.stands_after(states[n], chunks.take(n)),
        n > 0 ==> match model.last_codes(chunks.take(n)) {
            None => outs[n - 1] is None,
            Some(t) => outs[n - 1] matches Some(y) && y@ == t,
        },
    decreases n,
{
    if n == 0 {
        empty_state_stands(model, states[0]);
        assert(chunks.take(0) =~= seq![]);
    } else {
        encode_run_stands(model, chunks, pcms, states, outs, n - 1);
        let front = chunks.take(n);
        first_are_chunks(chunks, model.config.channels as int, n);
        assert(front.drop_last() =~= chunks.take(n - 1));
        assert(front.last() == chunks[n - 1]);
        assert(encode_call(model, chunks, pcms, states, outs, n - 1));
        let r = Ok::<(MimiEncodecEncodeState, Option<LazyTensor>), Error>((states[n], outs[n - 1]));
        encode_step_keeps_up(model, front, states[n - 1], pcms[n - 1], r);
    }
}

/// Channel after channel, a recording holds the samples of its chunks.
proof fn recording_rows(chunks: Seq<Chunk>, channels: int, c: int)
    requires
        are_chunks(chunks, channels),
        0 <= c < channels,
    ensures
        row(recording(chunks, channels), total(chunks), c) == channel(chunks, c),
    decreases chunks.len(),
{
    if chunks.len() == 0 {
        assert(row(recording(chunks, channels), 0, c) =~= channel(chunks, c));
    } else {
        let front = chunks.drop_last();
        assert(front =~= chunks.take(chunks.len() - 1));
        first_are_chunks(chunks, channels, chunks.len() - 1);
        total_is_counted(front, channels);
        assert(chunks[chunks.len() - 1].len >= 0);
        recording_rows(front, channels, c);
        rows_join(
            recording(front, channels),
            total(front),
            chunks.last().samples,
            chunks.last().len,
            channels,
            c,
        );
    }
}

/// After every call of a run the carried buffer holds channel after channel: at
/// `c * buffered_samples + t` stands sample `t` of channel `c` of all chunks so
/// far.
pub proof fn buffer_is_channel_major(
    model: &MimiEncodecModel,
    chunks: Seq<Chunk>,
    pcms: Seq<Tensor>,
    states: Seq<MimiEncodecEncodeState>,
    outs: Seq<Option<LazyTensor>>,
    n: int,
    c: int,
    t: int,
)
    requires
        are_chunks(chunks, model.config.channels as int),
        model.config.total_stride() > 0,
        is_encode_run(model, chunks, pcms, states, outs),
        0 <= n <= chunks.len(),
        0 <= c < model.config.channels,
        0 <= t < states[n].buffered_samples,
    ensures
        channel(chunks.take(n), c).len() == states[n].buffered_samples,
        states[n].buffer@[c * states[n].buffered_samples + t] == channel(chunks.take(n), c)[t],
{
    let channels = model.config.channels as int;
    let front = chunks.take(n);
    encode_run_stands(model, chunks, pcms, states, outs, n);
    first_are_chunks(chunks, channels, n);
    recording_rows(front, channels, c);
    let r = row(recording(front, channels), total(front), c);
    assert(r[t] == recording(front, channels)[c * total(front) + t]);
}

/// What the first `n` calls of a run hand out.
proof fn encode_run_hands_out<V>(
    at: At<V>,
    model: &MimiEncodecModel,
    chunks: Seq<Chunk>,
    pcms: Seq<Tensor>,
    states: Seq<MimiEncodecEncodeState>,
    outs: Seq<Option<LazyTensor>>,
    n: int,
)
    requires
        are_chunks(chunks, model.config.channels as int),
        model.encoder_in_step(),
        is_encode_run(model, chunks, pcms, states, outs),
        forall|k: int| 1 <= k <= model.frames_in(chunks.take(n)) ==> #[trigger] model.encodes_frames(k),
        0 <= n <= chunks.len(),
    ensures
        handed_out(at, outs, n) == streamed(model, along_time(at), chunks.take(n)),
        n > 0 ==> {
            let grown = model.frames_in(chunks.take(n)) - model.frames_in(chunks.take(n - 1));
            &&& grown >= 0
            &&& outs[n - 1] is Some <==> grown > 0
            &&& outs[n - 1] matches Some(y) ==> y@.dim(2) == grown
        },
    decreases n,
{
    if n > 0 {
        let front = chunks.take(n);
        first_are_chunks(chunks, model.config.channels as int, n);
        assert(front.drop_last() =~= chunks.take(n - 1));
        frames_grow(model, front);
        encode_run_hands_out(at, model, chunks, pcms, states, outs, n - 1);
        encode_run_stands(model, chunks, pcms, states, outs, n);
        let before = model.frames_in(front.drop_last());
        let after = model.frames_in(front);
        if after > before {
            last_codes_count(model, front);
            let t = model.last_codes(front)->Some_0;
            assert(Seq::new(t.dim(2) as nat, |j: int| at(t, 2, j)) =~= Seq::new(
                (after - before) as nat,
                |j: int| along_time(at)(t, j),
            ));
        } else {
            let was = handed_out(at, outs, n - 1);
            assert(was + Seq::<V>::empty() =~= was);
        }
    }
}

/// The codes that a chunk completes are as many as the frames that it completes.
proof fn last_codes_count(model: &MimiEncodecModel, chunks: Seq<Chunk>)
    requires
        chunks.len() > 0,
        are_chunks(chunks, model.config.channels as int),
        model.encoder_in_step(),
        model.frames_in(chunks) > model.frames_in(chunks.drop_last()),
        model.encodes_frames(model.frames_in(chunks)),
    ensures
        model.last_codes(chunks) matches Some(t) && !t.bad() && t.dim(2) == model.frames_in(chunks)
            - model.frames_in(chunks.drop_last()),
{
    let (before, after) = (model.frames_in(chunks.drop_last()), model.frames_in(chunks));
    frames_grow(model, chunks);
    frames_have_codes(model, chunks, after);
    narrow_has(model.inner.encoded(model.first_frames(chunks, after)), 2, before, after - before);
}

/// A run of `encode_step` goes on: after the calls on all chunks but the last, a
/// call on the last one succeeds.
pub proof fn next_encode_call_succeeds(
    model: &MimiEncodecModel,
    chunks: Seq<Chunk>,
    pcms: Seq<Tensor>,
    states: Seq<MimiEncodecEncodeState>,
    outs: Seq<Option<LazyTensor>>,
    pcm: Tensor,
    r: Result<(MimiEncodecEncodeState, Option<LazyTensor>), Error>,
)
    requires
        chunks.len() > 0,
        are_chunks(chunks, model.config.channels as int),
        model.encoder_in_step(),
        model.frames_in(chunks) >= 1 ==> model.encodes_frames(model.frames_in(chunks)),
        is_encode_run(model, chunks.drop_last(), pcms, states, outs),
        pcm.rank() == 3,
        pcm.dim(0) == 1,
        pcm.dim(1) == model.config.channels,
        pcm.dim(2) == chunks.last().len,
        model.encode_step_result(states.last(), pcm, chunks.last().samples, r),
    ensures
        r is Ok,
{
    let front = chunks.drop_last();
    let n = front.len() as int;
    first_are_chunks(chunks, model.config.channels as int, n);
    assert(front =~= chunks.take(n));
    assert(front =~= front.take(n));
    encode_run_stands(model, front, pcms, states, outs, n);
    assert(chunks[n].samples.len() == model.config.channels * chunks[n].len);
    frames_grow(model, chunks);
    if model.frames_in(chunks) > model.frames_in(front) {
        last_codes_count(model, chunks);
    }
}

/// The calls of `encode_step` on a recording, cut into chunks in any way, hand
/// out, one after the other, the codes that one call of `encode` on the recording
/// gives. After each call all samples so far are held and all their whole frames
/// are out; a call hands out codes exactly where the number of whole frames grew,
/// and as many as it grew by.
#[verifier::spinoff_prover]
pub proof fn encode_calls_recover_one_shot<V>(
    at: At<V>,
    model: &MimiEncodecModel,
    chunks: Seq<Chunk>,
    pcms: Seq<Tensor>,
    states: Seq<MimiEncodecEncodeState>,
    outs: Seq<Option<LazyTensor>>,
)
    requires
        lawful(at),
        are_chunks(chunks, model.config.channels as int),
        model.encoder_in_step(),
        model.encodes_chunks(chunks),
        is_encode_run(model, chunks, pcms, states, outs),
    ensures
        forall|n: int|
            0 <= n <= chunks.len() ==> model.stands_after(#[trigger] states[n], chunks.take(n)),
        forall|i: int|
            0 <= i < chunks.len() ==> {
                let grown = model.frames_in(chunks.take(i + 1)) - model.frames_in(chunks.take(i));
                &&& grown >= 0
                &&& (#[trigger] outs[i]) is Some <==> grown > 0
                &&& outs[i] matches Some(y) ==> y@.dim(2) == grown
            },
        model.frames_in(chunks) >= 1 ==> model.inner.encoded(model.heard_audio(chunks)).dim(2)
            == model.frames_in(chunks),
        handed_out(at, outs, chunks.len() as int) == Seq::new(
            model.frames_in(chunks) as nat,
            |j: int| at(model.inner.encoded(model.heard_audio(chunks)), 2, j),
        ),
{
    let len = chunks.len() as int;
    assert(chunks.take(len) =~= chunks);
    streaming_encode_is_exact(at, model, chunks);
    encode_run_hands_out(at, model, chunks, pcms, states, outs, len);
    assert forall|n: int| 0 <= n <= len implies model.stands_after(#[trigger] states[n], chunks.take(n)) by {
        encode_run_stands(model, chunks, pcms, states, outs, n);
    }
    assert forall|i: int| 0 <= i < len implies {
        let grown = model.frames_in(chunks.take(i + 1)) - model.frames_in(chunks.take(i));
        &&& grown >= 0
        &&& (#[trigger] outs[i]) is Some <==> grown > 0
        &&& outs[i] matches Some(y) ==> y@.dim(2) == grown
    } by {
        frames_so_far(model, chunks, i + 1);
        encode_run_hands_out(at, model, chunks, pcms, states, outs, i + 1);
    }
}

/// The first chunks hold no more frames than all.
proof fn frames_so_far(model: &MimiEncodecModel, chunks: Seq<Chunk>, n: int)
    requires
        are_chunks(chunks, model.config.channels as int),
        model.config.total_stride() > 0,
        0 <= n <= chunks.len(),
    ensures
        model.frames_in(chunks.take(n)) <= model.frames_in(chunks),
    decreases chunks.len() - n,
{
    if n < chunks.len() {
        let next = chunks.take(n + 1);
        first_are_chunks(chunks, model.config.channels as int, n + 1);
        assert(next.drop_last() =~= chunks.take(n));
        frames_grow(model, next);
        frames_so_far(model, chunks, n + 1);
    } else {
        assert(chunks.take(n) =~= chunks);
    }
}

/// Call `i` of a run took in chunk `i` and succeeded.
pub open spec fn decode_call(
    model: &MimiEncodecModel,
    chunks: Seq<CodeChunk>,
    codes: Seq<Tensor>,
    states: Seq<MimiEncodecDecodeState>,
    outs: Seq<Option<LazyTensor>>,
    i: int,
) -> bool {
    &&& codes[i].dim(2) == chunks[i].len
    &&& model.decode_step_result(states[i], codes[i], chunks[i].indices, Ok((states[i + 1], outs[i])))
}

/// Calls of `decode_step` on the chunks in order, from the empty state on, all of
/// which succeed.
pub open spec fn is_decode_run(
    model: &MimiEncodecModel,
    chunks: Seq<CodeChunk>,
    codes: Seq<Tensor>,
    states: Seq<MimiEncodecDecodeState>,
    outs: Seq<Option<LazyTensor>>,
) -> bool {
    &&& codes.len() == chunks.len()
    &&& outs.len() == chunks.len()
    &&& states.len() == chunks.len() + 1
    &&& states[0].is_empty_state()
    &&& forall|i: int| 0 <= i < chunks.len() ==> #[trigger] decode_call(model, chunks, codes, states, outs, i)
}

/// The first chunks of codes are chunks.
proof fn first_are_code_chunks(chunks: Seq<CodeChunk>, n_q: int, n: int)
    requires
        are_code_chunks(chunks, n_q),
        0 <= n <= chunks.len(),
    ensures
        are_code_chunks(chunks.take(n), n_q),
{
    let front = chunks.take(n);
    assert forall|i: int| 0 <= i < front.len() implies (#[trigger] front[i]).len > 0
        && front[i].indices.len() == n_q * front[i].len by {
        assert(front[i] == chunks[i]);
    }
}

/// After `n` calls the state is the one after the first `n` chunks, and the last
/// of these calls handed out the audio of its chunk.
pub proof fn decode_run_stands(
    model: &MimiEncodecModel,
    chunks: Seq<CodeChunk>,
    codes: Seq<Tensor>,
    states: Seq<MimiEncodecDecodeState>,
    outs: Seq<Option<LazyTensor>>,
    n: int,
)
    requires
        are_code_chunks(chunks, model.config.inner.n_q as int),
        is_decode_run(model, chunks, codes, states, outs),
        0 <= n <= chunks.len(),
    ensures
        model.decode_stands_after(states[n], chunks.take(n)),
        n > 0 ==> (outs[n - 1] matches Some(y) && y@ == model.last_audio(chunks.take(n))),
    decreases n,
{
    if n == 0 {
        empty_decode_state_stands(model, states[0]);
        assert(chunks.take(0) =~= seq![]);
    } else {
        decode_run_stands(model, chunks, codes, states, outs, n - 1);
        let front = chunks.take(n);
        first_are_code_chunks(chunks, model.config.inner.n_q as int, n);
        assert(front.drop_last() =~= chunks.take(n - 1));
        assert(front.last() == chunks[n - 1]);
        assert(decode_call(model, chunks, codes, states, outs, n - 1));
        let r = Ok::<(MimiEncodecDecodeState, Option<LazyTensor>), Error>((states[n], outs[n - 1]));
        decode_step_keeps_up(model, front, states[n - 1], codes[n - 1], r);
    }
}

/// What the first `n` calls of a run hand out.
proof fn decode_run_hands_out<V>(
    at: At<V>,
    model: &MimiEncodecModel,
    chunks: Seq<CodeChunk>,
    codes: Seq<Tensor>,
    states: Seq<MimiEncodecDecodeState>,
    outs: Seq<Option<LazyTensor>>,
    n: int,
)
    requires
        are_code_chunks(chunks, model.config.inner.n_q as int),
        model.decoder_in_step(),
        is_decode_run(model, chunks, codes, states, outs),
        forall|k: int| 1 <= k <= code_total(chunks) ==> #[trigger] model.decodes_frames(k),
        0 <= n <= chunks.len(),
    ensures
        handed_out(at, outs, n) == streamed_audio(model, along_time(at), chunks.take(n)),
        n > 0 ==> (outs[n - 1] matches Some(y) && y@.dim(2) == chunks[n - 1].len
            * model.config.total_stride()),
    decreases n,
{
    if n > 0 {
        let front = chunks.take(n);
        first_are_code_chunks(chunks, model.config.inner.n_q as int, n);
        assert(front.drop_last() =~= chunks.take(n - 1));
        assert(front.last() == chunks[n - 1]);
        decode_run_hands_out(at, model, chunks, codes, states, outs, n - 1);
        decode_run_stands(model, chunks, codes, states, outs, n);
        code_total_grows(chunks, model.config.inner.n_q as int, n);
        decode_steps_do_succeed(model, front);
        let t = model.last_audio(front);
        assert(Seq::new(t.dim(2) as nat, |j: int| at(t, 2, j)) =~= Seq::new(
            (front.last().len * model.config.total_stride()) as nat,
            |j: int| along_time(at)(t, j),
        ));
    }
}

/// The calls of `decode_step` on codes, cut into chunks in any way, hand out, one
/// after the other, the samples that one call of `decode` on all codes gives.
/// After each call all codes so far are held and all their frames are out; each
/// call hands out as many samples as the frames of its chunk stand for.
pub proof fn decode_calls_recover_one_shot<V>(
    at: At<V>,
    model: &MimiEncodecModel,
    chunks: Seq<CodeChunk>,
    codes: Seq<Tensor>,
    states: Seq<MimiEncodecDecodeState>,
    outs: Seq<Option<LazyTensor>>,
)
    requires
        lawful(at),
        are_code_chunks(chunks, model.config.inner.n_q as int),
        model.decoder_in_step(),
        forall|k: int| 1 <= k <= code_total(chunks) ==> #[trigger] model.decodes_frames(k),
        is_decode_run(model, chunks, codes, states, outs),
    ensures
        forall|n: int|
            0 <= n <= chunks.len() ==> model.decode_stands_after(#[trigger] states[n], chunks.take(n)),
        forall|i: int|
            0 <= i < chunks.len() ==> (#[trigger] outs[i] matches Some(y) && y@.dim(2) == chunks[i].len
                * model.config.total_stride()),
        handed_out(at, outs, chunks.len() as int) == Seq::new(
            (code_total(chunks) * model.config.total_stride()) as nat,
            |j: int| at(model.all_audio(chunks), 2, j),
        ),
{
    let len = chunks.len() as int;
    assert(chunks.take(len) =~= chunks);
    streaming_decode_is_exact(at, model, chunks);
    decode_run_hands_out(at, model, chunks, codes, states, outs, len);
    assert forall|n: int| 0 <= n <= len implies model.decode_stands_after(
        #[trigger] states[n],
        chunks.take(n),
    ) by {
        decode_run_stands(model, chunks, codes, states, outs, n);
    }
    assert forall|i: int| 0 <= i < len implies #[trigger] outs[i] matches Some(y) && y@.dim(2)
        == chunks[i].len * model.config.total_stride() by {
        decode_run_hands_out(at, model, chunks, codes, states, outs, i + 1);
    }
}

/// A run of `decode_step` goes on: after the calls on all chunks but the last, a
/// call on the last one succeeds.
pub proof fn next_decode_call_succeeds(
    model: &MimiEncodecModel,
    chunks: Seq<CodeChunk>,
    codes: Seq<Tensor>,
    states: Seq<MimiEncodecDecodeState>,
    outs: Seq<Option<LazyTensor>>,
    last: Tensor,
    r: Result<(MimiEncodecDecodeState, Option<LazyTensor>), Error>,
)
    requires
        chunks.len() > 0,
        are_code_chunks(chunks, model.config.inner.n_q as int),
        model.decoder_in_step(),
        forall|k: int| 1 <= k <= code_total(chunks) ==> #[trigger] model.decodes_frames(k),
        is_decode_run(model, chunks.drop_last(), codes, states, outs),
        last.rank() == 3,
        last.dim(0) == 1,
        last.dim(1) == model.config.inner.n_q,
        last.dim(2) == chunks.last().len,
        model.decode_step_result(states.last(), last, chunks.last().indices, r),
    ensures
        r is Ok,
{
    let front = chunks.drop_last();
    let n = front.len() as int;
    let n_q = model.config.inner.n_q as int;
    first_are_code_chunks(chunks, n_q, n);
    assert(front =~= chunks.take(n));
    assert(front =~= front.take(n));
    decode_run_stands(model, front, codes, states, outs, n);
    decode_steps_do_succeed(model, chunks);
    let c = chunks.last();
    assert(chunks[n].len > 0 && chunks[n].indices.len() == n_q * chunks[n].len);
    let state = states.last();
    let rows = rows_extended(&state, c.indices, c.len, n_q);
    assert forall|q: int| 0 <= q < n_q implies #[trigger] rows[q] == code_row(chunks, q) by {
        assert(state.row(q) == code_row(front, q));
    }
    assert(rows =~= code_rows(chunks, n_q));
}

/// A chunk of no frames hands out nothing and changes nothing.
pub proof fn empty_codes_change_nothing(
    model: &MimiEncodecModel,
    state: MimiEncodecDecodeState,
    codes: Tensor,
    r: Result<(MimiEncodecDecodeState, Option<LazyTensor>), Error>,
)
    requires
        codes.rank() == 3,
        codes.dim(0) == 1,
        codes.dim(1) == model.config.inner.n_q,
        codes.dim(2) == 0,
        model.decode_step_result(state, codes, seq![], r),
    ensures
        r == Ok::<(MimiEncodecDecodeState, Option<LazyTensor>), Error>((state, None)),
{
}

/// Calls of [`StreamableConvTranspose1dWeights::step`] on the chunks in order,
/// from the empty state on, all of which succeed.
pub open spec fn is_upsample_run(
    w: &StreamableConvTranspose1dWeights,
    chunks: Seq<Tensor>,
    states: Seq<StreamConvTranspose1dState>,
    outs: Seq<Option<LazyTensor>>,
) -> bool {
    &&& outs.len() == chunks.len()
    &&& states.len() == chunks.len() + 1
    &&& states[0]@ is None
    &&& forall|i: int| 0 <= i < chunks.len() ==> #[trigger] upsample_call(w, chunks, states, outs, i)
}

pub open spec fn upsample_call(
    w: &StreamableConvTranspose1dWeights,
    chunks: Seq<Tensor>,
    states: Seq<StreamConvTranspose1dState>,
    outs: Seq<Option<LazyTensor>>,
    i: int,
) -> bool {
    w.step_value(states[i]@, chunks[i]) == Ok::<(Option<Tensor>, Option<Tensor>), Error>(
        (states[i + 1]@, opt_view(outs[i])),
    )
}

/// The positions that the first `n` calls hand out, one after the other.
pub open spec fn upsampled_out(
    w: &StreamableConvTranspose1dWeights,
    outs: Seq<Option<LazyTensor>>,
    n: int,
) -> Seq<Mix>
    decreases n,
{
    if n <= 0 {
        seq![]
    } else {
        upsampled_out(w, outs, n - 1) + match outs[n - 1] {
            None => seq![],
            Some(y) => mixes(w.bias_tensor(), y@),
        }
    }
}

/// The first pieces are pieces.
proof fn first_are_pieces(w: &StreamableConvTranspose1dWeights, chunks: Seq<Tensor>, batch: int, n: int)
    requires
        are_pieces(w, chunks, batch),
        0 <= n <= chunks.len(),
    ensures
        are_pieces(w, chunks.take(n), batch),
    decreases chunks.len() - n,
{
    if n == chunks.len() {
        assert(chunks.take(n) =~= chunks);
    } else {
        first_are_pieces(w, chunks, batch, n + 1);
        let front = chunks.take(n);
        let more = chunks.take(n + 1);
        assert(more.drop_last() =~= front);
        assert forall|i: int| 0 <= i < front.len() implies is_signal(
            #[trigger] front[i],
            batch,
            w.in_channels as int,
            front[i].dim(2),
        ) && front[i].dim(2) > 0 by {
            assert(front[i] == chunks[i]);
        }
        assert(joined(front).len() * w.stride <= joined(more).len() * w.stride) by (nonlinear_arith)
            requires
                joined(front).len() <= joined(more).len(),
        ;
    }
}

/// After `n` calls of a run.
proof fn upsample_run_stands(
    w: &StreamableConvTranspose1dWeights,
    chunks: Seq<Tensor>,
    batch: int,
    states: Seq<StreamConvTranspose1dState>,
    outs: Seq<Option<LazyTensor>>,
    n: int,
)
    requires
        gapless(w),
        are_pieces(w, chunks, batch),
        is_upsample_run(w, chunks, states, outs),
        0 <= n <= chunks.len(),
    ensures
        transpose_stream(w, chunks.take(n)) == Ok::<(Option<Tensor>, Seq<Mix>), Error>(
            (states[n]@, upsampled_out(w, outs, n)),
        ),
        upsampled(w, joined(chunks.take(n)), batch, states[n]@, upsampled_out(w, outs, n)),
        n > 0 ==> {
            &&& outs[n - 1] matches Some(y) && is_signal(
                y@,
                batch,
                w.out_channels as int,
                chunks[n - 1].dim(2) * w.stride,
            )
            &&& joined(chunks.take(n)).len() > 0
        },
    decreases n,
{
    first_are_pieces(w, chunks, batch, n);
    stream_upsamples(w, chunks.take(n), batch);
    if n > 0 {
        let front = chunks.take(n);
        upsample_run_stands(w, chunks, batch, states, outs, n - 1);
        assert(front.drop_last() =~= chunks.take(n - 1));
        assert(front.last() == chunks[n - 1]);
        assert(upsample_call(w, chunks, states, outs, n - 1));
        let last = chunks[n - 1];
        assert(is_signal(last, batch, w.in_channels as int, last.dim(2)));
        let x = joined(chunks.take(n - 1));
        assert(last.dim(2) * w.stride <= joined(front).len() * w.stride) by (nonlinear_arith)
            requires
                last.dim(2) <= joined(front).len(),
        ;
        step_upsamples(w, x, batch, states[n - 1]@, upsampled_out(w, outs, n - 1), last);
    }
}

/// A run of [`StreamableConvTranspose1dWeights::step`] goes on: after the calls on
/// all chunks but the last, a call on the last one succeeds and hands out
/// positions.
pub proof fn next_upsample_call_succeeds(
    w: &StreamableConvTranspose1dWeights,
    chunks: Seq<Tensor>,
    batch: int,
    states: Seq<StreamConvTranspose1dState>,
    outs: Seq<Option<LazyTensor>>,
)
    requires
        gapless(w),
        chunks.len() > 0,
        are_pieces(w, chunks, batch),
        is_upsample_run(w, chunks.drop_last(), states, outs),
    ensures
        w.step_value(states.last()@, chunks.last()) matches Ok((next, Some(y))),
{
    let front = chunks.drop_last();
    let n = front.len() as int;
    first_are_pieces(w, chunks, batch, n);
    assert(front =~= chunks.take(n));
    assert(front =~= front.take(n));
    upsample_run_stands(w, front, batch, states, outs, n);
    let last = chunks.last();
    assert(chunks[n] == last);
    assert(last.dim(2) * w.stride <= joined(chunks).len() * w.stride) by (nonlinear_arith)
        requires
            last.dim(2) <= joined(chunks).len(),
    ;
    step_upsamples(w, joined(front), batch, states.last()@, upsampled_out(w, outs, n), last);
}

/// The calls of [`StreamableConvTranspose1dWeights::step`] on a signal, cut into
/// chunks in any way, hand out, one after the other, what one call of
/// [`StreamableConvTranspose1dWeights::forward`] on the signal gives: `stride`
/// positions for each of a chunk. Positions are carried over exactly where the
/// kernel is longer than the stride, as many as it is longer.
pub proof fn upsample_calls_recover_one_shot(
    w: &StreamableConvTranspose1dWeights,
    x: Tensor,
    chunks: Seq<Tensor>,
    batch: int,
    time: int,
    states: Seq<StreamConvTranspose1dState>,
    outs: Seq<Option<LazyTensor>>,
)
    requires
        gapless(w),
        w.causal,
        is_signal(x, batch, w.in_channels as int, time),
        time > 0,
        are_pieces(w, chunks, batch),
        joined(chunks) == columns(x),
        is_upsample_run(w, chunks, states, outs),
    ensures
        forall|i: int|
            0 <= i < chunks.len() ==> (#[trigger] outs[i] matches Some(y) && is_signal(
                y@,
                batch,
                w.out_channels as int,
                chunks[i].dim(2) * w.stride,
            )),
        forall|n: int|
            1 <= n <= chunks.len() ==> match #[trigger] states[n]@ {
                None => w.kernel_size == w.stride,
                Some(p) => w.kernel_size > w.stride && is_signal(
                    p,
                    batch,
                    w.out_channels as int,
                    w.kernel_size - w.stride,
                ),
            },
        is_signal(w.forward_value(x), batch, w.out_channels as int, time * w.stride),
        upsampled_out(w, outs, chunks.len() as int) == mixes(w.bias_tensor(), w.forward_value(x)),
{
    let len = chunks.len() as int;
    assert(chunks.take(len) =~= chunks);
    transpose_streaming_equals_one_shot(w, x, chunks, batch, time);
    upsample_run_stands(w, chunks, batch, states, outs, len);
    assert forall|i: int| 0 <= i < len implies #[trigger] outs[i] matches Some(y) && is_signal(
        y@,
        batch,
        w.out_channels as int,
        chunks[i].dim(2) * w.stride,
    ) by {
        upsample_run_stands(w, chunks, batch, states, outs, i + 1);
    }
    assert forall|n: int| 1 <= n <= len implies match #[trigger] states[n]@ {
        None => w.kernel_size == w.stride,
        Some(p) => w.kernel_size > w.stride && is_signal(
            p,
            batch,
            w.out_channels as int,
            w.kernel_size - w.stride,
        ),
    } by {
        upsample_run_stands(w, chunks, batch, states, outs, n);
    }
}

/// Calls of [`StreamableConv1dWeights::step`] on the chunks in order, from the
/// empty state on, all of which succeed.
pub open spec fn is_conv_run(
    w: &StreamableConv1dWeights,
    chunks: Seq<Tensor>,
    states: Seq<StreamConv1dState>,
    outs: Seq<Option<LazyTensor>>,
) -> bool {
    &&& outs.len() == chunks.len()
    &&& states.len() == chunks.len() + 1
    &&& states[0]@ == StreamConv1dState::start()
    &&& forall|i: int| 0 <= i < chunks.len() ==> #[trigger] conv_call(w, chunks, states, outs, i)
}

pub open spec fn conv_call(
    w: &StreamableConv1dWeights,
    chunks: Seq<Tensor>,
    states: Seq<StreamConv1dState>,
    outs: Seq<Option<LazyTensor>>,
    i: int,
) -> bool {
    w.step_value(states[i]@, chunks[i]) == Ok::<(StreamState, Option<Tensor>), Error>(
        (states[i + 1]@, opt_view(outs[i])),
    )
}

/// The frames that the first `n` calls hand out, one after the other.
pub open spec fn convolved_out(outs: Seq<Option<LazyTensor>>, n: int) -> Seq<Column>
    decreases n,
{
    if n <= 0 {
        seq![]
    } else {
        convolved_out(outs, n - 1) + emitted(opt_view(outs[n - 1]))
    }
}

/// After `n` calls of a run.
proof fn conv_run_stands(
    w: &StreamableConv1dWeights,
    chunks: Seq<Tensor>,
    states: Seq<StreamConv1dState>,
    outs: Seq<Option<LazyTensor>>,
    n: int,
)
    requires
        is_conv_run(w, chunks, states, outs),
        0 <= n <= chunks.len(),
    ensures
        stream(w, chunks.take(n)) == Ok::<(StreamState, Seq<Column>), Error>(
            (states[n]@, convolved_out(outs, n)),
        ),
    decreases n,
{
    if n > 0 {
        conv_run_stands(w, chunks, states, outs, n - 1);
        let front = chunks.take(n);
        assert(front.drop_last() =~= chunks.take(n - 1));
        assert(front.last() == chunks[n - 1]);
        assert(conv_call(w, chunks, states, outs, n - 1));
    }
}

/// A run of [`StreamableConv1dWeights::step`] goes on: after the calls on all
/// chunks but the last, a call on the last one succeeds.
pub proof fn next_conv_call_succeeds(
    w: &StreamableConv1dWeights,
    chunks: Seq<Tensor>,
    batch: int,
    states: Seq<StreamConv1dState>,
    outs: Seq<Option<LazyTensor>>,
)
    requires
        well_grouped(w),
        chunks.len() > 0,
        crate::streaming::are_chunks(w, chunks, batch),
        is_conv_run(w, chunks.drop_last(), states, outs),
    ensures
        w.step_value(states.last()@, chunks.last()) is Ok,
{
    let front = chunks.drop_last();
    let n = front.len() as int;
    assert(front =~= front.take(n));
    conv_run_stands(w, front, states, outs, n);
    stream_stands(w, chunks, batch);
}

/// The calls of [`StreamableConv1dWeights::step`] on a signal, cut into chunks in
/// any way, hand out, one after the other, the first `time / stride` frames that
/// one call of [`StreamableConv1dWeights::forward`] on the signal gives: all of
/// them where the stride divides the length of the signal.
pub proof fn conv_calls_recover_one_shot(
    w: &StreamableConv1dWeights,
    x: Tensor,
    chunks: Seq<Tensor>,
    batch: int,
    time: int,
    states: Seq<StreamConv1dState>,
    outs: Seq<Option<LazyTensor>>,
)
    requires
        well_grouped(w),
        w.causal,
        is_signal(x, batch, w.in_channels as int, time),
        time > 0,
        w.context() + time + w.stride <= usize::MAX,
        crate::streaming::are_chunks(w, chunks, batch),
        joined(chunks) == columns(x),
        is_conv_run(w, chunks, states, outs),
    ensures
        !w.forward_value(x).bad(),
        convolved_out(outs, chunks.len() as int) == columns(w.forward_value(x)).take(time / w.stride as int),
        time % w.stride as int == 0 ==> convolved_out(outs, chunks.len() as int) == columns(
            w.forward_value(x),
        ),
{
    assert(chunks.take(chunks.len() as int) =~= chunks);
    streaming_equals_one_shot(w, x, chunks, batch, time);
    conv_run_stands(w, chunks, states, outs, chunks.len() as int);
}

} // verus!
