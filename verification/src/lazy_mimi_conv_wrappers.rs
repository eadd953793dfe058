//! Learned resampling by a strided convolution and a strided transposed
//! convolution, each with a kernel of twice its stride.

use crate::error::Error;
use crate::lazy::{outcome, LazyTensor, Tensor};
use crate::lazy_mimi_conv::{
    conv_defect, opt_view, LazyPadMode, StreamConv1dState, StreamState, StreamableConv1dWeights,
};
use crate::lazy_mimi_conv_transpose::{
    transpose_defect, StreamConvTranspose1dState, StreamableConvTranspose1dWeights,
};
use crate::scalar::Data;
use crate::streaming::{
    are_chunks, columns, is_signal, joined, stream, streaming_equals_one_shot, well_grouped,
};
use crate::streaming_transpose::{
    are_pieces, gapless, mixes, transpose_stream, transpose_streaming_equals_one_shot,
};
use vstd::prelude::*;

verus! {

/// Downsampling by a convolution over all channels, with repeated edges.
#[derive(Debug, Clone)]
pub struct ConvDownsample1dWeights {
    pub conv: StreamableConv1dWeights,
}

impl ConvDownsample1dWeights {
    /// A downsampler by `stride` over `dim` channels with the kernel
    /// `(dim, dim, 2 * stride)`.
    pub fn new(stride: usize, dim: usize, causal: bool, raw_weight: Data) -> (r: Result<Self, Error>)
        requires
            2 * stride <= usize::MAX,
        ensures
            match conv_defect(
                raw_weight@.len() as int,
                None,
                dim as int,
                dim as int,
                2 * stride,
                stride as int,
                1,
            ) {
                Some(e) => r == Err::<Self, Error>(e),
                None => r == Ok::<Self, Error>(
                    (ConvDownsample1dWeights {
                        conv: StreamableConv1dWeights {
                            weight: raw_weight,
                            bias: None,
                            in_channels: dim,
                            out_channels: dim,
                            kernel_size: (2 * stride) as usize,
                            stride,
                            groups: 1,
                            causal,
                            pad_mode: LazyPadMode::Replicate,
                        },
                    }),
                ),
            },
            r is Ok && 4 * stride <= usize::MAX ==> well_grouped(&r->Ok_0.conv),
    {
        match StreamableConv1dWeights::new(
            raw_weight,
            None,
            dim,
            dim,
            2 * stride,
            stride,
            1,
            causal,
            LazyPadMode::Replicate,
        ) {
            Err(e) => Err(e),
            Ok(conv) => Ok(ConvDownsample1dWeights { conv }),
        }
    }

    /// Downsamples a whole signal.
    pub fn forward(&self, xs: &LazyTensor) -> (r: Result<LazyTensor, Error>)
        requires
            self.conv.valid(),
        ensures
            outcome(r, self.conv.forward_value(xs@)),
    {
        self.conv.forward(xs)
    }

    /// Takes the next chunk of a signal.
    pub fn step(&self, state: StreamConv1dState, xs: &LazyTensor) -> (r: Result<
        (StreamConv1dState, Option<LazyTensor>),
        Error,
    >)
        requires
            self.conv.valid(),
        ensures
            match r {
                Ok((st, y)) => self.conv.step_value(state@, xs@) == Ok::<
                    (StreamState, Option<Tensor>),
                    Error,
                >((st@, opt_view(y))),
                Err(e) => self.conv.step_value(state@, xs@) == Err::<
                    (StreamState, Option<Tensor>),
                    Error,
                >(e),
            },
    {
        self.conv.step(state, xs)
    }
}

/// Upsampling of each channel by a transposed convolution.
#[derive(Debug, Clone)]
pub struct ConvTrUpsample1dWeights {
    pub convtr: StreamableConvTranspose1dWeights,
}

impl ConvTrUpsample1dWeights {
    /// An upsampler by `stride` over `dim` channels with the kernel
    /// `(dim, 1, 2 * stride)`.
    pub fn new(stride: usize, dim: usize, causal: bool, raw_weight: Data) -> (r: Result<Self, Error>)
        requires
            2 * stride <= usize::MAX,
        ensures
            match transpose_defect(
                raw_weight@.len() as int,
                None,
                dim as int,
                dim as int,
                2 * stride,
                stride as int,
                dim as int,
            ) {
                Some(e) => r == Err::<Self, Error>(e),
                None => r == Ok::<Self, Error>(
                    (ConvTrUpsample1dWeights {
                        convtr: StreamableConvTranspose1dWeights {
                            weight: raw_weight,
                            bias: None,
                            in_channels: dim,
                            out_channels: dim,
                            kernel_size: (2 * stride) as usize,
                            stride,
                            groups: dim,
                            causal,
                        },
                    }),
                ),
            },
            r is Ok ==> gapless(&r->Ok_0.convtr),
    {
        match StreamableConvTranspose1dWeights::new(
            raw_weight,
            None,
            dim,
            dim,
            2 * stride,
            stride,
            dim,
            causal,
        ) {
            Err(e) => Err(e),
            Ok(convtr) => Ok(ConvTrUpsample1dWeights { convtr }),
        }
    }

    /// Upsamples a whole signal.
    pub fn forward(&self, xs: &LazyTensor) -> (r: Result<LazyTensor, Error>)
        requires
            self.convtr.valid(),
        ensures
            outcome(r, self.convtr.forward_value(xs@)),
    {
        self.convtr.forward(xs)
    }

    /// Takes the next chunk of a signal.
    pub fn step(&self, state: StreamConvTranspose1dState, xs: &LazyTensor) -> (r: Result<
        (StreamConvTranspose1dState, Option<LazyTensor>),
        Error,
    >)
        requires
            self.convtr.valid(),
        ensures
            match r {
                Ok((st, y)) => self.convtr.step_value(state@, xs@) == Ok::<
                    (Option<Tensor>, Option<Tensor>),
                    Error,
                >((st@, opt_view(y))),
                Err(e) => self.convtr.step_value(state@, xs@) == Err::<
                    (Option<Tensor>, Option<Tensor>),
                    Error,
                >(e),
            },
    {
        self.convtr.step(state, xs)
    }
}

/// Downsampling chunk by chunk yields, in order, the frames of downsampling the
/// whole signal: all of them where the stride divides its length.
pub proof fn downsample_streaming_equals_one_shot(
    w: &ConvDownsample1dWeights,
    x: Tensor,
    chunks: Seq<Tensor>,
    batch: int,
    time: int,
)
    requires
        well_grouped(&w.conv),
        w.conv.causal,
        is_signal(x, batch, w.conv.in_channels as int, time),
        time > 0,
        w.conv.context() + time + w.conv.stride <= usize::MAX,
        are_chunks(&w.conv, chunks, batch),
        joined(chunks) == columns(x),
    ensures
        stream(&w.conv, chunks) is Ok,
        !w.conv.forward_value(x).bad(),
        stream(&w.conv, chunks)->Ok_0.1 == columns(w.conv.forward_value(x)).take(
            time / w.conv.stride as int,
        ),
        time % w.conv.stride as int == 0 ==> stream(&w.conv, chunks)->Ok_0.1 == columns(
            w.conv.forward_value(x),
        ),
{
    streaming_equals_one_shot(&w.conv, x, chunks, batch, time);
}

/// Upsampling chunk by chunk yields, in order, exactly the positions of
/// upsampling the whole signal, `stride` for each of its own.
pub proof fn upsample_streaming_equals_one_shot(
    w: &ConvTrUpsample1dWeights,
    x: Tensor,
    chunks: Seq<Tensor>,
    batch: int,
    time: int,
)
    requires
        gapless(&w.convtr),
        w.convtr.causal,
        is_signal(x, batch, w.convtr.in_channels as int, time),
        time > 0,
        are_pieces(&w.convtr, chunks, batch),
        joined(chunks) == columns(x),
    ensures
        is_signal(
            w.convtr.forward_value(x),
            batch,
            w.convtr.out_channels as int,
            time * w.convtr.stride,
        ),
        transpose_stream(&w.convtr, chunks) matches Ok((prev, ys)) && ys == mixes(
            w.convtr.bias_tensor(),
            w.convtr.forward_value(x),
        ),
{
    transpose_streaming_equals_one_shot(&w.convtr, x, chunks, batch, time);
}

} // verus!
