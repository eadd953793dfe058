//! Mimi: an audio codec of discrete codes.
//!
//! Encoding runs the audio through a convolutional encoder, a transformer and a
//! resampler to the frame rate of the codes, and quantizes what comes out.
//! Decoding runs the other way.

use crate::checkpoint::{Checkpoint, Loader};
use crate::error::{first, Error, Fault, LoadError};
use crate::lazy::{outcome, LazyTensor, Tensor};
use crate::lazy_mimi_quantization::{sizes_countable, SplitResidualVectorQuantizerWeights};
use crate::lazy_mimi_resampler::{ConvDownsample1dWeights, ConvTrUpsample1dWeights};
use crate::lazy_mimi_seanet::{SeaNetConfig, SeaNetDecoderWeights, SeaNetEncoderWeights};
use crate::lazy_mimi_transformer::{MimiTransformerConfig, ProjectedTransformerWeights};
use crate::scalar::Data;
use vstd::prelude::*;

verus! {

#[derive(Debug)]
pub struct MimiConfig {
    pub seanet: SeaNetConfig,
    pub transformer: MimiTransformerConfig,
    /// Channels of the audio.
    pub channels: usize,
    /// Number of codes for each frame.
    pub n_q: usize,
    /// Rows of each codebook.
    pub quantizer_bins: usize,
    /// Width of the codebooks.
    pub quantizer_dim: usize,
}

impl Clone for MimiConfig {
    fn clone(&self) -> (r: Self)
        ensures
            r.same(self),
    {
        MimiConfig {
            seanet: self.seanet.clone(),
            transformer: self.transformer.clone(),
            channels: self.channels,
            n_q: self.n_q,
            quantizer_bins: self.quantizer_bins,
            quantizer_dim: self.quantizer_dim,
        }
    }
}

impl MimiConfig {
    /// Whether two configurations agree in every size.
    pub open spec fn same(&self, other: &MimiConfig) -> bool {
        &&& self.seanet.same(&other.seanet)
        &&& self.transformer == other.transformer
        &&& self.channels == other.channels
        &&& self.n_q == other.n_q
        &&& self.quantizer_bins == other.quantizer_bins
        &&& self.quantizer_dim == other.quantizer_dim
    }

    /// The sizes of version 0.1, with 16 codes for each frame unless another
    /// number is given.
    pub fn v0_1(num_codebooks: Option<usize>) -> (r: Self)
        ensures
            r.seanet.is_v0_1(),
            r.transformer.is_v0_1(),
            r.channels == 1,
            r.n_q == (match num_codebooks {
                Some(n) => n,
                None => 16,
            }),
            r.quantizer_bins == 2048,
            r.quantizer_dim == 256,
    {
        MimiConfig {
            seanet: SeaNetConfig::mimi_v0_1(),
            transformer: MimiTransformerConfig::mimi_v0_1(),
            channels: 1,
            n_q: match num_codebooks {
                Some(n) => n,
                None => 16,
            },
            quantizer_bins: 2048,
            quantizer_dim: 256,
        }
    }

    /// Whether the tensors of a checkpoint with this resampling stride can be
    /// counted.
    pub open spec fn loadable(&self, stride: int) -> bool {
        let dim = self.seanet.dimension as int;
        &&& self.seanet.encoder_loadable()
        &&& self.seanet.decoder_loadable()
        &&& 2 * stride <= usize::MAX
        &&& dim * dim <= usize::MAX
        &&& dim * dim * (2 * stride) <= usize::MAX
        &&& dim * (2 * stride) <= usize::MAX
        &&& sizes_countable(self.quantizer_dim as int, dim, dim, self.quantizer_bins as int)
    }
}

#[derive(Debug, Clone)]
pub struct MimiWeights {
    pub encoder: SeaNetEncoderWeights,
    pub decoder: SeaNetDecoderWeights,
    pub encoder_transformer: ProjectedTransformerWeights,
    pub decoder_transformer: ProjectedTransformerWeights,
    /// `[dimension, dimension, 2 * resampler_stride]`.
    pub downsample_weight: Data,
    /// `[dimension, 1, 2 * resampler_stride]`.
    pub upsample_weight: Data,
    pub quantizer: SplitResidualVectorQuantizerWeights,
    /// Encoder frames for each frame of codes.
    pub resampler_stride: usize,
}

#[derive(Debug, Clone)]
pub struct MimiModel {
    pub config: MimiConfig,
    pub weights: MimiWeights,
}

impl MimiModel {
    /// The kernels have extents, the transformers yield something and have
    /// heads, and there are as many codebooks as codes.
    pub open spec fn valid(&self) -> bool {
        &&& self.weights.encoder.valid()
        &&& self.weights.decoder.valid()
        &&& self.config.transformer.num_heads > 0
        &&& self.weights.encoder_transformer.output_projs@.len() > 0
        &&& self.weights.decoder_transformer.output_projs@.len() > 0
        &&& 2 * self.weights.resampler_stride <= usize::MAX
        &&& self.weights.quantizer.valid()
    }

    pub open spec fn downsampled(&self, h: Tensor) -> Tensor {
        (ConvDownsample1dWeights {
            weight: self.weights.downsample_weight,
            dim: self.config.seanet.dimension,
            stride: self.weights.resampler_stride,
        }).value(h)
    }

    pub open spec fn upsampled(&self, h: Tensor) -> Tensor {
        (ConvTrUpsample1dWeights {
            weight: self.weights.upsample_weight,
            dim: self.config.seanet.dimension,
            stride: self.weights.resampler_stride,
        }).value(h)
    }

    /// The codes `(1, n_q, frames)` of audio `(1, channels, time)`.
    pub open spec fn encoded(&self, audio: Tensor) -> Tensor {
        let w = &self.weights;
        let latents = w.encoder.value(&self.config.seanet, audio);
        let mixed = w.encoder_transformer.first_output(
            &self.config.transformer,
            self.config.seanet.dimension as int,
            latents,
        );
        w.quantizer.encoded(self.downsampled(mixed))
    }

    /// The audio `(1, channels, time)` of codes `(1, n_q, frames)`.
    pub open spec fn decoded(&self, codes: Tensor) -> Tensor {
        let w = &self.weights;
        let latents = self.upsampled(w.quantizer.decoded(codes));
        let mixed = w.decoder_transformer.first_output(
            &self.config.transformer,
            self.config.seanet.dimension as int,
            latents,
        );
        w.decoder.value(&self.config.seanet, mixed)
    }

    /// Codes audio `(1, channels, time)` as `(1, n_q, frames)`.
    pub fn encode(&self, audio: &LazyTensor) -> (r: Result<LazyTensor, Error>)
        requires
            self.valid(),
        ensures
            outcome(r, self.encoded(audio@)),
    {
        let cfg = &self.config;
        let w = &self.weights;
        let latents = w.encoder.apply(&cfg.seanet, audio);
        let mixed = w.encoder_transformer.run_first(&cfg.transformer, cfg.seanet.dimension, &latents);
        let downsample = ConvDownsample1dWeights {
            weight: w.downsample_weight.clone(),
            dim: cfg.seanet.dimension,
            stride: w.resampler_stride,
        };
        w.quantizer.encode(&downsample.apply(&mixed)).finish()
    }

    /// Rebuilds audio `(1, channels, time)` from codes `(1, n_q, frames)`.
    pub fn decode(&self, codes: &LazyTensor) -> (r: Result<LazyTensor, Error>)
        requires
            self.valid(),
            codes@.dim(1) == self.weights.quantizer.n_q,
        ensures
            outcome(r, self.decoded(codes@)),
    {
        let cfg = &self.config;
        let w = &self.weights;
        let upsample = ConvTrUpsample1dWeights {
            weight: w.upsample_weight.clone(),
            dim: cfg.seanet.dimension,
            stride: w.resampler_stride,
        };
        let latents = upsample.apply(&w.quantizer.decode(codes));
        let mixed = w.decoder_transformer.run_first(&cfg.transformer, cfg.seanet.dimension, &latents);
        w.decoder.apply(&cfg.seanet, &mixed).finish()
    }
}

/// The failure that loading a transformer ended in.
pub open spec fn transformer_failure(w: Result<ProjectedTransformerWeights, LoadError>) -> Option<Fault> {
    match w {
        Ok(_) => None,
        Err(e) => Some(e@),
    }
}

impl MimiWeights {
    /// Why a checkpoint cannot be loaded.
    pub open spec fn load_failure(
        st: &Checkpoint,
        cfg: &MimiConfig,
        stride: int,
        encoder_transformer: Result<ProjectedTransformerWeights, LoadError>,
        decoder_transformer: Result<ProjectedTransformerWeights, LoadError>,
    ) -> Option<Fault> {
        let dim = cfg.seanet.dimension as int;
        let e = SeaNetEncoderWeights::need(st, None, "encoder"@, &cfg.seanet);
        let e = SeaNetDecoderWeights::need(st, e, "decoder"@, &cfg.seanet);
        let e = first(e, transformer_failure(encoder_transformer));
        let e = first(e, transformer_failure(decoder_transformer));
        let e = st.need_len(e, "downsample.conv.weight"@, dim * dim * (2 * stride));
        let e = st.need_len(e, "upsample.convtr.weight"@, dim * (2 * stride));
        SplitResidualVectorQuantizerWeights::need(
            st,
            e,
            "quantizer"@,
            cfg.quantizer_dim as int,
            dim,
            dim,
            cfg.n_q as int,
            cfg.quantizer_bins as int,
        )
    }

    /// Whether these are the weights of the checkpoint.
    pub open spec fn loaded(&self, st: &Checkpoint, cfg: &MimiConfig, stride: int) -> bool {
        let dim = cfg.seanet.dimension as int;
        &&& self.encoder.loaded(st, "encoder"@, &cfg.seanet)
        &&& self.decoder.loaded(st, "decoder"@, &cfg.seanet)
        &&& self.downsample_weight@ == st.data("downsample.conv.weight"@)
        &&& self.upsample_weight@ == st.data("upsample.convtr.weight"@)
        &&& self.quantizer.loaded(
            st,
            "quantizer"@,
            cfg.quantizer_dim as int,
            dim,
            dim,
            cfg.n_q as int,
            cfg.quantizer_bins as int,
        )
        &&& self.quantizer.valid()
        &&& self.resampler_stride == stride
    }

    /// Loads all parts of a checkpoint but the transformers, which are handed in
    /// as they were loaded. The first failure counts: that of the convolutional
    /// encoder, of the decoder, of either transformer, of the resampling kernels
    /// and of the quantizer, in this order.
    pub fn load_from_mmapped(
        st: &Checkpoint,
        cfg: &MimiConfig,
        resampler_stride: usize,
        encoder_transformer: Result<ProjectedTransformerWeights, LoadError>,
        decoder_transformer: Result<ProjectedTransformerWeights, LoadError>,
    ) -> (r: Result<Self, LoadError>)
        requires
            cfg.loadable(resampler_stride as int),
        ensures
            ({
                let failure = MimiWeights::load_failure(
                    st,
                    cfg,
                    resampler_stride as int,
                    encoder_transformer,
                    decoder_transformer,
                );
                match r {
                    Ok(w) => failure is None && w.loaded(st, cfg, resampler_stride as int)
                        && encoder_transformer == Ok::<ProjectedTransformerWeights, LoadError>(
                        w.encoder_transformer,
                    ) && decoder_transformer == Ok::<ProjectedTransformerWeights, LoadError>(
                        w.decoder_transformer,
                    ),
                    Err(e) => failure == Some(e@),
                }
            }),
    {
        let dim: usize = cfg.seanet.dimension;
        let kernel: usize = 2 * resampler_stride;
        let mut ld = Loader::new(st);
        let encoder = SeaNetEncoderWeights::load(&mut ld, "encoder", &cfg.seanet);
        let decoder = SeaNetDecoderWeights::load(&mut ld, "decoder", &cfg.seanet);
        if let Err(e) = &encoder_transformer {
            ld.fail(e.copied());
        }
        if let Err(e) = &decoder_transformer {
            ld.fail(e.copied());
        }
        let downsample_weight = ld.take_len("downsample.conv.weight", dim * dim * kernel);
        let upsample_weight = ld.take_len("upsample.convtr.weight", dim * kernel);
        let quantizer = SplitResidualVectorQuantizerWeights::load(
            &mut ld,
            "quantizer",
            cfg.quantizer_dim,
            dim,
            dim,
            cfg.n_q,
            cfg.quantizer_bins,
        );
        if let Some(e) = ld.error {
            return Err(e);
        }
        match encoder_transformer {
            Err(e) => Err(e),
            Ok(encoder_transformer) => match decoder_transformer {
                Err(e) => Err(e),
                Ok(decoder_transformer) => Ok(
                    MimiWeights {
                        encoder,
                        decoder,
                        encoder_transformer,
                        decoder_transformer,
                        downsample_weight,
                        upsample_weight,
                        quantizer,
                        resampler_stride,
                    },
                ),
            },
        }
    }
}

} // verus!
