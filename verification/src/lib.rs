//! Neural-network graph builders: every model of this crate is a function
//! from a configuration, a set of weights and an input to a lazily
//! evaluated tensor expression.

pub mod batch_norm;
pub mod causality;
pub mod checkpoint;
pub mod clip_meaning;
pub mod codebook_nearest;
pub mod codec_causality;
pub mod codec_extents;
pub mod codec_loading;
pub mod codec_streaming;
pub mod common;
pub mod decoder_causality;
pub mod double;
pub mod error;
pub mod evaluation;
pub mod extents;
pub mod formulas;
pub mod image_attention_meaning;
pub mod images_meaning;
pub mod lazy;
pub mod lazy_lstm;
pub mod lazy_mamba;
pub mod lazy_mamba2;
pub mod lazy_marian;
pub mod lazy_metavoice;
pub mod lazy_metavoice_speaker_encoder;
pub mod lazy_mimi;
pub mod lazy_mimi_conv;
pub mod lazy_mimi_conv_transpose;
pub mod lazy_mimi_conv_wrappers;
pub mod lazy_mimi_encodec;
pub mod lazy_mimi_quantization;
pub mod lazy_mimi_resampler;
pub mod lazy_mimi_seanet;
pub mod lazy_mimi_transformer;
pub mod lazy_mistral;
pub mod lazy_mixformer;
pub mod lazy_mixtral;
pub mod lazy_mmdit;
pub mod lazy_mobileclip;
pub mod lazy_mobilenetv4;
pub mod lazy_mobileone;
pub mod lazy_modernbert;
pub mod lazy_moondream;
pub mod lazy_mpt;
pub mod mamba2_meaning;
pub mod mamba_meaning;
pub mod marian_meaning;
pub mod meaning;
pub mod metavoice_meaning;
pub mod mimi_transformer_meaning;
pub mod mistral_meaning;
pub mod mixformer_meaning;
pub mod mixtral_meaning;
pub mod mmdit_meaning;
pub mod mmdit_model_meaning;
pub mod modernbert_meaning;
pub mod moondream_meaning;
pub mod mpt_meaning;
pub mod quantizer_causality;
pub mod quantizer_codes_meaning;
pub mod quantizer_meaning;
pub mod readings;
pub mod rows_read;
pub mod scalar;
pub mod shape;
pub mod sound_meaning;
pub mod speaker_meaning;
pub mod streaming;
pub mod streaming_calls;
pub mod streaming_codec;
pub mod streaming_transpose;
pub mod weights_meaning;
