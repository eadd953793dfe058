# fuel_core

Verified builders of neural-network graphs. A model here is a function from a
configuration, a set of weights and an input to a tensor expression; nothing is
computed until the expression is evaluated. Every item of the library is written
in [Verus](https://github.com/verus-lang/verus), and every public function states
what it returns and on which inputs it fails.

## Layout

- `src/lazy.rs`, `src/shape.rs`, `src/scalar.rs`: tensor expressions, the shape
  rules of the operations, and the numbers that weights and constants hold.
- `src/checkpoint.rs`: stored tensors by name, and the checks of a loader.
- `src/lazy_*.rs`: the models. Language models (Mamba, Mamba-2, Marian,
  Mistral, Mixtral, MixFormer, MPT, ModernBERT), vision and diffusion models
  (MobileNetV4, MobileOne, MobileCLIP, Moondream, MMDiT), speech models
  (MetaVoice and its speaker encoder), and the Mimi audio codec with its
  convolutions, transformer, quantizer, resampler and streaming steps.
- `src/extents.rs`, `src/codec_extents.rs`: on weights of the declared sizes a
  run succeeds, and what its result has for extents.
- `src/codec_loading.rs`: a codec that was loaded has the declared sizes.
- `src/codebook_nearest.rs`: a code is the index of a nearest row of the codebook.
- `src/evaluation.rs`: what it is to evaluate an expression, position by position.
- `src/causality.rs`, `src/*_causality.rs`: what follows a position does not
  count. The language models state this of themselves.
- `src/streaming.rs`, `src/streaming_transpose.rs`, `src/codec_streaming.rs`,
  `src/streaming_codec.rs`: chunk by chunk gives what one piece gives.
  `src/streaming_calls.rs` says it of any run of calls of the step functions.
- `tests/`: runs the library, with a small evaluator of expressions.
- `app/`: ordinary Rust around the library: files, downloads, and the numbers
  that need floating point.

## How numbers are held

Floating-point numbers do not occur in the library. A weight is a `Scalar`: the
bits of a number, or an expression over such bits that the caller evaluates.
Contracts fix the expression, not the rounding of its value.
