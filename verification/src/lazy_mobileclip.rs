//! MobileCLIP: image and text features in one space.
//!
//! An image encoder and a text encoder, whose weights are carried along as they
//! are, meet in a projection and a contrastive comparison of their features.

use crate::error::Error;
use crate::extents::{broadcast_to_has, extents, has, products, reshape_has};
use crate::lazy::{finish2, outcome, outcome2, LazyTensor, Tensor, WeightStorage};
use crate::scalar::{cast, unary, Precision, Scalar, UnaryFn};
use vstd::prelude::*;

verus! {

/// Sizes of a FastViT image encoder.
#[derive(Debug, Clone, Copy)]
pub struct FastVitConfig {
    /// Channels of the first stage.
    pub in_channels: usize,
    /// Blocks of each stage.
    pub blocks: [usize; 4],
    pub exp_ratio: usize,
    /// Whether the last stage attends.
    pub attn: bool,
    pub lkc_use_act: bool,
    pub head_dim: usize,
    pub image_size: usize,
    /// Outputs of the linear head, where there is one.
    pub num_classes: Option<usize>,
}

impl FastVitConfig {
    /// An encoder for images of 256 by 256 pixels with these channels and blocks,
    /// without a linear head.
    pub open spec fn has_sizes(&self, channels: usize, blocks: Seq<usize>) -> bool {
        &&& self.in_channels == channels
        &&& self.blocks@ == blocks
        &&& self.exp_ratio == 3
        &&& self.attn
        &&& self.lkc_use_act
        &&& self.head_dim == 32
        &&& self.image_size == 256
        &&& self.num_classes is None
    }

    /// The MCI1 sizes.
    pub fn mci1() -> (r: Self)
        ensures
            r.has_sizes(64, seq![4, 12, 20, 4]),
    {
        FastVitConfig {
            in_channels: 64,
            blocks: [4, 12, 20, 4],
            exp_ratio: 3,
            attn: true,
            lkc_use_act: true,
            head_dim: 32,
            image_size: 256,
            num_classes: None,
        }
    }

    /// The MCI2 sizes.
    pub fn mci2() -> (r: Self)
        ensures
            r.has_sizes(80, seq![4, 12, 24, 4]),
    {
        FastVitConfig {
            in_channels: 80,
            blocks: [4, 12, 24, 4],
            exp_ratio: 3,
            attn: true,
            lkc_use_act: true,
            head_dim: 32,
            image_size: 256,
            num_classes: None,
        }
    }
}

/// Sizes of an OpenCLIP text encoder.
#[derive(Debug, Clone, Copy, PartialEq, Eq, Structural)]
pub struct OpenClipTextConfig {
    pub vocab_size: usize,
    pub embed_dim: usize,
    pub intermediate_size: usize,
    pub num_hidden_layers: usize,
    pub num_attention_heads: usize,
    pub max_position_embeddings: usize,
}

impl OpenClipTextConfig {
    /// The sizes that go with a ViT-B/32 image encoder.
    pub open spec fn is_base(&self) -> bool {
        &&& self.vocab_size == 49408
        &&& self.embed_dim == 512
        &&& self.intermediate_size == 2048
        &&& self.num_hidden_layers == 12
        &&& self.num_attention_heads == 8
        &&& self.max_position_embeddings == 77
    }

    /// The sizes that go with a ViT-B/32 image encoder.
    pub fn vit_base_patch32() -> (r: Self)
        ensures
            r.is_base(),
    {
        OpenClipTextConfig {
            vocab_size: 49408,
            embed_dim: 512,
            intermediate_size: 2048,
            num_hidden_layers: 12,
            num_attention_heads: 8,
            max_position_embeddings: 77,
        }
    }
}

/// A FastViT image encoder with weights of some form.
#[derive(Debug)]
pub struct FastVitModel<'a, V> {
    pub config: FastVitConfig,
    pub weights: &'a V,
}

/// An OpenCLIP text encoder with weights of some form.
#[derive(Debug)]
pub struct OpenClipTextModel<'a, T> {
    pub config: OpenClipTextConfig,
    pub weights: &'a T,
}

#[derive(Debug, Clone, Copy)]
pub struct MobileClipConfig {
    pub vision: FastVitConfig,
    pub text: OpenClipTextConfig,
    pub image_size: usize,
    /// Width of the features that are compared.
    pub projection_dim: usize,
}

impl MobileClipConfig {
    /// MobileCLIP-S1: an MCI1 image encoder at 256 by 256 pixels.
    pub fn s1() -> (r: Self)
        ensures
            r.vision.has_sizes(64, seq![4, 12, 20, 4]),
            r.text.is_base(),
            r.image_size == 256,
            r.projection_dim == 512,
    {
        MobileClipConfig {
            vision: FastVitConfig::mci1(),
            text: OpenClipTextConfig::vit_base_patch32(),
            image_size: 256,
            projection_dim: 512,
        }
    }

    /// MobileCLIP-S2: an MCI2 image encoder at 256 by 256 pixels.
    pub fn s2() -> (r: Self)
        ensures
            r.vision.has_sizes(80, seq![4, 12, 24, 4]),
            r.text.is_base(),
            r.image_size == 256,
            r.projection_dim == 512,
    {
        MobileClipConfig {
            vision: FastVitConfig::mci2(),
            text: OpenClipTextConfig::vit_base_patch32(),
            image_size: 256,
            projection_dim: 512,
        }
    }
}

#[derive(Debug)]
pub struct MobileClipWeights<V, T> {
    pub vision: V,
    pub text: T,
    /// `[text.embed_dim, projection_dim]`.
    pub text_projection: WeightStorage,
    /// Logarithm of the factor on the logits.
    pub logit_scale: Scalar,
}

#[derive(Debug)]
pub struct MobileClipModel<V, T> {
    pub config: MobileClipConfig,
    pub weights: MobileClipWeights<V, T>,
}

/// The rows of a matrix, each divided by its length.
pub open spec fn unit_rows(x: Tensor) -> Tensor {
    x.div(
        x.mul(x).sum_dim(1).sqrt().reshape(seq![x.dim(0), 1]).broadcast_to(x.dims),
    )
}

fn normalize_rows(x: &LazyTensor) -> (r: LazyTensor)
    ensures
        r@ == unit_rows(x@),
{
    let norm = x.mul(x).sum_dim(1).sqrt().reshape2(x.dim(0), 1).broadcast_to(x.dims().as_slice());
    x.div(&norm)
}

/// Divides each row of a matrix by its length.
pub fn l2_normalize_last(x: &LazyTensor) -> (r: Result<LazyTensor, Error>)
    ensures
        outcome(r, unit_rows(x@)),
{
    normalize_rows(x).finish()
}

/// The scaled cosine of each text feature with each image feature.
pub open spec fn text_logits(image: Tensor, text: Tensor, logit_scale: Scalar) -> Tensor {
    unit_rows(text).matmul(unit_rows(image).permute(seq![1, 0])).mul_scalar(
        cast(Precision::Double, unary(Precision::Single, UnaryFn::Exp, logit_scale)),
    )
}

/// The failure that comes first, where there is one, else `t`.
pub open spec fn after(e: Tensor, t: Tensor) -> Tensor {
    if e.bad() {
        e
    } else {
        t
    }
}

impl<V, T> MobileClipModel<V, T> {
    /// The image encoder, with a linear head as wide as the projection.
    pub fn vision_model(&self) -> (r: FastVitModel<'_, V>)
        ensures
            r.config == (FastVitConfig {
                num_classes: Some(self.config.projection_dim),
                ..self.config.vision
            }),
            *r.weights == self.weights.vision,
    {
        let mut config = self.config.vision;
        config.num_classes = Some(self.config.projection_dim);
        FastVitModel { config, weights: &self.weights.vision }
    }

    /// The text encoder.
    pub fn text_model(&self) -> (r: OpenClipTextModel<'_, T>)
        ensures
            r.config == self.config.text,
            *r.weights == self.weights.text,
    {
        OpenClipTextModel { config: self.config.text, weights: &self.weights.text }
    }

    /// Projects what the text encoder returned for the last token,
    /// `(1, embed_dim)`, into features `(1, projection_dim)`.
    pub fn get_text_features(&self, pooled: Result<LazyTensor, Error>) -> (r: Result<LazyTensor, Error>)
        ensures
            match pooled {
                Err(e) => r == Err::<LazyTensor, Error>(e),
                Ok(p) => outcome(
                    r,
                    p@.linear(
                        self.weights.text_projection@,
                        self.config.text.embed_dim as int,
                        self.config.projection_dim as int,
                    ),
                ),
            },
    {
        match pooled {
            Err(e) => Err(e),
            Ok(p) => self.weights.text_projection.apply_linear(
                &p,
                self.config.text.embed_dim,
                self.config.projection_dim,
            ).finish(),
        }
    }

    /// Compares features `(images, projection_dim)` with `(texts,
    /// projection_dim)`: the logits `(texts, images)` and `(images, texts)`. A
    /// failure in the image features comes before one in the text features.
    pub fn contrastive_logits(&self, image_features: &LazyTensor, text_features: &LazyTensor) -> (r: Result<
        (LazyTensor, LazyTensor),
        Error,
    >)
        ensures
            ({
                let t = after(
                    unit_rows(image_features@),
                    text_logits(image_features@, text_features@, self.weights.logit_scale),
                );
                outcome2(r, t, t.permute(seq![1, 0]))
            }),
    {
        let image = normalize_rows(image_features);
        if image.failure().is_some() {
            proof {
                reveal(Tensor::permute);
            }
            let copy = image.clone();
            return finish2(image, copy);
        }
        let text = normalize_rows(text_features);
        let scale = self.weights.logit_scale.clone().unary(Precision::Single, UnaryFn::Exp).cast(
            Precision::Double,
        );
        let per_text = text.matmul(&image.permute2(1, 0)).mul_scalar(&scale);
        let per_image = per_text.permute2(1, 0);
        finish2(per_text, per_image)
    }
}

/// Rows divided by their length keep their extents.
pub proof fn unit_rows_have(x: Tensor, n: int, p: int)
    requires
        has(x, seq![n, p]),
        1 <= n <= usize::MAX,
    ensures
        has(unit_rows(x), seq![n, p]),
{
    broadcast use extents;

    let sums = x.mul(x).sum_dim(1).sqrt();
    assert(sums.dims =~= seq![n]);
    products(n, 1, 1, 1, 1, 1);
    reshape_has(sums, seq![n, 1]);
    broadcast_to_has(sums.reshape(seq![n, 1]), seq![n, p]);
}

/// Features of the same width can be compared: the logits are `(texts, images)`
/// and `(images, texts)`.
pub proof fn contrastive_succeeds(
    image: Tensor,
    text: Tensor,
    logit_scale: Scalar,
    images: int,
    texts: int,
    p: int,
)
    requires
        has(image, seq![images, p]),
        has(text, seq![texts, p]),
        1 <= images <= usize::MAX,
        1 <= texts <= usize::MAX,
    ensures
        has(
            after(unit_rows(image), text_logits(image, text, logit_scale)),
            seq![texts, images],
        ),
        has(
            after(unit_rows(image), text_logits(image, text, logit_scale)).permute(seq![1, 0]),
            seq![images, texts],
        ),
{
    broadcast use extents;

    unit_rows_have(image, images, p);
    unit_rows_have(text, texts, p);
}

} // verus!
