//! Resampling between the frame rate of the convolutional encoder and that of
//! the quantizer, by kernels of twice the stride.

use crate::checkpoint::{join, Checkpoint, Loader};
use crate::error::{Error, LoadError};
use crate::lazy::{outcome, LazyTensor, Tensor};
use crate::lazy_mimi_conv::{pad_value, padded, LazyPadMode};
use crate::scalar::Data;
use vstd::prelude::*;

verus! {

#[derive(Debug, Clone)]
pub struct ConvDownsample1dWeights {
    /// `[dim, dim, 2 * stride]`.
    pub weight: Data,
    pub dim: usize,
    pub stride: usize,
}

#[derive(Debug, Clone)]
pub struct ConvTrUpsample1dWeights {
    /// `[dim, 1, 2 * stride]`.
    pub weight: Data,
    pub dim: usize,
    pub stride: usize,
}

#[derive(Debug, Clone)]
pub struct ConvDownsample1dModel {
    pub weights: ConvDownsample1dWeights,
}

#[derive(Debug, Clone)]
pub struct ConvTrUpsample1dModel {
    pub weights: ConvTrUpsample1dWeights,
}

impl ConvDownsample1dWeights {
    /// The signal, its edge repeated `stride` times on the left, convolved.
    pub open spec fn value(&self, x: Tensor) -> Tensor {
        let s = self.stride as int;
        let d = self.dim as int;
        padded(x, s, 0, LazyPadMode::Replicate).conv1d(
            Tensor::constant(self.weight@, seq![d, d, 2 * s]),
            None,
            s,
            0,
            1,
        )
    }

    pub(crate) fn apply(&self, x: &LazyTensor) -> (r: LazyTensor)
        requires
            2 * self.stride <= usize::MAX,
        ensures
            r@ == self.value(x@),
    {
        let padded = pad_value(x, self.stride, 0, LazyPadMode::Replicate);
        let weight = LazyTensor::const3(&self.weight, self.dim, self.dim, 2 * self.stride);
        padded.conv1d(&weight, None, self.stride, 0, 1)
    }
}

impl ConvTrUpsample1dWeights {
    /// The signal upsampled channel by channel, without the positions that later
    /// input would contribute to.
    pub open spec fn value(&self, x: Tensor) -> Tensor {
        let s = self.stride as int;
        let d = self.dim as int;
        let y = x.conv_transpose1d(Tensor::constant(self.weight@, seq![d, 1, 2 * s]), s, d);
        y.narrow(
            2,
            0,
            if y.dim(2) < s {
                0
            } else {
                y.dim(2) - s
            },
        )
    }

    pub(crate) fn apply(&self, x: &LazyTensor) -> (r: LazyTensor)
        requires
            2 * self.stride <= usize::MAX,
        ensures
            r@ == self.value(x@),
    {
        let weight = LazyTensor::const3(&self.weight, self.dim, 1, 2 * self.stride);
        let y = x.conv_transpose1d(&weight, self.stride, self.dim);
        let t_out: usize = y.dim(2);
        let keep: usize = if t_out < self.stride { 0 } else { t_out - self.stride };
        y.narrow(2, 0, keep)
    }
}

impl ConvDownsample1dModel {
    /// `(1, dim, time)` to `(1, dim, time / stride)`.
    pub fn forward(&self, x: &LazyTensor) -> (r: Result<LazyTensor, Error>)
        requires
            2 * self.weights.stride <= usize::MAX,
        ensures
            outcome(r, self.weights.value(x@)),
    {
        self.weights.apply(x).finish()
    }
}

impl ConvTrUpsample1dModel {
    /// `(1, dim, time)` to `(1, dim, time * stride)`.
    pub fn forward(&self, x: &LazyTensor) -> (r: Result<LazyTensor, Error>)
        requires
            2 * self.weights.stride <= usize::MAX,
        ensures
            outcome(r, self.weights.value(x@)),
    {
        self.weights.apply(x).finish()
    }
}

impl ConvDownsample1dWeights {
    /// Loads the kernel `{prefix}.conv.weight`.
    pub fn load_from_mmapped(st: &Checkpoint, prefix: &str, dim: usize, stride: usize) -> (r: Result<Self, LoadError>)
        requires
            2 * stride <= usize::MAX,
            dim * dim <= usize::MAX,
            dim * dim * (2 * stride) <= usize::MAX,
        ensures
            ({
                let name = prefix@ + ".conv.weight"@;
                match st.need_len(None, name, dim * dim * (2 * stride)) {
                    Some(f) => r matches Err(e) && e@ == f,
                    None => r is Ok && r->Ok_0.weight@ == st.data(name) && r->Ok_0.dim == dim
                        && r->Ok_0.stride == stride,
                }
            }),
    {
        let mut ld = Loader::new(st);
        let weight = ld.take_len(join(prefix, ".conv.weight").as_str(), dim * dim * (2 * stride));
        match ld.error {
            Some(e) => Err(e),
            None => Ok(ConvDownsample1dWeights { weight, dim, stride }),
        }
    }
}

impl ConvTrUpsample1dWeights {
    /// Loads the kernel `{prefix}.convtr.weight`.
    pub fn load_from_mmapped(st: &Checkpoint, prefix: &str, dim: usize, stride: usize) -> (r: Result<Self, LoadError>)
        requires
            2 * stride <= usize::MAX,
            dim * (2 * stride) <= usize::MAX,
        ensures
            ({
                let name = prefix@ + ".convtr.weight"@;
                match st.need_len(None, name, dim * (2 * stride)) {
                    Some(f) => r matches Err(e) && e@ == f,
                    None => r is Ok && r->Ok_0.weight@ == st.data(name) && r->Ok_0.dim == dim
                        && r->Ok_0.stride == stride,
                }
            }),
    {
        let mut ld = Loader::new(st);
        let weight = ld.take_len(join(prefix, ".convtr.weight").as_str(), dim * (2 * stride));
        match ld.error {
            Some(e) => Err(e),
            None => Ok(ConvTrUpsample1dWeights { weight, dim, stride }),
        }
    }
}

} // verus!
