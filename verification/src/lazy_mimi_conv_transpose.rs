//! One-dimensional transposed convolution that can run over a whole signal or
//! chunk by chunk.
//!
//! With kernel `k` and stride `s`, `n` input positions yield `(n - 1) * s + k`
//! output positions, of which the last `k - s` also receive contributions from
//! later input. A one-shot run drops them; a step keeps them and adds them to
//! the head of the next chunk's output.

use crate::error::{counted, Error};
use crate::lazy::{outcome, LazyTensor, Tensor};
pub use crate::lazy_mimi_conv::LazyPadMode as TransposePadMode;
use crate::lazy_mimi_conv::{
    bake_weight_norm, bias_data, failure_of, kernel_has_len, kernel_len, opt_view, weight_norm_outcome,
};
use crate::scalar::{Data, Scalar};
use vstd::prelude::*;

verus! {

/// Turns the pair `(weight_g, weight_v)` of a normalised transposed kernel into
/// the kernel itself. The rows are the input channels:
///
/// ```text
/// w[i, o, k] = v[i, o, k] * (g[i] / sqrt(sum_{o,k} v[i, o, k]^2))
/// ```
pub fn bake_weight_norm_transpose(
    weight_g: &Vec<Scalar>,
    weight_v: &Vec<Scalar>,
    usable: &Vec<bool>,
    in_channels: usize,
    out_channels: usize,
    kernel_size: usize,
) -> (r: Result<Vec<Scalar>, Error>)
    requires
        usable@.len() == in_channels,
        out_channels * kernel_size <= usize::MAX,
    ensures
        weight_norm_outcome(
            weight_g@,
            weight_v@,
            usable@,
            in_channels as int,
            out_channels * kernel_size,
            r,
        ),
{
    bake_weight_norm(weight_g, weight_v, usable, in_channels, out_channels, kernel_size)
}

/// A transposed convolution layer; `weight` is the kernel
/// `(in_channels, out_channels / groups, kernel_size)`.
#[derive(Debug, Clone)]
pub struct StreamableConvTranspose1dWeights {
    pub weight: Data,
    pub bias: Option<Data>,
    pub in_channels: usize,
    pub out_channels: usize,
    pub kernel_size: usize,
    pub stride: usize,
    pub groups: usize,
    pub causal: bool,
}

/// Why a transposed convolution cannot be declared with these sizes.
pub open spec fn transpose_defect(
    weight: int,
    bias: Option<Seq<Scalar>>,
    c_in: int,
    c_out: int,
    k: int,
    stride: int,
    groups: int,
) -> Option<Error> {
    if c_in == 0 || c_out == 0 || k == 0 || stride == 0 {
        Some(Error::ZeroExtent)
    } else if groups == 0 || c_out % groups != 0 {
        Some(Error::Groups)
    } else if weight != c_in * (c_out / groups) * k {
        Some(
            Error::WeightLength {
                declared: counted(c_in * (c_out / groups) * k),
                found: weight as usize,
            },
        )
    } else if bias is Some && bias->Some_0.len() != c_out {
        Some(
            Error::BiasLength { expected: c_out as usize, found: bias->Some_0.len() as usize },
        )
    } else {
        None
    }
}

impl StreamableConvTranspose1dWeights {
    /// The sizes of the layer agree with each other.
    pub open spec fn valid(&self) -> bool {
        transpose_defect(
            self.weight@.len() as int,
            bias_data(self.bias),
            self.in_channels as int,
            self.out_channels as int,
            self.kernel_size as int,
            self.stride as int,
            self.groups as int,
        ) is None
    }

    /// Output positions that later input still contributes to.
    pub open spec fn overlap(&self) -> int {
        if self.kernel_size < self.stride {
            0
        } else {
            self.kernel_size - self.stride
        }
    }

    pub open spec fn kernel(&self) -> Tensor {
        Tensor::constant(
            self.weight@,
            seq![
                self.in_channels as int,
                self.out_channels as int / self.groups as int,
                self.kernel_size as int,
            ],
        )
    }

    /// The bias as `(1, out_channels, 1)`.
    pub open spec fn bias_column(&self, b: Seq<Scalar>) -> Tensor {
        Tensor::constant(b, seq![self.out_channels as int]).reshape(
            seq![1, self.out_channels as int, 1],
        )
    }

    pub open spec fn biased(&self, x: Tensor) -> Tensor {
        match self.bias {
            None => x,
            Some(b) => x.broadcast_add(self.bias_column(b@)),
        }
    }

    pub open spec fn unbiased(&self, x: Tensor) -> Tensor {
        match self.bias {
            None => x,
            Some(b) => x.broadcast_sub(self.bias_column(b@)),
        }
    }

    /// Transposed convolution and bias, nothing trimmed.
    pub open spec fn raw(&self, x: Tensor) -> Tensor {
        self.biased(x.conv_transpose1d(self.kernel(), self.stride as int, self.groups as int))
    }

    /// Whether `x` is `(batch, in_channels, time)`.
    pub open spec fn accepts(&self, x: Tensor) -> bool {
        x.rank() == 3 && x.dim(1) == self.in_channels
    }

    /// What a one-shot run yields: the overlap is trimmed on the right by a
    /// causal layer, on both sides by another one.
    pub open spec fn forward_value(&self, x: Tensor) -> Tensor {
        let y = self.raw(x);
        let total = self.overlap();
        if !self.accepts(x) {
            Tensor::invalid(Error::InputShape)
        } else if y.bad() || total == 0 {
            y
        } else if y.dim(2) < total {
            Tensor::invalid(Error::ChunkTooSmall)
        } else if self.causal {
            y.narrow(2, 0, y.dim(2) - total)
        } else {
            y.narrow(2, total - total / 2, y.dim(2) - total)
        }
    }

    /// Declares a layer, unless its sizes contradict each other.
    pub fn new(
        weight: Data,
        bias: Option<Data>,
        in_channels: usize,
        out_channels: usize,
        kernel_size: usize,
        stride: usize,
        groups: usize,
        causal: bool,
    ) -> (r: Result<Self, Error>)
        ensures
            match transpose_defect(
                weight@.len() as int,
                bias_data(bias),
                in_channels as int,
                out_channels as int,
                kernel_size as int,
                stride as int,
                groups as int,
            ) {
                Some(e) => r == Err::<Self, Error>(e),
                None => r == Ok::<Self, Error>(
                    (StreamableConvTranspose1dWeights {
                        weight,
                        bias,
                        in_channels,
                        out_channels,
                        kernel_size,
                        stride,
                        groups,
                        causal,
                    }),
                ),
            },
    {
        if in_channels == 0 || out_channels == 0 || kernel_size == 0 || stride == 0 {
            return Err(Error::ZeroExtent);
        }
        if groups == 0 || out_channels % groups != 0 {
            return Err(Error::Groups);
        }
        let per_group: usize = out_channels / groups;
        let found: usize = weight.len();
        if !kernel_has_len(found, in_channels, per_group, kernel_size) {
            let declared = kernel_len(in_channels, per_group, kernel_size);
            return Err(Error::WeightLength { declared, found });
        }
        if let Some(b) = &bias {
            if b.len() != out_channels {
                return Err(Error::BiasLength { expected: out_channels, found: b.len() });
            }
        }
        Ok(
            StreamableConvTranspose1dWeights {
                weight,
                bias,
                in_channels,
                out_channels,
                kernel_size,
                stride,
                groups,
                causal,
            },
        )
    }

    fn padding_total(&self) -> (r: usize)
        ensures
            r == self.overlap(),
    {
        if self.kernel_size < self.stride {
            0
        } else {
            self.kernel_size - self.stride
        }
    }

    fn build_weight_tensor(&self) -> (r: LazyTensor)
        requires
            self.groups > 0,
        ensures
            r@ == self.kernel(),
    {
        LazyTensor::const3(
            &self.weight,
            self.in_channels,
            self.out_channels / self.groups,
            self.kernel_size,
        )
    }

    fn build_bias_tensor(&self, b: &Data) -> (r: LazyTensor)
        ensures
            r@ == self.bias_column(b@),
    {
        LazyTensor::const1(b, self.out_channels).reshape3(1, self.out_channels, 1)
    }

    fn apply_bias(&self, xs: LazyTensor) -> (r: LazyTensor)
        ensures
            r@ == self.biased(xs@),
    {
        match &self.bias {
            None => xs,
            Some(b) => xs.broadcast_add(&self.build_bias_tensor(b)),
        }
    }

    fn remove_bias(&self, xs: &LazyTensor) -> (r: LazyTensor)
        ensures
            r@ == self.unbiased(xs@),
    {
        match &self.bias {
            None => xs.clone(),
            Some(b) => xs.broadcast_sub(&self.build_bias_tensor(b)),
        }
    }

    fn raw_forward(&self, xs: &LazyTensor) -> (r: LazyTensor)
        requires
            self.groups > 0,
        ensures
            r@ == self.raw(xs@),
    {
        let w = self.build_weight_tensor();
        self.apply_bias(xs.conv_transpose1d(&w, self.stride, self.groups))
    }

    /// Upsamples a whole signal `(batch, in_channels, time)`.
    pub fn forward(&self, xs: &LazyTensor) -> (r: Result<LazyTensor, Error>)
        requires
            self.valid(),
        ensures
            outcome(r, self.forward_value(xs@)),
    {
        if xs.rank() != 3 || xs.dim(1) != self.in_channels {
            return Err(Error::InputShape);
        }
        let y = self.raw_forward(xs);
        let t_out: usize = y.dim(2);
        let pad_total: usize = self.padding_total();
        if y.failure().is_some() || pad_total == 0 {
            return y.finish();
        }
        if t_out < pad_total {
            return Err(Error::ChunkTooSmall);
        }
        if self.causal {
            y.narrow(2, 0, t_out - pad_total).finish()
        } else {
            let pad_right: usize = pad_total / 2;
            let pad_left: usize = pad_total - pad_right;
            y.narrow(2, pad_left, t_out - pad_total).finish()
        }
    }
}

/// What a stream of chunks leaves behind: the output positions that the next
/// chunk still contributes to, with the bias already added.
#[derive(Debug, Clone)]
pub struct StreamConvTranspose1dState {
    pub prev_ys: Option<LazyTensor>,
}

impl Default for StreamConvTranspose1dState {
    fn default() -> (r: Self)
        ensures
            r@ is None,
    {
        StreamConvTranspose1dState { prev_ys: None }
    }
}

impl StreamConvTranspose1dState {
    pub open spec fn view(&self) -> Option<Tensor> {
        opt_view(self.prev_ys)
    }

    /// The state before the first chunk.
    pub fn empty() -> (r: Self)
        ensures
            r@ is None,
    {
        StreamConvTranspose1dState { prev_ys: None }
    }
}

impl StreamableConvTranspose1dWeights {
    /// The raw output of a chunk with the kept positions added to its head. The
    /// bias is taken off the kept positions, which carry it already.
    pub open spec fn merged(&self, prev: Option<Tensor>, ys: Tensor) -> Tensor {
        match prev {
            None => ys,
            Some(p) => {
                let head = ys.narrow(2, 0, p.dim(2)).add(self.unbiased(p));
                if ys.bad() {
                    ys
                } else if p.dim(2) > ys.dim(2) {
                    Tensor::invalid(Error::ChunkTooSmall)
                } else if p.dim(2) == ys.dim(2) {
                    head
                } else {
                    head.concat(ys.narrow(2, p.dim(2), ys.dim(2) - p.dim(2)), 2)
                }
            },
        }
    }

    /// What a step makes of the kept positions and a chunk: the positions to
    /// keep next and the output that is complete. An empty chunk changes and
    /// completes nothing.
    pub open spec fn step_value(&self, prev: Option<Tensor>, x: Tensor) -> Result<
        (Option<Tensor>, Option<Tensor>),
        Error,
    > {
        let ys = self.raw(x);
        let m = self.merged(prev, ys);
        let n = self.overlap();
        let emit = m.narrow(2, 0, ys.dim(2) - n);
        let keep = m.narrow(2, ys.dim(2) - n, n);
        if !self.accepts(x) {
            Err(Error::InputShape)
        } else if x.dim(2) == 0 {
            Ok((prev, None))
        } else if m.bad() {
            Err(failure_of(m))
        } else if n == 0 {
            Ok((None, Some(m)))
        } else if ys.dim(2) < n {
            Err(Error::ChunkTooSmall)
        } else if emit.bad() {
            Err(failure_of(emit))
        } else if keep.bad() {
            Err(failure_of(keep))
        } else {
            Ok((Some(keep), Some(emit)))
        }
    }

    /// Takes the next chunk `(batch, in_channels, length)` of a signal and
    /// yields the output that it completes, none for an empty chunk.
    pub fn step(&self, state: StreamConvTranspose1dState, xs: &LazyTensor) -> (r: Result<
        (StreamConvTranspose1dState, Option<LazyTensor>),
        Error,
    >)
        requires
            self.valid(),
        ensures
            match r {
                Ok((st, y)) => self.step_value(state@, xs@) == Ok::<
                    (Option<Tensor>, Option<Tensor>),
                    Error,
                >((st@, opt_view(y))),
                Err(e) => self.step_value(state@, xs@) == Err::<
                    (Option<Tensor>, Option<Tensor>),
                    Error,
                >(e),
            },
    {
        if xs.rank() != 3 || xs.dim(1) != self.in_channels {
            return Err(Error::InputShape);
        }
        if xs.dim(2) == 0 {
            return Ok((state, None));
        }
        let ys = self.raw_forward(xs);
        let ot: usize = ys.dim(2);
        let invalid_steps: usize = self.padding_total();
        let merged = match &state.prev_ys {
            None => ys,
            Some(prev_ys) => {
                let pt: usize = prev_ys.dim(2);
                if let Some(e) = ys.failure() {
                    return Err(e);
                }
                if pt > ot {
                    return Err(Error::ChunkTooSmall);
                }
                let head = ys.narrow(2, 0, pt).add(&self.remove_bias(prev_ys));
                if pt == ot {
                    head
                } else {
                    head.concat(&ys.narrow(2, pt, ot - pt), 2)
                }
            },
        };
        if let Some(e) = merged.failure() {
            return Err(e);
        }
        if invalid_steps == 0 {
            return Ok((StreamConvTranspose1dState { prev_ys: None }, Some(merged)));
        }
        if ot < invalid_steps {
            return Err(Error::ChunkTooSmall);
        }
        let emit_len: usize = ot - invalid_steps;
        let emit = merged.narrow(2, 0, emit_len);
        if let Some(e) = emit.failure() {
            return Err(e);
        }
        let new_prev = merged.narrow(2, emit_len, invalid_steps);
        if let Some(e) = new_prev.failure() {
            return Err(e);
        }
        Ok((StreamConvTranspose1dState { prev_ys: Some(new_prev) }, Some(emit)))
    }
}

} // verus!
