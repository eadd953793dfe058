//! One-dimensional convolution that can run over a whole signal or chunk by
//! chunk.
//!
//! [`StreamableConv1dWeights::forward`] pads the signal and convolves it at
//! once. [`StreamableConv1dWeights::step`] takes the next chunk of a signal
//! and the state that the previous chunk left, and yields the frames that the
//! signal so far completes.

use crate::error::{counted, Error};
use crate::lazy::{outcome, LazyTensor, Tensor, Term};
use crate::scalar::{add32, div32, mul32, sqrt32, zero, Data, Scalar};
use vstd::prelude::*;

verus! {

/// What stands beyond the edges of a padded signal.
#[derive(Debug, Clone, Copy, PartialEq, Eq, Structural)]
pub enum LazyPadMode {
    /// Zeros.
    Constant,
    /// The edge value.
    Replicate,
}

/// One position of the time axis, `left` times in a row.
pub open spec fn edge(x: Tensor, at: int, times: int) -> Tensor {
    x.narrow(2, at, 1).broadcast_to(seq![x.dim(0), x.dim(1), times])
}

/// `x (batch, channels, time)` with `left` and `right` more positions.
pub open spec fn padded(x: Tensor, left: int, right: int, mode: LazyPadMode) -> Tensor {
    if left == 0 && right == 0 {
        x
    } else if x.rank() != 3 {
        Tensor::invalid(Error::InputShape)
    } else {
        match mode {
            LazyPadMode::Constant => x.pad_with_zeros(2, left, right),
            LazyPadMode::Replicate => if x.dim(2) == 0 {
                Tensor::invalid(Error::EmptyPad)
            } else {
                let a = if left > 0 {
                    edge(x, 0, left).concat(x, 2)
                } else {
                    x
                };
                if right > 0 {
                    a.concat(edge(x, x.dim(2) - 1, right), 2)
                } else {
                    a
                }
            },
        }
    }
}

pub(crate) fn pad_value(xs: &LazyTensor, left: usize, right: usize, mode: LazyPadMode) -> (r: LazyTensor)
    ensures
        r@ == padded(xs@, left as int, right as int, mode),
{
    if left == 0 && right == 0 {
        return xs.clone();
    }
    if xs.rank() != 3 {
        return LazyTensor::invalid(Error::InputShape);
    }
    match mode {
        LazyPadMode::Constant => xs.pad_with_zeros(2, left, right),
        LazyPadMode::Replicate => {
            let b: usize = xs.dim(0);
            let c: usize = xs.dim(1);
            let t: usize = xs.dim(2);
            if t == 0 {
                return LazyTensor::invalid(Error::EmptyPad);
            }
            let mut out = xs.clone();
            if left > 0 {
                let left_block = xs.narrow(2, 0, 1).broadcast_to3(b, c, left);
                out = left_block.concat(&out, 2);
            }
            if right > 0 {
                let right_block = xs.narrow(2, t - 1, 1).broadcast_to3(b, c, right);
                out = out.concat(&right_block, 2);
            }
            out
        },
    }
}

/// Pads the time axis of `(batch, channels, time)` by `left` and `right`
/// positions.
pub fn pad_last_1d(xs: &LazyTensor, left: usize, right: usize, mode: LazyPadMode) -> (r: Result<
    LazyTensor,
    Error,
>)
    ensures
        outcome(r, padded(xs@, left as int, right as int, mode)),
{
    pad_value(xs, left, right, mode).finish()
}

/// Sum of the squares of the `n` elements from `base` on, added from the left
/// in single precision.
pub open spec fn sum_squares(v: Seq<Scalar>, base: int, n: int) -> Scalar
    decreases n,
{
    if n <= 0 {
        zero()
    } else {
        add32(
            sum_squares(v, base, n - 1),
            mul32(v[base + n - 1], v[base + n - 1]),
        )
    }
}

/// Euclidean length of row `c` of a matrix with rows of `per_out` elements.
pub open spec fn row_norm(v: Seq<Scalar>, per_out: int, c: int) -> Scalar {
    sqrt32(sum_squares(v, c * per_out, per_out))
}

/// Every row of `v` scaled to the length that `g` gives it.
pub open spec fn weight_normed(g: Seq<Scalar>, v: Seq<Scalar>, rows: int, per_out: int) -> Seq<Scalar> {
    Seq::new(
        (rows * per_out) as nat,
        |i: int| mul32(v[i], div32(g[i / per_out], row_norm(v, per_out, i / per_out))),
    )
}

/// The Euclidean lengths of the rows of a weight tensor with `rows` rows.
pub fn row_norms(weight_v: &Vec<Scalar>, rows: usize, per_out: usize) -> (r: Vec<Scalar>)
    requires
        weight_v@.len() == rows * per_out,
    ensures
        r@ == Seq::new(rows as nat, |c: int| row_norm(weight_v@, per_out as int, c)),
{
    let mut out: Vec<Scalar> = Vec::new();
    let n: usize = weight_v.len();
    let mut c: usize = 0;
    while c < rows
        invariant
            c <= rows,
            weight_v@.len() == rows * per_out,
            n == weight_v@.len(),
            out@.len() == c,
            forall|j: int| 0 <= j < c ==> out@[j] == row_norm(weight_v@, per_out as int, j),
        decreases rows - c,
    {
        assert(c * per_out + per_out <= rows * per_out) by (nonlinear_arith)
            requires
                c < rows,
        ;
        assert(0 <= c * per_out) by (nonlinear_arith);
        let base: usize = c * per_out;
        let mut acc = Scalar::F32(0);
        let mut i: usize = 0;
        while i < per_out
            invariant
                i <= per_out,
                base + per_out <= weight_v@.len() == n,
                acc == sum_squares(weight_v@, base as int, i as int),
            decreases per_out - i,
        {
            let x = &weight_v[base + i];
            acc = acc.add32(x.clone().mul32(x.clone()));
            i = i + 1;
        }
        out.push(acc.sqrt32());
        c = c + 1;
    }
    assert(out@ =~= Seq::new(rows as nat, |c: int| row_norm(weight_v@, per_out as int, c)));
    out
}

/// What weight normalisation yields, where `usable[c]` says whether the length
/// of row `c` is finite and not zero.
pub open spec fn weight_norm_outcome(
    g: Seq<Scalar>,
    v: Seq<Scalar>,
    usable: Seq<bool>,
    rows: int,
    per_out: int,
    r: Result<Vec<Scalar>, Error>,
) -> bool {
    if g.len() != rows {
        r == Err::<Vec<Scalar>, Error>(
            Error::WeightLength { declared: counted(rows), found: g.len() as usize },
        )
    } else if v.len() != rows * per_out {
        r == Err::<Vec<Scalar>, Error>(
            Error::WeightLength { declared: counted(rows * per_out), found: v.len() as usize },
        )
    } else if exists|c: int| 0 <= c < rows && !(#[trigger] usable[c]) {
        r == Err::<Vec<Scalar>, Error>(Error::WeightNorm)
    } else {
        r is Ok && r->Ok_0@ == weight_normed(g, v, rows, per_out)
    }
}

/// Turns the pair `(weight_g, weight_v)` of a normalised weight into the
/// weight itself:
///
/// ```text
/// w[o, i, k] = v[o, i, k] * (g[o] / sqrt(sum_{i,k} v[o, i, k]^2))
/// ```
///
/// `usable[o]` tells whether the length of row `o`, see [`row_norms`], is
/// finite and not zero; a row of another length has no normalised form.
pub fn bake_weight_norm(
    weight_g: &Vec<Scalar>,
    weight_v: &Vec<Scalar>,
    usable: &Vec<bool>,
    out_channels: usize,
    in_channels_per_group: usize,
    kernel_size: usize,
) -> (r: Result<Vec<Scalar>, Error>)
    requires
        usable@.len() == out_channels,
        in_channels_per_group * kernel_size <= usize::MAX,
    ensures
        weight_norm_outcome(
            weight_g@,
            weight_v@,
            usable@,
            out_channels as int,
            in_channels_per_group * kernel_size,
            r,
        ),
{
    if weight_g.len() != out_channels {
        return Err(Error::WeightLength { declared: Some(out_channels), found: weight_g.len() });
    }
    let per_out: usize = in_channels_per_group * kernel_size;
    let n: usize = weight_v.len();
    match out_channels.checked_mul(per_out) {
        None => {
            return Err(Error::WeightLength { declared: None, found: n });
        },
        Some(m) => {
            assert(m >= 0);
            if m != n {
                return Err(Error::WeightLength { declared: Some(m), found: n });
            }
        },
    }
    let mut c: usize = 0;
    while c < out_channels
        invariant
            c <= out_channels,
            usable@.len() == out_channels,
            weight_g@.len() == out_channels,
            weight_v@.len() == out_channels * per_out,
            per_out == in_channels_per_group * kernel_size,
            forall|j: int| 0 <= j < c ==> usable@[j],
        decreases out_channels - c,
    {
        if !usable[c] {
            return Err(Error::WeightNorm);
        }
        c = c + 1;
    }
    let norms = row_norms(weight_v, out_channels, per_out);
    let mut out: Vec<Scalar> = Vec::new();
    let mut i: usize = 0;
    while i < n
        invariant
            i <= n == weight_v@.len(),
            weight_g@.len() == out_channels,
            weight_v@.len() == out_channels * per_out,
            norms@ == Seq::new(out_channels as nat, |c: int| row_norm(weight_v@, per_out as int, c)),
            out@.len() == i,
            forall|j: int|
                0 <= j < i ==> out@[j] == weight_normed(
                    weight_g@,
                    weight_v@,
                    out_channels as int,
                    per_out as int,
                )[j],
        decreases n - i,
    {
        assert(per_out > 0) by (nonlinear_arith)
            requires
                0 <= i < out_channels * per_out,
                per_out >= 0,
                out_channels >= 0,
        ;
        assert(0 <= i / per_out < out_channels) by (nonlinear_arith)
            requires
                0 <= i < out_channels * per_out,
                per_out > 0,
        ;
        let o: usize = i / per_out;
        let scale = weight_g[o].clone().div32(norms[o].clone());
        out.push(weight_v[i].clone().mul32(scale));
        i = i + 1;
    }
    assert(out@ =~= weight_normed(weight_g@, weight_v@, out_channels as int, per_out as int));
    Ok(out)
}

/// A convolution layer; `weight` is the kernel
/// `(out_channels, in_channels / groups, kernel_size)`.
#[derive(Debug, Clone)]
pub struct StreamableConv1dWeights {
    pub weight: Data,
    pub bias: Option<Data>,
    pub in_channels: usize,
    pub out_channels: usize,
    pub kernel_size: usize,
    pub stride: usize,
    pub groups: usize,
    pub causal: bool,
    pub pad_mode: LazyPadMode,
}

/// Elements of a bias.
pub open spec fn bias_data(b: Option<Data>) -> Option<Seq<Scalar>> {
    match b {
        None => None,
        Some(d) => Some(d@),
    }
}

/// Why a convolution cannot be declared with these sizes.
pub open spec fn conv_defect(
    weight: int,
    bias: Option<Seq<Scalar>>,
    c_in: int,
    c_out: int,
    k: int,
    stride: int,
    groups: int,
) -> Option<Error> {
    if c_in == 0 || c_out == 0 || k == 0 || stride == 0 {
        Some(Error::ZeroExtent)
    } else if groups == 0 || c_in % groups != 0 {
        Some(Error::Groups)
    } else if k < stride {
        Some(Error::KernelBelowStride)
    } else if weight != c_out * (c_in / groups) * k {
        Some(
            Error::WeightLength {
                declared: counted(c_out * (c_in / groups) * k),
                found: weight as usize,
            },
        )
    } else if bias is Some && bias->Some_0.len() != c_out {
        Some(
            Error::BiasLength { expected: c_out as usize, found: bias->Some_0.len() as usize },
        )
    } else {
        None
    }
}

impl StreamableConv1dWeights {
    /// The sizes of the layer agree with each other.
    pub open spec fn valid(&self) -> bool {
        &&& conv_defect(
            self.weight@.len() as int,
            bias_data(self.bias),
            self.in_channels as int,
            self.out_channels as int,
            self.kernel_size as int,
            self.stride as int,
            self.groups as int,
        ) is None
        &&& 2 * self.kernel_size <= usize::MAX
    }

    /// Positions by which the kernel reaches back beyond one stride.
    pub open spec fn context(&self) -> int {
        self.kernel_size - self.stride
    }

    /// Positions missing on the right of a signal of length `t` to fill its
    /// last frame.
    pub open spec fn missing(&self, t: int) -> int {
        let s = self.stride as int;
        if t == 0 {
            s
        } else if t % s == 0 {
            0
        } else {
            s - t % s
        }
    }

    pub open spec fn kernel(&self) -> Tensor {
        Tensor::constant(
            self.weight@,
            seq![
                self.out_channels as int,
                self.in_channels as int / self.groups as int,
                self.kernel_size as int,
            ],
        )
    }

    pub open spec fn bias_value(&self) -> Option<Tensor> {
        match self.bias {
            None => None,
            Some(b) => Some(Tensor::constant(b@, seq![self.out_channels as int])),
        }
    }

    pub open spec fn convolved(&self, x: Tensor) -> Tensor {
        x.conv1d(self.kernel(), self.bias_value(), self.stride as int, 0, self.groups as int)
    }

    /// The padded signal that a one-shot run convolves.
    pub open spec fn padded_signal(&self, x: Tensor) -> Tensor {
        let total = self.context();
        let extra = self.missing(x.dim(2));
        if self.causal {
            padded(x, total, extra, self.pad_mode)
        } else {
            padded(x, total - total / 2, total / 2 + extra, self.pad_mode)
        }
    }

    /// Whether `x` is `(batch, in_channels, time)`.
    pub open spec fn accepts(&self, x: Tensor) -> bool {
        x.rank() == 3 && x.dim(1) == self.in_channels
    }

    /// What a one-shot run yields.
    pub open spec fn forward_value(&self, x: Tensor) -> Tensor {
        if self.accepts(x) {
            self.convolved(self.padded_signal(x))
        } else {
            Tensor::invalid(Error::InputShape)
        }
    }

    /// Declares a layer, unless its sizes contradict each other.
    pub fn new(
        weight: Data,
        bias: Option<Data>,
        in_channels: usize,
        out_channels: usize,
        kernel_size: usize,
        stride: usize,
        groups: usize,
        causal: bool,
        pad_mode: LazyPadMode,
    ) -> (r: Result<Self, Error>)
        ensures
            match conv_defect(
                weight@.len() as int,
                bias_data(bias),
                in_channels as int,
                out_channels as int,
                kernel_size as int,
                stride as int,
                groups as int,
            ) {
                Some(e) => r == Err::<Self, Error>(e),
                None => r == Ok::<Self, Error>(
                    (StreamableConv1dWeights {
                        weight,
                        bias,
                        in_channels,
                        out_channels,
                        kernel_size,
                        stride,
                        groups,
                        causal,
                        pad_mode,
                    }),
                ),
            },
    {
        if in_channels == 0 || out_channels == 0 || kernel_size == 0 || stride == 0 {
            return Err(Error::ZeroExtent);
        }
        if groups == 0 || in_channels % groups != 0 {
            return Err(Error::Groups);
        }
        if kernel_size < stride {
            return Err(Error::KernelBelowStride);
        }
        let per_group: usize = in_channels / groups;
        let found: usize = weight.len();
        if !kernel_has_len(found, out_channels, per_group, kernel_size) {
            let declared = kernel_len(out_channels, per_group, kernel_size);
            return Err(Error::WeightLength { declared, found });
        }
        if let Some(b) = &bias {
            if b.len() != out_channels {
                return Err(Error::BiasLength { expected: out_channels, found: b.len() });
            }
        }
        Ok(
            StreamableConv1dWeights {
                weight,
                bias,
                in_channels,
                out_channels,
                kernel_size,
                stride,
                groups,
                causal,
                pad_mode,
            },
        )
    }

    fn padding_total(&self) -> (r: usize)
        requires
            self.stride <= self.kernel_size,
        ensures
            r == self.context(),
    {
        self.kernel_size - self.stride
    }

    fn extra_padding(&self, t_in: usize) -> (r: usize)
        requires
            self.stride > 0,
        ensures
            r == self.missing(t_in as int),
            r <= self.stride,
    {
        if t_in == 0 {
            self.stride
        } else if t_in % self.stride == 0 {
            0
        } else {
            self.stride - t_in % self.stride
        }
    }

    fn build_weight_tensor(&self) -> (r: LazyTensor)
        requires
            self.groups > 0,
        ensures
            r@ == self.kernel(),
    {
        LazyTensor::const3(
            &self.weight,
            self.out_channels,
            self.in_channels / self.groups,
            self.kernel_size,
        )
    }

    fn build_bias_tensor(&self) -> (r: Option<LazyTensor>)
        ensures
            match r {
                None => self.bias_value() is None,
                Some(b) => self.bias_value() == Some(b@),
            },
    {
        match &self.bias {
            None => None,
            Some(b) => Some(LazyTensor::const1(b, self.out_channels)),
        }
    }

    fn convolve(&self, x: &LazyTensor) -> (r: LazyTensor)
        requires
            self.groups > 0,
        ensures
            r@ == self.convolved(x@),
    {
        let w = self.build_weight_tensor();
        let b = self.build_bias_tensor();
        match &b {
            None => x.conv1d(&w, None, self.stride, 0, self.groups),
            Some(b) => x.conv1d(&w, Some(b), self.stride, 0, self.groups),
        }
    }

    /// Convolves a whole signal `(batch, in_channels, time)`: a causal layer
    /// pads only on the left, another one on both sides, and either fills the
    /// last frame on the right.
    pub fn forward(&self, xs: &LazyTensor) -> (r: Result<LazyTensor, Error>)
        requires
            self.valid(),
        ensures
            outcome(r, self.forward_value(xs@)),
    {
        if xs.rank() != 3 || xs.dim(1) != self.in_channels {
            return Err(Error::InputShape);
        }
        let pad_total: usize = self.padding_total();
        let extra: usize = self.extra_padding(xs.dim(2));
        let padded = if self.causal {
            pad_value(xs, pad_total, extra, self.pad_mode)
        } else {
            let right: usize = pad_total / 2;
            let left: usize = pad_total - right;
            pad_value(xs, left, right + extra, self.pad_mode)
        };
        self.convolve(&padded).finish()
    }
}

/// Whether `len` is the product of three sizes.
pub(crate) fn kernel_has_len(len: usize, a: usize, b: usize, c: usize) -> (r: bool)
    ensures
        r <==> len == a * b * c,
{
    match kernel_len(a, b, c) {
        None => false,
        Some(n) => n == len,
    }
}

/// The product of three sizes, where it can be counted.
pub(crate) fn kernel_len(a: usize, b: usize, c: usize) -> (r: Option<usize>)
    ensures
        r == counted(a * b * c),
{
    if c == 0 {
        assert(a * b * c == 0) by (nonlinear_arith)
            requires
                c == 0,
        ;
        return Some(0);
    }
    assert(a * b >= 0 && a * b * c >= a * b) by (nonlinear_arith)
        requires
            a >= 0,
            b >= 0,
            c > 0,
    ;
    match a.checked_mul(b) {
        None => None,
        Some(ab) => ab.checked_mul(c),
    }
}

/// What a stream of chunks leaves behind: the part of the padded signal that
/// later frames still need, and whether the left padding has been paid.
#[derive(Debug, Clone)]
pub struct StreamConv1dState {
    pub buf: Option<LazyTensor>,
    pub left_pad_applied: bool,
}

/// The mathematical value of a stream's state.
pub ghost struct StreamState {
    pub buf: Option<Tensor>,
    pub left_pad_applied: bool,
}

/// The mathematical value of an optional expression.
pub open spec fn opt_view(t: Option<LazyTensor>) -> Option<Tensor> {
    match t {
        None => None,
        Some(x) => Some(x@),
    }
}

impl Default for StreamConv1dState {
    fn default() -> (r: Self)
        ensures
            r@ == StreamConv1dState::start(),
    {
        StreamConv1dState { buf: None, left_pad_applied: false }
    }
}

impl StreamConv1dState {
    pub open spec fn view(&self) -> StreamState {
        StreamState { buf: opt_view(self.buf), left_pad_applied: self.left_pad_applied }
    }

    /// Before the first chunk.
    pub open spec fn start() -> StreamState {
        StreamState { buf: None, left_pad_applied: false }
    }

    /// The state before the first chunk.
    pub fn empty() -> (r: Self)
        ensures
            r@ == StreamConv1dState::start(),
    {
        StreamConv1dState { buf: None, left_pad_applied: false }
    }
}

/// The failure that a value carries.
pub open spec fn failure_of(t: Tensor) -> Error {
    match t.term {
        Term::Invalid(e) => e,
        _ => Error::Shape,
    }
}

impl StreamableConv1dWeights {
    /// Frames that `len` positions of the padded signal hold.
    pub open spec fn frames(&self, len: int) -> int {
        if len < self.context() {
            0
        } else {
            (len - self.context()) / self.stride as int
        }
    }

    /// The carried positions, then the new chunk; the first chunk is padded.
    pub open spec fn combined(&self, st: StreamState, x: Tensor) -> Tensor {
        let p = if st.left_pad_applied {
            x
        } else {
            padded(x, self.context(), 0, self.pad_mode)
        };
        match st.buf {
            None => p,
            Some(prev) => prev.concat(p, 2),
        }
    }

    /// What a step makes of a state and a chunk: the next state and the
    /// completed frames.
    pub open spec fn step_value(&self, st: StreamState, x: Tensor) -> Result<
        (StreamState, Option<Tensor>),
        Error,
    > {
        let c = self.combined(st, x);
        let s = self.stride as int;
        let n = self.frames(c.dim(2));
        let carry = c.narrow(2, n * s, c.dim(2) - n * s);
        let y = self.convolved(c.narrow(2, 0, (n - 1) * s + self.kernel_size));
        if !self.accepts(x) {
            Err(Error::InputShape)
        } else if c.bad() {
            Err(failure_of(c))
        } else if n == 0 {
            Ok((StreamState { buf: Some(c), left_pad_applied: true }, None))
        } else if carry.bad() {
            Err(failure_of(carry))
        } else if y.bad() {
            Err(failure_of(y))
        } else {
            Ok((StreamState { buf: Some(carry), left_pad_applied: true }, Some(y)))
        }
    }

    /// Takes the next chunk `(batch, in_channels, length)` of a signal.
    ///
    /// Yields the frames that the signal so far completes beyond those of the
    /// earlier steps, or none where the chunk completes no frame.
    pub fn step(&self, state: StreamConv1dState, xs: &LazyTensor) -> (r: Result<
        (StreamConv1dState, Option<LazyTensor>),
        Error,
    >)
        requires
            self.valid(),
        ensures
            match r {
                Ok((st, y)) => self.step_value(state@, xs@) == Ok::<
                    (StreamState, Option<Tensor>),
                    Error,
                >((st@, opt_view(y))),
                Err(e) => self.step_value(state@, xs@) == Err::<(StreamState, Option<Tensor>), Error>(e),
            },
    {
        if xs.rank() != 3 || xs.dim(1) != self.in_channels {
            return Err(Error::InputShape);
        }
        let pad_total: usize = self.padding_total();
        let xs_padded = if state.left_pad_applied {
            xs.clone()
        } else {
            pad_value(xs, pad_total, 0, self.pad_mode)
        };
        let combined = match &state.buf {
            None => xs_padded,
            Some(prev) => prev.concat(&xs_padded, 2),
        };
        if let Some(e) = combined.failure() {
            return Err(e);
        }
        let combined_len: usize = combined.dim(2);
        let stride: usize = self.stride;
        let num_frames: usize = if combined_len < pad_total {
            0
        } else {
            (combined_len - pad_total) / stride
        };
        if num_frames == 0 {
            return Ok((StreamConv1dState { buf: Some(combined), left_pad_applied: true }, None));
        }
        assert(num_frames * stride <= combined_len - pad_total) by (nonlinear_arith)
            requires
                stride > 0,
                num_frames == (combined_len - pad_total) / stride as int,
        ;
        assert((num_frames - 1) * stride == num_frames * stride - stride) by (nonlinear_arith);
        assert((num_frames - 1) * stride >= 0) by (nonlinear_arith)
            requires
                num_frames >= 1,
        ;
        let offset: usize = num_frames * stride;
        let carry = combined.narrow(2, offset, combined_len - offset);
        if let Some(e) = carry.failure() {
            return Err(e);
        }
        let in_l: usize = (num_frames - 1) * stride + self.kernel_size;
        let y = self.convolve(&combined.narrow(2, 0, in_l));
        if let Some(e) = y.failure() {
            return Err(e);
        }
        Ok((StreamConv1dState { buf: Some(carry), left_pad_applied: true }, Some(y)))
    }
}

} // verus!
