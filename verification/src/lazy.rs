//! Tensor expressions.
//!
//! A [`LazyTensor`] is a shared expression: the operation that yields it, its
//! operands and its extents. Nothing is computed while an expression is
//! built. Building never fails halfway: an operation whose operands do not fit
//! yields an expression that carries an [`Error`], and every operation on such
//! an expression yields it again, so that the first failure surfaces at the
//! end of a chain of operations.
//!
//! [`Tensor`] is the mathematical value of an expression, and each operation
//! exists twice: on [`Tensor`], where it says what the result is, and on
//! [`LazyTensor`], where it builds it.

use crate::error::Error;
use crate::scalar::{Data, Scalar};
use crate::shape::{
    broadcast_dims, broadcast_rule, broadcast_to_dims, broadcast_to_rule, causal_conv_dims,
    causal_conv_rule, chunk_dims, chunk_rule, concat_dims, concat_rule, const_dims, const_rule,
    conv1d_dims, conv1d_rule, conv2d_dims, conv2d_rule, conv_transpose1d_dims,
    conv_transpose1d_rule, copy_dims, dims1, dims2, dims3, dims4, dims5, dims6, drop_dims,
    drop_rule, ints, ints_opt, keep_dims, keep_rule, linear_dims, linear_rule, lstm_dims,
    lstm_rule, matmul_dims, matmul_rule, merge_heads_dims, merge_heads_rule, narrow_dims,
    narrow_rule, pad_dims, pad_rule, permute_dims, permute_rule, pool_dims, pool_rule,
    repeat_dims, repeat_rule, reshape_dims, reshape_rule, rope_dims, rope_rule, same_dims,
    same_rule, scan_dims, scan_rule, select_dims, select_rule, split_heads_dims,
    split_heads_rule, squeeze_dims, squeeze_rule, ssd_dims, ssd_rule, swap_dims, swap_rule,
    transpose_dims, transpose_rule, unsqueeze_dims, unsqueeze_rule,
};
use std::sync::Arc;
use vstd::prelude::*;

verus! {

/// An operation with its parameters; extents and axes are of type `N`.
#[derive(Debug)]
pub enum Op<N> {
    /// Negation, element by element.
    Neg,
    /// Exponential, element by element.
    Exp,
    /// Natural logarithm, element by element.
    Log,
    /// Square root, element by element.
    Sqrt,
    /// Sine, element by element.
    Sin,
    /// Cosine, element by element.
    Cos,
    /// `x * sigmoid(x)`, element by element.
    Silu,
    /// `max(x, 0)`, element by element.
    Relu,
    /// Gaussian error linear unit in its `tanh` form.
    Gelu,
    /// Gaussian error linear unit in its `erf` form.
    GeluErf,
    /// Logistic function, element by element.
    Sigmoid,
    /// `x` where positive, else `alpha * (exp(x) - 1)`.
    Elu(Scalar),
    /// Every element times one scalar.
    MulScalar(Scalar),
    /// Every element plus one scalar.
    AddScalar(Scalar),
    /// Softmax over the last axis.
    Softmax,
    /// Mean zero, variance one over the last axis.
    LayerNorm(Scalar),
    /// Mean square one over the last axis.
    RmsNorm(Scalar),
    /// Unit Euclidean length along one axis.
    L2Normalize(N, Scalar),
    /// The last two axes exchanged.
    Transpose,
    /// Two axes exchanged.
    Swap(N, N),
    /// `len` positions of one axis, from `start` on.
    Narrow(N, N, N),
    /// Zeros before and after one axis.
    Pad(N, N, N),
    /// Each position of an axis, `times` times in a row.
    Repeat(N, N),
    /// Mean over one axis, which stays with one position.
    Mean(N),
    /// Sum over one axis, which goes away.
    Sum(N),
    /// Index of the least element along one axis, which goes away.
    ArgMin(N),
    /// An axis of one position taken away.
    Squeeze(N),
    /// An axis of one position put in.
    Unsqueeze(N),
    /// `(batch, seq, heads * width)` as `(batch, heads, seq, width)`.
    SplitHeads(N, N),
    /// `(batch, heads, seq, width)` as `(batch, seq, heads * width)`.
    MergeHeads,
    /// Mean over the two spatial axes.
    GlobalAvgPool,
    /// Sum of two tensors of one shape.
    Add,
    /// Difference of two tensors of one shape.
    Sub,
    /// Elementwise product of two tensors of one shape.
    Mul,
    /// Elementwise quotient of two tensors of one shape.
    Div,
    /// Sum of two tensors stretched to a common shape.
    BroadcastAdd,
    /// Difference of two tensors stretched to a common shape.
    BroadcastSub,
    /// Product of two tensors stretched to a common shape.
    BroadcastMul,
    /// Matrix product over the last two axes.
    MatMul,
    /// One tensor after the other along an axis.
    Concat(N),
    /// Two-dimensional convolution with a kernel `(c_out, c_in / groups, k, k)`.
    Conv2d(N, N, N),
    /// Transposed convolution with a kernel `(c_in, c_out / groups, k)`.
    ConvTranspose1d(N, N),
    /// The same elements under other extents.
    Reshape,
    /// Stretched to other extents.
    BroadcastTo,
    /// Axes in a new order; the axes beyond the rank stay.
    Permute(N, N, N, N, N, N),
    /// Piece number two of an axis (number zero) cut into (number one) equal pieces.
    Chunk(N, N, N),
    /// Last axis mapped by a matrix `(fan_in, fan_out)`.
    Linear,
    /// Positions of an axis picked by the indices of the second operand.
    IndexSelect(N),
    /// Convolution with stride, padding and groups, and a bias where there is a third operand.
    Conv1d(N, N, N),
    /// Rotation of halves by a cosine and a sine table.
    Rope,
    /// Depthwise convolution with bias; the flag asks for a trailing `silu`.
    CausalConv1d(bool),
    /// Selective state-space scan; the flag asks for `softplus` on the steps.
    SelectiveScan(bool),
    /// State-space scan in chunks of the given length.
    SsdChunkScan(N),
    /// Long short-term memory of the given width.
    Lstm(N),
    /// Cosines of the rotation angles: base, first position, positions, head width.
    RopeCos(Scalar, N, N, N),
    /// Sines of the rotation angles: base, first position, positions, head width.
    RopeSin(Scalar, N, N, N),
    /// Zero where the column is at most the row, else negative infinity.
    CausalMask(N),
}

/// The operation over mathematical integers.
pub open spec fn op_view(op: Op<usize>) -> Op<int> {
    match op {
        Op::Neg => Op::Neg,
        Op::Exp => Op::Exp,
        Op::Log => Op::Log,
        Op::Sqrt => Op::Sqrt,
        Op::Sin => Op::Sin,
        Op::Cos => Op::Cos,
        Op::Silu => Op::Silu,
        Op::Relu => Op::Relu,
        Op::Gelu => Op::Gelu,
        Op::GeluErf => Op::GeluErf,
        Op::Sigmoid => Op::Sigmoid,
        Op::Elu(a0) => Op::Elu(a0),
        Op::MulScalar(a0) => Op::MulScalar(a0),
        Op::AddScalar(a0) => Op::AddScalar(a0),
        Op::Softmax => Op::Softmax,
        Op::LayerNorm(a0) => Op::LayerNorm(a0),
        Op::RmsNorm(a0) => Op::RmsNorm(a0),
        Op::L2Normalize(a0, a1) => Op::L2Normalize(a0 as int, a1),
        Op::Transpose => Op::Transpose,
        Op::Swap(a0, a1) => Op::Swap(a0 as int, a1 as int),
        Op::Narrow(a0, a1, a2) => Op::Narrow(a0 as int, a1 as int, a2 as int),
        Op::Pad(a0, a1, a2) => Op::Pad(a0 as int, a1 as int, a2 as int),
        Op::Repeat(a0, a1) => Op::Repeat(a0 as int, a1 as int),
        Op::Mean(a0) => Op::Mean(a0 as int),
        Op::Sum(a0) => Op::Sum(a0 as int),
        Op::ArgMin(a0) => Op::ArgMin(a0 as int),
        Op::Squeeze(a0) => Op::Squeeze(a0 as int),
        Op::Unsqueeze(a0) => Op::Unsqueeze(a0 as int),
        Op::SplitHeads(a0, a1) => Op::SplitHeads(a0 as int, a1 as int),
        Op::MergeHeads => Op::MergeHeads,
        Op::GlobalAvgPool => Op::GlobalAvgPool,
        Op::Add => Op::Add,
        Op::Sub => Op::Sub,
        Op::Mul => Op::Mul,
        Op::Div => Op::Div,
        Op::BroadcastAdd => Op::BroadcastAdd,
        Op::BroadcastSub => Op::BroadcastSub,
        Op::BroadcastMul => Op::BroadcastMul,
        Op::MatMul => Op::MatMul,
        Op::Concat(a0) => Op::Concat(a0 as int),
        Op::Conv2d(a0, a1, a2) => Op::Conv2d(a0 as int, a1 as int, a2 as int),
        Op::ConvTranspose1d(a0, a1) => Op::ConvTranspose1d(a0 as int, a1 as int),
        Op::Reshape => Op::Reshape,
        Op::BroadcastTo => Op::BroadcastTo,
        Op::Permute(a0, a1, a2, a3, a4, a5) => Op::Permute(a0 as int, a1 as int, a2 as int, a3 as int, a4 as int, a5 as int),
        Op::Chunk(a0, a1, a2) => Op::Chunk(a0 as int, a1 as int, a2 as int),
        Op::Linear => Op::Linear,
        Op::IndexSelect(a0) => Op::IndexSelect(a0 as int),
        Op::Conv1d(a0, a1, a2) => Op::Conv1d(a0 as int, a1 as int, a2 as int),
        Op::Rope => Op::Rope,
        Op::CausalConv1d(a0) => Op::CausalConv1d(a0),
        Op::SelectiveScan(a0) => Op::SelectiveScan(a0),
        Op::SsdChunkScan(a0) => Op::SsdChunkScan(a0 as int),
        Op::Lstm(a0) => Op::Lstm(a0 as int),
        Op::RopeCos(a0, a1, a2, a3) => Op::RopeCos(a0, a1 as int, a2 as int, a3 as int),
        Op::RopeSin(a0, a1, a2, a3) => Op::RopeSin(a0, a1 as int, a2 as int, a3 as int),
        Op::CausalMask(a0) => Op::CausalMask(a0 as int),
    }
}

/// How an expression is made.
#[derive(Debug)]
pub enum Node {
    /// Building failed.
    Invalid(Error),
    /// Given numbers.
    Const(Data),
    /// Given indices.
    Ids(Arc<Vec<u32>>),
    /// An operation without operands.
    Leaf(Op<usize>),
    /// An operation on one operand.
    Un(Op<usize>, LazyTensor),
    /// An operation on two operands.
    Bin(Op<usize>, LazyTensor, LazyTensor),
    /// An operation on three operands.
    Tri(Op<usize>, LazyTensor, LazyTensor, LazyTensor),
    /// An operation on five operands.
    Quin(Op<usize>, LazyTensor, LazyTensor, LazyTensor, LazyTensor, LazyTensor),
}

/// A node with the extents of its value.
#[derive(Debug)]
struct Inner {
    dims: Vec<usize>,
    node: Node,
}

/// A shared tensor expression.
#[derive(Debug)]
pub struct LazyTensor {
    inner: Arc<Inner>,
}

/// How a tensor value is made.
pub ghost enum Term {
    Invalid(Error),
    Const(Seq<Scalar>),
    Ids(Seq<u32>),
    Leaf(Op<int>),
    Un(Op<int>, Box<Tensor>),
    Bin(Op<int>, Box<Tensor>, Box<Tensor>),
    Tri(Op<int>, Box<Tensor>, Box<Tensor>, Box<Tensor>),
    Quin(Op<int>, Box<Tensor>, Box<Tensor>, Box<Tensor>, Box<Tensor>, Box<Tensor>),
}

/// The mathematical value of an expression: its extents and how it is made.
pub ghost struct Tensor {
    pub dims: Seq<int>,
    pub term: Term,
}

/// The mathematical value of a node.
pub closed spec fn node_view(node: Node) -> Term
    decreases node,
{
    match node {
        Node::Invalid(e) => Term::Invalid(e),
        Node::Const(d) => Term::Const(d@),
        Node::Ids(d) => Term::Ids(d@),
        Node::Leaf(o) => Term::Leaf(op_view(o)),
        Node::Un(o, a) => Term::Un(op_view(o), Box::new(a.view())),
        Node::Bin(o, a, b) => Term::Bin(op_view(o), Box::new(a.view()), Box::new(b.view())),
        Node::Tri(o, a, b, c) => Term::Tri(
            op_view(o),
            Box::new(a.view()),
            Box::new(b.view()),
            Box::new(c.view()),
        ),
        Node::Quin(o, a, b, c, d, e) => Term::Quin(
            op_view(o),
            Box::new(a.view()),
            Box::new(b.view()),
            Box::new(c.view()),
            Box::new(d.view()),
            Box::new(e.view()),
        ),
    }
}

impl LazyTensor {
    /// The mathematical value of the expression.
    pub closed spec fn view(&self) -> Tensor
        decreases self,
    {
        Tensor { dims: ints(self.inner.dims@), term: node_view(self.inner.node) }
    }
}

impl Clone for LazyTensor {
    fn clone(&self) -> (r: Self)
        ensures
            r == *self,
    {
        LazyTensor { inner: self.inner.clone() }
    }
}

/// A weight matrix, `(fan_in, fan_out)` in row-major order.
#[derive(Debug)]
pub enum WeightStorage {
    F32(Data),
}

impl WeightStorage {
    /// The elements of the matrix.
    pub open spec fn view(&self) -> Seq<Scalar> {
        match *self {
            WeightStorage::F32(d) => d@,
        }
    }

    /// The elements of the matrix.
    pub fn data(&self) -> (r: &Data)
        ensures
            r@ == self@,
    {
        match self {
            WeightStorage::F32(d) => d,
        }
    }

    /// Maps the last axis of `x`.
    pub fn apply_linear(&self, x: &LazyTensor, fan_in: usize, fan_out: usize) -> (r: LazyTensor)
        ensures
            r@ == x@.linear(self@, fan_in as int, fan_out as int),
    {
        x.linear(self.data(), fan_in, fan_out)
    }
}

impl Clone for WeightStorage {
    fn clone(&self) -> (r: Self)
        ensures
            r == *self,
    {
        match self {
            WeightStorage::F32(d) => WeightStorage::F32(d.clone()),
        }
    }
}

/// What a fallible builder returns for the tensor `t`.
pub open spec fn outcome(r: Result<LazyTensor, Error>, t: Tensor) -> bool {
    match r {
        Ok(v) => !t.bad() && v@ == t,
        Err(e) => t.term == Term::Invalid(e),
    }
}

/// What a fallible builder returns for the tensors `a` and `b`; the failure of
/// the first one comes first.
pub open spec fn outcome2(r: Result<(LazyTensor, LazyTensor), Error>, a: Tensor, b: Tensor) -> bool {
    match r {
        Ok((x, y)) => !a.bad() && !b.bad() && x@ == a && y@ == b,
        Err(e) => if a.bad() {
            a.term == Term::Invalid(e)
        } else {
            b.term == Term::Invalid(e)
        },
    }
}

/// Two expressions, or the failure of the first one that carries one.
pub fn finish2(a: LazyTensor, b: LazyTensor) -> (r: Result<(LazyTensor, LazyTensor), Error>)
    ensures
        outcome2(r, a@, b@),
{
    if let Some(e) = a.failure() {
        return Err(e);
    }
    if let Some(e) = b.failure() {
        return Err(e);
    }
    Ok((a, b))
}

impl Tensor {
    /// A value whose building failed.
    pub open spec fn invalid(e: Error) -> Tensor {
        Tensor { dims: seq![], term: Term::Invalid(e) }
    }

    /// Whether building failed.
    pub open spec fn bad(self) -> bool {
        self.term is Invalid
    }

    /// Extent of one axis, zero beyond the rank.
    pub open spec fn dim(self, i: int) -> int {
        if 0 <= i < self.dims.len() {
            self.dims[i]
        } else {
            0
        }
    }

    /// Number of axes.
    pub open spec fn rank(self) -> int {
        self.dims.len() as int
    }

    /// Extents, or the failure to find them.
    pub open spec fn made(dims: Option<Seq<int>>, term: Term) -> Tensor {
        match dims {
            None => Tensor::invalid(Error::Shape),
            Some(d) => Tensor { dims: d, term },
        }
    }

    pub open spec fn un(self, op: Op<int>, dims: Option<Seq<int>>) -> Tensor {
        if self.bad() {
            self
        } else {
            Tensor::made(dims, Term::Un(op, Box::new(self)))
        }
    }

    pub open spec fn bin(self, b: Tensor, op: Op<int>, dims: Option<Seq<int>>) -> Tensor {
        if self.bad() {
            self
        } else if b.bad() {
            b
        } else {
            Tensor::made(dims, Term::Bin(op, Box::new(self), Box::new(b)))
        }
    }

    pub open spec fn tri(self, b: Tensor, c: Tensor, op: Op<int>, dims: Option<Seq<int>>) -> Tensor {
        if self.bad() {
            self
        } else if b.bad() {
            b
        } else if c.bad() {
            c
        } else {
            Tensor::made(dims, Term::Tri(op, Box::new(self), Box::new(b), Box::new(c)))
        }
    }

    pub open spec fn quin(
        self,
        b: Tensor,
        c: Tensor,
        d: Tensor,
        e: Tensor,
        op: Op<int>,
        dims: Option<Seq<int>>,
    ) -> Tensor {
        if self.bad() {
            self
        } else if b.bad() {
            b
        } else if c.bad() {
            c
        } else if d.bad() {
            d
        } else if e.bad() {
            e
        } else {
            Tensor::made(
                dims,
                Term::Quin(op, Box::new(self), Box::new(b), Box::new(c), Box::new(d), Box::new(e)),
            )
        }
    }

    /// Given numbers under given extents.
    #[verifier::opaque]
    pub open spec fn constant(data: Seq<Scalar>, dims: Seq<int>) -> Tensor {
        Tensor::made(const_rule(data.len() as int, dims), Term::Const(data))
    }

    /// Given indices in one row.
    #[verifier::opaque]
    pub open spec fn ids(data: Seq<u32>) -> Tensor {
        Tensor { dims: seq![data.len() as int], term: Term::Ids(data) }
    }

    /// Cosines of the angles `p / theta^(2 i / width)` for the positions
    /// `p` in `start .. start + seq`; the columns `i` and `i + width / 2` agree
    /// for `i < width / 2`.
    #[verifier::opaque]
    pub open spec fn rope_cos(theta: Scalar, start: int, seq: int, width: int) -> Tensor {
        Tensor {
            dims: seq![seq, width],
            term: Term::Leaf(Op::RopeCos(theta, start, seq, width)),
        }
    }

    /// Sines of the same angles.
    #[verifier::opaque]
    pub open spec fn rope_sin(theta: Scalar, start: int, seq: int, width: int) -> Tensor {
        Tensor {
            dims: seq![seq, width],
            term: Term::Leaf(Op::RopeSin(theta, start, seq, width)),
        }
    }

    /// Additive causal mask of `seq` rows and columns.
    #[verifier::opaque]
    pub open spec fn causal_mask(seq: int) -> Tensor {
        Tensor { dims: seq![seq, seq], term: Term::Leaf(Op::CausalMask(seq)) }
    }

    /// The same elements, in order, under other extents.
    #[verifier::opaque]
    pub open spec fn reshape(self, to: Seq<int>) -> Tensor {
        self.un(Op::Reshape, reshape_rule(self.dims, to))
    }

    /// Stretched to other extents.
    #[verifier::opaque]
    pub open spec fn broadcast_to(self, to: Seq<int>) -> Tensor {
        self.un(Op::BroadcastTo, broadcast_to_rule(self.dims, to))
    }

    /// Axis `i` of the result is axis `ax[i]`.
    #[verifier::opaque]
    pub open spec fn permute(self, ax: Seq<int>) -> Tensor {
        self.un(
            Op::Permute(
                axis_or(ax, 0),
                axis_or(ax, 1),
                axis_or(ax, 2),
                axis_or(ax, 3),
                axis_or(ax, 4),
                axis_or(ax, 5),
            ),
            permute_rule(self.dims, ax),
        )
    }

    /// Piece `i` of an axis cut into `n` equal pieces.
    #[verifier::opaque]
    pub open spec fn chunk(self, axis: int, n: int, i: int) -> Tensor {
        self.un(Op::Chunk(axis, n, i), chunk_rule(self.dims, axis, n))
    }

    /// Last axis mapped by the matrix `w (fan_in, fan_out)`.
    #[verifier::opaque]
    pub open spec fn linear(self, w: Seq<Scalar>, fan_in: int, fan_out: int) -> Tensor {
        self.bin(
            Tensor::constant(w, seq![fan_in, fan_out]),
            Op::Linear,
            linear_rule(self.dims, fan_in, fan_out),
        )
    }

    /// Positions of an axis picked by indices.
    #[verifier::opaque]
    pub open spec fn index_select(self, axis: int, ids: Tensor) -> Tensor {
        self.bin(ids, Op::IndexSelect(axis), select_rule(self.dims, axis, ids.dims))
    }

    /// Convolution with a kernel `(c_out, c_in / groups, k)` and a bias `(c_out)`.
    #[verifier::opaque]
    pub open spec fn conv1d(
        self,
        w: Tensor,
        bias: Option<Tensor>,
        stride: int,
        pad: int,
        groups: int,
    ) -> Tensor {
        match bias {
            None => self.bin(
                w,
                Op::Conv1d(stride, pad, groups),
                conv1d_rule(self.dims, w.dims, stride, pad, groups),
            ),
            Some(b) => self.tri(
                w,
                b,
                Op::Conv1d(stride, pad, groups),
                if b.dims == seq![w.dim(0)] {
                    conv1d_rule(self.dims, w.dims, stride, pad, groups)
                } else {
                    None
                },
            ),
        }
    }

    /// Rotation of halves by a cosine and a sine table.
    #[verifier::opaque]
    pub open spec fn rope_with_tables(self, c: Tensor, s: Tensor) -> Tensor {
        self.tri(c, s, Op::Rope, rope_rule(self.dims, c.dims, s.dims))
    }

    /// Depthwise convolution of an operand already padded on the left.
    #[verifier::opaque]
    pub open spec fn causal_conv1d(self, w: Tensor, b: Tensor, silu: bool) -> Tensor {
        self.tri(w, b, Op::CausalConv1d(silu), causal_conv_rule(self.dims, w.dims, b.dims))
    }

    /// Selective state-space scan.
    #[verifier::opaque]
    pub open spec fn selective_scan(
        self,
        delta: Tensor,
        a: Tensor,
        b: Tensor,
        c: Tensor,
        softplus: bool,
    ) -> Tensor {
        self.quin(
            delta,
            a,
            b,
            c,
            Op::SelectiveScan(softplus),
            scan_rule(self.dims, delta.dims, a.dims, b.dims, c.dims),
        )
    }

    /// State-space scan in chunks.
    #[verifier::opaque]
    pub open spec fn ssd_chunk_scan(self, dt: Tensor, a: Tensor, b: Tensor, c: Tensor, chunk: int) -> Tensor {
        self.quin(
            dt,
            a,
            b,
            c,
            Op::SsdChunkScan(chunk),
            ssd_rule(self.dims, dt.dims, a.dims, b.dims, c.dims, chunk),
        )
    }

    /// Long short-term memory of width `h`.
    #[verifier::opaque]
    pub open spec fn lstm(self, wi: Tensor, wh: Tensor, bi: Tensor, bh: Tensor, h: int) -> Tensor {
        self.quin(
            wi,
            wh,
            bi,
            bh,
            Op::Lstm(h),
            lstm_rule(self.dims, wi.dims, wh.dims, bi.dims, bh.dims, h),
        )
    }

    /// Negation, element by element.
    #[verifier::opaque]
    pub open spec fn neg(self) -> Tensor {
        self.un(Op::Neg, Some(self.dims))
    }

    /// Exponential, element by element.
    #[verifier::opaque]
    pub open spec fn exp(self) -> Tensor {
        self.un(Op::Exp, Some(self.dims))
    }

    /// Natural logarithm, element by element.
    #[verifier::opaque]
    pub open spec fn log(self) -> Tensor {
        self.un(Op::Log, Some(self.dims))
    }

    /// Square root, element by element.
    #[verifier::opaque]
    pub open spec fn sqrt(self) -> Tensor {
        self.un(Op::Sqrt, Some(self.dims))
    }

    /// Sine, element by element.
    #[verifier::opaque]
    pub open spec fn sin(self) -> Tensor {
        self.un(Op::Sin, Some(self.dims))
    }

    /// Cosine, element by element.
    #[verifier::opaque]
    pub open spec fn cos(self) -> Tensor {
        self.un(Op::Cos, Some(self.dims))
    }

    /// `x * sigmoid(x)`, element by element.
    #[verifier::opaque]
    pub open spec fn silu(self) -> Tensor {
        self.un(Op::Silu, Some(self.dims))
    }

    /// `max(x, 0)`, element by element.
    #[verifier::opaque]
    pub open spec fn relu(self) -> Tensor {
        self.un(Op::Relu, Some(self.dims))
    }

    /// Gaussian error linear unit in its `tanh` form.
    #[verifier::opaque]
    pub open spec fn gelu(self) -> Tensor {
        self.un(Op::Gelu, Some(self.dims))
    }

    /// Gaussian error linear unit in its `erf` form.
    #[verifier::opaque]
    pub open spec fn gelu_erf(self) -> Tensor {
        self.un(Op::GeluErf, Some(self.dims))
    }

    /// Logistic function, element by element.
    #[verifier::opaque]
    pub open spec fn sigmoid(self) -> Tensor {
        self.un(Op::Sigmoid, Some(self.dims))
    }

    /// `x` where positive, else `alpha * (exp(x) - 1)`.
    #[verifier::opaque]
    pub open spec fn elu(self, alpha: Scalar) -> Tensor {
        self.un(Op::Elu(alpha), Some(self.dims))
    }

    /// Every element times one scalar.
    #[verifier::opaque]
    pub open spec fn mul_scalar(self, s: Scalar) -> Tensor {
        self.un(Op::MulScalar(s), Some(self.dims))
    }

    /// Every element plus one scalar.
    #[verifier::opaque]
    pub open spec fn add_scalar(self, s: Scalar) -> Tensor {
        self.un(Op::AddScalar(s), Some(self.dims))
    }

    /// Softmax over the last axis.
    #[verifier::opaque]
    pub open spec fn softmax_last_dim(self) -> Tensor {
        self.un(Op::Softmax, Some(self.dims))
    }

    /// Mean zero, variance one over the last axis.
    #[verifier::opaque]
    pub open spec fn layer_norm_last_dim(self, eps: Scalar) -> Tensor {
        self.un(Op::LayerNorm(eps), Some(self.dims))
    }

    /// Mean square one over the last axis.
    #[verifier::opaque]
    pub open spec fn rms_norm_last_dim(self, eps: Scalar) -> Tensor {
        self.un(Op::RmsNorm(eps), Some(self.dims))
    }

    /// Unit Euclidean length along one axis.
    #[verifier::opaque]
    pub open spec fn l2_normalize(self, axis: int, eps: Scalar) -> Tensor {
        self.un(Op::L2Normalize(axis, eps), if 0 <= axis < self.dims.len() { Some(self.dims) } else { None })
    }

    /// The last two axes exchanged.
    #[verifier::opaque]
    pub open spec fn transpose(self) -> Tensor {
        self.un(Op::Transpose, transpose_rule(self.dims))
    }

    /// Two axes exchanged.
    #[verifier::opaque]
    pub open spec fn transpose_dims(self, i: int, j: int) -> Tensor {
        self.un(Op::Swap(i, j), swap_rule(self.dims, i, j))
    }

    /// `len` positions of one axis, from `start` on.
    #[verifier::opaque]
    pub open spec fn narrow(self, axis: int, start: int, len: int) -> Tensor {
        self.un(Op::Narrow(axis, start, len), narrow_rule(self.dims, axis, start, len))
    }

    /// Zeros before and after one axis.
    #[verifier::opaque]
    pub open spec fn pad_with_zeros(self, axis: int, left: int, right: int) -> Tensor {
        self.un(Op::Pad(axis, left, right), pad_rule(self.dims, axis, left, right))
    }

    /// Each position of an axis, `times` times in a row.
    #[verifier::opaque]
    pub open spec fn repeat_interleave(self, axis: int, times: int) -> Tensor {
        self.un(Op::Repeat(axis, times), repeat_rule(self.dims, axis, times))
    }

    /// Mean over one axis, which stays with one position.
    #[verifier::opaque]
    pub open spec fn mean_keepdim(self, axis: int) -> Tensor {
        self.un(Op::Mean(axis), keep_rule(self.dims, axis))
    }

    /// Sum over one axis, which goes away.
    #[verifier::opaque]
    pub open spec fn sum_dim(self, axis: int) -> Tensor {
        self.un(Op::Sum(axis), drop_rule(self.dims, axis))
    }

    /// Index of the least element along one axis, which goes away.
    #[verifier::opaque]
    pub open spec fn argmin_dim(self, axis: int) -> Tensor {
        self.un(Op::ArgMin(axis), drop_rule(self.dims, axis))
    }

    /// An axis of one position taken away.
    #[verifier::opaque]
    pub open spec fn squeeze(self, axis: int) -> Tensor {
        self.un(Op::Squeeze(axis), squeeze_rule(self.dims, axis))
    }

    /// An axis of one position put in.
    #[verifier::opaque]
    pub open spec fn unsqueeze(self, axis: int) -> Tensor {
        self.un(Op::Unsqueeze(axis), unsqueeze_rule(self.dims, axis))
    }

    /// `(batch, seq, heads * width)` as `(batch, heads, seq, width)`.
    #[verifier::opaque]
    pub open spec fn split_heads(self, heads: int, width: int) -> Tensor {
        self.un(Op::SplitHeads(heads, width), split_heads_rule(self.dims, heads, width))
    }

    /// `(batch, heads, seq, width)` as `(batch, seq, heads * width)`.
    #[verifier::opaque]
    pub open spec fn merge_heads(self) -> Tensor {
        self.un(Op::MergeHeads, merge_heads_rule(self.dims))
    }

    /// Mean over the two spatial axes.
    #[verifier::opaque]
    pub open spec fn global_avg_pool_2d(self) -> Tensor {
        self.un(Op::GlobalAvgPool, pool_rule(self.dims))
    }

    /// Sum of two tensors of one shape.
    #[verifier::opaque]
    pub open spec fn add(self, b: Tensor) -> Tensor {
        self.bin(b, Op::Add, same_rule(self.dims, b.dims))
    }

    /// Difference of two tensors of one shape.
    #[verifier::opaque]
    pub open spec fn sub(self, b: Tensor) -> Tensor {
        self.bin(b, Op::Sub, same_rule(self.dims, b.dims))
    }

    /// Elementwise product of two tensors of one shape.
    #[verifier::opaque]
    pub open spec fn mul(self, b: Tensor) -> Tensor {
        self.bin(b, Op::Mul, same_rule(self.dims, b.dims))
    }

    /// Elementwise quotient of two tensors of one shape.
    #[verifier::opaque]
    pub open spec fn div(self, b: Tensor) -> Tensor {
        self.bin(b, Op::Div, same_rule(self.dims, b.dims))
    }

    /// Sum of two tensors stretched to a common shape.
    #[verifier::opaque]
    pub open spec fn broadcast_add(self, b: Tensor) -> Tensor {
        self.bin(b, Op::BroadcastAdd, broadcast_rule(self.dims, b.dims))
    }

    /// Difference of two tensors stretched to a common shape.
    #[verifier::opaque]
    pub open spec fn broadcast_sub(self, b: Tensor) -> Tensor {
        self.bin(b, Op::BroadcastSub, broadcast_rule(self.dims, b.dims))
    }

    /// Product of two tensors stretched to a common shape.
    #[verifier::opaque]
    pub open spec fn broadcast_mul(self, b: Tensor) -> Tensor {
        self.bin(b, Op::BroadcastMul, broadcast_rule(self.dims, b.dims))
    }

    /// Matrix product over the last two axes.
    #[verifier::opaque]
    pub open spec fn matmul(self, b: Tensor) -> Tensor {
        self.bin(b, Op::MatMul, matmul_rule(self.dims, b.dims))
    }

    /// One tensor after the other along an axis.
    #[verifier::opaque]
    pub open spec fn concat(self, b: Tensor, axis: int) -> Tensor {
        self.bin(b, Op::Concat(axis), concat_rule(self.dims, b.dims, axis))
    }

    /// Two-dimensional convolution with a kernel `(c_out, c_in / groups, k, k)`.
    #[verifier::opaque]
    pub open spec fn conv2d(self, b: Tensor, stride: int, pad: int, groups: int) -> Tensor {
        self.bin(b, Op::Conv2d(stride, pad, groups), conv2d_rule(self.dims, b.dims, stride, pad, groups))
    }

    /// Transposed convolution with a kernel `(c_in, c_out / groups, k)`.
    #[verifier::opaque]
    pub open spec fn conv_transpose1d(self, b: Tensor, stride: int, groups: int) -> Tensor {
        self.bin(b, Op::ConvTranspose1d(stride, groups), conv_transpose1d_rule(self.dims, b.dims, stride, groups))
    }

    /// Mean square one over the last axis, then a gain for each of `n` features.
    pub open spec fn rms_norm(self, gain: Seq<Scalar>, n: int, eps: Scalar) -> Tensor {
        self.rms_norm_last_dim(eps).broadcast_mul(Tensor::constant(gain, seq![n]))
    }

    /// Mean zero and variance one over the last axis, then a gain and a bias
    /// for each of `n` features.
    pub open spec fn layer_norm(self, gain: Seq<Scalar>, bias: Seq<Scalar>, n: int, eps: Scalar) -> Tensor {
        self.layer_norm_last_dim(eps).broadcast_mul(
            Tensor::constant(gain, seq![n]),
        ).broadcast_add(Tensor::constant(bias, seq![n]))
    }

    /// A bias for each feature of the last axis.
    pub open spec fn add_trailing_bias(self, bias: Seq<Scalar>) -> Tensor {
        self.broadcast_add(Tensor::constant(bias, seq![bias.len() as int]))
    }

    /// A matrix and a bias.
    pub open spec fn affine(self, w: Seq<Scalar>, bias: Seq<Scalar>, fan_in: int, fan_out: int) -> Tensor {
        self.linear(w, fan_in, fan_out).broadcast_add(Tensor::constant(bias, seq![fan_out]))
    }

    /// A gain and a bias for each channel of `(batch, c, h, w)`.
    pub open spec fn channel_affine_4d(self, gain: Seq<Scalar>, bias: Seq<Scalar>) -> Tensor {
        self.broadcast_mul(Tensor::per_channel(gain)).broadcast_add(Tensor::per_channel(bias))
    }

    /// One number for each channel, laid out as `(1, c, 1, 1)`.
    pub open spec fn per_channel(v: Seq<Scalar>) -> Tensor {
        let n = v.len() as int;
        Tensor::constant(v, seq![n]).reshape(seq![1, n, 1, 1])
    }

    /// Rows of the table `(vocab, width)` picked by token, as `(1, seq, width)`.
    pub open spec fn embed_tokens(table: Seq<Scalar>, vocab: int, width: int, tokens: Seq<u32>) -> Tensor {
        Tensor::constant(table, seq![vocab, width]).index_select(0, Tensor::ids(tokens)).reshape(
            seq![1, tokens.len() as int, width],
        )
    }
}

/// Axis `i` of a list of axes, or `i` itself beyond its end.
pub open spec fn axis_or(ax: Seq<int>, i: int) -> int {
    if i < ax.len() {
        ax[i]
    } else {
        i
    }
}

fn axis_at(ax: &[usize], i: usize) -> (r: usize)
    ensures
        r == axis_or(ints(ax@), i as int),
{
    if i < ax.len() {
        ax[i]
    } else {
        i
    }
}

impl LazyTensor {
    fn made(dims: Option<Vec<usize>>, node: Node) -> (r: LazyTensor)
        ensures
            r@ == Tensor::made(ints_opt(dims), node_view(node)),
    {
        match dims {
            None => LazyTensor::invalid(Error::Shape),
            Some(d) => LazyTensor { inner: Arc::new(Inner { dims: d, node }) },
        }
    }

    /// An expression that carries a failure.
    pub fn invalid(e: Error) -> (r: LazyTensor)
        ensures
            r@ == Tensor::invalid(e),
    {
        let t = LazyTensor { inner: Arc::new(Inner { dims: Vec::new(), node: Node::Invalid(e) }) };
        assert(t@.dims =~= seq![]);
        t
    }

    /// The failure that the expression carries.
    pub fn failure(&self) -> (r: Option<Error>)
        ensures
            self@.bad() <==> r is Some,
            r matches Some(e) ==> self@.term == Term::Invalid(e),
    {
        match &self.inner.node {
            Node::Invalid(e) => Some(*e),
            _ => None,
        }
    }

    /// The expression, or the failure that it carries.
    pub fn finish(self) -> (r: Result<LazyTensor, Error>)
        ensures
            outcome(r, self@),
    {
        match self.failure() {
            Some(e) => Err(e),
            None => Ok(self),
        }
    }

    /// Extents of the value.
    pub fn dims(&self) -> (r: &Vec<usize>)
        ensures
            ints(r@) == self@.dims,
    {
        &self.inner.dims
    }

    /// How the expression is made.
    pub fn node(&self) -> (r: &Node)
        ensures
            node_view(*r) == self@.term,
    {
        &self.inner.node
    }

    /// Extent of one axis, zero beyond the rank.
    pub fn dim(&self, i: usize) -> (r: usize)
        ensures
            r == self@.dim(i as int),
    {
        if i < self.inner.dims.len() {
            self.inner.dims[i]
        } else {
            0
        }
    }

    /// Number of axes.
    pub fn rank(&self) -> (r: usize)
        ensures
            r == self@.rank(),
    {
        self.inner.dims.len()
    }

    fn un(&self, op: Op<usize>, dims: Option<Vec<usize>>) -> (r: LazyTensor)
        ensures
            r@ == self@.un(op_view(op), ints_opt(dims)),
    {
        if self.failure().is_some() {
            return self.clone();
        }
        LazyTensor::made(dims, Node::Un(op, self.clone()))
    }

    fn bin(&self, b: &LazyTensor, op: Op<usize>, dims: Option<Vec<usize>>) -> (r: LazyTensor)
        ensures
            r@ == self@.bin(b@, op_view(op), ints_opt(dims)),
    {
        if self.failure().is_some() {
            return self.clone();
        }
        if b.failure().is_some() {
            return b.clone();
        }
        LazyTensor::made(dims, Node::Bin(op, self.clone(), b.clone()))
    }

    fn tri(&self, b: &LazyTensor, c: &LazyTensor, op: Op<usize>, dims: Option<Vec<usize>>) -> (r: LazyTensor)
        ensures
            r@ == self@.tri(b@, c@, op_view(op), ints_opt(dims)),
    {
        if self.failure().is_some() {
            return self.clone();
        }
        if b.failure().is_some() {
            return b.clone();
        }
        if c.failure().is_some() {
            return c.clone();
        }
        LazyTensor::made(dims, Node::Tri(op, self.clone(), b.clone(), c.clone()))
    }

    fn quin(
        &self,
        b: &LazyTensor,
        c: &LazyTensor,
        d: &LazyTensor,
        e: &LazyTensor,
        op: Op<usize>,
        dims: Option<Vec<usize>>,
    ) -> (r: LazyTensor)
        ensures
            r@ == self@.quin(b@, c@, d@, e@, op_view(op), ints_opt(dims)),
    {
        if self.failure().is_some() {
            return self.clone();
        }
        if b.failure().is_some() {
            return b.clone();
        }
        if c.failure().is_some() {
            return c.clone();
        }
        if d.failure().is_some() {
            return d.clone();
        }
        if e.failure().is_some() {
            return e.clone();
        }
        LazyTensor::made(
            dims,
            Node::Quin(op, self.clone(), b.clone(), c.clone(), d.clone(), e.clone()),
        )
    }

    /// Given numbers under given extents.
    pub fn constant(data: &Data, dims: &[usize]) -> (r: LazyTensor)
        ensures
            r@ == Tensor::constant(data@, ints(dims@)),
    {
        proof {
            reveal(Tensor::constant);
        }
        LazyTensor::made(const_dims(data.len(), dims), Node::Const(data.clone()))
    }

    /// Given indices in one row.
    pub fn ids(tokens: &[u32]) -> (r: LazyTensor)
        ensures
            r@ == Tensor::ids(tokens@),
    {
        proof {
            reveal(Tensor::ids);
        }
        let mut v: Vec<u32> = Vec::new();
        let mut i: usize = 0;
        while i < tokens.len()
            invariant
                i <= tokens@.len(),
                v@ == tokens@.subrange(0, i as int),
            decreases tokens@.len() - i,
        {
            v.push(tokens[i]);
            i = i + 1;
        }
        assert(v@ =~= tokens@);
        LazyTensor::made(Some(dims1(tokens.len())), Node::Ids(Arc::new(v)))
    }

    /// Cosine and sine tables of the rotary embedding.
    pub fn rope_tables(theta: &Scalar, start: usize, seq: usize, width: usize) -> (r: (LazyTensor, LazyTensor))
        ensures
            r.0@ == Tensor::rope_cos(*theta, start as int, seq as int, width as int),
            r.1@ == Tensor::rope_sin(*theta, start as int, seq as int, width as int),
    {
        proof {
            reveal(Tensor::rope_cos);
            reveal(Tensor::rope_sin);
        }
        (
            LazyTensor::made(
                Some(dims2(seq, width)),
                Node::Leaf(Op::RopeCos(theta.clone(), start, seq, width)),
            ),
            LazyTensor::made(
                Some(dims2(seq, width)),
                Node::Leaf(Op::RopeSin(theta.clone(), start, seq, width)),
            ),
        )
    }

    /// Additive causal mask of `seq` rows and columns.
    pub fn causal_mask(seq: usize) -> (r: LazyTensor)
        ensures
            r@ == Tensor::causal_mask(seq as int),
    {
        proof {
            reveal(Tensor::causal_mask);
        }
        LazyTensor::made(Some(dims2(seq, seq)), Node::Leaf(Op::CausalMask(seq)))
    }

    /// The same elements, in order, under other extents.
    pub fn reshape(&self, to: &[usize]) -> (r: LazyTensor)
        ensures
            r@ == self@.reshape(ints(to@)),
    {
        proof {
            reveal(Tensor::reshape);
        }
        self.un(Op::Reshape, reshape_dims(&self.inner.dims, to))
    }

    /// Stretched to other extents.
    pub fn broadcast_to(&self, to: &[usize]) -> (r: LazyTensor)
        ensures
            r@ == self@.broadcast_to(ints(to@)),
    {
        proof {
            reveal(Tensor::broadcast_to);
        }
        self.un(Op::BroadcastTo, broadcast_to_dims(&self.inner.dims, to))
    }

    /// Axis `i` of the result is axis `ax[i]`.
    pub fn permute(&self, ax: &[usize]) -> (r: LazyTensor)
        ensures
            r@ == self@.permute(ints(ax@)),
    {
        proof {
            reveal(Tensor::permute);
        }
        self.un(
            Op::Permute(
                axis_at(ax, 0),
                axis_at(ax, 1),
                axis_at(ax, 2),
                axis_at(ax, 3),
                axis_at(ax, 4),
                axis_at(ax, 5),
            ),
            permute_dims(&self.inner.dims, ax),
        )
    }

    /// Piece `i` of an axis cut into `n` equal pieces.
    pub fn chunk(&self, axis: usize, n: usize, i: usize) -> (r: LazyTensor)
        ensures
            r@ == self@.chunk(axis as int, n as int, i as int),
    {
        proof {
            reveal(Tensor::chunk);
        }
        self.un(Op::Chunk(axis, n, i), chunk_dims(&self.inner.dims, axis, n))
    }

    /// Last axis mapped by the matrix `w (fan_in, fan_out)`.
    pub fn linear(&self, w: &Data, fan_in: usize, fan_out: usize) -> (r: LazyTensor)
        ensures
            r@ == self@.linear(w@, fan_in as int, fan_out as int),
    {
        proof {
            reveal(Tensor::linear);
        }
        let m = LazyTensor::const2(w, fan_in, fan_out);
        self.bin(&m, Op::Linear, linear_dims(&self.inner.dims, fan_in, fan_out))
    }

    /// Positions of an axis picked by indices.
    pub fn index_select(&self, axis: usize, ids: &LazyTensor) -> (r: LazyTensor)
        ensures
            r@ == self@.index_select(axis as int, ids@),
    {
        proof {
            reveal(Tensor::index_select);
        }
        self.bin(ids, Op::IndexSelect(axis), select_dims(&self.inner.dims, axis, &ids.inner.dims))
    }

    /// Convolution with a kernel `(c_out, c_in / groups, k)` and a bias `(c_out)`.
    pub fn conv1d(
        &self,
        w: &LazyTensor,
        bias: Option<&LazyTensor>,
        stride: usize,
        pad: usize,
        groups: usize,
    ) -> (r: LazyTensor)
        ensures
            r@ == self@.conv1d(
                w@,
                match bias {
                    None => None,
                    Some(b) => Some(b@),
                },
                stride as int,
                pad as int,
                groups as int,
            ),
    {
        proof {
            reveal(Tensor::conv1d);
        }
        let dims = conv1d_dims(&self.inner.dims, &w.inner.dims, stride, pad, groups);
        match bias {
            None => self.bin(w, Op::Conv1d(stride, pad, groups), dims),
            Some(b) => {
                let want = dims1(w.dim(0));
                if crate::shape::dims_equal(&b.inner.dims, &want) {
                    self.tri(w, b, Op::Conv1d(stride, pad, groups), dims)
                } else {
                    self.tri(w, b, Op::Conv1d(stride, pad, groups), None)
                }
            },
        }
    }

    /// Rotation of halves by a cosine and a sine table.
    pub fn rope_with_tables(&self, c: &LazyTensor, s: &LazyTensor) -> (r: LazyTensor)
        ensures
            r@ == self@.rope_with_tables(c@, s@),
    {
        proof {
            reveal(Tensor::rope_with_tables);
        }
        self.tri(c, s, Op::Rope, rope_dims(&self.inner.dims, &c.inner.dims, &s.inner.dims))
    }

    /// Depthwise convolution of an operand already padded on the left.
    pub fn causal_conv1d(&self, w: &LazyTensor, b: &LazyTensor, silu: bool) -> (r: LazyTensor)
        ensures
            r@ == self@.causal_conv1d(w@, b@, silu),
    {
        proof {
            reveal(Tensor::causal_conv1d);
        }
        self.tri(
            w,
            b,
            Op::CausalConv1d(silu),
            causal_conv_dims(&self.inner.dims, &w.inner.dims, &b.inner.dims),
        )
    }

    /// Selective state-space scan.
    pub fn selective_scan(
        &self,
        delta: &LazyTensor,
        a: &LazyTensor,
        b: &LazyTensor,
        c: &LazyTensor,
        softplus: bool,
    ) -> (r: LazyTensor)
        ensures
            r@ == self@.selective_scan(delta@, a@, b@, c@, softplus),
    {
        proof {
            reveal(Tensor::selective_scan);
        }
        self.quin(
            delta,
            a,
            b,
            c,
            Op::SelectiveScan(softplus),
            scan_dims(
                &self.inner.dims,
                &delta.inner.dims,
                &a.inner.dims,
                &b.inner.dims,
                &c.inner.dims,
            ),
        )
    }

    /// State-space scan in chunks.
    pub fn ssd_chunk_scan(
        &self,
        dt: &LazyTensor,
        a: &LazyTensor,
        b: &LazyTensor,
        c: &LazyTensor,
        chunk: usize,
    ) -> (r: LazyTensor)
        ensures
            r@ == self@.ssd_chunk_scan(dt@, a@, b@, c@, chunk as int),
    {
        proof {
            reveal(Tensor::ssd_chunk_scan);
        }
        self.quin(
            dt,
            a,
            b,
            c,
            Op::SsdChunkScan(chunk),
            ssd_dims(
                &self.inner.dims,
                &dt.inner.dims,
                &a.inner.dims,
                &b.inner.dims,
                &c.inner.dims,
                chunk,
            ),
        )
    }

    /// Long short-term memory of width `h`.
    pub fn lstm(
        &self,
        wi: &LazyTensor,
        wh: &LazyTensor,
        bi: &LazyTensor,
        bh: &LazyTensor,
        h: usize,
    ) -> (r: LazyTensor)
        ensures
            r@ == self@.lstm(wi@, wh@, bi@, bh@, h as int),
    {
        proof {
            reveal(Tensor::lstm);
        }
        self.quin(
            wi,
            wh,
            bi,
            bh,
            Op::Lstm(h),
            lstm_dims(
                &self.inner.dims,
                &wi.inner.dims,
                &wh.inner.dims,
                &bi.inner.dims,
                &bh.inner.dims,
                h,
            ),
        )
    }

    /// Negation, element by element.
    pub fn neg(&self) -> (r: LazyTensor)
        ensures
            r@ == self@.neg(),
    {
        proof {
            reveal(Tensor::neg);
        }
        self.un(Op::Neg, Some(copy_dims(&self.inner.dims)))
    }

    /// Exponential, element by element.
    pub fn exp(&self) -> (r: LazyTensor)
        ensures
            r@ == self@.exp(),
    {
        proof {
            reveal(Tensor::exp);
        }
        self.un(Op::Exp, Some(copy_dims(&self.inner.dims)))
    }

    /// Natural logarithm, element by element.
    pub fn log(&self) -> (r: LazyTensor)
        ensures
            r@ == self@.log(),
    {
        proof {
            reveal(Tensor::log);
        }
        self.un(Op::Log, Some(copy_dims(&self.inner.dims)))
    }

    /// Square root, element by element.
    pub fn sqrt(&self) -> (r: LazyTensor)
        ensures
            r@ == self@.sqrt(),
    {
        proof {
            reveal(Tensor::sqrt);
        }
        self.un(Op::Sqrt, Some(copy_dims(&self.inner.dims)))
    }

    /// Sine, element by element.
    pub fn sin(&self) -> (r: LazyTensor)
        ensures
            r@ == self@.sin(),
    {
        proof {
            reveal(Tensor::sin);
        }
        self.un(Op::Sin, Some(copy_dims(&self.inner.dims)))
    }

    /// Cosine, element by element.
    pub fn cos(&self) -> (r: LazyTensor)
        ensures
            r@ == self@.cos(),
    {
        proof {
            reveal(Tensor::cos);
        }
        self.un(Op::Cos, Some(copy_dims(&self.inner.dims)))
    }

    /// `x * sigmoid(x)`, element by element.
    pub fn silu(&self) -> (r: LazyTensor)
        ensures
            r@ == self@.silu(),
    {
        proof {
            reveal(Tensor::silu);
        }
        self.un(Op::Silu, Some(copy_dims(&self.inner.dims)))
    }

    /// `max(x, 0)`, element by element.
    pub fn relu(&self) -> (r: LazyTensor)
        ensures
            r@ == self@.relu(),
    {
        proof {
            reveal(Tensor::relu);
        }
        self.un(Op::Relu, Some(copy_dims(&self.inner.dims)))
    }

    /// Gaussian error linear unit in its `tanh` form.
    pub fn gelu(&self) -> (r: LazyTensor)
        ensures
            r@ == self@.gelu(),
    {
        proof {
            reveal(Tensor::gelu);
        }
        self.un(Op::Gelu, Some(copy_dims(&self.inner.dims)))
    }

    /// Gaussian error linear unit in its `erf` form.
    pub fn gelu_erf(&self) -> (r: LazyTensor)
        ensures
            r@ == self@.gelu_erf(),
    {
        proof {
            reveal(Tensor::gelu_erf);
        }
        self.un(Op::GeluErf, Some(copy_dims(&self.inner.dims)))
    }

    /// Logistic function, element by element.
    pub fn sigmoid(&self) -> (r: LazyTensor)
        ensures
            r@ == self@.sigmoid(),
    {
        proof {
            reveal(Tensor::sigmoid);
        }
        self.un(Op::Sigmoid, Some(copy_dims(&self.inner.dims)))
    }

    /// `x` where positive, else `alpha * (exp(x) - 1)`.
    pub fn elu(&self, alpha: &Scalar) -> (r: LazyTensor)
        ensures
            r@ == self@.elu(*alpha),
    {
        proof {
            reveal(Tensor::elu);
        }
        self.un(Op::Elu(alpha.clone()), Some(copy_dims(&self.inner.dims)))
    }

    /// Every element times one scalar.
    pub fn mul_scalar(&self, s: &Scalar) -> (r: LazyTensor)
        ensures
            r@ == self@.mul_scalar(*s),
    {
        proof {
            reveal(Tensor::mul_scalar);
        }
        self.un(Op::MulScalar(s.clone()), Some(copy_dims(&self.inner.dims)))
    }

    /// Every element plus one scalar.
    pub fn add_scalar(&self, s: &Scalar) -> (r: LazyTensor)
        ensures
            r@ == self@.add_scalar(*s),
    {
        proof {
            reveal(Tensor::add_scalar);
        }
        self.un(Op::AddScalar(s.clone()), Some(copy_dims(&self.inner.dims)))
    }

    /// Softmax over the last axis.
    pub fn softmax_last_dim(&self) -> (r: LazyTensor)
        ensures
            r@ == self@.softmax_last_dim(),
    {
        proof {
            reveal(Tensor::softmax_last_dim);
        }
        self.un(Op::Softmax, Some(copy_dims(&self.inner.dims)))
    }

    /// Mean zero, variance one over the last axis.
    pub fn layer_norm_last_dim(&self, eps: &Scalar) -> (r: LazyTensor)
        ensures
            r@ == self@.layer_norm_last_dim(*eps),
    {
        proof {
            reveal(Tensor::layer_norm_last_dim);
        }
        self.un(Op::LayerNorm(eps.clone()), Some(copy_dims(&self.inner.dims)))
    }

    /// Mean square one over the last axis.
    pub fn rms_norm_last_dim(&self, eps: &Scalar) -> (r: LazyTensor)
        ensures
            r@ == self@.rms_norm_last_dim(*eps),
    {
        proof {
            reveal(Tensor::rms_norm_last_dim);
        }
        self.un(Op::RmsNorm(eps.clone()), Some(copy_dims(&self.inner.dims)))
    }

    /// Unit Euclidean length along one axis.
    pub fn l2_normalize(&self, axis: usize, eps: &Scalar) -> (r: LazyTensor)
        ensures
            r@ == self@.l2_normalize(axis as int, *eps),
    {
        proof {
            reveal(Tensor::l2_normalize);
        }
        self.un(Op::L2Normalize(axis, eps.clone()), if axis < self.inner.dims.len() { Some(copy_dims(&self.inner.dims)) } else { None })
    }

    /// The last two axes exchanged.
    pub fn transpose(&self) -> (r: LazyTensor)
        ensures
            r@ == self@.transpose(),
    {
        proof {
            reveal(Tensor::transpose);
        }
        self.un(Op::Transpose, transpose_dims(&self.inner.dims))
    }

    /// Two axes exchanged.
    pub fn transpose_dims(&self, i: usize, j: usize) -> (r: LazyTensor)
        ensures
            r@ == self@.transpose_dims(i as int, j as int),
    {
        proof {
            reveal(Tensor::transpose_dims);
        }
        self.un(Op::Swap(i, j), swap_dims(&self.inner.dims, i, j))
    }

    /// `len` positions of one axis, from `start` on.
    pub fn narrow(&self, axis: usize, start: usize, len: usize) -> (r: LazyTensor)
        ensures
            r@ == self@.narrow(axis as int, start as int, len as int),
    {
        proof {
            reveal(Tensor::narrow);
        }
        self.un(Op::Narrow(axis, start, len), narrow_dims(&self.inner.dims, axis, start, len))
    }

    /// Zeros before and after one axis.
    pub fn pad_with_zeros(&self, axis: usize, left: usize, right: usize) -> (r: LazyTensor)
        ensures
            r@ == self@.pad_with_zeros(axis as int, left as int, right as int),
    {
        proof {
            reveal(Tensor::pad_with_zeros);
        }
        self.un(Op::Pad(axis, left, right), pad_dims(&self.inner.dims, axis, left, right))
    }

    /// Each position of an axis, `times` times in a row.
    pub fn repeat_interleave(&self, axis: usize, times: usize) -> (r: LazyTensor)
        ensures
            r@ == self@.repeat_interleave(axis as int, times as int),
    {
        proof {
            reveal(Tensor::repeat_interleave);
        }
        self.un(Op::Repeat(axis, times), repeat_dims(&self.inner.dims, axis, times))
    }

    /// Mean over one axis, which stays with one position.
    pub fn mean_keepdim(&self, axis: usize) -> (r: LazyTensor)
        ensures
            r@ == self@.mean_keepdim(axis as int),
    {
        proof {
            reveal(Tensor::mean_keepdim);
        }
        self.un(Op::Mean(axis), keep_dims(&self.inner.dims, axis))
    }

    /// Sum over one axis, which goes away.
    pub fn sum_dim(&self, axis: usize) -> (r: LazyTensor)
        ensures
            r@ == self@.sum_dim(axis as int),
    {
        proof {
            reveal(Tensor::sum_dim);
        }
        self.un(Op::Sum(axis), drop_dims(&self.inner.dims, axis))
    }

    /// Index of the least element along one axis, which goes away.
    pub fn argmin_dim(&self, axis: usize) -> (r: LazyTensor)
        ensures
            r@ == self@.argmin_dim(axis as int),
    {
        proof {
            reveal(Tensor::argmin_dim);
        }
        self.un(Op::ArgMin(axis), drop_dims(&self.inner.dims, axis))
    }

    /// An axis of one position taken away.
    pub fn squeeze(&self, axis: usize) -> (r: LazyTensor)
        ensures
            r@ == self@.squeeze(axis as int),
    {
        proof {
            reveal(Tensor::squeeze);
        }
        self.un(Op::Squeeze(axis), squeeze_dims(&self.inner.dims, axis))
    }

    /// An axis of one position put in.
    pub fn unsqueeze(&self, axis: usize) -> (r: LazyTensor)
        ensures
            r@ == self@.unsqueeze(axis as int),
    {
        proof {
            reveal(Tensor::unsqueeze);
        }
        self.un(Op::Unsqueeze(axis), unsqueeze_dims(&self.inner.dims, axis))
    }

    /// `(batch, seq, heads * width)` as `(batch, heads, seq, width)`.
    pub fn split_heads(&self, heads: usize, width: usize) -> (r: LazyTensor)
        ensures
            r@ == self@.split_heads(heads as int, width as int),
    {
        proof {
            reveal(Tensor::split_heads);
        }
        self.un(Op::SplitHeads(heads, width), split_heads_dims(&self.inner.dims, heads, width))
    }

    /// `(batch, heads, seq, width)` as `(batch, seq, heads * width)`.
    pub fn merge_heads(&self) -> (r: LazyTensor)
        ensures
            r@ == self@.merge_heads(),
    {
        proof {
            reveal(Tensor::merge_heads);
        }
        self.un(Op::MergeHeads, merge_heads_dims(&self.inner.dims))
    }

    /// Mean over the two spatial axes.
    pub fn global_avg_pool_2d(&self) -> (r: LazyTensor)
        ensures
            r@ == self@.global_avg_pool_2d(),
    {
        proof {
            reveal(Tensor::global_avg_pool_2d);
        }
        self.un(Op::GlobalAvgPool, pool_dims(&self.inner.dims))
    }

    /// Sum of two tensors of one shape.
    pub fn add(&self, b: &LazyTensor) -> (r: LazyTensor)
        ensures
            r@ == self@.add(b@),
    {
        proof {
            reveal(Tensor::add);
        }
        self.bin(b, Op::Add, same_dims(&self.inner.dims, &b.inner.dims))
    }

    /// Difference of two tensors of one shape.
    pub fn sub(&self, b: &LazyTensor) -> (r: LazyTensor)
        ensures
            r@ == self@.sub(b@),
    {
        proof {
            reveal(Tensor::sub);
        }
        self.bin(b, Op::Sub, same_dims(&self.inner.dims, &b.inner.dims))
    }

    /// Elementwise product of two tensors of one shape.
    pub fn mul(&self, b: &LazyTensor) -> (r: LazyTensor)
        ensures
            r@ == self@.mul(b@),
    {
        proof {
            reveal(Tensor::mul);
        }
        self.bin(b, Op::Mul, same_dims(&self.inner.dims, &b.inner.dims))
    }

    /// Elementwise quotient of two tensors of one shape.
    pub fn div(&self, b: &LazyTensor) -> (r: LazyTensor)
        ensures
            r@ == self@.div(b@),
    {
        proof {
            reveal(Tensor::div);
        }
        self.bin(b, Op::Div, same_dims(&self.inner.dims, &b.inner.dims))
    }

    /// Sum of two tensors stretched to a common shape.
    pub fn broadcast_add(&self, b: &LazyTensor) -> (r: LazyTensor)
        ensures
            r@ == self@.broadcast_add(b@),
    {
        proof {
            reveal(Tensor::broadcast_add);
        }
        self.bin(b, Op::BroadcastAdd, broadcast_dims(&self.inner.dims, &b.inner.dims))
    }

    /// Difference of two tensors stretched to a common shape.
    pub fn broadcast_sub(&self, b: &LazyTensor) -> (r: LazyTensor)
        ensures
            r@ == self@.broadcast_sub(b@),
    {
        proof {
            reveal(Tensor::broadcast_sub);
        }
        self.bin(b, Op::BroadcastSub, broadcast_dims(&self.inner.dims, &b.inner.dims))
    }

    /// Product of two tensors stretched to a common shape.
    pub fn broadcast_mul(&self, b: &LazyTensor) -> (r: LazyTensor)
        ensures
            r@ == self@.broadcast_mul(b@),
    {
        proof {
            reveal(Tensor::broadcast_mul);
        }
        self.bin(b, Op::BroadcastMul, broadcast_dims(&self.inner.dims, &b.inner.dims))
    }

    /// Matrix product over the last two axes.
    pub fn matmul(&self, b: &LazyTensor) -> (r: LazyTensor)
        ensures
            r@ == self@.matmul(b@),
    {
        proof {
            reveal(Tensor::matmul);
        }
        self.bin(b, Op::MatMul, matmul_dims(&self.inner.dims, &b.inner.dims))
    }

    /// One tensor after the other along an axis.
    pub fn concat(&self, b: &LazyTensor, axis: usize) -> (r: LazyTensor)
        ensures
            r@ == self@.concat(b@, axis as int),
    {
        proof {
            reveal(Tensor::concat);
        }
        self.bin(b, Op::Concat(axis), concat_dims(&self.inner.dims, &b.inner.dims, axis))
    }

    /// Two-dimensional convolution with a kernel `(c_out, c_in / groups, k, k)`.
    pub fn conv2d(&self, b: &LazyTensor, stride: usize, pad: usize, groups: usize) -> (r: LazyTensor)
        ensures
            r@ == self@.conv2d(b@, stride as int, pad as int, groups as int),
    {
        proof {
            reveal(Tensor::conv2d);
        }
        self.bin(b, Op::Conv2d(stride, pad, groups), conv2d_dims(&self.inner.dims, &b.inner.dims, stride, pad, groups))
    }

    /// Transposed convolution with a kernel `(c_in, c_out / groups, k)`.
    pub fn conv_transpose1d(&self, b: &LazyTensor, stride: usize, groups: usize) -> (r: LazyTensor)
        ensures
            r@ == self@.conv_transpose1d(b@, stride as int, groups as int),
    {
        proof {
            reveal(Tensor::conv_transpose1d);
        }
        self.bin(b, Op::ConvTranspose1d(stride, groups), conv_transpose1d_dims(&self.inner.dims, &b.inner.dims, stride, groups))
    }

    /// Given numbers under one extent.
    pub fn const1(data: &Data, d0: usize) -> (r: LazyTensor)
        ensures
            r@ == Tensor::constant(data@, seq![d0 as int]),
    {
        LazyTensor::constant(data, dims1(d0).as_slice())
    }

    /// Given numbers under two extents.
    pub fn const2(data: &Data, d0: usize, d1: usize) -> (r: LazyTensor)
        ensures
            r@ == Tensor::constant(data@, seq![d0 as int, d1 as int]),
    {
        LazyTensor::constant(data, dims2(d0, d1).as_slice())
    }

    /// Given numbers under three extents.
    pub fn const3(data: &Data, d0: usize, d1: usize, d2: usize) -> (r: LazyTensor)
        ensures
            r@ == Tensor::constant(data@, seq![d0 as int, d1 as int, d2 as int]),
    {
        LazyTensor::constant(data, dims3(d0, d1, d2).as_slice())
    }

    /// Given numbers under four extents.
    pub fn const4(data: &Data, d0: usize, d1: usize, d2: usize, d3: usize) -> (r: LazyTensor)
        ensures
            r@ == Tensor::constant(data@, seq![d0 as int, d1 as int, d2 as int, d3 as int]),
    {
        LazyTensor::constant(data, dims4(d0, d1, d2, d3).as_slice())
    }

    /// The same elements, in order, under one extent.
    pub fn reshape1(&self, d0: usize) -> (r: LazyTensor)
        ensures
            r@ == self@.reshape(seq![d0 as int]),
    {
        self.reshape(dims1(d0).as_slice())
    }

    /// The same elements, in order, under two extents.
    pub fn reshape2(&self, d0: usize, d1: usize) -> (r: LazyTensor)
        ensures
            r@ == self@.reshape(seq![d0 as int, d1 as int]),
    {
        self.reshape(dims2(d0, d1).as_slice())
    }

    /// The same elements, in order, under three extents.
    pub fn reshape3(&self, d0: usize, d1: usize, d2: usize) -> (r: LazyTensor)
        ensures
            r@ == self@.reshape(seq![d0 as int, d1 as int, d2 as int]),
    {
        self.reshape(dims3(d0, d1, d2).as_slice())
    }

    /// The same elements, in order, under four extents.
    pub fn reshape4(&self, d0: usize, d1: usize, d2: usize, d3: usize) -> (r: LazyTensor)
        ensures
            r@ == self@.reshape(seq![d0 as int, d1 as int, d2 as int, d3 as int]),
    {
        self.reshape(dims4(d0, d1, d2, d3).as_slice())
    }

    /// The same elements, in order, under five extents.
    pub fn reshape5(&self, d0: usize, d1: usize, d2: usize, d3: usize, d4: usize) -> (r: LazyTensor)
        ensures
            r@ == self@.reshape(seq![d0 as int, d1 as int, d2 as int, d3 as int, d4 as int]),
    {
        self.reshape(dims5(d0, d1, d2, d3, d4).as_slice())
    }

    /// The same elements, in order, under six extents.
    pub fn reshape6(&self, d0: usize, d1: usize, d2: usize, d3: usize, d4: usize, d5: usize) -> (r: LazyTensor)
        ensures
            r@ == self@.reshape(seq![d0 as int, d1 as int, d2 as int, d3 as int, d4 as int, d5 as int]),
    {
        self.reshape(dims6(d0, d1, d2, d3, d4, d5).as_slice())
    }

    /// Stretched to two extents.
    pub fn broadcast_to2(&self, d0: usize, d1: usize) -> (r: LazyTensor)
        ensures
            r@ == self@.broadcast_to(seq![d0 as int, d1 as int]),
    {
        self.broadcast_to(dims2(d0, d1).as_slice())
    }

    /// Stretched to three extents.
    pub fn broadcast_to3(&self, d0: usize, d1: usize, d2: usize) -> (r: LazyTensor)
        ensures
            r@ == self@.broadcast_to(seq![d0 as int, d1 as int, d2 as int]),
    {
        self.broadcast_to(dims3(d0, d1, d2).as_slice())
    }

    /// Stretched to four extents.
    pub fn broadcast_to4(&self, d0: usize, d1: usize, d2: usize, d3: usize) -> (r: LazyTensor)
        ensures
            r@ == self@.broadcast_to(seq![d0 as int, d1 as int, d2 as int, d3 as int]),
    {
        self.broadcast_to(dims4(d0, d1, d2, d3).as_slice())
    }

    /// Stretched to five extents.
    pub fn broadcast_to5(&self, d0: usize, d1: usize, d2: usize, d3: usize, d4: usize) -> (r: LazyTensor)
        ensures
            r@ == self@.broadcast_to(seq![d0 as int, d1 as int, d2 as int, d3 as int, d4 as int]),
    {
        self.broadcast_to(dims5(d0, d1, d2, d3, d4).as_slice())
    }

    /// The two axes in a new order.
    pub fn permute2(&self, d0: usize, d1: usize) -> (r: LazyTensor)
        ensures
            r@ == self@.permute(seq![d0 as int, d1 as int]),
    {
        self.permute(dims2(d0, d1).as_slice())
    }

    /// The three axes in a new order.
    pub fn permute3(&self, d0: usize, d1: usize, d2: usize) -> (r: LazyTensor)
        ensures
            r@ == self@.permute(seq![d0 as int, d1 as int, d2 as int]),
    {
        self.permute(dims3(d0, d1, d2).as_slice())
    }

    /// The four axes in a new order.
    pub fn permute4(&self, d0: usize, d1: usize, d2: usize, d3: usize) -> (r: LazyTensor)
        ensures
            r@ == self@.permute(seq![d0 as int, d1 as int, d2 as int, d3 as int]),
    {
        self.permute(dims4(d0, d1, d2, d3).as_slice())
    }

    /// The six axes in a new order.
    pub fn permute6(&self, d0: usize, d1: usize, d2: usize, d3: usize, d4: usize, d5: usize) -> (r: LazyTensor)
        ensures
            r@ == self@.permute(seq![d0 as int, d1 as int, d2 as int, d3 as int, d4 as int, d5 as int]),
    {
        self.permute(dims6(d0, d1, d2, d3, d4, d5).as_slice())
    }

    /// Mean square one over the last axis, then a gain for each of `n` features.
    pub fn rms_norm(&self, gain: &Data, n: usize, eps: &Scalar) -> (r: LazyTensor)
        ensures
            r@ == self@.rms_norm(gain@, n as int, *eps),
    {
        self.rms_norm_last_dim(eps).broadcast_mul(&LazyTensor::const1(gain, n))
    }

    /// Mean zero and variance one over the last axis, then a gain and a bias
    /// for each of `n` features.
    pub fn layer_norm(&self, gain: &Data, bias: &Data, n: usize, eps: &Scalar) -> (r: LazyTensor)
        ensures
            r@ == self@.layer_norm(gain@, bias@, n as int, *eps),
    {
        self.layer_norm_last_dim(eps).broadcast_mul(&LazyTensor::const1(gain, n)).broadcast_add(
            &LazyTensor::const1(bias, n),
        )
    }

    /// A bias for each feature of the last axis.
    pub fn add_trailing_bias(&self, bias: &Data) -> (r: LazyTensor)
        ensures
            r@ == self@.add_trailing_bias(bias@),
    {
        self.broadcast_add(&LazyTensor::const1(bias, bias.len()))
    }

    /// A matrix and a bias.
    pub fn affine(&self, w: &Data, bias: &Data, fan_in: usize, fan_out: usize) -> (r: LazyTensor)
        ensures
            r@ == self@.affine(w@, bias@, fan_in as int, fan_out as int),
    {
        self.linear(w, fan_in, fan_out).broadcast_add(&LazyTensor::const1(bias, fan_out))
    }

    /// A gain and a bias for each channel of `(batch, c, h, w)`.
    pub fn channel_affine_4d(&self, gain: &Data, bias: &Data) -> (r: LazyTensor)
        ensures
            r@ == self@.channel_affine_4d(gain@, bias@),
    {
        self.broadcast_mul(&LazyTensor::per_channel(gain)).broadcast_add(
            &LazyTensor::per_channel(bias),
        )
    }

    /// One number for each channel, laid out as `(1, c, 1, 1)`.
    pub fn per_channel(v: &Data) -> (r: LazyTensor)
        ensures
            r@ == Tensor::per_channel(v@),
    {
        LazyTensor::const1(v, v.len()).reshape4(1, v.len(), 1, 1)
    }

    /// Rows of the table `(vocab, width)` picked by token, as `(1, seq, width)`.
    pub fn embed_tokens(table: &Data, vocab: usize, width: usize, tokens: &[u32]) -> (r: LazyTensor)
        ensures
            r@ == Tensor::embed_tokens(table@, vocab as int, width as int, tokens@),
    {
        LazyTensor::const2(table, vocab, width).index_select(0, &LazyTensor::ids(tokens)).reshape3(
            1,
            tokens.len(),
            width,
        )
    }
}

} // verus!
