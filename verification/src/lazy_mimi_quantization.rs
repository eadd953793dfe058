//! Split residual vector quantization.
//!
//! A codebook maps a vector to the index of the nearest of its rows. A stack of
//! codebooks codes what the ones before it left over. Two such stacks, one for
//! the semantic and one for the acoustic codes, code the same signal
//! independently, and their reconstructions add up.

use crate::checkpoint::{decimal, join, numbered, Checkpoint, Loader};
use crate::common::{reshape_merged1, reshape_merged2, stack, stacked, views};
use crate::error::{Error, Fault, LoadError};
use crate::lazy::{outcome, LazyTensor, Tensor};
use crate::lazy_mimi_seanet::sum_squares64;
use crate::scalar::{binary, cast, div32, div64, BinaryFn, Data, Precision, Scalar};
use std::sync::Arc;
use vstd::prelude::*;

verus! {

#[derive(Debug, Clone)]
pub struct EuclideanCodebookWeights {
    /// `[codebook_size, codebook_dim]`.
    pub embedding: Data,
    /// Half the squared length of each row.
    pub c2: Data,
    pub codebook_size: usize,
    pub codebook_dim: usize,
}

#[derive(Debug, Clone)]
pub struct VectorQuantizationWeights {
    pub codebook: EuclideanCodebookWeights,
    /// `[codebook_dim, dim]`; absent where the widths agree.
    pub project_in_w: Option<Data>,
    pub project_in_b: Option<Data>,
    /// `[dim, codebook_dim]`; absent where the widths agree.
    pub project_out_w: Option<Data>,
    pub project_out_b: Option<Data>,
    pub dim: usize,
}

#[derive(Debug, Clone)]
pub struct ResidualVectorQuantizationWeights {
    pub layers: Vec<VectorQuantizationWeights>,
}

#[derive(Debug, Clone)]
pub struct ResidualVectorQuantizerWeights {
    pub vq: ResidualVectorQuantizationWeights,
    /// `[dim, input_dim, 1]`.
    pub input_proj_w: Option<Data>,
    /// `[output_dim, dim, 1]`.
    pub output_proj_w: Option<Data>,
    pub dim: usize,
    pub input_dim: usize,
    pub output_dim: usize,
}

#[derive(Debug, Clone)]
pub struct SplitResidualVectorQuantizerWeights {
    /// The semantic codes.
    pub rvq_first: ResidualVectorQuantizerWeights,
    /// The acoustic codes.
    pub rvq_rest: ResidualVectorQuantizerWeights,
    pub n_q: usize,
}

impl EuclideanCodebookWeights {
    /// The rows of the codebook.
    pub open spec fn rows(&self) -> Tensor {
        Tensor::constant(self.embedding@, seq![self.codebook_size as int, self.codebook_dim as int])
    }

    /// Half the squared distance of each row of `x` to each row of the codebook,
    /// less half the squared length of the row of `x`.
    pub open spec fn scores(&self, x: Tensor) -> Tensor {
        let n = self.codebook_size as int;
        Tensor::constant(self.c2@, seq![n]).reshape(seq![1, n]).broadcast_to(
            seq![x.dim(0), n],
        ).sub(x.matmul(self.rows().permute(seq![1, 0])))
    }

    /// The nearest row of the codebook for each row of `x`.
    pub open spec fn encoded(&self, x: Tensor) -> Tensor {
        self.scores(x).argmin_dim(1)
    }

    /// The rows that the codes select.
    pub open spec fn decoded(&self, codes: Tensor) -> Tensor {
        self.rows().index_select(0, codes)
    }

    fn build_rows(&self) -> (r: LazyTensor)
        ensures
            r@ == self.rows(),
    {
        LazyTensor::const2(&self.embedding, self.codebook_size, self.codebook_dim)
    }

    fn encode(&self, x: &LazyTensor) -> (r: LazyTensor)
        ensures
            r@ == self.encoded(x@),
    {
        let n: usize = self.codebook_size;
        let dots = x.matmul(&self.build_rows().permute2(1, 0));
        let c2 = LazyTensor::const1(&self.c2, n).reshape2(1, n).broadcast_to2(x.dim(0), n);
        c2.sub(&dots).argmin_dim(1)
    }

    fn decode(&self, codes: &LazyTensor) -> (r: LazyTensor)
        ensures
            r@ == self.decoded(codes@),
    {
        self.build_rows().index_select(0, codes)
    }
}

/// The index of the nearest row of the codebook for each row of `x`
/// ([`crate::codebook_nearest::encoding_picks_a_nearest_row`]).
pub fn codebook_encode(x: &LazyTensor, cb: &EuclideanCodebookWeights) -> (r: Result<LazyTensor, Error>)
    ensures
        outcome(r, cb.encoded(x@)),
{
    cb.encode(x).finish()
}

/// The rows of the codebook that the codes select.
pub fn codebook_decode(codes: &LazyTensor, cb: &EuclideanCodebookWeights) -> (r: Result<LazyTensor, Error>)
    ensures
        outcome(r, cb.decoded(codes@)),
{
    cb.decode(codes).finish()
}

/// A linear map with the weight `[fan_out, fan_in]`, or none.
pub open spec fn mapped(
    x: Tensor,
    w: Option<Data>,
    b: Option<Data>,
    fan_in: int,
    fan_out: int,
) -> Tensor {
    match w {
        None => x,
        Some(w) => {
            let y = x.matmul(Tensor::constant(w@, seq![fan_out, fan_in]).permute(seq![1, 0]));
            match b {
                None => y,
                Some(b) => y.broadcast_add(Tensor::constant(b@, seq![fan_out])),
            }
        },
    }
}

fn apply_linear_opt(
    x: &LazyTensor,
    w: &Option<Data>,
    b: &Option<Data>,
    in_features: usize,
    out_features: usize,
) -> (r: LazyTensor)
    ensures
        r@ == mapped(x@, *w, *b, in_features as int, out_features as int),
{
    match w {
        None => x.clone(),
        Some(w) => {
            let y = x.matmul(&LazyTensor::const2(w, out_features, in_features).permute2(1, 0));
            match b {
                None => y,
                Some(b) => y.broadcast_add(&LazyTensor::const1(b, out_features)),
            }
        },
    }
}

/// A map of the channels at each position, or none.
pub open spec fn channels_mapped(x: Tensor, w: Option<Data>, c_in: int, c_out: int) -> Tensor {
    match w {
        None => x,
        Some(w) => x.conv1d(Tensor::constant(w@, seq![c_out, c_in, 1]), None, 1, 0, 1),
    }
}

fn apply_conv1d_1x1_opt(x: &LazyTensor, w: &Option<Data>, in_channels: usize, out_channels: usize) -> (r:
    LazyTensor)
    ensures
        r@ == channels_mapped(x@, *w, in_channels as int, out_channels as int),
{
    match w {
        None => x.clone(),
        Some(w) => x.conv1d(&LazyTensor::const3(w, out_channels, in_channels, 1), None, 1, 0, 1),
    }
}

impl VectorQuantizationWeights {
    /// The codes `(b, t)` of a signal `(b, dim, t)`.
    pub open spec fn encoded(&self, xs: Tensor) -> Tensor {
        let b = xs.dim(0);
        let t = xs.dim(2);
        let cd = self.codebook.codebook_dim as int;
        let y = mapped(
            xs.permute(seq![0, 2, 1]),
            self.project_in_w,
            self.project_in_b,
            self.dim as int,
            cd,
        );
        self.codebook.encoded(y.reshape(seq![b * t, cd])).reshape(seq![b, t])
    }

    /// The signal `(b, dim, t)` of codes `(b, t)`.
    pub open spec fn decoded(&self, codes: Tensor) -> Tensor {
        let b = codes.dim(0);
        let t = codes.dim(1);
        let cd = self.codebook.codebook_dim as int;
        let y = self.codebook.decoded(codes.reshape(seq![b * t])).reshape(seq![b, t, cd]);
        mapped(y, self.project_out_w, self.project_out_b, cd, self.dim as int).permute(seq![0, 2, 1])
    }

    fn encode(&self, xs: &LazyTensor) -> (r: LazyTensor)
        ensures
            r@ == self.encoded(xs@),
    {
        let b: usize = xs.dim(0);
        let t: usize = xs.dim(2);
        let cd: usize = self.codebook.codebook_dim;
        let y = apply_linear_opt(
            &xs.permute3(0, 2, 1),
            &self.project_in_w,
            &self.project_in_b,
            self.dim,
            cd,
        );
        self.codebook.encode(&reshape_merged2(&y, b, t, cd)).reshape2(b, t)
    }

    fn decode(&self, codes: &LazyTensor) -> (r: LazyTensor)
        ensures
            r@ == self.decoded(codes@),
    {
        let b: usize = codes.dim(0);
        let t: usize = codes.dim(1);
        let cd: usize = self.codebook.codebook_dim;
        let y = self.codebook.decode(&reshape_merged1(codes, b, t)).reshape3(b, t, cd);
        apply_linear_opt(&y, &self.project_out_w, &self.project_out_b, cd, self.dim).permute3(0, 2, 1)
    }
}

/// Codes a signal `(b, dim, t)` as `(b, t)`.
pub fn vq_encode(xs: &LazyTensor, w: &VectorQuantizationWeights) -> (r: Result<LazyTensor, Error>)
    ensures
        outcome(r, w.encoded(xs@)),
{
    w.encode(xs).finish()
}

/// Rebuilds a signal `(b, dim, t)` from codes `(b, t)`.
pub fn vq_decode(codes: &LazyTensor, w: &VectorQuantizationWeights) -> (r: Result<LazyTensor, Error>)
    ensures
        outcome(r, w.decoded(codes@)),
{
    w.decode(codes).finish()
}

impl ResidualVectorQuantizationWeights {
    /// What the first `n` layers leave over of a signal.
    pub open spec fn residual(&self, xs: Tensor, n: int) -> Tensor
        decreases n,
    {
        if n <= 0 {
            xs
        } else {
            let left = self.residual(xs, n - 1);
            left.sub(self.layers@[n - 1].decoded(self.layers@[n - 1].encoded(left)))
        }
    }

    /// The codes of layer `i`, `(b, t)`.
    pub open spec fn layer_codes(&self, xs: Tensor, i: int) -> Tensor {
        self.layers@[i].encoded(self.residual(xs, i))
    }

    /// The codes of all layers, `(layers, b, t)`.
    pub open spec fn encoded(&self, xs: Tensor) -> Tensor {
        let n = self.layers@.len() as int;
        if n == 0 {
            Tensor::invalid(Error::NoLayers)
        } else if self.residual(xs, n).bad() {
            self.residual(xs, n)
        } else {
            stacked(Seq::new(n as nat, |i: int| self.layer_codes(xs, i)), 0)
        }
    }

    /// What layer `i` contributes to the signal of the codes.
    pub open spec fn layer_signal(&self, codes: Tensor, i: int) -> Tensor {
        self.layers@[i].decoded(codes.narrow(0, i, 1).reshape(seq![codes.dim(1), codes.dim(2)]))
    }

    /// The sum of what the first `n` layers contribute.
    pub open spec fn summed(&self, codes: Tensor, n: int) -> Tensor
        decreases n,
    {
        if n <= 1 {
            self.layer_signal(codes, 0)
        } else {
            self.summed(codes, n - 1).add(self.layer_signal(codes, n - 1))
        }
    }

    /// The signal `(b, dim, t)` of codes `(layers, b, t)`.
    pub open spec fn decoded(&self, codes: Tensor) -> Tensor {
        self.summed(codes, self.layers@.len() as int)
    }

    fn encode(&self, xs: &LazyTensor) -> (r: LazyTensor)
        ensures
            r@ == self.encoded(xs@),
    {
        let n: usize = self.layers.len();
        if n == 0 {
            return LazyTensor::invalid(Error::NoLayers);
        }
        let ghost want = Seq::new(n as nat, |i: int| self.layer_codes(xs@, i));
        let mut residual = xs.clone();
        let mut codes: Vec<LazyTensor> = Vec::new();
        let mut i: usize = 0;
        while i < n
            invariant
                i <= n == self.layers@.len(),
                want == Seq::new(n as nat, |i: int| self.layer_codes(xs@, i)),
                residual@ == self.residual(xs@, i as int),
                views(codes@) == want.take(i as int),
            decreases n - i,
        {
            let layer = &self.layers[i];
            let indices = layer.encode(&residual);
            assert(indices@ == want[i as int]);
            let quantized = layer.decode(&indices);
            residual = residual.sub(&quantized);
            let ghost before = views(codes@);
            codes.push(indices);
            assert(views(codes@) =~= before.push(indices@));
            i = i + 1;
            assert(views(codes@) =~= want.take(i as int));
        }
        assert(want.take(n as int) =~= want);
        if residual.failure().is_some() {
            return residual;
        }
        stack(&codes, 0)
    }

    fn layer_decode(&self, codes: &LazyTensor, i: usize) -> (r: LazyTensor)
        requires
            i < self.layers@.len(),
        ensures
            r@ == self.layer_signal(codes@, i as int),
    {
        let slice = codes.narrow(0, i, 1).reshape2(codes.dim(1), codes.dim(2));
        self.layers[i].decode(&slice)
    }

    fn decode(&self, codes: &LazyTensor) -> (r: LazyTensor)
        requires
            self.layers@.len() > 0,
        ensures
            r@ == self.decoded(codes@),
    {
        let mut sum = self.layer_decode(codes, 0);
        let mut i: usize = 1;
        while i < self.layers.len()
            invariant
                1 <= i <= self.layers@.len(),
                sum@ == self.summed(codes@, i as int),
            decreases self.layers@.len() - i,
        {
            sum = sum.add(&self.layer_decode(codes, i));
            i = i + 1;
        }
        sum
    }
}

/// Codes a signal `(b, dim, t)` as `(layers, b, t)`; each layer codes what the
/// ones before it left over.
pub fn rvq_encode(xs: &LazyTensor, w: &ResidualVectorQuantizationWeights) -> (r: Result<LazyTensor, Error>)
    ensures
        outcome(r, w.encoded(xs@)),
{
    w.encode(xs).finish()
}

/// Rebuilds a signal `(b, dim, t)` from codes `(layers, b, t)`.
pub fn rvq_decode(codes: &LazyTensor, w: &ResidualVectorQuantizationWeights) -> (r: Result<LazyTensor, Error>)
    requires
        w.layers@.len() > 0,
        codes@.dim(0) == w.layers@.len(),
    ensures
        outcome(r, w.decoded(codes@)),
{
    w.decode(codes).finish()
}

impl ResidualVectorQuantizerWeights {
    /// The codes `(b, layers, t)` of a signal `(b, input_dim, t)`.
    pub open spec fn encoded(&self, xs: Tensor) -> Tensor {
        self.vq.encoded(
            channels_mapped(xs, self.input_proj_w, self.input_dim as int, self.dim as int),
        ).permute(seq![1, 0, 2])
    }

    /// The signal `(b, output_dim, t)` of codes `(b, layers, t)`.
    pub open spec fn decoded(&self, codes: Tensor) -> Tensor {
        channels_mapped(
            self.vq.decoded(codes.permute(seq![1, 0, 2])),
            self.output_proj_w,
            self.dim as int,
            self.output_dim as int,
        )
    }

    fn encode(&self, xs: &LazyTensor) -> (r: LazyTensor)
        ensures
            r@ == self.encoded(xs@),
    {
        let y = apply_conv1d_1x1_opt(xs, &self.input_proj_w, self.input_dim, self.dim);
        self.vq.encode(&y).permute3(1, 0, 2)
    }

    fn decode(&self, codes: &LazyTensor) -> (r: LazyTensor)
        requires
            self.vq.layers@.len() > 0,
        ensures
            r@ == self.decoded(codes@),
    {
        let y = self.vq.decode(&codes.permute3(1, 0, 2));
        apply_conv1d_1x1_opt(&y, &self.output_proj_w, self.dim, self.output_dim)
    }
}

/// Codes a signal `(b, input_dim, t)` as `(b, layers, t)`.
pub fn rvq_quantizer_encode(xs: &LazyTensor, w: &ResidualVectorQuantizerWeights) -> (r: Result<
    LazyTensor,
    Error,
>)
    ensures
        outcome(r, w.encoded(xs@)),
{
    w.encode(xs).finish()
}

/// Rebuilds a signal `(b, output_dim, t)` from codes `(b, layers, t)`.
pub fn rvq_quantizer_decode(codes: &LazyTensor, w: &ResidualVectorQuantizerWeights) -> (r: Result<
    LazyTensor,
    Error,
>)
    requires
        w.vq.layers@.len() > 0,
        codes@.rank() == 3 ==> codes@.dim(1) == w.vq.layers@.len(),
    ensures
        outcome(r, w.decoded(codes@)),
{
    w.decode(codes).finish()
}

impl SplitResidualVectorQuantizerWeights {
    /// The stacks have the layers that the number of codes asks for.
    pub open spec fn valid(&self) -> bool {
        &&& self.rvq_first.vq.layers@.len() == 1
        &&& self.n_q > 1 ==> self.rvq_rest.vq.layers@.len() == self.n_q - 1
    }

    /// The codes `(b, n_q, t)` of a signal: the semantic ones, then the acoustic
    /// ones.
    pub open spec fn encoded(&self, xs: Tensor) -> Tensor {
        if self.n_q > 1 {
            self.rvq_first.encoded(xs).concat(self.rvq_rest.encoded(xs), 1)
        } else {
            self.rvq_first.encoded(xs)
        }
    }

    /// The signal of codes `(b, n_q, t)`.
    pub open spec fn decoded(&self, codes: Tensor) -> Tensor {
        let semantic = self.rvq_first.decoded(codes.narrow(1, 0, 1));
        if self.n_q > 1 {
            semantic.add(self.rvq_rest.decoded(codes.narrow(1, 1, self.n_q - 1)))
        } else {
            semantic
        }
    }

    pub(crate) fn encode(&self, xs: &LazyTensor) -> (r: LazyTensor)
        ensures
            r@ == self.encoded(xs@),
    {
        let semantic = self.rvq_first.encode(xs);
        if self.n_q > 1 {
            semantic.concat(&self.rvq_rest.encode(xs), 1)
        } else {
            semantic
        }
    }

    pub(crate) fn decode(&self, codes: &LazyTensor) -> (r: LazyTensor)
        requires
            self.valid(),
        ensures
            r@ == self.decoded(codes@),
    {
        let semantic = self.rvq_first.decode(&codes.narrow(1, 0, 1));
        if self.n_q > 1 {
            semantic.add(&self.rvq_rest.decode(&codes.narrow(1, 1, self.n_q - 1)))
        } else {
            semantic
        }
    }
}

/// Codes a signal `(b, dim, t)` as `(b, n_q, t)`.
pub fn split_rvq_encode(xs: &LazyTensor, w: &SplitResidualVectorQuantizerWeights) -> (r: Result<
    LazyTensor,
    Error,
>)
    ensures
        outcome(r, w.encoded(xs@)),
{
    w.encode(xs).finish()
}

/// Rebuilds a signal `(b, dim, t)` from codes `(b, n_q, t)`.
pub fn split_rvq_decode(codes: &LazyTensor, w: &SplitResidualVectorQuantizerWeights) -> (r: Result<
    LazyTensor,
    Error,
>)
    requires
        w.valid(),
        codes@.dim(1) == w.n_q,
    ensures
        outcome(r, w.decoded(codes@)),
{
    w.decode(codes).finish()
}

/// The rows of a codebook: the sums of the vectors of each cluster over the
/// usage of the cluster, which counts as 1e-5 where it is less.
pub open spec fn centroids(sums: Seq<Scalar>, usage: Seq<Scalar>, size: int, width: int) -> Seq<Scalar> {
    Seq::new(
        (size * width) as nat,
        |k: int|
            div32(
                sums[k],
                binary(Precision::Single, BinaryFn::Max, usage[k / width], Scalar::F32(0x3727_C5AC)),
            ),
    )
}

/// Half the squared length of each row, summed in double precision.
pub open spec fn half_squares(rows: Seq<Scalar>, size: int, width: int) -> Seq<Scalar> {
    Seq::new(
        size as nat,
        |i: int|
            cast(
                Precision::Single,
                div64(sum_squares64(rows, i * width, width), Scalar::F64(0x4000_0000_0000_0000)),
            ),
    )
}

fn build_centroids(sums: &Vec<Scalar>, usage: &Vec<Scalar>, size: usize, width: usize) -> (r: Vec<Scalar>)
    requires
        usage@.len() == size,
        sums@.len() == size * width,
    ensures
        r@ == centroids(sums@, usage@, size as int, width as int),
{
    let n: usize = sums.len();
    let ghost want = centroids(sums@, usage@, size as int, width as int);
    let mut out: Vec<Scalar> = Vec::new();
    let mut k: usize = 0;
    while k < n
        invariant
            k <= n == sums@.len() == size * width,
            usage@.len() == size,
            want == centroids(sums@, usage@, size as int, width as int),
            out@.len() == k,
            forall|m: int| 0 <= m < k ==> out@[m] == want[m],
        decreases n - k,
    {
        assert(width > 0 && (k as int) / (width as int) < size) by (nonlinear_arith)
            requires
                k < size * width,
                k >= 0,
                size >= 0,
                width >= 0,
        ;
        let denom = usage[k / width].clone().binary(
            Precision::Single,
            BinaryFn::Max,
            Scalar::F32(0x3727_C5AC),
        );
        out.push(sums[k].clone().div32(denom));
        k = k + 1;
    }
    assert(out@ =~= want);
    out
}

fn build_half_squares(rows: &Vec<Scalar>, size: usize, width: usize) -> (r: Vec<Scalar>)
    requires
        rows@.len() == size * width,
    ensures
        r@ == half_squares(rows@, size as int, width as int),
{
    let n: usize = rows.len();
    let ghost want = half_squares(rows@, size as int, width as int);
    let mut out: Vec<Scalar> = Vec::new();
    let mut i: usize = 0;
    while i < size
        invariant
            i <= size,
            n == rows@.len() == size * width,
            want == half_squares(rows@, size as int, width as int),
            out@.len() == i,
            forall|m: int| 0 <= m < i ==> out@[m] == want[m],
        decreases size - i,
    {
        assert(i * width + width <= size * width && i * width >= 0) by (nonlinear_arith)
            requires
                i < size,
                width >= 0,
        ;
        let base: usize = i * width;
        let mut sum = Scalar::F64(0);
        let mut j: usize = 0;
        while j < width
            invariant
                j <= width,
                base + width <= n == rows@.len(),
                sum == sum_squares64(rows@, base as int, j as int),
            decreases width - j,
        {
            let e = rows[base + j].clone().cast(Precision::Double);
            sum = sum.add64(e.clone().mul64(e));
            j = j + 1;
        }
        out.push(sum.div64(Scalar::F64(0x4000_0000_0000_0000)).cast(Precision::Single));
        i = i + 1;
    }
    assert(out@ =~= want);
    out
}

impl EuclideanCodebookWeights {
    /// The failure, after an earlier one, to load the codebook `p`.
    pub open spec fn need(st: &Checkpoint, e: Option<Fault>, p: Seq<char>, size: int, width: int) -> Option<Fault> {
        st.need_len(st.need_len(e, p + ".cluster_usage"@, size), p + ".embed_sum"@, size * width)
    }

    /// Whether this is the codebook `p` of the checkpoint.
    pub open spec fn loaded(&self, st: &Checkpoint, p: Seq<char>, size: int, width: int) -> bool {
        &&& self.codebook_size == size
        &&& self.codebook_dim == width
        &&& self.embedding@ == centroids(
            st.data(p + ".embed_sum"@),
            st.data(p + ".cluster_usage"@),
            size,
            width,
        )
        &&& self.c2@ == half_squares(self.embedding@, size, width)
    }
}

fn load_euclidean_codebook(ld: &mut Loader, prefix: &str, codebook_size: usize, codebook_dim: usize) -> (r:
    EuclideanCodebookWeights)
    requires
        codebook_size * codebook_dim <= usize::MAX,
    ensures
        final(ld).st == old(ld).st,
        final(ld).fault() == EuclideanCodebookWeights::need(
            old(ld).st,
            old(ld).fault(),
            prefix@,
            codebook_size as int,
            codebook_dim as int,
        ),
        final(ld).fault() is None ==> r.loaded(
            old(ld).st,
            prefix@,
            codebook_size as int,
            codebook_dim as int,
        ),
{
    let usage = ld.take_len(join(prefix, ".cluster_usage").as_str(), codebook_size);
    let sums = ld.take_len(join(prefix, ".embed_sum").as_str(), codebook_size * codebook_dim);
    if ld.error.is_some() {
        return EuclideanCodebookWeights { embedding: sums, c2: usage, codebook_size, codebook_dim };
    }
    let rows = build_centroids(&sums, &usage, codebook_size, codebook_dim);
    let c2 = build_half_squares(&rows, codebook_size, codebook_dim);
    EuclideanCodebookWeights {
        embedding: Arc::new(rows),
        c2: Arc::new(c2),
        codebook_size,
        codebook_dim,
    }
}

impl VectorQuantizationWeights {
    /// Whether this is the layer `p` of the checkpoint, which has no projections.
    pub open spec fn loaded(&self, st: &Checkpoint, p: Seq<char>, size: int, width: int) -> bool {
        &&& self.codebook.loaded(st, p + ".codebook"@, size, width)
        &&& self.project_in_w is None
        &&& self.project_in_b is None
        &&& self.project_out_w is None
        &&& self.project_out_b is None
        &&& self.dim == width
    }
}

fn load_vector_quantization(ld: &mut Loader, prefix: &str, dim: usize, codebook_size: usize) -> (r:
    VectorQuantizationWeights)
    requires
        codebook_size * dim <= usize::MAX,
    ensures
        final(ld).st == old(ld).st,
        final(ld).fault() == EuclideanCodebookWeights::need(
            old(ld).st,
            old(ld).fault(),
            prefix@ + ".codebook"@,
            codebook_size as int,
            dim as int,
        ),
        final(ld).fault() is None ==> r.loaded(old(ld).st, prefix@, codebook_size as int, dim as int),
{
    let codebook = load_euclidean_codebook(ld, join(prefix, ".codebook").as_str(), codebook_size, dim);
    VectorQuantizationWeights {
        codebook,
        project_in_w: None,
        project_in_b: None,
        project_out_w: None,
        project_out_b: None,
        dim,
    }
}

/// The name of layer `i` of the quantizer `p`.
pub open spec fn layer_prefix(p: Seq<char>, i: int) -> Seq<char> {
    p + ".layers."@ + decimal(i)
}

/// The failure, after an earlier one, to load the first `n` layers.
pub open spec fn layers_need(
    st: &Checkpoint,
    e: Option<Fault>,
    p: Seq<char>,
    dim: int,
    size: int,
    n: int,
) -> Option<Fault>
    decreases n,
{
    if n <= 0 {
        e
    } else {
        EuclideanCodebookWeights::need(
            st,
            layers_need(st, e, p, dim, size, n - 1),
            layer_prefix(p, n - 1) + ".codebook"@,
            size,
            dim,
        )
    }
}

/// Sizes of a quantizer.
pub open spec fn sizes_countable(dim: int, input_dim: int, output_dim: int, size: int) -> bool {
    &&& dim * input_dim <= usize::MAX
    &&& output_dim * dim <= usize::MAX
    &&& size * dim <= usize::MAX
}

impl ResidualVectorQuantizerWeights {
    /// The failure, after an earlier one, to load the quantizer `p`.
    pub open spec fn need(
        st: &Checkpoint,
        e: Option<Fault>,
        p: Seq<char>,
        dim: int,
        input_dim: int,
        output_dim: int,
        n: int,
        size: int,
    ) -> Option<Fault> {
        let e = st.need_len(e, p + ".input_proj.weight"@, dim * input_dim);
        let e = st.need_len(e, p + ".output_proj.weight"@, output_dim * dim);
        layers_need(st, e, p, dim, size, n)
    }

    /// Whether this is the quantizer `p` of the checkpoint.
    pub open spec fn loaded(
        &self,
        st: &Checkpoint,
        p: Seq<char>,
        dim: int,
        input_dim: int,
        output_dim: int,
        n: int,
        size: int,
    ) -> bool {
        &&& self.input_proj_w is Some
        &&& self.input_proj_w->Some_0@ == st.data(p + ".input_proj.weight"@)
        &&& self.output_proj_w is Some
        &&& self.output_proj_w->Some_0@ == st.data(p + ".output_proj.weight"@)
        &&& self.dim == dim
        &&& self.input_dim == input_dim
        &&& self.output_dim == output_dim
        &&& self.vq.layers@.len() == n
        &&& forall|i: int|
            0 <= i < n ==> (#[trigger] self.vq.layers@[i]).loaded(st, layer_prefix(p, i), size, dim)
    }
}

fn load_residual_vector_quantizer(
    ld: &mut Loader,
    prefix: &str,
    dim: usize,
    input_dim: usize,
    output_dim: usize,
    n_q: usize,
    codebook_size: usize,
) -> (r: ResidualVectorQuantizerWeights)
    requires
        sizes_countable(dim as int, input_dim as int, output_dim as int, codebook_size as int),
    ensures
        final(ld).st == old(ld).st,
        final(ld).fault() == ResidualVectorQuantizerWeights::need(
            old(ld).st,
            old(ld).fault(),
            prefix@,
            dim as int,
            input_dim as int,
            output_dim as int,
            n_q as int,
            codebook_size as int,
        ),
        final(ld).fault() is None ==> r.loaded(
            old(ld).st,
            prefix@,
            dim as int,
            input_dim as int,
            output_dim as int,
            n_q as int,
            codebook_size as int,
        ),
{
    let ghost st = ld.st;
    let input = ld.take_len(join(prefix, ".input_proj.weight").as_str(), dim * input_dim);
    let output = ld.take_len(join(prefix, ".output_proj.weight").as_str(), output_dim * dim);
    let ghost e = ld.fault();
    let base = join(prefix, ".layers.");
    let mut layers: Vec<VectorQuantizationWeights> = Vec::new();
    let mut i: usize = 0;
    while i < n_q
        invariant
            i <= n_q,
            ld.st == st,
            base@ == prefix@ + ".layers."@,
            codebook_size * dim <= usize::MAX,
            ld.fault() == layers_need(st, e, prefix@, dim as int, codebook_size as int, i as int),
            layers@.len() == i,
            ld.fault() is None ==> e is None && forall|j: int|
                0 <= j < i ==> (#[trigger] layers@[j]).loaded(
                    st,
                    layer_prefix(prefix@, j),
                    codebook_size as int,
                    dim as int,
                ),
        decreases n_q - i,
    {
        let name = numbered(base.as_str(), i);
        layers.push(load_vector_quantization(ld, name.as_str(), dim, codebook_size));
        i = i + 1;
    }
    ResidualVectorQuantizerWeights {
        vq: ResidualVectorQuantizationWeights { layers },
        input_proj_w: Some(input),
        output_proj_w: Some(output),
        dim,
        input_dim,
        output_dim,
    }
}

/// Layers of the acoustic stack for `n_q` codes, the first of which is semantic.
pub open spec fn acoustic_layers(n_q: int) -> int {
    if n_q > 1 {
        n_q - 1
    } else {
        0
    }
}

impl SplitResidualVectorQuantizerWeights {
    /// The failure, after an earlier one, to load the quantizer `p`.
    pub open spec fn need(
        st: &Checkpoint,
        e: Option<Fault>,
        p: Seq<char>,
        dim: int,
        input_dim: int,
        output_dim: int,
        n_q: int,
        size: int,
    ) -> Option<Fault> {
        ResidualVectorQuantizerWeights::need(
            st,
            ResidualVectorQuantizerWeights::need(
                st,
                e,
                p + ".semantic_residual_vector_quantizer"@,
                dim,
                input_dim,
                output_dim,
                1,
                size,
            ),
            p + ".acoustic_residual_vector_quantizer"@,
            dim,
            input_dim,
            output_dim,
            acoustic_layers(n_q),
            size,
        )
    }

    /// Whether this is the quantizer `p` of the checkpoint.
    pub open spec fn loaded(
        &self,
        st: &Checkpoint,
        p: Seq<char>,
        dim: int,
        input_dim: int,
        output_dim: int,
        n_q: int,
        size: int,
    ) -> bool {
        &&& self.rvq_first.loaded(
            st,
            p + ".semantic_residual_vector_quantizer"@,
            dim,
            input_dim,
            output_dim,
            1,
            size,
        )
        &&& self.rvq_rest.loaded(
            st,
            p + ".acoustic_residual_vector_quantizer"@,
            dim,
            input_dim,
            output_dim,
            acoustic_layers(n_q),
            size,
        )
        &&& self.n_q == n_q
    }

    pub(crate) fn load(
        ld: &mut Loader,
        prefix: &str,
        dim: usize,
        input_dim: usize,
        output_dim: usize,
        n_q: usize,
        quantizer_bins: usize,
    ) -> (r: Self)
        requires
            sizes_countable(dim as int, input_dim as int, output_dim as int, quantizer_bins as int),
        ensures
            final(ld).st == old(ld).st,
            final(ld).fault() == SplitResidualVectorQuantizerWeights::need(
                old(ld).st,
                old(ld).fault(),
                prefix@,
                dim as int,
                input_dim as int,
                output_dim as int,
                n_q as int,
                quantizer_bins as int,
            ),
            final(ld).fault() is None ==> old(ld).fault() is None,
            final(ld).fault() is None ==> r.valid() && r.loaded(
                old(ld).st,
                prefix@,
                dim as int,
                input_dim as int,
                output_dim as int,
                n_q as int,
                quantizer_bins as int,
            ),
    {
        let ghost e0 = ld.fault();
        let semantic = join(prefix, ".semantic_residual_vector_quantizer");
        let rvq_first = load_residual_vector_quantizer(
            ld,
            semantic.as_str(),
            dim,
            input_dim,
            output_dim,
            1,
            quantizer_bins,
        );
        let ghost e = ld.fault();
        let n_rest: usize = if n_q > 1 { n_q - 1 } else { 0 };
        let acoustic = join(prefix, ".acoustic_residual_vector_quantizer");
        let rvq_rest = load_residual_vector_quantizer(
            ld,
            acoustic.as_str(),
            dim,
            input_dim,
            output_dim,
            n_rest,
            quantizer_bins,
        );
        proof {
            layers_need_keeps(
                ld.st,
                ld.st.need_len(
                    ld.st.need_len(e0, semantic@ + ".input_proj.weight"@, dim * input_dim),
                    semantic@ + ".output_proj.weight"@,
                    output_dim * dim,
                ),
                semantic@,
                dim as int,
                quantizer_bins as int,
                1,
            );
            layers_need_keeps(
                ld.st,
                ld.st.need_len(
                    ld.st.need_len(e, acoustic@ + ".input_proj.weight"@, dim * input_dim),
                    acoustic@ + ".output_proj.weight"@,
                    output_dim * dim,
                ),
                acoustic@,
                dim as int,
                quantizer_bins as int,
                n_rest as int,
            );
        }
        SplitResidualVectorQuantizerWeights { rvq_first, rvq_rest, n_q }
    }

    /// Loads the quantizer `prefix` of a checkpoint. `dim` is the width of the
    /// codebooks, `input_dim` and `output_dim` are those of the signals.
    pub fn load_from_mmapped(
        st: &Checkpoint,
        prefix: &str,
        dim: usize,
        input_dim: usize,
        output_dim: usize,
        n_q: usize,
        quantizer_bins: usize,
    ) -> (r: Result<Self, LoadError>)
        requires
            sizes_countable(dim as int, input_dim as int, output_dim as int, quantizer_bins as int),
        ensures
            ({
                let failure = SplitResidualVectorQuantizerWeights::need(
                    st,
                    None,
                    prefix@,
                    dim as int,
                    input_dim as int,
                    output_dim as int,
                    n_q as int,
                    quantizer_bins as int,
                );
                match r {
                    Ok(w) => failure is None && w.valid() && w.loaded(
                        st,
                        prefix@,
                        dim as int,
                        input_dim as int,
                        output_dim as int,
                        n_q as int,
                        quantizer_bins as int,
                    ),
                    Err(e) => failure == Some(e@),
                }
            }),
    {
        let mut ld = Loader::new(st);
        let w = SplitResidualVectorQuantizerWeights::load(
            &mut ld,
            prefix,
            dim,
            input_dim,
            output_dim,
            n_q,
            quantizer_bins,
        );
        match ld.error {
            Some(e) => Err(e),
            None => Ok(w),
        }
    }
}

/// Loading further layers does not undo a failure.
pub proof fn layers_need_keeps(st: &Checkpoint, e: Option<Fault>, p: Seq<char>, dim: int, size: int, n: int)
    ensures
        layers_need(st, e, p, dim, size, n) is None ==> e is None,
    decreases n,
{
    if n > 0 {
        layers_need_keeps(st, e, p, dim, size, n - 1);
    }
}

} // verus!
