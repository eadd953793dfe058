//! MMDiT: a diffusion transformer over joint text and image token streams.
//!
//! - A double-stream block has its own projections and modulation for text and
//!   for image tokens, but one attention over both.
//! - A single-stream block runs over the concatenated tokens.
//!
//! Every block is modulated by a conditioning vector made from the timestep and
//! a label: `(1 + scale) * norm(x) + shift` before a sublayer, and a gate on
//! what the sublayer adds.

use crate::checkpoint::{decimal, join, loaded_matrix, numbered, Checkpoint, Loader};
use crate::common::{attend_full, full_attention, full_attention_has};
use crate::error::{Error, Fault, LoadError};
use crate::evaluation::{inside, places, rearranges, Element};
use crate::extents::{
    broadcast_add_under, broadcast_to_has, constant_has, conv2d_has, extents, has, permute_axes,
    products, reshape_has,
};
use crate::lazy::{finish2, outcome, outcome2, LazyTensor, Tensor, WeightStorage};
use crate::lazy_mimi_conv::kernel_has_len;
use crate::scalar::{
    div32, inv_sqrt64, mul32, one64, unary, Data, Precision, Scalar, UnaryFn,
};
use crate::shape::windows;
use std::sync::Arc;
use vstd::prelude::*;

verus! {

#[derive(Debug, Clone)]
pub struct MmDitConfig {
    /// Width of both streams.
    pub dim: usize,
    pub num_heads: usize,
    /// Number of double-stream blocks.
    pub depth_double: usize,
    /// Number of single-stream blocks.
    pub depth_single: usize,
    pub mlp_ratio: usize,
    /// Normalisation constant.
    pub eps: Scalar,
}

impl MmDitConfig {
    /// Width of a head.
    pub open spec fn width(&self) -> int {
        self.dim as int / self.num_heads as int
    }

    /// Width inside the feed-forward part.
    pub open spec fn hidden(&self) -> int {
        self.dim * self.mlp_ratio
    }

    /// There are heads, and the widths can be counted.
    pub open spec fn valid(&self) -> bool {
        &&& self.num_heads > 0
        &&& 6 * self.dim <= usize::MAX
        &&& self.hidden() <= usize::MAX
    }

    /// Width of a head.
    pub fn head_dim(&self) -> (r: usize)
        requires
            self.num_heads > 0,
        ensures
            r == self.width(),
    {
        self.dim / self.num_heads
    }
}

/// Weights of one stream of a block.
#[derive(Debug, Clone)]
pub struct StreamWeights {
    /// `[dim, 6 * dim]`: shift, scale and gate of attention, then of the
    /// feed-forward part.
    pub adaln_proj: WeightStorage,
    pub adaln_bias: Data,
    /// `[dim, 3 * dim]`.
    pub qkv_proj: WeightStorage,
    pub qkv_bias: Data,
    /// `[dim, dim]`.
    pub out_proj: WeightStorage,
    pub out_bias: Data,
    /// `[dim, hidden]`.
    pub fc1: WeightStorage,
    pub fc1_bias: Data,
    /// `[hidden, dim]`.
    pub fc2: WeightStorage,
    pub fc2_bias: Data,
}

#[derive(Debug, Clone)]
pub struct DoubleStreamBlockWeights {
    pub text: StreamWeights,
    pub image: StreamWeights,
}

/// The same parts as [`StreamWeights`], for the concatenated streams.
#[derive(Debug, Clone)]
pub struct SingleStreamBlockWeights {
    pub adaln_proj: WeightStorage,
    pub adaln_bias: Data,
    pub qkv_proj: WeightStorage,
    pub qkv_bias: Data,
    pub out_proj: WeightStorage,
    pub out_bias: Data,
    pub fc1: WeightStorage,
    pub fc1_bias: Data,
    pub fc2: WeightStorage,
    pub fc2_bias: Data,
}

/// Weights of the conditioning vector: a two-layer map of the timestep features
/// and one of the label.
#[derive(Debug, Clone)]
pub struct ConditioningWeights {
    pub t_fc1: WeightStorage,
    pub t_fc1_bias: Data,
    pub t_fc2: WeightStorage,
    pub t_fc2_bias: Data,
    pub y_fc1: WeightStorage,
    pub y_fc1_bias: Data,
    pub y_fc2: WeightStorage,
    pub y_fc2_bias: Data,
    /// Number of timestep features.
    pub frequency_embedding_size: usize,
    /// Width of the label.
    pub adm_in_channels: usize,
}

#[derive(Debug, Clone)]
pub struct MmDitWeights {
    pub conditioning: ConditioningWeights,
    pub double_blocks: Vec<DoubleStreamBlockWeights>,
    pub single_blocks: Vec<SingleStreamBlockWeights>,
}

#[derive(Debug, Clone)]
pub struct MmDitModel {
    pub config: MmDitConfig,
    pub weights: MmDitWeights,
}

/// The six modulation vectors of a block, each `(batch, dim)`.
#[derive(Debug, Clone)]
pub struct ModulationChunks {
    pub shift_msa: LazyTensor,
    pub scale_msa: LazyTensor,
    pub gate_msa: LazyTensor,
    pub shift_mlp: LazyTensor,
    pub scale_mlp: LazyTensor,
    pub gate_mlp: LazyTensor,
}

impl SingleStreamBlockWeights {
    /// The parts, as those of one stream.
    pub open spec fn stream(&self) -> StreamWeights {
        StreamWeights {
            adaln_proj: self.adaln_proj,
            adaln_bias: self.adaln_bias,
            qkv_proj: self.qkv_proj,
            qkv_bias: self.qkv_bias,
            out_proj: self.out_proj,
            out_bias: self.out_bias,
            fc1: self.fc1,
            fc1_bias: self.fc1_bias,
            fc2: self.fc2,
            fc2_bias: self.fc2_bias,
        }
    }
}

/// `y` where `x` has the given rank.
pub open spec fn of_rank(x: Tensor, rank: int, y: Tensor) -> Tensor {
    if x.bad() {
        x
    } else if x.rank() != rank {
        Tensor::invalid(Error::Shape)
    } else {
        y
    }
}

/// A matrix, then a bias of any length.
pub open spec fn biased(x: Tensor, w: Seq<Scalar>, b: Seq<Scalar>, fan_in: int, fan_out: int) -> Tensor {
    x.linear(w, fan_in, fan_out).add_trailing_bias(b)
}

fn apply_biased(x: &LazyTensor, w: &WeightStorage, b: &Data, fan_in: usize, fan_out: usize) -> (r:
    LazyTensor)
    ensures
        r@ == biased(x@, w@, b@, fan_in as int, fan_out as int),
{
    w.apply_linear(x, fan_in, fan_out).add_trailing_bias(b)
}

/// Frequency `i` of `half`: `exp(-ln(10000) * i / half)`.
pub open spec fn frequency(i: int, half: usize) -> Scalar {
    unary(
        Precision::Single,
        UnaryFn::Exp,
        div32(
            mul32(
                unary(
                    Precision::Single,
                    UnaryFn::Neg,
                    unary(Precision::Single, UnaryFn::Ln, Scalar::F32(0x461C_4000)),
                ),
                Scalar::Nat(Precision::Single, i as usize),
            ),
            Scalar::Nat(Precision::Single, half),
        ),
    )
}

/// The frequencies of the timestep features.
pub open spec fn frequencies(half: usize) -> Seq<Scalar> {
    Seq::new(half as nat, |i: int| frequency(i, half))
}

fn build_frequencies(half: usize) -> (r: Vec<Scalar>)
    ensures
        r@ == frequencies(half),
{
    let mut out: Vec<Scalar> = Vec::new();
    let mut i: usize = 0;
    while i < half
        invariant
            i <= half,
            out@.len() == i,
            forall|j: int| 0 <= j < i ==> out@[j] == frequencies(half)[j],
        decreases half - i,
    {
        let neg_log = Scalar::F32(0x461C_4000).unary(Precision::Single, UnaryFn::Ln).unary(
            Precision::Single,
            UnaryFn::Neg,
        );
        let x = neg_log.mul32(Scalar::Nat(Precision::Single, i)).div32(
            Scalar::Nat(Precision::Single, half),
        );
        out.push(x.unary(Precision::Single, UnaryFn::Exp));
        i = i + 1;
    }
    assert(out@ =~= frequencies(half));
    out
}

/// The features `(batch, dim)` of the timesteps `(batch)`: the cosines of the
/// timestep times each frequency, then the sines. The number of features must
/// be even.
pub open spec fn timestep_features(t: Tensor, dim: usize) -> Tensor {
    let half = (dim / 2) as int;
    let batch = t.dim(0);
    let f = Tensor::constant(frequencies((dim / 2) as usize), seq![half]).reshape(
        seq![1, half],
    ).broadcast_to(seq![batch, half]);
    let args = t.reshape(seq![batch, 1]).broadcast_to(seq![batch, half]).mul(f);
    if dim % 2 != 0 {
        Tensor::invalid(Error::Shape)
    } else {
        args.cos().concat(args.sin(), 1)
    }
}

fn timestep_sinusoidal_embed(t: &LazyTensor, dim: usize) -> (r: LazyTensor)
    ensures
        r@ == timestep_features(t@, dim),
{
    if dim % 2 != 0 {
        return LazyTensor::invalid(Error::Shape);
    }
    let half: usize = dim / 2;
    let batch: usize = t.dim(0);
    let freqs_t = LazyTensor::const1(&Arc::new(build_frequencies(half)), half).reshape2(
        1,
        half,
    ).broadcast_to2(batch, half);
    let args = t.reshape2(batch, 1).broadcast_to2(batch, half).mul(&freqs_t);
    args.cos().concat(&args.sin(), 1)
}

/// The conditioning vector `(batch, dim)`: the mapped timestep plus the mapped
/// label.
pub open spec fn conditioning(w: &ConditioningWeights, t: Tensor, y: Tensor, dim: int) -> Tensor {
    let te = biased(
        biased(
            timestep_features(t, w.frequency_embedding_size),
            w.t_fc1@,
            w.t_fc1_bias@,
            w.frequency_embedding_size as int,
            dim,
        ).silu(),
        w.t_fc2@,
        w.t_fc2_bias@,
        dim,
        dim,
    );
    let ye = biased(
        biased(y, w.y_fc1@, w.y_fc1_bias@, w.adm_in_channels as int, dim).silu(),
        w.y_fc2@,
        w.y_fc2_bias@,
        dim,
        dim,
    );
    let c = te.add(ye);
    of_rank(
        t,
        1,
        if c.bad() || c.dims == seq![t.dim(0), dim] {
            c
        } else {
            Tensor::invalid(Error::Shape)
        },
    )
}

fn build_conditioning(w: &ConditioningWeights, timestep: &LazyTensor, y: &LazyTensor, dim: usize) -> (r:
    LazyTensor)
    ensures
        r@ == conditioning(w, timestep@, y@, dim as int),
{
    if timestep.failure().is_some() {
        return timestep.clone();
    }
    if timestep.rank() != 1 {
        return LazyTensor::invalid(Error::Shape);
    }
    let batch: usize = timestep.dim(0);
    let t_feat = timestep_sinusoidal_embed(timestep, w.frequency_embedding_size);
    let t1 = apply_biased(&t_feat, &w.t_fc1, &w.t_fc1_bias, w.frequency_embedding_size, dim).silu();
    let t_emb = apply_biased(&t1, &w.t_fc2, &w.t_fc2_bias, dim, dim);
    let y1 = apply_biased(y, &w.y_fc1, &w.y_fc1_bias, w.adm_in_channels, dim).silu();
    let y_emb = apply_biased(&y1, &w.y_fc2, &w.y_fc2_bias, dim, dim);
    let c = t_emb.add(&y_emb);
    let want = crate::shape::dims2(batch, dim);
    if c.failure().is_some() || crate::shape::dims_equal(c.dims(), &want) {
        c
    } else {
        LazyTensor::invalid(Error::Shape)
    }
}

/// A vector `(batch, dim)` for every position of `x (batch, seq, dim)`.
pub open spec fn along(v: Tensor, x: Tensor) -> Tensor {
    v.reshape(seq![x.dim(0), 1, x.dim(2)]).broadcast_to(seq![x.dim(0), x.dim(1), x.dim(2)])
}

fn spread(v: &LazyTensor, x: &LazyTensor) -> (r: LazyTensor)
    ensures
        r@ == along(v@, x@),
{
    v.reshape3(x.dim(0), 1, x.dim(2)).broadcast_to3(x.dim(0), x.dim(1), x.dim(2))
}

/// `(1 + scale) * x + shift` at every position of `x (batch, seq, dim)`.
pub open spec fn modulated(x: Tensor, scale: Tensor, shift: Tensor) -> Tensor {
    of_rank(x, 3, x.mul(along(scale, x).add_scalar(one64())).add(along(shift, x)))
}

fn modulate(x: &LazyTensor, scale: &LazyTensor, shift: &LazyTensor) -> (r: LazyTensor)
    ensures
        r@ == modulated(x@, scale@, shift@),
{
    if x.failure().is_some() {
        return x.clone();
    }
    if x.rank() != 3 {
        return LazyTensor::invalid(Error::Shape);
    }
    let one_plus_scale = spread(scale, x).add_scalar(&Scalar::F64(0x3FF0_0000_0000_0000));
    x.mul(&one_plus_scale).add(&spread(shift, x))
}

/// Computes `(1 + scale) * x + shift` for `x (batch, seq, dim)` and `scale`,
/// `shift (batch, dim)`.
pub fn apply_modulation(x: &LazyTensor, scale: &LazyTensor, shift: &LazyTensor) -> (r: Result<
    LazyTensor,
    Error,
>)
    ensures
        outcome(r, modulated(x@, scale@, shift@)),
{
    modulate(x, scale, shift).finish()
}

/// All modulation vectors of a block side by side.
pub open spec fn modulation(c: Tensor, w: Seq<Scalar>, b: Seq<Scalar>, dim: int, n: int) -> Tensor {
    biased(c.silu(), w, b, dim, n * dim)
}

/// Modulation vector `i` of six: shift, scale and gate of attention, then of
/// the feed-forward part.
pub open spec fn modulation_at(c: Tensor, w: &StreamWeights, dim: int, i: int) -> Tensor {
    modulation(c, w.adaln_proj@, w.adaln_bias@, dim, 6).chunk(1, 6, i)
}

fn compute_modulation(c: &LazyTensor, adaln_proj: &WeightStorage, adaln_bias: &Data, dim: usize) -> (r:
    ModulationChunks)
    requires
        6 * dim <= usize::MAX,
    ensures
        ({
            let m = modulation(c@, adaln_proj@, adaln_bias@, dim as int, 6);
            &&& r.shift_msa@ == m.chunk(1, 6, 0)
            &&& r.scale_msa@ == m.chunk(1, 6, 1)
            &&& r.gate_msa@ == m.chunk(1, 6, 2)
            &&& r.shift_mlp@ == m.chunk(1, 6, 3)
            &&& r.scale_mlp@ == m.chunk(1, 6, 4)
            &&& r.gate_mlp@ == m.chunk(1, 6, 5)
        }),
{
    let m = apply_biased(&c.silu(), adaln_proj, adaln_bias, dim, 6 * dim);
    ModulationChunks {
        shift_msa: m.chunk(1, 6, 0),
        scale_msa: m.chunk(1, 6, 1),
        gate_msa: m.chunk(1, 6, 2),
        shift_mlp: m.chunk(1, 6, 3),
        scale_mlp: m.chunk(1, 6, 4),
        gate_mlp: m.chunk(1, 6, 5),
    }
}

/// Part `i` of three of the projected tokens, by heads.
pub open spec fn head_part(qkv: Tensor, heads: int, width: int, i: int) -> Tensor {
    let dim = heads * width;
    of_rank(
        qkv,
        3,
        if qkv.dim(2) != 3 * dim {
            Tensor::invalid(Error::Shape)
        } else {
            qkv.narrow(2, i * dim, dim).split_heads(heads, width)
        },
    )
}

/// Splits `(batch, seq, 3 * dim)` into queries, keys and values, each
/// `(batch, heads, seq, width)`.
pub fn split_qkv(qkv: &LazyTensor, num_heads: usize, head_dim: usize) -> (r: (
    LazyTensor,
    LazyTensor,
    LazyTensor,
))
    requires
        3 * (num_heads * head_dim) <= usize::MAX,
    ensures
        r.0@ == head_part(qkv@, num_heads as int, head_dim as int, 0),
        r.1@ == head_part(qkv@, num_heads as int, head_dim as int, 1),
        r.2@ == head_part(qkv@, num_heads as int, head_dim as int, 2),
{
    assert(num_heads * head_dim >= 0) by (nonlinear_arith);
    if qkv.failure().is_some() {
        return (qkv.clone(), qkv.clone(), qkv.clone());
    }
    let dim: usize = num_heads * head_dim;
    if qkv.rank() != 3 || qkv.dim(2) != 3 * dim {
        let e = LazyTensor::invalid(Error::Shape);
        return (e.clone(), e.clone(), e);
    }
    (
        qkv.narrow(2, 0, dim).split_heads(num_heads, head_dim),
        qkv.narrow(2, dim, dim).split_heads(num_heads, head_dim),
        qkv.narrow(2, 2 * dim, dim).split_heads(num_heads, head_dim),
    )
}

/// Part `i` of the query, key and value projections of `x`.
pub open spec fn projected(
    x: Tensor,
    w: Seq<Scalar>,
    b: Seq<Scalar>,
    heads: int,
    width: int,
    i: int,
) -> Tensor {
    head_part(biased(x, w, b, heads * width, 3 * (heads * width)), heads, width, i)
}

fn project_qkv(
    x: &LazyTensor,
    qkv_proj: &WeightStorage,
    qkv_bias: &Data,
    num_heads: usize,
    head_dim: usize,
) -> (r: (LazyTensor, LazyTensor, LazyTensor))
    requires
        3 * (num_heads * head_dim) <= usize::MAX,
    ensures
        r.0@ == projected(x@, qkv_proj@, qkv_bias@, num_heads as int, head_dim as int, 0),
        r.1@ == projected(x@, qkv_proj@, qkv_bias@, num_heads as int, head_dim as int, 1),
        r.2@ == projected(x@, qkv_proj@, qkv_bias@, num_heads as int, head_dim as int, 2),
{
    assert(num_heads * head_dim >= 0) by (nonlinear_arith);
    let dim: usize = num_heads * head_dim;
    split_qkv(&apply_biased(x, qkv_proj, qkv_bias, dim, 3 * dim), num_heads, head_dim)
}

/// Attention by heads, the heads merged again.
pub open spec fn attended(q: Tensor, k: Tensor, v: Tensor, head_dim: usize) -> Tensor {
    full_attention(q, k, v, inv_sqrt64(head_dim)).merge_heads()
}

/// Scaled dot-product attention over `(batch, heads, seq, width)`.
pub fn attention(q: &LazyTensor, k: &LazyTensor, v: &LazyTensor, head_dim: usize) -> (r: LazyTensor)
    ensures
        r@ == attended(q@, k@, v@, head_dim),
{
    attend_full(q, k, v, &Scalar::inv_sqrt64(head_dim)).merge_heads()
}

/// `x + gate * delta` at every position.
pub open spec fn gated(x: Tensor, delta: Tensor, gate: Tensor) -> Tensor {
    of_rank(x, 3, x.add(delta.mul(along(gate, x))))
}

/// Adds `gate * delta` to `x (batch, seq, dim)`, with one gate
/// `(batch, dim)` for all positions.
pub fn gated_residual(x: &LazyTensor, delta: &LazyTensor, gate: &LazyTensor) -> (r: LazyTensor)
    ensures
        r@ == gated(x@, delta@, gate@),
{
    if x.failure().is_some() {
        return x.clone();
    }
    if x.rank() != 3 {
        return LazyTensor::invalid(Error::Shape);
    }
    x.add(&delta.mul(&spread(gate, x)))
}

/// The modulated feed-forward part, gated and added.
pub open spec fn mlp_gated(cfg: &MmDitConfig, w: &StreamWeights, c: Tensor, x: Tensor) -> Tensor {
    let d = cfg.dim as int;
    let n = modulated(
        x.layer_norm_last_dim(cfg.eps),
        modulation_at(c, w, d, 4),
        modulation_at(c, w, d, 3),
    );
    gated(
        x,
        biased(
            biased(n, w.fc1@, w.fc1_bias@, d, cfg.hidden()).gelu(),
            w.fc2@,
            w.fc2_bias@,
            cfg.hidden(),
            d,
        ),
        modulation_at(c, w, d, 5),
    )
}

fn mlp_residual(
    x: &LazyTensor,
    m: &ModulationChunks,
    fc1: &WeightStorage,
    fc1_bias: &Data,
    fc2: &WeightStorage,
    fc2_bias: &Data,
    cfg: &MmDitConfig,
) -> (r: LazyTensor)
    requires
        cfg.valid(),
    ensures
        r@ == gated(
            x@,
            biased(
                biased(
                    modulated(x@.layer_norm_last_dim(cfg.eps), m.scale_mlp@, m.shift_mlp@),
                    fc1@,
                    fc1_bias@,
                    cfg.dim as int,
                    cfg.hidden(),
                ).gelu(),
                fc2@,
                fc2_bias@,
                cfg.hidden(),
                cfg.dim as int,
            ),
            m.gate_mlp@,
        ),
{
    let mlp_hidden: usize = cfg.dim * cfg.mlp_ratio;
    let x_mod = modulate(&x.layer_norm_last_dim(&cfg.eps), &m.scale_mlp, &m.shift_mlp);
    let h1 = apply_biased(&x_mod, fc1, fc1_bias, cfg.dim, mlp_hidden).gelu();
    let h2 = apply_biased(&h1, fc2, fc2_bias, mlp_hidden, cfg.dim);
    gated_residual(x, &h2, &m.gate_mlp)
}

/// Part `i` of the projections of a modulated stream.
pub open spec fn stream_part(cfg: &MmDitConfig, w: &StreamWeights, c: Tensor, x: Tensor, i: int) -> Tensor {
    let d = cfg.dim as int;
    projected(
        modulated(
            x.layer_norm_last_dim(cfg.eps),
            modulation_at(c, w, d, 1),
            modulation_at(c, w, d, 0),
        ),
        w.qkv_proj@,
        w.qkv_bias@,
        cfg.num_heads as int,
        cfg.width(),
        i,
    )
}

/// What attention adds to a stream, then what the feed-forward part adds.
pub open spec fn stream_update(
    cfg: &MmDitConfig,
    w: &StreamWeights,
    c: Tensor,
    x: Tensor,
    attn: Tensor,
) -> Tensor {
    let d = cfg.dim as int;
    mlp_gated(
        cfg,
        w,
        c,
        gated(x, biased(attn, w.out_proj@, w.out_bias@, d, d), modulation_at(c, w, d, 2)),
    )
}

/// Attention over the text tokens followed by the image tokens.
pub open spec fn joint_attention(
    cfg: &MmDitConfig,
    tq: Tensor,
    tk: Tensor,
    tv: Tensor,
    iq: Tensor,
    ik: Tensor,
    iv: Tensor,
) -> Tensor {
    attended(tq.concat(iq, 2), tk.concat(ik, 2), tv.concat(iv, 2), cfg.width() as usize)
}

/// What a double-stream block makes of the text and the image tokens.
pub open spec fn double_stream(
    cfg: &MmDitConfig,
    w: &DoubleStreamBlockWeights,
    c: Tensor,
    txt: Tensor,
    img: Tensor,
) -> (Tensor, Tensor) {
    let tq = stream_part(cfg, &w.text, c, txt, 0);
    let iq = stream_part(cfg, &w.image, c, img, 0);
    let all = joint_attention(
        cfg,
        tq,
        stream_part(cfg, &w.text, c, txt, 1),
        stream_part(cfg, &w.text, c, txt, 2),
        iq,
        stream_part(cfg, &w.image, c, img, 1),
        stream_part(cfg, &w.image, c, img, 2),
    );
    (
        stream_update(cfg, &w.text, c, txt, all.narrow(1, 0, tq.dim(2))),
        stream_update(cfg, &w.image, c, img, all.narrow(1, tq.dim(2), iq.dim(2))),
    )
}

/// What a single-stream block makes of the concatenated tokens.
pub open spec fn single_stream(
    cfg: &MmDitConfig,
    w: &SingleStreamBlockWeights,
    c: Tensor,
    x: Tensor,
) -> Tensor {
    let s = w.stream();
    let attn = attended(
        stream_part(cfg, &s, c, x, 0),
        stream_part(cfg, &s, c, x, 1),
        stream_part(cfg, &s, c, x, 2),
        cfg.width() as usize,
    );
    stream_update(cfg, &s, c, x, attn)
}

proof fn heads_fit(cfg: &MmDitConfig)
    requires
        cfg.valid(),
    ensures
        0 <= cfg.width() <= cfg.dim,
        0 <= cfg.num_heads * cfg.width() <= cfg.dim,
{
    let n = cfg.num_heads as int;
    let d = cfg.dim as int;
    assert(0 <= d / n <= d && 0 <= n * (d / n) <= d) by (nonlinear_arith)
        requires
            n > 0,
            d >= 0,
    ;
}

fn double_streams(
    txt: &LazyTensor,
    img: &LazyTensor,
    c: &LazyTensor,
    weights: &DoubleStreamBlockWeights,
    cfg: &MmDitConfig,
) -> (r: (LazyTensor, LazyTensor))
    requires
        cfg.valid(),
    ensures
        (r.0@, r.1@) == double_stream(cfg, weights, c@, txt@, img@),
{
    proof {
        heads_fit(cfg);
    }
    let dim: usize = cfg.dim;
    let num_heads: usize = cfg.num_heads;
    let head_dim: usize = cfg.head_dim();
    let txt_mod = compute_modulation(c, &weights.text.adaln_proj, &weights.text.adaln_bias, dim);
    let img_mod = compute_modulation(c, &weights.image.adaln_proj, &weights.image.adaln_bias, dim);
    let txt_mod_x = modulate(
        &txt.layer_norm_last_dim(&cfg.eps),
        &txt_mod.scale_msa,
        &txt_mod.shift_msa,
    );
    let img_mod_x = modulate(
        &img.layer_norm_last_dim(&cfg.eps),
        &img_mod.scale_msa,
        &img_mod.shift_msa,
    );
    let (txt_q, txt_k, txt_v) = project_qkv(
        &txt_mod_x,
        &weights.text.qkv_proj,
        &weights.text.qkv_bias,
        num_heads,
        head_dim,
    );
    let (img_q, img_k, img_v) = project_qkv(
        &img_mod_x,
        &weights.image.qkv_proj,
        &weights.image.qkv_bias,
        num_heads,
        head_dim,
    );
    let s_txt: usize = txt_q.dim(2);
    let s_img: usize = img_q.dim(2);
    let attn_all = attention(
        &txt_q.concat(&img_q, 2),
        &txt_k.concat(&img_k, 2),
        &txt_v.concat(&img_v, 2),
        head_dim,
    );
    let txt_attn_out = apply_biased(
        &attn_all.narrow(1, 0, s_txt),
        &weights.text.out_proj,
        &weights.text.out_bias,
        dim,
        dim,
    );
    let img_attn_out = apply_biased(
        &attn_all.narrow(1, s_txt, s_img),
        &weights.image.out_proj,
        &weights.image.out_bias,
        dim,
        dim,
    );
    let txt_h1 = gated_residual(txt, &txt_attn_out, &txt_mod.gate_msa);
    let img_h1 = gated_residual(img, &img_attn_out, &img_mod.gate_msa);
    (
        mlp_residual(
            &txt_h1,
            &txt_mod,
            &weights.text.fc1,
            &weights.text.fc1_bias,
            &weights.text.fc2,
            &weights.text.fc2_bias,
            cfg,
        ),
        mlp_residual(
            &img_h1,
            &img_mod,
            &weights.image.fc1,
            &weights.image.fc1_bias,
            &weights.image.fc2,
            &weights.image.fc2_bias,
            cfg,
        ),
    )
}

/// Applies a double-stream block to text and image tokens `(batch, seq, dim)`.
pub fn apply_double_stream(
    txt: &LazyTensor,
    img: &LazyTensor,
    c: &LazyTensor,
    weights: &DoubleStreamBlockWeights,
    cfg: &MmDitConfig,
) -> (r: Result<(LazyTensor, LazyTensor), Error>)
    requires
        cfg.valid(),
    ensures
        outcome2(
            r,
            double_stream(cfg, weights, c@, txt@, img@).0,
            double_stream(cfg, weights, c@, txt@, img@).1,
        ),
{
    let (t, i) = double_streams(txt, img, c, weights, cfg);
    finish2(t, i)
}

fn single_streams(
    joined: &LazyTensor,
    c: &LazyTensor,
    weights: &SingleStreamBlockWeights,
    cfg: &MmDitConfig,
) -> (r: LazyTensor)
    requires
        cfg.valid(),
    ensures
        r@ == single_stream(cfg, weights, c@, joined@),
{
    proof {
        heads_fit(cfg);
    }
    let dim: usize = cfg.dim;
    let head_dim: usize = cfg.head_dim();
    let m = compute_modulation(c, &weights.adaln_proj, &weights.adaln_bias, dim);
    let x_mod = modulate(&joined.layer_norm_last_dim(&cfg.eps), &m.scale_msa, &m.shift_msa);
    let (q, k, v) = project_qkv(
        &x_mod,
        &weights.qkv_proj,
        &weights.qkv_bias,
        cfg.num_heads,
        head_dim,
    );
    let attn = attention(&q, &k, &v, head_dim);
    let attn_out = apply_biased(&attn, &weights.out_proj, &weights.out_bias, dim, dim);
    let h1 = gated_residual(joined, &attn_out, &m.gate_msa);
    mlp_residual(
        &h1,
        &m,
        &weights.fc1,
        &weights.fc1_bias,
        &weights.fc2,
        &weights.fc2_bias,
        cfg,
    )
}

/// Applies a single-stream block to the concatenated tokens `(batch, seq, dim)`.
pub fn apply_single_stream(
    joined: &LazyTensor,
    c: &LazyTensor,
    weights: &SingleStreamBlockWeights,
    cfg: &MmDitConfig,
) -> (r: Result<LazyTensor, Error>)
    requires
        cfg.valid(),
    ensures
        outcome(r, single_stream(cfg, weights, c@, joined@)),
{
    single_streams(joined, c, weights, cfg).finish()
}

/// A double-stream block with its configuration.
#[derive(Debug, Clone)]
pub struct DoubleStreamBlock {
    pub config: MmDitConfig,
    pub weights: DoubleStreamBlockWeights,
}

impl DoubleStreamBlock {
    pub fn forward(&self, txt: &LazyTensor, img: &LazyTensor, c: &LazyTensor) -> (r: Result<
        (LazyTensor, LazyTensor),
        Error,
    >)
        requires
            self.config.valid(),
        ensures
            outcome2(
                r,
                double_stream(&self.config, &self.weights, c@, txt@, img@).0,
                double_stream(&self.config, &self.weights, c@, txt@, img@).1,
            ),
    {
        apply_double_stream(txt, img, c, &self.weights, &self.config)
    }
}

/// A single-stream block with its configuration.
#[derive(Debug, Clone)]
pub struct SingleStreamBlock {
    pub config: MmDitConfig,
    pub weights: SingleStreamBlockWeights,
}

impl SingleStreamBlock {
    pub fn forward(&self, joined: &LazyTensor, c: &LazyTensor) -> (r: Result<LazyTensor, Error>)
        requires
            self.config.valid(),
        ensures
            outcome(r, single_stream(&self.config, &self.weights, c@, joined@)),
    {
        apply_single_stream(joined, c, &self.weights, &self.config)
    }
}

/// Whether `i` occurs in a list.
pub open spec fn listed(s: Seq<usize>, i: int) -> bool {
    exists|k: int| 0 <= k < s.len() && #[trigger] s[k] == i
}

/// Whether block `i` is to be left out.
pub open spec fn skipped(skips: Option<Seq<usize>>, i: int) -> bool {
    match skips {
        None => false,
        Some(s) => listed(s, i),
    }
}

/// The first `n` double-stream blocks, without those to be left out.
pub open spec fn double_streams_value(
    cfg: &MmDitConfig,
    blocks: Seq<DoubleStreamBlockWeights>,
    n: int,
    skips: Option<Seq<usize>>,
    c: Tensor,
    txt: Tensor,
    img: Tensor,
) -> (Tensor, Tensor)
    decreases n,
{
    if n <= 0 {
        (txt, img)
    } else {
        let (t, i) = double_streams_value(cfg, blocks, n - 1, skips, c, txt, img);
        if skipped(skips, n - 1) {
            (t, i)
        } else {
            double_stream(cfg, &blocks[n - 1], c, t, i)
        }
    }
}

/// The first `n` single-stream blocks.
pub open spec fn single_streams_value(
    cfg: &MmDitConfig,
    blocks: Seq<SingleStreamBlockWeights>,
    n: int,
    c: Tensor,
    x: Tensor,
) -> Tensor
    decreases n,
{
    if n <= 0 {
        x
    } else {
        single_stream(cfg, &blocks[n - 1], c, single_streams_value(cfg, blocks, n - 1, c, x))
    }
}

/// `a - b`, zero where `b` is larger.
pub open spec fn minus(a: int, b: int) -> int {
    if a < b {
        0
    } else {
        a - b
    }
}

impl MmDitModel {
    /// The image tokens after all blocks.
    pub open spec fn value(&self, img: Tensor, txt: Tensor, t: Tensor, y: Tensor) -> Tensor {
        let cfg = &self.config;
        let w = &self.weights;
        let c = conditioning(&w.conditioning, t, y, cfg.dim as int);
        let (th, ih) = double_streams_value(
            cfg,
            w.double_blocks@,
            w.double_blocks@.len() as int,
            None,
            c,
            txt,
            img,
        );
        let joined = single_streams_value(
            cfg,
            w.single_blocks@,
            w.single_blocks@.len() as int,
            c,
            th.concat(ih, 1),
        );
        if c.bad() {
            c
        } else {
            joined.narrow(1, th.dim(1), minus(joined.dim(1), th.dim(1)))
        }
    }

    /// Runs the blocks over image tokens `img (batch, s_image, dim)` and text
    /// tokens `txt (batch, s_text, dim)`, conditioned on the timesteps
    /// `(batch)` and the labels `y (batch, adm_in_channels)`. Yields the image
    /// tokens.
    pub fn forward(&self, img: &LazyTensor, txt: &LazyTensor, timestep: &LazyTensor, y: &LazyTensor) -> (r:
        Result<LazyTensor, Error>)
        requires
            self.config.valid(),
        ensures
            outcome(r, self.value(img@, txt@, timestep@, y@)),
    {
        let cfg = &self.config;
        let c = build_conditioning(&self.weights.conditioning, timestep, y, cfg.dim);
        if let Some(e) = c.failure() {
            return Err(e);
        }
        let (txt_h, img_h) = run_double_streams(
            cfg,
            &self.weights.double_blocks,
            None,
            &c,
            txt,
            img,
        );
        let s_text: usize = txt_h.dim(1);
        let mut joined = txt_h.concat(&img_h, 1);
        let ghost j0 = joined@;
        let mut i: usize = 0;
        while i < self.weights.single_blocks.len()
            invariant
                cfg == &self.config,
                cfg.valid(),
                i <= self.weights.single_blocks@.len(),
                joined@ == single_streams_value(
                    cfg,
                    self.weights.single_blocks@,
                    i as int,
                    c@,
                    j0,
                ),
            decreases self.weights.single_blocks@.len() - i,
        {
            joined = single_streams(&joined, &c, &self.weights.single_blocks[i], cfg);
            i = i + 1;
        }
        let total: usize = joined.dim(1);
        let len: usize = if total < s_text { 0 } else { total - s_text };
        joined.narrow(1, s_text, len).finish()
    }
}

/// An optional list of block numbers.
pub open spec fn skips_view(s: Option<&[usize]>) -> Option<Seq<usize>> {
    match s {
        None => None,
        Some(v) => Some(v@),
    }
}

fn is_skipped(skips: Option<&[usize]>, i: usize) -> (r: bool)
    ensures
        r == skipped(skips_view(skips), i as int),
{
    match skips {
        None => false,
        Some(s) => {
            let mut k: usize = 0;
            while k < s.len()
                invariant
                    k <= s@.len(),
                    skips_view(skips) == Some(s@),
                    forall|j: int| 0 <= j < k ==> #[trigger] s@[j] != i,
                decreases s@.len() - k,
            {
                if s[k] == i {
                    assert(s@[k as int] == i);
                    assert(listed(s@, i as int));
                    return true;
                }
                k = k + 1;
            }
            false
        },
    }
}

fn run_double_streams(
    cfg: &MmDitConfig,
    blocks: &Vec<DoubleStreamBlockWeights>,
    skips: Option<&[usize]>,
    c: &LazyTensor,
    txt: &LazyTensor,
    img: &LazyTensor,
) -> (r: (LazyTensor, LazyTensor))
    requires
        cfg.valid(),
    ensures
        (r.0@, r.1@) == double_streams_value(
            cfg,
            blocks@,
            blocks@.len() as int,
            skips_view(skips),
            c@,
            txt@,
            img@,
        ),
{
    let mut txt_h = txt.clone();
    let mut img_h = img.clone();
    let mut i: usize = 0;
    while i < blocks.len()
        invariant
            cfg.valid(),
            i <= blocks@.len(),
            (txt_h@, img_h@) == double_streams_value(
                cfg,
                blocks@,
                i as int,
                skips_view(skips),
                c@,
                txt@,
                img@,
            ),
        decreases blocks@.len() - i,
    {
        if !is_skipped(skips, i) {
            let (t, m) = double_streams(&txt_h, &img_h, c, &blocks[i], cfg);
            txt_h = t;
            img_h = m;
        }
        i = i + 1;
    }
    (txt_h, img_h)
}

/// The whole diffusion model: patch embedding, position embedding, context
/// embedding, joint blocks, final layer and reassembly of the patches.
#[derive(Debug, Clone)]
pub struct MmDitFullConfig {
    pub patch_size: usize,
    /// Latent channels in.
    pub in_channels: usize,
    /// Latent channels out.
    pub out_channels: usize,
    /// Joint blocks; in the last one the context only contributes to attention.
    pub depth: usize,
    /// Width of a head.
    pub head_size: usize,
    /// Width of the label.
    pub adm_in_channels: usize,
    /// Side of the grid of learned position embeddings, in patches.
    pub pos_embed_max_size: usize,
    /// Width of the context tokens.
    pub context_embed_size: usize,
    /// Number of timestep features.
    pub frequency_embedding_size: usize,
    /// Normalisation constant of the blocks.
    pub eps: Scalar,
}

impl MmDitFullConfig {
    /// Width of both streams.
    pub open spec fn dim(&self) -> int {
        self.head_size * self.depth
    }

    /// Elements of one output patch.
    pub open spec fn patch_len(&self) -> int {
        self.patch_size * self.patch_size * self.out_channels
    }

    /// There are blocks and patches, and the widths can be counted.
    pub open spec fn valid(&self) -> bool {
        &&& self.depth > 0
        &&& self.patch_size > 0
        &&& 6 * self.dim() <= usize::MAX
        &&& self.patch_size * self.patch_size <= usize::MAX
        &&& self.patch_len() <= usize::MAX
    }

    /// The stored tensors can be counted.
    pub open spec fn loadable(&self) -> bool {
        let d = self.dim();
        &&& 6 * d <= usize::MAX
        &&& 6 * d * d <= usize::MAX
        &&& d * self.in_channels <= usize::MAX
        &&& d * self.in_channels * self.patch_size <= usize::MAX
        &&& d * self.in_channels * self.patch_size * self.patch_size <= usize::MAX
        &&& self.pos_embed_max_size * self.pos_embed_max_size <= usize::MAX
        &&& self.pos_embed_max_size * self.pos_embed_max_size * d <= usize::MAX
        &&& d * self.context_embed_size <= usize::MAX
        &&& d * self.frequency_embedding_size <= usize::MAX
        &&& d * self.adm_in_channels <= usize::MAX
        &&& self.patch_size * self.patch_size <= usize::MAX
        &&& self.patch_len() <= usize::MAX
        &&& self.patch_len() * d <= usize::MAX
    }

    /// The configuration of the joint blocks.
    pub open spec fn inner(&self) -> MmDitConfig {
        MmDitConfig {
            dim: self.dim() as usize,
            num_heads: self.depth,
            depth_double: minus(self.depth as int, 1) as usize,
            depth_single: 0,
            mlp_ratio: 4,
            eps: self.eps,
        }
    }

    /// Width of both streams: one head for each block.
    pub fn hidden_size(&self) -> (r: usize)
        requires
            self.dim() <= usize::MAX,
        ensures
            r == self.dim(),
    {
        self.head_size * self.depth
    }

    /// Number of heads.
    pub fn num_heads(&self) -> (r: usize)
        ensures
            r == self.depth,
    {
        self.depth
    }

    fn preset(depth: usize, pos_embed_max_size: usize) -> (r: Self)
        ensures
            r == sd3_config(depth, pos_embed_max_size),
    {
        MmDitFullConfig {
            patch_size: 2,
            in_channels: 16,
            out_channels: 16,
            depth,
            head_size: 64,
            adm_in_channels: 2048,
            pos_embed_max_size,
            context_embed_size: 4096,
            frequency_embedding_size: 256,
            eps: Scalar::F64(0x3EB0_C6F7_A0B5_ED8D),
        }
    }

    /// Stable Diffusion 3 medium: 24 blocks, width 1536.
    pub fn sd3_medium() -> (r: Self)
        ensures
            r == sd3_config(24, 192),
            r.valid(),
            r.loadable(),
    {
        proof {
            sd3_fits(24, 192);
        }
        MmDitFullConfig::preset(24, 192)
    }

    /// Stable Diffusion 3.5 large: 38 blocks, width 2432.
    pub fn sd3_5_large() -> (r: Self)
        ensures
            r == sd3_config(38, 192),
            r.valid(),
            r.loadable(),
    {
        proof {
            sd3_fits(38, 192);
        }
        MmDitFullConfig::preset(38, 192)
    }

    /// Stable Diffusion 3.5 medium: 24 blocks and a larger position grid.
    pub fn sd3_5_medium() -> (r: Self)
        ensures
            r == sd3_config(24, 384),
            r.valid(),
            r.loadable(),
    {
        proof {
            sd3_fits(24, 384);
        }
        MmDitFullConfig::preset(24, 384)
    }

    /// The configuration of the joint blocks before the last one.
    pub fn inner_config(&self) -> (r: MmDitConfig)
        requires
            self.dim() <= usize::MAX,
        ensures
            r == self.inner(),
    {
        MmDitConfig {
            dim: self.hidden_size(),
            num_heads: self.num_heads(),
            depth_double: if self.depth == 0 {
                0
            } else {
                self.depth - 1
            },
            depth_single: 0,
            mlp_ratio: 4,
            eps: self.eps.clone(),
        }
    }
}

/// The sizes that the Stable Diffusion 3 variants share.
pub open spec fn sd3_config(depth: usize, pos_embed_max_size: usize) -> MmDitFullConfig {
    MmDitFullConfig {
        patch_size: 2,
        in_channels: 16,
        out_channels: 16,
        depth,
        head_size: 64,
        adm_in_channels: 2048,
        pos_embed_max_size,
        context_embed_size: 4096,
        frequency_embedding_size: 256,
        eps: Scalar::F64(0x3EB0_C6F7_A0B5_ED8D),
    }
}

proof fn sd3_fits(depth: usize, side: usize)
    requires
        0 < depth <= 38,
        side <= 384,
    ensures
        sd3_config(depth, side).valid(),
        sd3_config(depth, side).loadable(),
{
    let d = sd3_config(depth, side).dim();
    let n = side as int;
    assert(d == 64 * depth);
    assert(0 <= n * n <= 147_456) by (nonlinear_arith)
        requires
            0 <= n <= 384,
    ;
    assert(n * n * d <= 358_612_992) by (nonlinear_arith)
        requires
            0 <= n * n <= 147_456,
            0 <= d <= 2432,
    ;
    assert(6 * d * d <= 35_487_744) by (nonlinear_arith)
        requires
            0 <= d <= 2432,
    ;
}

/// Convolution from patches to tokens.
#[derive(Debug, Clone)]
pub struct PatchEmbedderWeights {
    /// `[dim, in_channels, patch_size, patch_size]`.
    pub proj_weight: WeightStorage,
    /// `[dim]`.
    pub proj_bias: Data,
}

/// Linear map from context tokens to the model width.
#[derive(Debug, Clone)]
pub struct ContextEmbedderWeights {
    pub weight: WeightStorage,
    pub bias: Data,
}

/// Modulation (shift, scale) and projection to patches.
#[derive(Debug, Clone)]
pub struct FinalLayerWeights {
    /// `[dim, 2 * dim]`.
    pub adaln_proj: WeightStorage,
    pub adaln_bias: Data,
    /// `[dim, patch_size^2 * out_channels]`.
    pub linear: WeightStorage,
    pub linear_bias: Data,
}

/// The last joint block.
#[derive(Debug, Clone)]
pub struct ContextQkvOnlyBlockWeights {
    pub image: StreamWeights,
    pub context: ContextQkvOnlyContextWeights,
}

/// The context side of the last joint block.
#[derive(Debug, Clone)]
pub struct ContextQkvOnlyContextWeights {
    /// `[dim, 2 * dim]`.
    pub adaln_proj: WeightStorage,
    pub adaln_bias: Data,
    /// `[dim, 3 * dim]`.
    pub qkv_proj: WeightStorage,
    pub qkv_bias: Data,
}

#[derive(Debug, Clone)]
pub struct MmDitFullWeights {
    pub patch_embedder: PatchEmbedderWeights,
    /// `[1, pos_embed_max_size^2, dim]`, row by row.
    pub pos_embed: Data,
    pub context_embedder: ContextEmbedderWeights,
    pub conditioning: ConditioningWeights,
    /// The joint blocks before the last one.
    pub joint_blocks: Vec<DoubleStreamBlockWeights>,
    pub final_block: ContextQkvOnlyBlockWeights,
    pub final_layer: FinalLayerWeights,
}

#[derive(Debug, Clone)]
pub struct MmDitFullModel {
    pub config: MmDitFullConfig,
    pub weights: MmDitFullWeights,
}

/// The tokens `(batch, patches, dim)` of the latent `x`.
pub open spec fn patch_tokens(
    x: Tensor,
    w: &PatchEmbedderWeights,
    patch: int,
    c_in: int,
    dim: int,
) -> Tensor {
    let y = x.conv2d(Tensor::constant(w.proj_weight@, seq![dim, c_in, patch, patch]), patch, 0, 1)
        .broadcast_add(Tensor::constant(w.proj_bias@, seq![dim]).reshape(seq![1, dim, 1, 1]));
    if y.dim(2) * y.dim(3) > usize::MAX {
        Tensor::invalid(Error::Shape)
    } else {
        of_rank(
            y,
            4,
            y.reshape(seq![y.dim(0), y.dim(1), y.dim(2) * y.dim(3)]).transpose_dims(1, 2),
        )
    }
}

fn patch_embed(
    x: &LazyTensor,
    weights: &PatchEmbedderWeights,
    patch_size: usize,
    in_channels: usize,
    hidden: usize,
) -> (r: LazyTensor)
    ensures
        r@ == patch_tokens(x@, weights, patch_size as int, in_channels as int, hidden as int),
{
    let w_t = LazyTensor::const4(
        weights.proj_weight.data(),
        hidden,
        in_channels,
        patch_size,
        patch_size,
    );
    let bias_t = LazyTensor::const1(&weights.proj_bias, hidden).reshape4(1, hidden, 1, 1);
    let y = x.conv2d(&w_t, patch_size, 0, 1).broadcast_add(&bias_t);
    match y.dim(2).checked_mul(y.dim(3)) {
        None => LazyTensor::invalid(Error::Shape),
        Some(s) => {
            if y.failure().is_some() {
                return y;
            }
            if y.rank() != 4 {
                return LazyTensor::invalid(Error::Shape);
            }
            y.reshape3(y.dim(0), y.dim(1), s).transpose_dims(1, 2)
        },
    }
}

/// Patches along an axis of `n` latent positions.
pub open spec fn patches(n: int, patch: int) -> int {
    (n + 1) / patch
}

/// The centre of the position grid that covers `h` by `w` patches, as
/// `(1, h * w, dim)`.
pub open spec fn position_crop(pos: Seq<Scalar>, side: int, dim: int, h: int, w: int) -> Tensor {
    if h > side || w > side || pos.len() != side * side * dim || h * w > usize::MAX {
        Tensor::invalid(Error::Shape)
    } else {
        Tensor::constant(pos, seq![1, side, side, dim]).narrow(1, (side - h) / 2, h).narrow(
            2,
            (side - w) / 2,
            w,
        ).reshape(seq![1, h * w, dim])
    }
}

fn cropped_pos_embed(pos_embed: &Data, side: usize, hidden: usize, h: usize, w: usize) -> (r: LazyTensor)
    ensures
        r@ == position_crop(pos_embed@, side as int, hidden as int, h as int, w as int),
{
    if h > side || w > side || !kernel_has_len(pos_embed.len(), side, side, hidden) {
        return LazyTensor::invalid(Error::Shape);
    }
    match h.checked_mul(w) {
        None => LazyTensor::invalid(Error::Shape),
        Some(n) => {
            let top: usize = (side - h) / 2;
            let left: usize = (side - w) / 2;
            LazyTensor::const4(pos_embed, 1, side, side, hidden).narrow(1, top, h).narrow(
                2,
                left,
                w,
            ).reshape3(1, n, hidden)
        },
    }
}

/// Part `i` of the projections of the context in the last block.
pub open spec fn context_part(
    cfg: &MmDitConfig,
    w: &ContextQkvOnlyContextWeights,
    c: Tensor,
    txt: Tensor,
    i: int,
) -> Tensor {
    let d = cfg.dim as int;
    let m = modulation(c, w.adaln_proj@, w.adaln_bias@, d, 2);
    projected(
        modulated(txt.layer_norm_last_dim(cfg.eps), m.chunk(1, 2, 1), m.chunk(1, 2, 0)),
        w.qkv_proj@,
        w.qkv_bias@,
        cfg.num_heads as int,
        cfg.width(),
        i,
    )
}

/// What the last joint block makes of the image tokens.
pub open spec fn last_joint(
    cfg: &MmDitConfig,
    w: &ContextQkvOnlyBlockWeights,
    c: Tensor,
    txt: Tensor,
    img: Tensor,
) -> Tensor {
    let tq = context_part(cfg, &w.context, c, txt, 0);
    let iq = stream_part(cfg, &w.image, c, img, 0);
    let all = joint_attention(
        cfg,
        tq,
        context_part(cfg, &w.context, c, txt, 1),
        context_part(cfg, &w.context, c, txt, 2),
        iq,
        stream_part(cfg, &w.image, c, img, 1),
        stream_part(cfg, &w.image, c, img, 2),
    );
    stream_update(cfg, &w.image, c, img, all.narrow(1, tq.dim(2), iq.dim(2)))
}

fn apply_context_qkv_only_joint(
    txt: &LazyTensor,
    img: &LazyTensor,
    c: &LazyTensor,
    weights: &ContextQkvOnlyBlockWeights,
    cfg: &MmDitConfig,
) -> (r: LazyTensor)
    requires
        cfg.valid(),
    ensures
        r@ == last_joint(cfg, weights, c@, txt@, img@),
{
    proof {
        heads_fit(cfg);
    }
    let dim: usize = cfg.dim;
    let num_heads: usize = cfg.num_heads;
    let head_dim: usize = cfg.head_dim();
    let img_mod = compute_modulation(c, &weights.image.adaln_proj, &weights.image.adaln_bias, dim);
    let img_mod_x = modulate(
        &img.layer_norm_last_dim(&cfg.eps),
        &img_mod.scale_msa,
        &img_mod.shift_msa,
    );
    let (img_q, img_k, img_v) = project_qkv(
        &img_mod_x,
        &weights.image.qkv_proj,
        &weights.image.qkv_bias,
        num_heads,
        head_dim,
    );
    let m = apply_biased(
        &c.silu(),
        &weights.context.adaln_proj,
        &weights.context.adaln_bias,
        dim,
        2 * dim,
    );
    let txt_mod_x = modulate(
        &txt.layer_norm_last_dim(&cfg.eps),
        &m.chunk(1, 2, 1),
        &m.chunk(1, 2, 0),
    );
    let (txt_q, txt_k, txt_v) = project_qkv(
        &txt_mod_x,
        &weights.context.qkv_proj,
        &weights.context.qkv_bias,
        num_heads,
        head_dim,
    );
    let s_txt: usize = txt_q.dim(2);
    let s_img: usize = img_q.dim(2);
    let attn_all = attention(
        &txt_q.concat(&img_q, 2),
        &txt_k.concat(&img_k, 2),
        &txt_v.concat(&img_v, 2),
        head_dim,
    );
    let img_attn_out = apply_biased(
        &attn_all.narrow(1, s_txt, s_img),
        &weights.image.out_proj,
        &weights.image.out_bias,
        dim,
        dim,
    );
    let img_h1 = gated_residual(img, &img_attn_out, &img_mod.gate_msa);
    mlp_residual(
        &img_h1,
        &img_mod,
        &weights.image.fc1,
        &weights.image.fc1_bias,
        &weights.image.fc2,
        &weights.image.fc2_bias,
        cfg,
    )
}

/// The final layer: modulation, then one patch for each token.
pub open spec fn final_tokens(x: Tensor, c: Tensor, w: &FinalLayerWeights, dim: int, patch_len: int) -> Tensor {
    let m = modulation(c, w.adaln_proj@, w.adaln_bias@, dim, 2);
    biased(
        modulated(
            x.layer_norm_last_dim(Scalar::F64(0x3EB0_C6F7_A0B5_ED8D)),
            m.chunk(1, 2, 1),
            m.chunk(1, 2, 0),
        ),
        w.linear@,
        w.linear_bias@,
        dim,
        patch_len,
    )
}

fn apply_final_layer(
    x: &LazyTensor,
    c: &LazyTensor,
    weights: &FinalLayerWeights,
    hidden: usize,
    patch_len: usize,
) -> (r: LazyTensor)
    requires
        2 * hidden <= usize::MAX,
    ensures
        r@ == final_tokens(x@, c@, weights, hidden as int, patch_len as int),
{
    let m = apply_biased(&c.silu(), &weights.adaln_proj, &weights.adaln_bias, hidden, 2 * hidden);
    let x_norm = x.layer_norm_last_dim(&Scalar::F64(0x3EB0_C6F7_A0B5_ED8D));
    let x_mod = modulate(&x_norm, &m.chunk(1, 2, 1), &m.chunk(1, 2, 0));
    apply_biased(&x_mod, &weights.linear, &weights.linear_bias, hidden, patch_len)
}

/// The image `(batch, c_out, h * patch, w * patch)` that the patches
/// `(batch, h * w, patch^2 * c_out)` make up.
pub open spec fn reassembled(x: Tensor, patch: int, c_out: int, h: int, w: int) -> Tensor {
    of_rank(
        x,
        3,
        if x.dim(1) != h * w || x.dim(2) != patch * patch * c_out {
            Tensor::invalid(Error::Shape)
        } else {
            x.reshape(seq![x.dim(0), h, w, patch, patch, c_out]).permute(
                seq![0, 5, 1, 3, 2, 4],
            ).reshape(seq![x.dim(0), c_out, patch * h, patch * w])
        },
    )
}

/// Puts the patches `(batch, s, patch^2 * out_channels)` of a latent of
/// `h_lat` by `w_lat` positions back in place.
pub fn unpatchify(x: &LazyTensor, patch_size: usize, out_channels: usize, h_lat: usize, w_lat: usize) -> (r:
    LazyTensor)
    requires
        patch_size > 0,
        h_lat < usize::MAX,
        w_lat < usize::MAX,
    ensures
        r@ == reassembled(
            x@,
            patch_size as int,
            out_channels as int,
            patches(h_lat as int, patch_size as int),
            patches(w_lat as int, patch_size as int),
        ),
{
    let h_patch: usize = (h_lat + 1) / patch_size;
    let w_patch: usize = (w_lat + 1) / patch_size;
    if x.failure().is_some() {
        return x.clone();
    }
    if x.rank() != 3 {
        return LazyTensor::invalid(Error::Shape);
    }
    if !kernel_has_len(x.dim(1), h_patch, w_patch, 1) || !kernel_has_len(
        x.dim(2),
        patch_size,
        patch_size,
        out_channels,
    ) {
        assert(h_patch * w_patch * 1 == h_patch * w_patch);
        return LazyTensor::invalid(Error::Shape);
    }
    assert(patch_size * h_patch <= h_lat + 1 && patch_size * w_patch <= w_lat + 1) by (nonlinear_arith)
        requires
            patch_size > 0,
            h_patch == (h_lat + 1) / patch_size as int,
            w_patch == (w_lat + 1) / patch_size as int,
    ;
    let b: usize = x.dim(0);
    x.reshape6(b, h_patch, w_patch, patch_size, patch_size, out_channels).permute6(
        0,
        5,
        1,
        3,
        2,
        4,
    ).reshape4(b, out_channels, patch_size * h_patch, patch_size * w_patch)
}

impl MmDitFullModel {
    /// The tokens of the latent, with their positions.
    pub open spec fn image_tokens(&self, x: Tensor) -> Tensor {
        let cfg = &self.config;
        let p = cfg.patch_size as int;
        patch_tokens(
            x,
            &self.weights.patch_embedder,
            p,
            cfg.in_channels as int,
            cfg.dim(),
        ).broadcast_add(
            position_crop(
                self.weights.pos_embed@,
                cfg.pos_embed_max_size as int,
                cfg.dim(),
                patches(x.dim(2), p),
                patches(x.dim(3), p),
            ),
        )
    }

    /// The context tokens at the model width.
    pub open spec fn context_tokens(&self, context: Tensor) -> Tensor {
        let cfg = &self.config;
        of_rank(
            context,
            3,
            biased(
                context,
                self.weights.context_embedder.weight@,
                self.weights.context_embedder.bias@,
                cfg.context_embed_size as int,
                cfg.dim(),
            ),
        )
    }

    /// The image tokens after all joint blocks but those to be left out.
    pub open spec fn joint(&self, img: Tensor, txt: Tensor, c: Tensor, skips: Option<Seq<usize>>) -> Tensor {
        let inner = self.config.inner();
        let (th, ih) = double_streams_value(
            &inner,
            self.weights.joint_blocks@,
            self.weights.joint_blocks@.len() as int,
            skips,
            c,
            txt,
            img,
        );
        last_joint(&inner, &self.weights.final_block, c, th, ih)
    }

    /// The predicted noise.
    pub open spec fn value(
        &self,
        x: Tensor,
        t: Tensor,
        y: Tensor,
        context: Tensor,
        skips: Option<Seq<usize>>,
    ) -> Tensor {
        let cfg = &self.config;
        let p = cfg.patch_size as int;
        let img = self.image_tokens(x);
        let c = conditioning(&self.weights.conditioning, t, y, cfg.dim());
        let txt = self.context_tokens(context);
        if x.rank() != 4 || x.dim(1) != cfg.in_channels {
            Tensor::invalid(Error::InputShape)
        } else if img.bad() {
            img
        } else if c.bad() {
            c
        } else if txt.bad() {
            txt
        } else {
            reassembled(
                final_tokens(
                    self.joint(img, txt, c, skips),
                    c,
                    &self.weights.final_layer,
                    cfg.dim(),
                    cfg.patch_len(),
                ),
                p,
                cfg.out_channels as int,
                patches(x.dim(2), p),
                patches(x.dim(3), p),
            ).narrow(2, 0, x.dim(2)).narrow(3, 0, x.dim(3))
        }
    }

    /// Predicts the noise `(batch, out_channels, h, w)` of the latent
    /// `x (batch, in_channels, h, w)` at the timesteps `t (batch)`, given the
    /// labels `y (batch, adm_in_channels)` and the context
    /// `(batch, seq, context_embed_size)`.
    ///
    /// The blocks numbered in `skip_layers` are left out; the last joint block
    /// never is.
    pub fn forward(
        &self,
        x: &LazyTensor,
        t: &LazyTensor,
        y: &LazyTensor,
        context: &LazyTensor,
        skip_layers: Option<&[usize]>,
    ) -> (r: Result<LazyTensor, Error>)
        requires
            self.config.valid(),
            x@.dim(2) < usize::MAX,
            x@.dim(3) < usize::MAX,
        ensures
            outcome(r, self.value(x@, t@, y@, context@, skips_view(skip_layers))),
    {
        let cfg = &self.config;
        let w = &self.weights;
        proof {
            inner_is_valid(cfg);
        }
        let hidden: usize = cfg.hidden_size();
        let inner_cfg = cfg.inner_config();
        if x.rank() != 4 || x.dim(1) != cfg.in_channels {
            return Err(Error::InputShape);
        }
        let h_lat: usize = x.dim(2);
        let w_lat: usize = x.dim(3);
        let h_patch: usize = (h_lat + 1) / cfg.patch_size;
        let w_patch: usize = (w_lat + 1) / cfg.patch_size;

        let img_seq = patch_embed(
            x,
            &w.patch_embedder,
            cfg.patch_size,
            cfg.in_channels,
            hidden,
        ).broadcast_add(
            &cropped_pos_embed(&w.pos_embed, cfg.pos_embed_max_size, hidden, h_patch, w_patch),
        );
        if let Some(e) = img_seq.failure() {
            return Err(e);
        }
        let c = build_conditioning(&w.conditioning, t, y, hidden);
        if let Some(e) = c.failure() {
            return Err(e);
        }
        if let Some(e) = context.failure() {
            return Err(e);
        }
        if context.rank() != 3 {
            return Err(Error::Shape);
        }
        let ctx_proj = apply_biased(
            context,
            &w.context_embedder.weight,
            &w.context_embedder.bias,
            cfg.context_embed_size,
            hidden,
        );
        if let Some(e) = ctx_proj.failure() {
            return Err(e);
        }
        let (txt_h, img_h) = run_double_streams(
            &inner_cfg,
            &w.joint_blocks,
            skip_layers,
            &c,
            &ctx_proj,
            &img_seq,
        );
        let img_h = apply_context_qkv_only_joint(&txt_h, &img_h, &c, &w.final_block, &inner_cfg);
        let patch_len: usize = cfg.patch_size * cfg.patch_size * cfg.out_channels;
        let out_seq = apply_final_layer(&img_h, &c, &w.final_layer, hidden, patch_len);
        let unpatch = unpatchify(&out_seq, cfg.patch_size, cfg.out_channels, h_lat, w_lat);
        unpatch.narrow(2, 0, h_lat).narrow(3, 0, w_lat).finish()
    }
}

proof fn inner_is_valid(cfg: &MmDitFullConfig)
    requires
        cfg.valid(),
    ensures
        cfg.inner().valid(),
        0 <= cfg.dim() <= usize::MAX,
{
    assert(cfg.dim() >= 0) by (nonlinear_arith)
        requires
            cfg.dim() == cfg.head_size * cfg.depth,
    ;
}

/// Leaving out no block is the same as not asking for any to be left out.
pub proof fn empty_skip_list_changes_nothing(
    m: &MmDitFullModel,
    x: Tensor,
    t: Tensor,
    y: Tensor,
    context: Tensor,
)
    ensures
        m.value(x, t, y, context, Some(seq![])) == m.value(x, t, y, context, None),
{
    let c = conditioning(&m.weights.conditioning, t, y, m.config.dim());
    no_skips(
        &m.config.inner(),
        m.weights.joint_blocks@,
        m.weights.joint_blocks@.len() as int,
        c,
        m.context_tokens(context),
        m.image_tokens(x),
    );
}

proof fn no_skips(
    cfg: &MmDitConfig,
    blocks: Seq<DoubleStreamBlockWeights>,
    n: int,
    c: Tensor,
    txt: Tensor,
    img: Tensor,
)
    ensures
        double_streams_value(cfg, blocks, n, Some(seq![]), c, txt, img) == double_streams_value(
            cfg,
            blocks,
            n,
            None,
            c,
            txt,
            img,
        ),
    decreases n,
{
    if n > 0 {
        no_skips(cfg, blocks, n - 1, c, txt, img);
    }
}

/// The first `n` blocks but those on the list.
pub open spec fn unlisted(
    blocks: Seq<DoubleStreamBlockWeights>,
    n: int,
    skips: Seq<usize>,
) -> Seq<DoubleStreamBlockWeights>
    decreases n,
{
    if n <= 0 {
        seq![]
    } else {
        let before = unlisted(blocks, n - 1, skips);
        if listed(skips, n - 1) {
            before
        } else {
            before.push(blocks[n - 1])
        }
    }
}

/// The first `n` blocks alone count for the first `n` blocks.
proof fn first_blocks_count(
    cfg: &MmDitConfig,
    a: Seq<DoubleStreamBlockWeights>,
    b: Seq<DoubleStreamBlockWeights>,
    n: int,
    c: Tensor,
    txt: Tensor,
    img: Tensor,
)
    requires
        n <= a.len(),
        n <= b.len(),
        forall|k: int| 0 <= k < n ==> a[k] == b[k],
    ensures
        double_streams_value(cfg, a, n, None, c, txt, img) == double_streams_value(
            cfg,
            b,
            n,
            None,
            c,
            txt,
            img,
        ),
    decreases n,
{
    if n > 0 {
        first_blocks_count(cfg, a, b, n - 1, c, txt, img);
        assert(a[n - 1] == b[n - 1]);
    }
}

proof fn listed_blocks_drop_out(
    cfg: &MmDitConfig,
    blocks: Seq<DoubleStreamBlockWeights>,
    n: int,
    skips: Seq<usize>,
    c: Tensor,
    txt: Tensor,
    img: Tensor,
)
    requires
        0 <= n <= blocks.len(),
    ensures
        double_streams_value(cfg, blocks, n, Some(skips), c, txt, img) == double_streams_value(
            cfg,
            unlisted(blocks, n, skips),
            unlisted(blocks, n, skips).len() as int,
            None,
            c,
            txt,
            img,
        ),
    decreases n,
{
    if n > 0 {
        listed_blocks_drop_out(cfg, blocks, n - 1, skips, c, txt, img);
        let before = unlisted(blocks, n - 1, skips);
        if !listed(skips, n - 1) {
            first_blocks_count(cfg, before, before.push(blocks[n - 1]), before.len() as int, c, txt, img);
        }
    }
}

/// Leaving out the blocks on a list is running the model that does not have
/// them.
pub proof fn skipping_is_leaving_out(
    m: &MmDitFullModel,
    rest: &MmDitFullModel,
    x: Tensor,
    t: Tensor,
    y: Tensor,
    context: Tensor,
    skips: Seq<usize>,
)
    requires
        rest.config == m.config,
        rest.weights.patch_embedder == m.weights.patch_embedder,
        rest.weights.pos_embed == m.weights.pos_embed,
        rest.weights.context_embedder == m.weights.context_embedder,
        rest.weights.conditioning == m.weights.conditioning,
        rest.weights.joint_blocks@ == unlisted(
            m.weights.joint_blocks@,
            m.weights.joint_blocks@.len() as int,
            skips,
        ),
        rest.weights.final_block == m.weights.final_block,
        rest.weights.final_layer == m.weights.final_layer,
    ensures
        m.value(x, t, y, context, Some(skips)) == rest.value(x, t, y, context, None),
{
    let c = conditioning(&m.weights.conditioning, t, y, m.config.dim());
    listed_blocks_drop_out(
        &m.config.inner(),
        m.weights.joint_blocks@,
        m.weights.joint_blocks@.len() as int,
        skips,
        c,
        m.context_tokens(context),
        m.image_tokens(x),
    );
}

/// The failure, after an earlier one, to load a matrix and its bias. The bias
/// may have any length.
pub open spec fn linear_need(
    st: &Checkpoint,
    e: Option<Fault>,
    p: Seq<char>,
    fan_out: int,
    fan_in: int,
) -> Option<Fault> {
    st.need(st.need_len(e, p + ".weight"@, fan_out * fan_in), p + ".bias"@)
}

/// Whether `w` and `b` are a matrix of the checkpoint and its bias.
pub open spec fn linear_loaded(
    st: &Checkpoint,
    p: Seq<char>,
    fan_out: int,
    fan_in: int,
    w: Seq<Scalar>,
    b: Seq<Scalar>,
) -> bool {
    w == loaded_matrix(st, p + ".weight"@, fan_out, fan_in) && b == st.data(p + ".bias"@)
}

fn load_linear(ld: &mut Loader, prefix: &str, fan_out: usize, fan_in: usize) -> (r: (WeightStorage, Data))
    requires
        fan_out * fan_in <= usize::MAX,
    ensures
        final(ld).st == old(ld).st,
        final(ld).fault() == linear_need(
            old(ld).st,
            old(ld).fault(),
            prefix@,
            fan_out as int,
            fan_in as int,
        ),
        linear_loaded(old(ld).st, prefix@, fan_out as int, fan_in as int, r.0@, r.1@),
{
    let w = ld.take_matrix(join(prefix, ".weight").as_str(), fan_out, fan_in);
    let b = ld.take(join(prefix, ".bias").as_str());
    (WeightStorage::F32(w), b)
}

/// The failure, after an earlier one, to load the stream `p`.
pub open spec fn stream_need(
    st: &Checkpoint,
    e: Option<Fault>,
    p: Seq<char>,
    dim: int,
    hidden: int,
) -> Option<Fault> {
    let e = linear_need(st, e, p + ".adaLN_modulation.1"@, 6 * dim, dim);
    let e = linear_need(st, e, p + ".attn.qkv"@, 3 * dim, dim);
    let e = linear_need(st, e, p + ".attn.proj"@, dim, dim);
    let e = linear_need(st, e, p + ".mlp.fc1"@, hidden, dim);
    linear_need(st, e, p + ".mlp.fc2"@, dim, hidden)
}

/// Whether `w` is the stream `p` of the checkpoint.
pub open spec fn stream_loaded(
    st: &Checkpoint,
    p: Seq<char>,
    dim: int,
    hidden: int,
    w: &StreamWeights,
) -> bool {
    &&& linear_loaded(st, p + ".adaLN_modulation.1"@, 6 * dim, dim, w.adaln_proj@, w.adaln_bias@)
    &&& linear_loaded(st, p + ".attn.qkv"@, 3 * dim, dim, w.qkv_proj@, w.qkv_bias@)
    &&& linear_loaded(st, p + ".attn.proj"@, dim, dim, w.out_proj@, w.out_bias@)
    &&& linear_loaded(st, p + ".mlp.fc1"@, hidden, dim, w.fc1@, w.fc1_bias@)
    &&& linear_loaded(st, p + ".mlp.fc2"@, dim, hidden, w.fc2@, w.fc2_bias@)
}

/// The matrices of a stream can be counted.
pub open spec fn stream_countable(dim: int, hidden: int) -> bool {
    &&& 6 * dim <= usize::MAX
    &&& 6 * dim * dim <= usize::MAX
    &&& hidden * dim <= usize::MAX
}

proof fn stream_counts(dim: int, hidden: int)
    requires
        stream_countable(dim, hidden),
        dim >= 0,
    ensures
        3 * dim * dim <= usize::MAX,
        2 * dim * dim <= usize::MAX,
        dim * dim <= usize::MAX,
        dim * hidden <= usize::MAX,
{
    assert(3 * dim * dim <= 6 * dim * dim && 2 * dim * dim <= 6 * dim * dim && dim * dim <= 6 * dim * dim
        && dim * hidden == hidden * dim) by (nonlinear_arith)
        requires
            dim >= 0,
    ;
}

fn load_stream_weights(ld: &mut Loader, prefix: &str, dim: usize, mlp_hidden: usize) -> (r: StreamWeights)
    requires
        stream_countable(dim as int, mlp_hidden as int),
    ensures
        final(ld).st == old(ld).st,
        final(ld).fault() == stream_need(
            old(ld).st,
            old(ld).fault(),
            prefix@,
            dim as int,
            mlp_hidden as int,
        ),
        stream_loaded(old(ld).st, prefix@, dim as int, mlp_hidden as int, &r),
{
    proof {
        stream_counts(dim as int, mlp_hidden as int);
    }
    let (adaln_proj, adaln_bias) = load_linear(
        ld,
        join(prefix, ".adaLN_modulation.1").as_str(),
        6 * dim,
        dim,
    );
    let (qkv_proj, qkv_bias) = load_linear(ld, join(prefix, ".attn.qkv").as_str(), 3 * dim, dim);
    let (out_proj, out_bias) = load_linear(ld, join(prefix, ".attn.proj").as_str(), dim, dim);
    let (fc1, fc1_bias) = load_linear(ld, join(prefix, ".mlp.fc1").as_str(), mlp_hidden, dim);
    let (fc2, fc2_bias) = load_linear(ld, join(prefix, ".mlp.fc2").as_str(), dim, mlp_hidden);
    StreamWeights {
        adaln_proj,
        adaln_bias,
        qkv_proj,
        qkv_bias,
        out_proj,
        out_bias,
        fc1,
        fc1_bias,
        fc2,
        fc2_bias,
    }
}

fn load_single_stream_weights(ld: &mut Loader, prefix: &str, dim: usize, mlp_hidden: usize) -> (r:
    SingleStreamBlockWeights)
    requires
        stream_countable(dim as int, mlp_hidden as int),
    ensures
        final(ld).st == old(ld).st,
        final(ld).fault() == stream_need(
            old(ld).st,
            old(ld).fault(),
            prefix@,
            dim as int,
            mlp_hidden as int,
        ),
        stream_loaded(old(ld).st, prefix@, dim as int, mlp_hidden as int, &r.stream()),
{
    let s = load_stream_weights(ld, prefix, dim, mlp_hidden);
    SingleStreamBlockWeights {
        adaln_proj: s.adaln_proj,
        adaln_bias: s.adaln_bias,
        qkv_proj: s.qkv_proj,
        qkv_bias: s.qkv_bias,
        out_proj: s.out_proj,
        out_bias: s.out_bias,
        fc1: s.fc1,
        fc1_bias: s.fc1_bias,
        fc2: s.fc2,
        fc2_bias: s.fc2_bias,
    }
}

/// The failure, after an earlier one, to load the conditioning.
pub open spec fn conditioning_need(
    st: &Checkpoint,
    e: Option<Fault>,
    dim: int,
    freq: int,
    adm: int,
) -> Option<Fault> {
    let e = linear_need(st, e, "t_embedder.mlp.0"@, dim, freq);
    let e = linear_need(st, e, "t_embedder.mlp.2"@, dim, dim);
    let e = linear_need(st, e, "y_embedder.mlp.0"@, dim, adm);
    linear_need(st, e, "y_embedder.mlp.2"@, dim, dim)
}

/// Whether `w` is the conditioning of the checkpoint.
pub open spec fn conditioning_loaded(
    st: &Checkpoint,
    dim: int,
    freq: int,
    adm: int,
    w: &ConditioningWeights,
) -> bool {
    &&& linear_loaded(st, "t_embedder.mlp.0"@, dim, freq, w.t_fc1@, w.t_fc1_bias@)
    &&& linear_loaded(st, "t_embedder.mlp.2"@, dim, dim, w.t_fc2@, w.t_fc2_bias@)
    &&& linear_loaded(st, "y_embedder.mlp.0"@, dim, adm, w.y_fc1@, w.y_fc1_bias@)
    &&& linear_loaded(st, "y_embedder.mlp.2"@, dim, dim, w.y_fc2@, w.y_fc2_bias@)
    &&& w.frequency_embedding_size == freq
    &&& w.adm_in_channels == adm
}

fn load_conditioning(ld: &mut Loader, dim: usize, freq: usize, adm: usize) -> (r: ConditioningWeights)
    requires
        dim * freq <= usize::MAX,
        dim * dim <= usize::MAX,
        dim * adm <= usize::MAX,
    ensures
        final(ld).st == old(ld).st,
        final(ld).fault() == conditioning_need(
            old(ld).st,
            old(ld).fault(),
            dim as int,
            freq as int,
            adm as int,
        ),
        conditioning_loaded(old(ld).st, dim as int, freq as int, adm as int, &r),
{
    let (t_fc1, t_fc1_bias) = load_linear(ld, "t_embedder.mlp.0", dim, freq);
    let (t_fc2, t_fc2_bias) = load_linear(ld, "t_embedder.mlp.2", dim, dim);
    let (y_fc1, y_fc1_bias) = load_linear(ld, "y_embedder.mlp.0", dim, adm);
    let (y_fc2, y_fc2_bias) = load_linear(ld, "y_embedder.mlp.2", dim, dim);
    ConditioningWeights {
        t_fc1,
        t_fc1_bias,
        t_fc2,
        t_fc2_bias,
        y_fc1,
        y_fc1_bias,
        y_fc2,
        y_fc2_bias,
        frequency_embedding_size: freq,
        adm_in_channels: adm,
    }
}

/// Name prefix of a joint block.
pub open spec fn joint_prefix(i: int) -> Seq<char> {
    "joint_blocks."@ + decimal(i)
}

/// The failure, after an earlier one, to load the first `n` joint blocks: of
/// each, the text stream, then the image stream.
pub open spec fn joints_need(st: &Checkpoint, e: Option<Fault>, dim: int, hidden: int, n: int) -> Option<Fault>
    decreases n,
{
    if n <= 0 {
        e
    } else {
        let p = joint_prefix(n - 1);
        let e = joints_need(st, e, dim, hidden, n - 1);
        let e = stream_need(st, e, p + ".context_block"@, dim, hidden);
        stream_need(st, e, p + ".x_block"@, dim, hidden)
    }
}

/// Whether `w` is joint block `i` of the checkpoint.
pub open spec fn joint_loaded(
    st: &Checkpoint,
    dim: int,
    hidden: int,
    i: int,
    w: &DoubleStreamBlockWeights,
) -> bool {
    &&& stream_loaded(st, joint_prefix(i) + ".context_block"@, dim, hidden, &w.text)
    &&& stream_loaded(st, joint_prefix(i) + ".x_block"@, dim, hidden, &w.image)
}

fn load_joints(ld: &mut Loader, dim: usize, mlp_hidden: usize, n: usize) -> (r: Vec<
    DoubleStreamBlockWeights,
>)
    requires
        stream_countable(dim as int, mlp_hidden as int),
    ensures
        final(ld).st == old(ld).st,
        final(ld).fault() == joints_need(
            old(ld).st,
            old(ld).fault(),
            dim as int,
            mlp_hidden as int,
            n as int,
        ),
        r@.len() == n,
        forall|i: int|
            0 <= i < r@.len() ==> joint_loaded(
                old(ld).st,
                dim as int,
                mlp_hidden as int,
                i,
                &#[trigger] r@[i],
            ),
{
    let ghost st = ld.st;
    let ghost e = ld.fault();
    let mut blocks: Vec<DoubleStreamBlockWeights> = Vec::new();
    let mut i: usize = 0;
    while i < n
        invariant
            stream_countable(dim as int, mlp_hidden as int),
            i <= n,
            ld.st == st,
            ld.fault() == joints_need(st, e, dim as int, mlp_hidden as int, i as int),
            blocks@.len() == i,
            forall|j: int|
                0 <= j < i ==> joint_loaded(
                    st,
                    dim as int,
                    mlp_hidden as int,
                    j,
                    &#[trigger] blocks@[j],
                ),
        decreases n - i,
    {
        let p = numbered("joint_blocks.", i);
        let text = load_stream_weights(
            ld,
            join(p.as_str(), ".context_block").as_str(),
            dim,
            mlp_hidden,
        );
        let image = load_stream_weights(ld, join(p.as_str(), ".x_block").as_str(), dim, mlp_hidden);
        blocks.push(DoubleStreamBlockWeights { text, image });
        i = i + 1;
    }
    blocks
}

/// The failure, after an earlier one, to load the first `n` single-stream
/// blocks.
pub open spec fn singles_need(
    st: &Checkpoint,
    e: Option<Fault>,
    dim: int,
    hidden: int,
    n: int,
) -> Option<Fault>
    decreases n,
{
    if n <= 0 {
        e
    } else {
        stream_need(
            st,
            singles_need(st, e, dim, hidden, n - 1),
            "single_blocks."@ + decimal(n - 1),
            dim,
            hidden,
        )
    }
}

impl MmDitConfig {
    /// The stored tensors can be counted.
    pub open spec fn loadable(&self, adm: int, freq: int) -> bool {
        &&& self.hidden() <= usize::MAX
        &&& stream_countable(self.dim as int, self.hidden())
        &&& self.dim * freq <= usize::MAX
        &&& self.dim * adm <= usize::MAX
    }
}

impl MmDitWeights {
    /// Why a checkpoint cannot be loaded.
    pub open spec fn load_failure(st: &Checkpoint, cfg: &MmDitConfig, adm: int, freq: int) -> Option<Fault> {
        let d = cfg.dim as int;
        let e = conditioning_need(st, None, d, freq, adm);
        let e = joints_need(st, e, d, cfg.hidden(), cfg.depth_double as int);
        singles_need(st, e, d, cfg.hidden(), cfg.depth_single as int)
    }

    /// Whether these are the weights of the checkpoint.
    pub open spec fn loaded(&self, st: &Checkpoint, cfg: &MmDitConfig, adm: int, freq: int) -> bool {
        let d = cfg.dim as int;
        &&& conditioning_loaded(st, d, freq, adm, &self.conditioning)
        &&& self.double_blocks@.len() == cfg.depth_double
        &&& forall|i: int|
            0 <= i < self.double_blocks@.len() ==> joint_loaded(
                st,
                d,
                cfg.hidden(),
                i,
                &#[trigger] self.double_blocks@[i],
            )
        &&& self.single_blocks@.len() == cfg.depth_single
        &&& forall|i: int|
            0 <= i < self.single_blocks@.len() ==> stream_loaded(
                st,
                "single_blocks."@ + decimal(i),
                d,
                cfg.hidden(),
                &(#[trigger] self.single_blocks@[i]).stream(),
            )
    }

    /// Loads the weights of a checkpoint.
    ///
    /// - `t_embedder.mlp.{0,2}.*` and `y_embedder.mlp.{0,2}.*`
    /// - `joint_blocks.{i}.context_block.*` and `joint_blocks.{i}.x_block.*`
    /// - `single_blocks.{i}.*`
    pub fn load_from_mmapped(
        st: &Checkpoint,
        cfg: &MmDitConfig,
        adm_in_channels: usize,
        frequency_embedding_size: usize,
    ) -> (r: Result<Self, LoadError>)
        requires
            cfg.loadable(adm_in_channels as int, frequency_embedding_size as int),
        ensures
            ({
                let adm = adm_in_channels as int;
                let freq = frequency_embedding_size as int;
                match r {
                    Ok(w) => MmDitWeights::load_failure(st, cfg, adm, freq) is None && w.loaded(
                        st,
                        cfg,
                        adm,
                        freq,
                    ),
                    Err(e) => MmDitWeights::load_failure(st, cfg, adm, freq) == Some(e@),
                }
            }),
    {
        let dim: usize = cfg.dim;
        let mlp_hidden: usize = dim * cfg.mlp_ratio;
        proof {
            stream_counts(dim as int, mlp_hidden as int);
        }
        let mut ld = Loader::new(st);
        let conditioning = load_conditioning(&mut ld, dim, frequency_embedding_size, adm_in_channels);
        let double_blocks = load_joints(&mut ld, dim, mlp_hidden, cfg.depth_double);
        let ghost e = ld.fault();
        let mut single_blocks: Vec<SingleStreamBlockWeights> = Vec::new();
        let mut i: usize = 0;
        while i < cfg.depth_single
            invariant
                stream_countable(dim as int, mlp_hidden as int),
                i <= cfg.depth_single,
                ld.st == st,
                ld.fault() == singles_need(st, e, dim as int, mlp_hidden as int, i as int),
                single_blocks@.len() == i,
                forall|j: int|
                    0 <= j < i ==> stream_loaded(
                        st,
                        "single_blocks."@ + decimal(j),
                        dim as int,
                        mlp_hidden as int,
                        &(#[trigger] single_blocks@[j]).stream(),
                    ),
            decreases cfg.depth_single - i,
        {
            let p = numbered("single_blocks.", i);
            let b = load_single_stream_weights(&mut ld, p.as_str(), dim, mlp_hidden);
            single_blocks.push(b);
            i = i + 1;
        }
        match ld.error {
            Some(e) => Err(e),
            None => Ok(MmDitWeights { conditioning, double_blocks, single_blocks }),
        }
    }
}

/// The failure, after an earlier one, to load the last joint block: the image
/// stream, then the context.
pub open spec fn last_need(st: &Checkpoint, e: Option<Fault>, p: Seq<char>, dim: int, hidden: int) -> Option<Fault> {
    let e = stream_need(st, e, p + ".x_block"@, dim, hidden);
    let e = linear_need(st, e, p + ".context_block.adaLN_modulation.1"@, 2 * dim, dim);
    linear_need(st, e, p + ".context_block.attn.qkv"@, 3 * dim, dim)
}

/// Whether `w` is the last joint block of the checkpoint.
pub open spec fn last_loaded(
    st: &Checkpoint,
    p: Seq<char>,
    dim: int,
    hidden: int,
    w: &ContextQkvOnlyBlockWeights,
) -> bool {
    &&& stream_loaded(st, p + ".x_block"@, dim, hidden, &w.image)
    &&& linear_loaded(
        st,
        p + ".context_block.adaLN_modulation.1"@,
        2 * dim,
        dim,
        w.context.adaln_proj@,
        w.context.adaln_bias@,
    )
    &&& linear_loaded(
        st,
        p + ".context_block.attn.qkv"@,
        3 * dim,
        dim,
        w.context.qkv_proj@,
        w.context.qkv_bias@,
    )
}

fn load_context_qkv_only_block_weights(ld: &mut Loader, prefix: &str, dim: usize, mlp_hidden: usize) -> (r:
    ContextQkvOnlyBlockWeights)
    requires
        stream_countable(dim as int, mlp_hidden as int),
    ensures
        final(ld).st == old(ld).st,
        final(ld).fault() == last_need(
            old(ld).st,
            old(ld).fault(),
            prefix@,
            dim as int,
            mlp_hidden as int,
        ),
        last_loaded(old(ld).st, prefix@, dim as int, mlp_hidden as int, &r),
{
    proof {
        stream_counts(dim as int, mlp_hidden as int);
    }
    let image = load_stream_weights(ld, join(prefix, ".x_block").as_str(), dim, mlp_hidden);
    let (adaln_proj, adaln_bias) = load_linear(
        ld,
        join(prefix, ".context_block.adaLN_modulation.1").as_str(),
        2 * dim,
        dim,
    );
    let (qkv_proj, qkv_bias) = load_linear(
        ld,
        join(prefix, ".context_block.attn.qkv").as_str(),
        3 * dim,
        dim,
    );
    ContextQkvOnlyBlockWeights {
        image,
        context: ContextQkvOnlyContextWeights { adaln_proj, adaln_bias, qkv_proj, qkv_bias },
    }
}

impl MmDitFullWeights {
    /// Why a checkpoint cannot be loaded.
    pub open spec fn load_failure(st: &Checkpoint, cfg: &MmDitFullConfig) -> Option<Fault> {
        let d = cfg.dim();
        let p = cfg.patch_size as int;
        let side = cfg.pos_embed_max_size as int;
        let last = cfg.depth - 1;
        if cfg.depth == 0 {
            Some(Fault::Model(Error::NoBlocks))
        } else {
            let e = st.need_len(None, "x_embedder.proj.weight"@, d * cfg.in_channels * p * p);
            let e = st.need(e, "x_embedder.proj.bias"@);
            let e = st.need_len(e, "pos_embed"@, side * side * d);
            let e = linear_need(st, e, "context_embedder"@, d, cfg.context_embed_size as int);
            let e = conditioning_need(
                st,
                e,
                d,
                cfg.frequency_embedding_size as int,
                cfg.adm_in_channels as int,
            );
            let e = joints_need(st, e, d, d * 4, last);
            let e = last_need(st, e, joint_prefix(last), d, d * 4);
            let e = linear_need(st, e, "final_layer.adaLN_modulation.1"@, 2 * d, d);
            linear_need(st, e, "final_layer.linear"@, cfg.patch_len(), d)
        }
    }

    /// Whether these are the weights of the checkpoint.
    pub open spec fn loaded(&self, st: &Checkpoint, cfg: &MmDitFullConfig) -> bool {
        let d = cfg.dim();
        let last = cfg.depth - 1;
        &&& self.patch_embedder.proj_weight@ == st.data("x_embedder.proj.weight"@)
        &&& self.patch_embedder.proj_bias@ == st.data("x_embedder.proj.bias"@)
        &&& self.pos_embed@ == st.data("pos_embed"@)
        &&& linear_loaded(
            st,
            "context_embedder"@,
            d,
            cfg.context_embed_size as int,
            self.context_embedder.weight@,
            self.context_embedder.bias@,
        )
        &&& conditioning_loaded(
            st,
            d,
            cfg.frequency_embedding_size as int,
            cfg.adm_in_channels as int,
            &self.conditioning,
        )
        &&& self.joint_blocks@.len() == last
        &&& forall|i: int|
            0 <= i < self.joint_blocks@.len() ==> joint_loaded(
                st,
                d,
                d * 4,
                i,
                &#[trigger] self.joint_blocks@[i],
            )
        &&& last_loaded(st, joint_prefix(last), d, d * 4, &self.final_block)
        &&& linear_loaded(
            st,
            "final_layer.adaLN_modulation.1"@,
            2 * d,
            d,
            self.final_layer.adaln_proj@,
            self.final_layer.adaln_bias@,
        )
        &&& linear_loaded(
            st,
            "final_layer.linear"@,
            cfg.patch_len(),
            d,
            self.final_layer.linear@,
            self.final_layer.linear_bias@,
        )
    }

    /// Loads the weights of a checkpoint.
    ///
    /// - `x_embedder.proj.*`, `pos_embed`, `context_embedder.*`
    /// - `t_embedder.mlp.{0,2}.*` and `y_embedder.mlp.{0,2}.*`
    /// - `joint_blocks.{i}.{context_block,x_block}.*`; of the last block's
    ///   context only `adaLN_modulation.1.*` and `attn.qkv.*`
    /// - `final_layer.adaLN_modulation.1.*`, `final_layer.linear.*`
    pub fn load_from_mmapped(st: &Checkpoint, cfg: &MmDitFullConfig) -> (r: Result<Self, LoadError>)
        requires
            cfg.loadable(),
        ensures
            match r {
                Ok(w) => MmDitFullWeights::load_failure(st, cfg) is None && w.loaded(st, cfg),
                Err(e) => MmDitFullWeights::load_failure(st, cfg) == Some(e@),
            },
    {
        if cfg.depth == 0 {
            return Err(LoadError::Model(Error::NoBlocks));
        }
        proof {
            assert(cfg.dim() >= 0) by (nonlinear_arith)
                requires
                    cfg.dim() == cfg.head_size * cfg.depth,
            ;
            let d = cfg.dim();
            assert(d * 4 * d <= 6 * d * d) by (nonlinear_arith)
                requires
                    d >= 0,
            ;
            stream_counts(d, d * 4);
        }
        let hidden: usize = cfg.hidden_size();
        let mlp_hidden: usize = hidden * 4;
        let side: usize = cfg.pos_embed_max_size;
        let mut ld = Loader::new(st);
        let proj_weight = ld.take_len(
            "x_embedder.proj.weight",
            hidden * cfg.in_channels * cfg.patch_size * cfg.patch_size,
        );
        let proj_bias = ld.take("x_embedder.proj.bias");
        let pos_embed = ld.take_len("pos_embed", side * side * hidden);
        let (weight, bias) = load_linear(&mut ld, "context_embedder", hidden, cfg.context_embed_size);
        let conditioning = load_conditioning(
            &mut ld,
            hidden,
            cfg.frequency_embedding_size,
            cfg.adm_in_channels,
        );
        let joint_blocks = load_joints(&mut ld, hidden, mlp_hidden, cfg.depth - 1);
        let final_block = load_context_qkv_only_block_weights(
            &mut ld,
            numbered("joint_blocks.", cfg.depth - 1).as_str(),
            hidden,
            mlp_hidden,
        );
        let (adaln_proj, adaln_bias) = load_linear(
            &mut ld,
            "final_layer.adaLN_modulation.1",
            2 * hidden,
            hidden,
        );
        let (linear, linear_bias) = load_linear(
            &mut ld,
            "final_layer.linear",
            cfg.patch_size * cfg.patch_size * cfg.out_channels,
            hidden,
        );
        match ld.error {
            Some(e) => Err(e),
            None => Ok(
                MmDitFullWeights {
                    patch_embedder: PatchEmbedderWeights {
                        proj_weight: WeightStorage::F32(proj_weight),
                        proj_bias,
                    },
                    pos_embed,
                    context_embedder: ContextEmbedderWeights { weight, bias },
                    conditioning,
                    joint_blocks,
                    final_block,
                    final_layer: FinalLayerWeights { adaln_proj, adaln_bias, linear, linear_bias },
                },
            ),
        }
    }
}

impl MmDitConfig {
    /// The heads fill the width, all sizes are positive, and for `b` samples of
    /// up to `s` tokens every tensor can be addressed.
    pub open spec fn addressable(&self, b: int, s: int) -> bool {
        let d = self.dim as int;
        &&& self.valid()
        &&& self.num_heads * self.width() == d
        &&& d >= 1
        &&& self.mlp_ratio >= 1
        &&& b >= 1
        &&& 1 <= s <= usize::MAX
        &&& b * d <= usize::MAX
        &&& d * (6 * d) <= usize::MAX
        &&& d * self.hidden() <= usize::MAX
    }
}

impl StreamWeights {
    /// Every weight has the size that the configuration declares.
    pub open spec fn sized(&self, cfg: &MmDitConfig) -> bool {
        let d = cfg.dim as int;
        &&& self.adaln_proj@.len() == d * (6 * d)
        &&& self.adaln_bias@.len() == 6 * d
        &&& self.qkv_proj@.len() == d * (3 * d)
        &&& self.qkv_bias@.len() == 3 * d
        &&& self.out_proj@.len() == d * d
        &&& self.out_bias@.len() == d
        &&& self.fc1@.len() == d * cfg.hidden()
        &&& self.fc1_bias@.len() == cfg.hidden()
        &&& self.fc2@.len() == cfg.hidden() * d
        &&& self.fc2_bias@.len() == d
    }
}

impl ConditioningWeights {
    /// Every weight has the size that the width `d` declares, and the timestep
    /// features come in pairs.
    pub open spec fn sized(&self, d: int) -> bool {
        let f = self.frequency_embedding_size as int;
        let a = self.adm_in_channels as int;
        &&& f >= 2
        &&& f % 2 == 0
        &&& a >= 1
        &&& f * d <= usize::MAX
        &&& a * d <= usize::MAX
        &&& self.t_fc1@.len() == f * d
        &&& self.t_fc1_bias@.len() == d
        &&& self.t_fc2@.len() == d * d
        &&& self.t_fc2_bias@.len() == d
        &&& self.y_fc1@.len() == a * d
        &&& self.y_fc1_bias@.len() == d
        &&& self.y_fc2@.len() == d * d
        &&& self.y_fc2_bias@.len() == d
    }
}

/// The conditioning of `b` timesteps and labels succeeds.
pub proof fn conditioning_has(w: &ConditioningWeights, t: Tensor, y: Tensor, d: int, b: int)
    requires
        w.sized(d),
        1 <= d <= usize::MAX,
        d * d <= usize::MAX,
        b >= 1,
        b * w.frequency_embedding_size <= usize::MAX,
        has(t, seq![b]),
        has(y, seq![b, w.adm_in_channels as int]),
    ensures
        has(conditioning(w, t, y, d), seq![b, d]),
{
    broadcast use extents;

    let f = w.frequency_embedding_size as int;
    let half = f / 2;
    assert(b * half <= b * f && b <= b * f) by (nonlinear_arith)
        requires
            b >= 1,
            f >= 1,
            0 <= half <= f,
    ;
    let fs = frequencies((w.frequency_embedding_size / 2) as usize);
    let row = Tensor::constant(fs, seq![half]);
    products(half, 1, 1, 1, 1, 1);
    products(1, half, 1, 1, 1, 1);
    reshape_has(row, seq![1, half]);
    broadcast_to_has(row.reshape(seq![1, half]), seq![b, half]);
    products(b, 1, 1, 1, 1, 1);
    reshape_has(t, seq![b, 1]);
    broadcast_to_has(t.reshape(seq![b, 1]), seq![b, half]);
    let args = t.reshape(seq![b, 1]).broadcast_to(seq![b, half]).mul(
        row.reshape(seq![1, half]).broadcast_to(seq![b, half]),
    );
    assert(has(args, seq![b, half]));
    let features = args.cos().concat(args.sin(), 1);
    assert(features.dims =~= seq![b, f]);
    let te = biased(
        biased(features, w.t_fc1@, w.t_fc1_bias@, f, d).silu(),
        w.t_fc2@,
        w.t_fc2_bias@,
        d,
        d,
    );
    assert(has(te, seq![b, d]));
    let ye = biased(
        biased(y, w.y_fc1@, w.y_fc1_bias@, w.adm_in_channels as int, d).silu(),
        w.y_fc2@,
        w.y_fc2_bias@,
        d,
        d,
    );
    assert(has(ye, seq![b, d]));
}

/// A vector spread along the tokens.
pub proof fn along_has(v: Tensor, x: Tensor, b: int, s: int, d: int)
    requires
        has(v, seq![b, d]),
        has(x, seq![b, s, d]),
        b >= 1,
        d >= 1,
        b * d <= usize::MAX,
    ensures
        has(along(v, x), seq![b, s, d]),
{
    products(b, d, 1, 1, 1, 1);
    products(b, 1, d, 1, 1, 1);
    assert(b * 1 * d == b * d);
    reshape_has(v, seq![b, 1, d]);
    broadcast_to_has(v.reshape(seq![b, 1, d]), seq![b, s, d]);
}

/// Modulated tokens keep their extents.
pub proof fn modulated_has(x: Tensor, scale: Tensor, shift: Tensor, b: int, s: int, d: int)
    requires
        has(x, seq![b, s, d]),
        has(scale, seq![b, d]),
        has(shift, seq![b, d]),
        b >= 1,
        d >= 1,
        b * d <= usize::MAX,
    ensures
        has(modulated(x, scale, shift), seq![b, s, d]),
{
    broadcast use extents;

    along_has(scale, x, b, s, d);
    along_has(shift, x, b, s, d);
}

pub proof fn modulation_at_has(c: Tensor, w: &StreamWeights, cfg: &MmDitConfig, i: int, b: int, s: int)
    requires
        cfg.addressable(b, s),
        w.sized(cfg),
        has(c, seq![b, cfg.dim as int]),
    ensures
        has(modulation_at(c, w, cfg.dim as int, i), seq![b, cfg.dim as int]),
{
    broadcast use extents;

    let d = cfg.dim as int;
    let m = modulation(c, w.adaln_proj@, w.adaln_bias@, d, 6);
    assert(has(m, seq![b, 6 * d]));
    assert((6 * d) / 6 == d && (6 * d) % 6 == 0);
    assert(m.chunk(1, 6, i).dims =~= seq![b, d]);
}

/// Projected heads have their extents.
pub proof fn projected_has(
    x: Tensor,
    w: Seq<Scalar>,
    bias: Seq<Scalar>,
    heads: int,
    width: int,
    i: int,
    b: int,
    s: int,
)
    requires
        has(x, seq![b, s, heads * width]),
        heads * width >= 1,
        3 * (heads * width) <= usize::MAX,
        (heads * width) * (3 * (heads * width)) <= usize::MAX,
        w.len() == (heads * width) * (3 * (heads * width)),
        bias.len() == 3 * (heads * width),
        0 <= i < 3,
    ensures
        has(projected(x, w, bias, heads, width, i), seq![b, heads, s, width]),
{
    broadcast use extents;

    let d = heads * width;
    let qkv = biased(x, w, bias, d, 3 * d);
    assert(has(qkv, seq![b, s, 3 * d]));
    assert(i * d + d <= 3 * d) by (nonlinear_arith)
        requires
            0 <= i < 3,
            d >= 1,
    ;
    assert(qkv.narrow(2, i * d, d).dims =~= seq![b, s, d]);
}

/// A part of a stream has one head after the other.
pub proof fn stream_part_has(cfg: &MmDitConfig, w: &StreamWeights, c: Tensor, x: Tensor, i: int, b: int, s: int)
    requires
        cfg.addressable(b, s),
        w.sized(cfg),
        has(c, seq![b, cfg.dim as int]),
        has(x, seq![b, s, cfg.dim as int]),
        0 <= i < 3,
    ensures
        has(stream_part(cfg, w, c, x, i), seq![b, cfg.num_heads as int, s, cfg.width()]),
{
    broadcast use extents;

    let d = cfg.dim as int;
    modulation_at_has(c, w, cfg, 1, b, s);
    modulation_at_has(c, w, cfg, 0, b, s);
    modulated_has(
        x.layer_norm_last_dim(cfg.eps),
        modulation_at(c, w, d, 1),
        modulation_at(c, w, d, 0),
        b,
        s,
        d,
    );
    assert(d * (3 * d) <= d * (6 * d)) by (nonlinear_arith)
        requires
            d >= 1,
    ;
    projected_has(
        modulated(
            x.layer_norm_last_dim(cfg.eps),
            modulation_at(c, w, d, 1),
            modulation_at(c, w, d, 0),
        ),
        w.qkv_proj@,
        w.qkv_bias@,
        cfg.num_heads as int,
        cfg.width(),
        i,
        b,
        s,
    );
}

/// An updated stream keeps its extents.
pub proof fn stream_update_has(
    cfg: &MmDitConfig,
    w: &StreamWeights,
    c: Tensor,
    x: Tensor,
    attn: Tensor,
    b: int,
    s: int,
)
    requires
        cfg.addressable(b, s),
        w.sized(cfg),
        has(c, seq![b, cfg.dim as int]),
        has(x, seq![b, s, cfg.dim as int]),
        has(attn, seq![b, s, cfg.dim as int]),
    ensures
        has(stream_update(cfg, w, c, x, attn), seq![b, s, cfg.dim as int]),
{
    broadcast use extents;

    let d = cfg.dim as int;
    let m = cfg.hidden();
    assert(d * d <= d * (6 * d) && m * d == d * m) by (nonlinear_arith)
        requires
            d >= 1,
    ;
    assert(m >= 1) by (nonlinear_arith)
        requires
            m == d * cfg.mlp_ratio,
            d >= 1,
            cfg.mlp_ratio >= 1,
    ;
    modulation_at_has(c, w, cfg, 2, b, s);
    modulation_at_has(c, w, cfg, 3, b, s);
    modulation_at_has(c, w, cfg, 4, b, s);
    modulation_at_has(c, w, cfg, 5, b, s);
    let out = biased(attn, w.out_proj@, w.out_bias@, d, d);
    assert(has(out, seq![b, s, d]));
    along_has(modulation_at(c, w, d, 2), x, b, s, d);
    let y = gated(x, out, modulation_at(c, w, d, 2));
    assert(has(y, seq![b, s, d]));
    let n0 = y.layer_norm_last_dim(cfg.eps);
    modulated_has(n0, modulation_at(c, w, d, 4), modulation_at(c, w, d, 3), b, s, d);
    let n = modulated(n0, modulation_at(c, w, d, 4), modulation_at(c, w, d, 3));
    let up = biased(n, w.fc1@, w.fc1_bias@, d, m);
    assert(has(up, seq![b, s, m]));
    along_has(modulation_at(c, w, d, 5), y, b, s, d);
}

/// Attention over text and image tokens has one row for each of them.
pub proof fn joint_attention_has(
    cfg: &MmDitConfig,
    tq: Tensor,
    tk: Tensor,
    tv: Tensor,
    iq: Tensor,
    ik: Tensor,
    iv: Tensor,
    b: int,
    t: int,
    s: int,
)
    requires
        cfg.addressable(b, t + s),
        t >= 0,
        s >= 0,
        has(tq, seq![b, cfg.num_heads as int, t, cfg.width()]),
        has(tk, seq![b, cfg.num_heads as int, t, cfg.width()]),
        has(tv, seq![b, cfg.num_heads as int, t, cfg.width()]),
        has(iq, seq![b, cfg.num_heads as int, s, cfg.width()]),
        has(ik, seq![b, cfg.num_heads as int, s, cfg.width()]),
        has(iv, seq![b, cfg.num_heads as int, s, cfg.width()]),
    ensures
        has(joint_attention(cfg, tq, tk, tv, iq, ik, iv), seq![b, t + s, cfg.dim as int]),
{
    broadcast use extents;

    let h = cfg.num_heads as int;
    let w = cfg.width();
    assert(tq.concat(iq, 2).dims =~= seq![b, h, t + s, w]);
    assert(tk.concat(ik, 2).dims =~= seq![b, h, t + s, w]);
    assert(tv.concat(iv, 2).dims =~= seq![b, h, t + s, w]);
    full_attention_has(
        tq.concat(iq, 2),
        tk.concat(ik, 2),
        tv.concat(iv, 2),
        inv_sqrt64(w as usize),
        b,
        h,
        t + s,
        w,
    );
}

/// On weights of the declared sizes a double-stream block succeeds, and both
/// streams keep their extents.
pub proof fn double_stream_succeeds(
    cfg: &MmDitConfig,
    w: &DoubleStreamBlockWeights,
    c: Tensor,
    txt: Tensor,
    img: Tensor,
    b: int,
    t: int,
    s: int,
)
    requires
        cfg.addressable(b, t + s),
        t >= 1,
        s >= 1,
        w.text.sized(cfg),
        w.image.sized(cfg),
        has(c, seq![b, cfg.dim as int]),
        has(txt, seq![b, t, cfg.dim as int]),
        has(img, seq![b, s, cfg.dim as int]),
    ensures
        has(double_stream(cfg, w, c, txt, img).0, seq![b, t, cfg.dim as int]),
        has(double_stream(cfg, w, c, txt, img).1, seq![b, s, cfg.dim as int]),
{
    broadcast use extents;

    let d = cfg.dim as int;
    stream_part_has(cfg, &w.text, c, txt, 0, b, t);
    stream_part_has(cfg, &w.text, c, txt, 1, b, t);
    stream_part_has(cfg, &w.text, c, txt, 2, b, t);
    stream_part_has(cfg, &w.image, c, img, 0, b, s);
    stream_part_has(cfg, &w.image, c, img, 1, b, s);
    stream_part_has(cfg, &w.image, c, img, 2, b, s);
    let tq = stream_part(cfg, &w.text, c, txt, 0);
    let tk = stream_part(cfg, &w.text, c, txt, 1);
    let tv = stream_part(cfg, &w.text, c, txt, 2);
    let iq = stream_part(cfg, &w.image, c, img, 0);
    let ik = stream_part(cfg, &w.image, c, img, 1);
    let iv = stream_part(cfg, &w.image, c, img, 2);
    joint_attention_has(cfg, tq, tk, tv, iq, ik, iv, b, t, s);
    let all = joint_attention(cfg, tq, tk, tv, iq, ik, iv);
    assert(all.narrow(1, 0, t).dims =~= seq![b, t, d]);
    assert(all.narrow(1, t, s).dims =~= seq![b, s, d]);
    stream_update_has(cfg, &w.text, c, txt, all.narrow(1, 0, t), b, t);
    stream_update_has(cfg, &w.image, c, img, all.narrow(1, t, s), b, s);
}

/// On weights of the declared sizes a single-stream block succeeds and keeps the
/// extents of its tokens.
pub proof fn single_stream_succeeds(
    cfg: &MmDitConfig,
    w: &SingleStreamBlockWeights,
    c: Tensor,
    x: Tensor,
    b: int,
    s: int,
)
    requires
        cfg.addressable(b, s),
        w.stream().sized(cfg),
        has(c, seq![b, cfg.dim as int]),
        has(x, seq![b, s, cfg.dim as int]),
    ensures
        has(single_stream(cfg, w, c, x), seq![b, s, cfg.dim as int]),
{
    broadcast use extents;

    let v = w.stream();
    stream_part_has(cfg, &v, c, x, 0, b, s);
    stream_part_has(cfg, &v, c, x, 1, b, s);
    stream_part_has(cfg, &v, c, x, 2, b, s);
    let q = stream_part(cfg, &v, c, x, 0);
    let k = stream_part(cfg, &v, c, x, 1);
    let u = stream_part(cfg, &v, c, x, 2);
    full_attention_has(
        q,
        k,
        u,
        inv_sqrt64(cfg.width() as usize),
        b,
        cfg.num_heads as int,
        s,
        cfg.width(),
    );
    let attn = attended(q, k, u, cfg.width() as usize);
    assert(has(attn, seq![b, s, cfg.dim as int]));
    stream_update_has(cfg, &v, c, x, attn, b, s);
}

pub proof fn double_streams_have(
    cfg: &MmDitConfig,
    blocks: Seq<DoubleStreamBlockWeights>,
    n: int,
    skips: Option<Seq<usize>>,
    c: Tensor,
    txt: Tensor,
    img: Tensor,
    b: int,
    t: int,
    s: int,
)
    requires
        cfg.addressable(b, t + s),
        t >= 1,
        s >= 1,
        0 <= n <= blocks.len(),
        forall|i: int|
            0 <= i < blocks.len() ==> (#[trigger] blocks[i]).text.sized(cfg) && blocks[i].image.sized(cfg),
        has(c, seq![b, cfg.dim as int]),
        has(txt, seq![b, t, cfg.dim as int]),
        has(img, seq![b, s, cfg.dim as int]),
    ensures
        has(
            double_streams_value(cfg, blocks, n, skips, c, txt, img).0,
            seq![b, t, cfg.dim as int],
        ),
        has(
            double_streams_value(cfg, blocks, n, skips, c, txt, img).1,
            seq![b, s, cfg.dim as int],
        ),
    decreases n,
{
    if n > 0 {
        double_streams_have(cfg, blocks, n - 1, skips, c, txt, img, b, t, s);
        let (x, y) = double_streams_value(cfg, blocks, n - 1, skips, c, txt, img);
        assert(blocks[n - 1].text.sized(cfg));
        double_stream_succeeds(cfg, &blocks[n - 1], c, x, y, b, t, s);
    }
}

pub proof fn single_streams_have(
    cfg: &MmDitConfig,
    blocks: Seq<SingleStreamBlockWeights>,
    n: int,
    c: Tensor,
    x: Tensor,
    b: int,
    s: int,
)
    requires
        cfg.addressable(b, s),
        0 <= n <= blocks.len(),
        forall|i: int| 0 <= i < blocks.len() ==> (#[trigger] blocks[i]).stream().sized(cfg),
        has(c, seq![b, cfg.dim as int]),
        has(x, seq![b, s, cfg.dim as int]),
    ensures
        has(single_streams_value(cfg, blocks, n, c, x), seq![b, s, cfg.dim as int]),
    decreases n,
{
    if n > 0 {
        single_streams_have(cfg, blocks, n - 1, c, x, b, s);
        single_stream_succeeds(
            cfg,
            &blocks[n - 1],
            c,
            single_streams_value(cfg, blocks, n - 1, c, x),
            b,
            s,
        );
    }
}

impl MmDitWeights {
    /// Every weight has the size that the configuration declares.
    pub open spec fn sized(&self, cfg: &MmDitConfig) -> bool {
        &&& self.conditioning.sized(cfg.dim as int)
        &&& forall|i: int|
            0 <= i < self.double_blocks@.len() ==> (#[trigger] self.double_blocks@[i]).text.sized(cfg)
                && self.double_blocks@[i].image.sized(cfg)
        &&& forall|i: int|
            0 <= i < self.single_blocks@.len() ==> (#[trigger] self.single_blocks@[i]).stream().sized(cfg)
    }
}

/// On weights of the declared sizes a run succeeds, and the image tokens keep
/// their extents.
pub proof fn forward_succeeds(
    model: &MmDitModel,
    img: Tensor,
    txt: Tensor,
    t: Tensor,
    y: Tensor,
    b: int,
    n_txt: int,
    n_img: int,
)
    requires
        model.config.addressable(b, n_txt + n_img),
        n_txt >= 1,
        n_img >= 1,
        b * model.weights.conditioning.frequency_embedding_size <= usize::MAX,
        model.weights.sized(&model.config),
        has(img, seq![b, n_img, model.config.dim as int]),
        has(txt, seq![b, n_txt, model.config.dim as int]),
        has(t, seq![b]),
        has(y, seq![b, model.weights.conditioning.adm_in_channels as int]),
    ensures
        has(model.value(img, txt, t, y), seq![b, n_img, model.config.dim as int]),
{
    broadcast use extents;

    let cfg = &model.config;
    let w = &model.weights;
    let d = cfg.dim as int;
    assert(d * d <= d * (6 * d)) by (nonlinear_arith)
        requires
            d >= 1,
    ;
    conditioning_has(&w.conditioning, t, y, d, b);
    let c = conditioning(&w.conditioning, t, y, d);
    double_streams_have(
        cfg,
        w.double_blocks@,
        w.double_blocks@.len() as int,
        None,
        c,
        txt,
        img,
        b,
        n_txt,
        n_img,
    );
    let (th, ih) = double_streams_value(
        cfg,
        w.double_blocks@,
        w.double_blocks@.len() as int,
        None,
        c,
        txt,
        img,
    );
    assert(th.concat(ih, 1).dims =~= seq![b, n_txt + n_img, d]);
    single_streams_have(
        cfg,
        w.single_blocks@,
        w.single_blocks@.len() as int,
        c,
        th.concat(ih, 1),
        b,
        n_txt + n_img,
    );
    let joined = single_streams_value(
        cfg,
        w.single_blocks@,
        w.single_blocks@.len() as int,
        c,
        th.concat(ih, 1),
    );
    assert(joined.narrow(1, n_txt, n_img).dims =~= seq![b, n_img, d]);
}

impl MmDitFullWeights {
    /// Every weight has the size that the configuration declares.
    pub open spec fn sized(&self, cfg: &MmDitFullConfig) -> bool {
        let d = cfg.dim();
        let p = cfg.patch_size as int;
        let inner = cfg.inner();
        &&& self.patch_embedder.proj_weight@.len() == d * cfg.in_channels * p * p
        &&& self.patch_embedder.proj_bias@.len() == d
        &&& self.pos_embed@.len() == cfg.pos_embed_max_size * cfg.pos_embed_max_size * d
        &&& self.context_embedder.weight@.len() == cfg.context_embed_size * d
        &&& self.context_embedder.bias@.len() == d
        &&& self.conditioning.sized(d)
        &&& self.conditioning.frequency_embedding_size == cfg.frequency_embedding_size
        &&& self.conditioning.adm_in_channels == cfg.adm_in_channels
        &&& forall|i: int|
            0 <= i < self.joint_blocks@.len() ==> (#[trigger] self.joint_blocks@[i]).text.sized(&inner)
                && self.joint_blocks@[i].image.sized(&inner)
        &&& self.final_block.image.sized(&inner)
        &&& self.final_block.context.adaln_proj@.len() == d * (2 * d)
        &&& self.final_block.context.adaln_bias@.len() == 2 * d
        &&& self.final_block.context.qkv_proj@.len() == d * (3 * d)
        &&& self.final_block.context.qkv_bias@.len() == 3 * d
        &&& self.final_layer.adaln_proj@.len() == d * (2 * d)
        &&& self.final_layer.adaln_bias@.len() == 2 * d
        &&& self.final_layer.linear@.len() == d * cfg.patch_len()
        &&& self.final_layer.linear_bias@.len() == cfg.patch_len()
    }
}

impl MmDitFullConfig {
    /// Latents of `h` by `w` positions consist of whole patches within the
    /// position grid, all sizes are positive, and for `b` of them with `t`
    /// context tokens every tensor can be addressed.
    pub open spec fn addressable(&self, b: int, h: int, w: int, t: int) -> bool {
        let d = self.dim();
        let p = self.patch_size as int;
        let side = self.pos_embed_max_size as int;
        let c = self.in_channels as int;
        let o = self.out_channels as int;
        let ph = h / p;
        let pw = w / p;
        &&& self.valid()
        &&& p >= 2
        &&& h >= p
        &&& w >= p
        &&& h % p == 0
        &&& w % p == 0
        &&& ph <= side
        &&& pw <= side
        &&& self.head_size >= 1
        &&& c >= 1
        &&& o >= 1
        &&& self.context_embed_size >= 1
        &&& b >= 1
        &&& t >= 1
        &&& h + 1 <= usize::MAX
        &&& w + 1 <= usize::MAX
        &&& t + ph * pw <= usize::MAX
        &&& d * c * p * p <= usize::MAX
        &&& side * side * d <= usize::MAX
        &&& b * d * (ph * pw) <= usize::MAX
        &&& b * (ph * pw) * (p * p * o) <= usize::MAX
        &&& b * self.frequency_embedding_size <= usize::MAX
        &&& self.context_embed_size * d <= usize::MAX
        &&& d * (6 * d) <= usize::MAX
        &&& d * self.patch_len() <= usize::MAX
        &&& 4 * d <= usize::MAX
    }
}

/// A whole number of patches of size at least two is counted alike with and
/// without rounding up.
pub proof fn whole_patches(n: int, p: int)
    requires
        p >= 2,
        n >= p,
        n % p == 0,
    ensures
        patches(n, p) == n / p,
        windows(n, p, p, 0) == n / p,
        n / p >= 1,
        p * (n / p) == n,
{
    let q = n / p;
    vstd::arithmetic::div_mod::lemma_fundamental_div_mod(n, p);
    assert(q >= 1) by (nonlinear_arith)
        requires
            n == p * q,
            n >= p,
            p >= 2,
    ;
    assert(n + 1 == q * p + 1 && n - p == (q - 1) * p) by (nonlinear_arith)
        requires
            n == p * q,
    ;
    vstd::arithmetic::div_mod::lemma_fundamental_div_mod_converse(n + 1, p, q, 1);
    vstd::arithmetic::div_mod::lemma_fundamental_div_mod_converse(n - p, p, q - 1, 0);
}

/// The patches of a latent become tokens.
pub proof fn patch_tokens_have(
    x: Tensor,
    w: &PatchEmbedderWeights,
    p: int,
    c: int,
    d: int,
    b: int,
    h: int,
    wd: int,
)
    requires
        has(x, seq![b, c, h, wd]),
        p >= 2,
        h >= p,
        wd >= p,
        h % p == 0,
        wd % p == 0,
        b >= 1,
        c >= 1,
        1 <= d <= usize::MAX,
        h <= usize::MAX,
        wd <= usize::MAX,
        d * c * p * p <= usize::MAX,
        w.proj_weight@.len() == d * c * p * p,
        w.proj_bias@.len() == d,
        b * d * ((h / p) * (wd / p)) <= usize::MAX,
    ensures
        has(patch_tokens(x, w, p, c, d), seq![b, (h / p) * (wd / p), d]),
{
    broadcast use extents;

    let ph = h / p;
    let pw = wd / p;
    whole_patches(h, p);
    whole_patches(wd, p);
    products(d, c, p, p, 1, 1);
    constant_has(w.proj_weight@, seq![d, c, p, p]);
    let k = Tensor::constant(w.proj_weight@, seq![d, c, p, p]);
    assert(ph <= h && pw <= wd) by (nonlinear_arith)
        requires
            p * ph == h,
            p * pw == wd,
            p >= 2,
            ph >= 1,
            pw >= 1,
    ;
    conv2d_has(x, k, p, 0, 1);
    let y0 = x.conv2d(k, p, 0, 1);
    assert(has(y0, seq![b, d, ph, pw]));
    products(d, 1, 1, 1, 1, 1);
    products(1, d, 1, 1, 1, 1);
    let bias = Tensor::constant(w.proj_bias@, seq![d]);
    reshape_has(bias, seq![1, d, 1, 1]);
    broadcast_add_under(y0, bias.reshape(seq![1, d, 1, 1]));
    let y = y0.broadcast_add(bias.reshape(seq![1, d, 1, 1]));
    assert(ph * pw >= 1) by (nonlinear_arith)
        requires
            ph >= 1,
            pw >= 1,
    ;
    assert(ph * pw <= b * d * (ph * pw)) by (nonlinear_arith)
        requires
            ph * pw >= 1,
            b >= 1,
            d >= 1,
    ;
    products(b, d, ph, pw, 1, 1);
    products(b, d, ph * pw, 1, 1, 1);
    assert(b * d * ph * pw == b * d * (ph * pw)) by (nonlinear_arith);
    reshape_has(y, seq![b, d, ph * pw]);
    let z = y.reshape(seq![b, d, ph * pw]).transpose_dims(1, 2);
    assert(z.dims =~= seq![b, ph * pw, d]);
}

/// The centre of the position grid.
pub proof fn position_crop_has(pos: Seq<Scalar>, side: int, d: int, h: int, w: int)
    requires
        1 <= h <= side,
        1 <= w <= side,
        d >= 1,
        pos.len() == side * side * d,
        side * side * d <= usize::MAX,
    ensures
        has(position_crop(pos, side, d, h, w), seq![1, h * w, d]),
{
    broadcast use extents;

    assert(h * w <= side * side && h * w >= 1) by (nonlinear_arith)
        requires
            1 <= h <= side,
            1 <= w <= side,
    ;
    assert(side * side <= side * side * d) by (nonlinear_arith)
        requires
            side >= 1,
            d >= 1,
    ;
    assert(h * w * d <= side * side * d) by (nonlinear_arith)
        requires
            h * w <= side * side,
            d >= 1,
    ;
    products(1, side, side, d, 1, 1);
    assert(1 * side * side * d == side * side * d) by (nonlinear_arith);
    constant_has(pos, seq![1, side, side, d]);
    let grid = Tensor::constant(pos, seq![1, side, side, d]);
    let cut = grid.narrow(1, (side - h) / 2, h).narrow(2, (side - w) / 2, w);
    assert(cut.dims =~= seq![1, h, w, d]);
    products(1, h, w, d, 1, 1);
    products(1, h * w, d, 1, 1, 1);
    assert(1 * h * w * d == h * w * d && 1 * (h * w) * d == h * w * d) by (nonlinear_arith);
    reshape_has(cut, seq![1, h * w, d]);
}

/// Modulation by two vectors.
pub proof fn halves_have(c: Tensor, w: Seq<Scalar>, bias: Seq<Scalar>, d: int, b: int, i: int)
    requires
        has(c, seq![b, d]),
        d >= 1,
        2 * d <= usize::MAX,
        d * (2 * d) <= usize::MAX,
        w.len() == d * (2 * d),
        bias.len() == 2 * d,
    ensures
        has(modulation(c, w, bias, d, 2).chunk(1, 2, i), seq![b, d]),
{
    broadcast use extents;

    let m = modulation(c, w, bias, d, 2);
    assert(has(m, seq![b, 2 * d]));
    assert(m.chunk(1, 2, i).dims =~= seq![b, d]);
}

/// The patches of the final tokens fill the image.
proof fn reassembled_has(x: Tensor, p: int, o: int, h: int, w: int, b: int)
    requires
        has(x, seq![b, h * w, p * p * o]),
        b >= 1,
        p >= 1,
        o >= 1,
        h >= 1,
        w >= 1,
        b * (h * w) * (p * p * o) <= usize::MAX,
    ensures
        has(reassembled(x, p, o, h, w), seq![b, o, p * h, p * w]),
        ({
            let cut = x.reshape(seq![b, h, w, p, p, o]);
            let turned = cut.permute(seq![0, 5, 1, 3, 2, 4]);
            &&& has(cut, seq![b, h, w, p, p, o])
            &&& has(turned, seq![b, o, h, p, w, p])
            &&& reassembled(x, p, o, h, w) == turned.reshape(seq![b, o, p * h, p * w])
        }),
{
    broadcast use extents;

    products(b, h * w, p * p * o, 1, 1, 1);
    products(b, h, w, p, p, o);
    products(b, o, h, p, w, p);
    products(b, o, p * h, p * w, 1, 1);
    let total = b * (h * w) * (p * p * o);
    let hw = h * w;
    let pp = p * p;
    let bo = b * o;
    let boh = bo * h;
    assert(bo * hw * pp == total) by (nonlinear_arith)
        requires
            bo == b * o,
            total == b * hw * (pp * o),
    ;
    assert(b * h * w == b * hw && bo * h * w == bo * hw) by (nonlinear_arith)
        requires
            hw == h * w,
    ;
    assert(b * hw * p * p == b * hw * pp && bo * hw * p * p == bo * hw * pp) by (nonlinear_arith)
        requires
            pp == p * p,
    ;
    assert(b * hw * pp * o == total) by (nonlinear_arith)
        requires
            total == b * hw * (pp * o),
    ;
    assert(boh * p * w == boh * w * p) by (nonlinear_arith);
    assert((p * h) * (p * w) == hw * pp) by (nonlinear_arith)
        requires
            hw == h * w,
            pp == p * p,
    ;
    assert(bo * (p * h) * (p * w) == bo * ((p * h) * (p * w)) && bo * (hw * pp) == bo * hw * pp)
        by (nonlinear_arith);
    assert(h * w >= 1 && p * p * o >= 1 && p * h >= 1 && p * w >= 1) by (nonlinear_arith)
        requires
            h >= 1,
            w >= 1,
            p >= 1,
            o >= 1,
    ;
    reshape_has(x, seq![b, h, w, p, p, o]);
    let cut = x.reshape(seq![b, h, w, p, p, o]);
    permute_axes(cut, seq![0, 5, 1, 3, 2, 4]);
    let turned = cut.permute(seq![0, 5, 1, 3, 2, 4]);
    assert(turned.dims =~= seq![b, o, h, p, w, p]);
    reshape_has(turned, seq![b, o, p * h, p * w]);
}

/// On weights of the declared sizes a run over latents `(b, in_channels, h, w)`
/// succeeds whatever blocks are left out, and the result is
/// `(b, out_channels, h, w)`.
#[verifier::rlimit(40)]
pub proof fn full_forward_succeeds(
    model: &MmDitFullModel,
    x: Tensor,
    t: Tensor,
    y: Tensor,
    context: Tensor,
    skips: Option<Seq<usize>>,
    b: int,
    h: int,
    w: int,
    n: int,
)
    requires
        model.config.addressable(b, h, w, n),
        model.weights.sized(&model.config),
        has(x, seq![b, model.config.in_channels as int, h, w]),
        has(t, seq![b]),
        has(y, seq![b, model.config.adm_in_channels as int]),
        has(context, seq![b, n, model.config.context_embed_size as int]),
    ensures
        has(
            model.value(x, t, y, context, skips),
            seq![b, model.config.out_channels as int, h, w],
        ),
{
    broadcast use extents;

    let cfg = &model.config;
    let ws = &model.weights;
    let inner = cfg.inner();
    let d = cfg.dim();
    let p = cfg.patch_size as int;
    let o = cfg.out_channels as int;
    let ph = h / p;
    let pw = w / p;
    let s = ph * pw;
    assert(d >= 1) by (nonlinear_arith)
        requires
            d == cfg.head_size * cfg.depth,
            cfg.head_size >= 1,
            cfg.depth >= 1,
    ;
    whole_patches(h, p);
    whole_patches(w, p);
    assert(s >= 1) by (nonlinear_arith)
        requires
            s == ph * pw,
            ph >= 1,
            pw >= 1,
    ;
    assert(inner.width() == cfg.head_size) by {
        vstd::arithmetic::div_mod::lemma_div_by_multiple(cfg.head_size as int, cfg.depth as int);
    }
    assert(cfg.depth * cfg.head_size == d) by (nonlinear_arith)
        requires
            d == cfg.head_size * cfg.depth,
    ;
    assert(b * d <= b * d * s && d * (4 * d) <= d * (6 * d) && d * (2 * d) <= d * (6 * d) && d * (3 * d) <= d
        * (6 * d) && d * d <= d * (6 * d)) by (nonlinear_arith)
        requires
            s >= 1,
            b >= 1,
            d >= 1,
    ;
    assert(d * 4 == 4 * d) by (nonlinear_arith);
    assert(inner.hidden() == 4 * d);
    assert(inner.addressable(b, n + s));
    patch_tokens_have(x, &ws.patch_embedder, p, cfg.in_channels as int, d, b, h, w);
    position_crop_has(ws.pos_embed@, cfg.pos_embed_max_size as int, d, ph, pw);
    let tokens = patch_tokens(x, &ws.patch_embedder, p, cfg.in_channels as int, d);
    let crop = position_crop(ws.pos_embed@, cfg.pos_embed_max_size as int, d, ph, pw);
    broadcast_add_under(tokens, crop);
    let img = model.image_tokens(x);
    assert(has(img, seq![b, s, d]));
    conditioning_has(&ws.conditioning, t, y, d, b);
    let c = conditioning(&ws.conditioning, t, y, d);
    let txt = model.context_tokens(context);
    assert(has(txt, seq![b, n, d]));
    double_streams_have(
        &inner,
        ws.joint_blocks@,
        ws.joint_blocks@.len() as int,
        skips,
        c,
        txt,
        img,
        b,
        n,
        s,
    );
    let (th, ih) = double_streams_value(
        &inner,
        ws.joint_blocks@,
        ws.joint_blocks@.len() as int,
        skips,
        c,
        txt,
        img,
    );
    last_joint_has(&inner, &ws.final_block, c, th, ih, b, n, s);
    let joint = model.joint(img, txt, c, skips);
    assert(has(joint, seq![b, s, d]));
    let fl = &ws.final_layer;
    halves_have(c, fl.adaln_proj@, fl.adaln_bias@, d, b, 0);
    halves_have(c, fl.adaln_proj@, fl.adaln_bias@, d, b, 1);
    let m = modulation(c, fl.adaln_proj@, fl.adaln_bias@, d, 2);
    let n0 = joint.layer_norm_last_dim(Scalar::F64(0x3EB0_C6F7_A0B5_ED8D));
    modulated_has(n0, m.chunk(1, 2, 1), m.chunk(1, 2, 0), b, s, d);
    assert(cfg.patch_len() >= 1) by (nonlinear_arith)
        requires
            cfg.patch_len() == p * p * o,
            p >= 2,
            o >= 1,
    ;
    let last = final_tokens(joint, c, fl, d, cfg.patch_len());
    assert(has(last, seq![b, s, cfg.patch_len()]));
    reassembled_has(last, p, o, ph, pw, b);
    let whole = reassembled(last, p, o, ph, pw);
    assert(whole.narrow(2, 0, h).narrow(3, 0, w).dims =~= seq![b, o, h, w]);
}

/// The last joint block keeps the extents of the image tokens.
pub proof fn last_joint_has(
    cfg: &MmDitConfig,
    w: &ContextQkvOnlyBlockWeights,
    c: Tensor,
    txt: Tensor,
    img: Tensor,
    b: int,
    t: int,
    s: int,
)
    requires
        cfg.addressable(b, t + s),
        t >= 1,
        s >= 1,
        w.image.sized(cfg),
        w.context.adaln_proj@.len() == cfg.dim * (2 * cfg.dim),
        w.context.adaln_bias@.len() == 2 * cfg.dim,
        w.context.qkv_proj@.len() == cfg.dim * (3 * cfg.dim),
        w.context.qkv_bias@.len() == 3 * cfg.dim,
        has(c, seq![b, cfg.dim as int]),
        has(txt, seq![b, t, cfg.dim as int]),
        has(img, seq![b, s, cfg.dim as int]),
    ensures
        has(last_joint(cfg, w, c, txt, img), seq![b, s, cfg.dim as int]),
{
    broadcast use extents;

    let d = cfg.dim as int;
    assert(d * (2 * d) <= d * (6 * d) && d * (3 * d) <= d * (6 * d)) by (nonlinear_arith)
        requires
            d >= 1,
    ;
    stream_part_has(cfg, &w.image, c, img, 0, b, s);
    stream_part_has(cfg, &w.image, c, img, 1, b, s);
    stream_part_has(cfg, &w.image, c, img, 2, b, s);
    halves_have(c, w.context.adaln_proj@, w.context.adaln_bias@, d, b, 0);
    halves_have(c, w.context.adaln_proj@, w.context.adaln_bias@, d, b, 1);
    let m = modulation(c, w.context.adaln_proj@, w.context.adaln_bias@, d, 2);
    let n = txt.layer_norm_last_dim(cfg.eps);
    modulated_has(n, m.chunk(1, 2, 1), m.chunk(1, 2, 0), b, t, d);
    let y = modulated(n, m.chunk(1, 2, 1), m.chunk(1, 2, 0));
    let heads = cfg.num_heads as int;
    projected_has(y, w.context.qkv_proj@, w.context.qkv_bias@, heads, cfg.width(), 0, b, t);
    projected_has(y, w.context.qkv_proj@, w.context.qkv_bias@, heads, cfg.width(), 1, b, t);
    projected_has(y, w.context.qkv_proj@, w.context.qkv_bias@, heads, cfg.width(), 2, b, t);
    let tq = context_part(cfg, &w.context, c, txt, 0);
    let tk = context_part(cfg, &w.context, c, txt, 1);
    let tv = context_part(cfg, &w.context, c, txt, 2);
    let iq = stream_part(cfg, &w.image, c, img, 0);
    let ik = stream_part(cfg, &w.image, c, img, 1);
    let iv = stream_part(cfg, &w.image, c, img, 2);
    joint_attention_has(cfg, tq, tk, tv, iq, ik, iv, b, t, s);
    let all = joint_attention(cfg, tq, tk, tv, iq, ik, iv);
    assert(all.narrow(1, t, s).dims =~= seq![b, s, d]);
    stream_update_has(cfg, &w.image, c, img, all.narrow(1, t, s), b, s);
}

/// The patches go back to where they were cut out: the pixel `(y, x)` of channel
/// `c` is feature `((y % patch) * patch + x % patch) * c_out + c` of the token
/// `(y / patch) * w + x / patch`.
pub proof fn patches_go_back<V>(
    value: Element<V>,
    tokens: Tensor,
    b: int,
    p: int,
    c_out: int,
    h: int,
    w: int,
    n: int,
    c: int,
    y: int,
    x: int,
)
    requires
        rearranges(value),
        has(tokens, seq![b, h * w, p * p * c_out]),
        b >= 1,
        p >= 1,
        c_out >= 1,
        h >= 1,
        w >= 1,
        b * (h * w) * (p * p * c_out) <= usize::MAX,
        0 <= n < b,
        0 <= c < c_out,
        0 <= y < p * h,
        0 <= x < p * w,
    ensures
        value(reassembled(tokens, p, c_out, h, w), seq![n, c, y, x]) == value(
            tokens,
            seq![n, (y / p) * w + x / p, ((y % p) * p + x % p) * c_out + c],
        ),
{
    let (i, r) = (y / p, y % p);
    let (k, q) = (x / p, x % p);
    patch_position(y, p, h);
    patch_position(x, p, w);
    let d6 = seq![b, h, w, p, p, c_out];
    let dp = seq![b, c_out, h, p, w, p];
    let d4 = seq![b, c_out, p * h, p * w];
    let perm = seq![0int, 5, 1, 3, 2, 4];
    reassembled_has(tokens, p, c_out, h, w, b);
    let cut = tokens.reshape(d6);
    let turned = cut.permute(perm);
    let s = i * w + k;
    let f = (r * p + q) * c_out + c;
    let from = seq![n, s, f];
    let at6 = seq![n, i, k, r, q, c];
    let atp = seq![n, c, i, r, k, q];
    let to = seq![n, c, y, x];
    assert(0 <= s < h * w) by (nonlinear_arith)
        requires
            s == i * w + k,
            0 <= i < h,
            0 <= k < w,
    ;
    let rq = r * p + q;
    assert(0 <= rq < p * p) by (nonlinear_arith)
        requires
            rq == r * p + q,
            0 <= r < p,
            0 <= q < p,
    ;
    assert(0 <= f < p * p * c_out) by (nonlinear_arith)
        requires
            f == rq * c_out + c,
            0 <= rq < p * p,
            0 <= c < c_out,
    ;
    token_place(n, i, k, r, q, c, h, w, p, c_out);
    pixel_place(n, c, i, r, k, q, c_out, h, w, p);
    assert(seq![b, h * w, p * p * c_out, 0, 0, 0].take(3) =~= tokens.dims);
    assert(seq![b, c_out, p * h, p * w, 0, 0].take(4) =~= d4);
    places(n, s, f, 0, 0, 0, seq![b, h * w, p * p * c_out, 0, 0, 0]);
    places(n, i, k, r, q, c, d6);
    places(n, c, i, r, k, q, dp);
    places(n, c, y, x, 0, 0, seq![b, c_out, p * h, p * w, 0, 0]);
    assert(inside(from, tokens.dims));
    assert(inside(at6, d6));
    assert(inside(atp, dp));
    assert(inside(to, d4));
    assert(value(tokens.reshape(d6), at6) == value(tokens, from));
    assert(atp[0] == at6[perm[0]] && atp[1] == at6[perm[1]] && atp[2] == at6[perm[2]] && atp[3]
        == at6[perm[3]] && atp[4] == at6[perm[4]] && atp[5] == at6[perm[5]]);
    assert(value(cut.permute(perm), atp) == value(cut, at6));
    assert(value(turned.reshape(d4), to) == value(turned, atp));
}

/// A position and the patch that it lies in.
proof fn patch_position(y: int, p: int, h: int)
    requires
        p >= 1,
        0 <= y < p * h,
    ensures
        0 <= y / p < h,
        0 <= y % p < p,
        y == (y / p) * p + y % p,
{
    vstd::arithmetic::div_mod::lemma_fundamental_div_mod(y, p);
    assert(0 <= y / p < h && y == (y / p) * p + y % p) by (nonlinear_arith)
        requires
            y == p * (y / p) + y % p,
            0 <= y % p < p,
            0 <= y < p * h,
            p >= 1,
    ;
}

proof fn token_place(n: int, i: int, k: int, r: int, q: int, c: int, h: int, w: int, p: int, o: int)
    ensures
        (n * (h * w) + (i * w + k)) * (p * p * o) + ((r * p + q) * o + c) == ((((n * h + i) * w + k) * p + r) * p
            + q) * o + c,
{
    let m = (n * h + i) * w + k;
    assert(n * (h * w) + (i * w + k) == m) by (nonlinear_arith)
        requires
            m == (n * h + i) * w + k,
    ;
    assert((m * p + r) * p + q == m * (p * p) + (r * p + q)) by (nonlinear_arith);
    let (u, v) = (p * p, r * p + q);
    assert(m * (u * o) + v * o == (m * u + v) * o) by (nonlinear_arith);
    assert(p * p * o == u * o);
}

proof fn pixel_place(n: int, c: int, i: int, r: int, k: int, q: int, o: int, h: int, w: int, p: int)
    ensures
        ((((n * o + c) * h + i) * p + r) * w + k) * p + q == ((n * o + c) * (p * h) + (i * p + r)) * (p * w) + (k
            * p + q),
{
    let m = n * o + c;
    let l = (m * h + i) * p + r;
    assert(l == m * (p * h) + (i * p + r)) by (nonlinear_arith)
        requires
            l == (m * h + i) * p + r,
    ;
    assert((l * w + k) * p == l * (p * w) + k * p) by (nonlinear_arith);
}

} // verus!
