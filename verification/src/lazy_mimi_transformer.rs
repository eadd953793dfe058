//! The transformer between the convolutional stacks and the quantizer.
//!
//! Each layer normalises before its attention and before its feed-forward part
//! and scales what either part adds, channel by channel. Positions are rotary,
//! and no position sees a later one.

use crate::common::{causal_data, build_causal_data, find_failure, first_failure, views};
use crate::error::Error;
use crate::lazy::{outcome, LazyTensor, Tensor, WeightStorage};
use crate::scalar::{div32, inv_sqrt64, mul32, one, pow32, unary, Data, Precision, Scalar, UnaryFn};
use std::sync::Arc;
use vstd::prelude::*;

verus! {

#[derive(Debug)]
pub struct MimiTransformerConfig {
    pub d_model: usize,
    pub num_heads: usize,
    pub num_layers: usize,
    /// Width inside the feed-forward part.
    pub dim_feedforward: usize,
    /// Longest period of the rotary embedding.
    pub max_period: Scalar,
    /// Whether signals come and go as `(batch, channels, time)` instead of
    /// `(batch, time, channels)`.
    pub conv_layout: bool,
    pub layer_norm_eps: Scalar,
}

impl Clone for MimiTransformerConfig {
    fn clone(&self) -> (r: Self)
        ensures
            r == *self,
    {
        MimiTransformerConfig {
            d_model: self.d_model,
            num_heads: self.num_heads,
            num_layers: self.num_layers,
            dim_feedforward: self.dim_feedforward,
            max_period: self.max_period.clone(),
            conv_layout: self.conv_layout,
            layer_norm_eps: self.layer_norm_eps.clone(),
        }
    }
}

impl MimiTransformerConfig {
    /// Width of a head.
    pub open spec fn width(&self) -> int {
        self.d_model as int / self.num_heads as int
    }

    /// There are heads, of an even width, that fill the model width.
    pub open spec fn valid(&self) -> bool {
        &&& self.num_heads > 0
        &&& self.num_heads * self.width() == self.d_model
        &&& self.width() % 2 == 0
    }

    /// Whether the heads of all signals, the mask and the rotary tables can be
    /// counted for `b` signals of length `t`.
    pub open spec fn countable(&self, b: int, t: int) -> bool {
        &&& b * self.num_heads <= usize::MAX
        &&& t * t <= usize::MAX
        &&& t * (self.width() / 2) <= usize::MAX
    }

    /// The sizes of version 0.1.
    pub open spec fn is_v0_1(&self) -> bool {
        &&& self.d_model == 512
        &&& self.num_heads == 8
        &&& self.num_layers == 8
        &&& self.dim_feedforward == 2048
        &&& self.max_period == Scalar::F32(0x461C_4000)
        &&& self.conv_layout
        &&& self.layer_norm_eps == Scalar::F64(0x3EE4_F8B5_88E3_68F1)
    }

    /// The sizes of version 0.1.
    pub fn mimi_v0_1() -> (r: Self)
        ensures
            r.is_v0_1(),
            r.valid(),
    {
        MimiTransformerConfig {
            d_model: 512,
            num_heads: 8,
            num_layers: 8,
            dim_feedforward: 2048,
            max_period: Scalar::F32(0x461C_4000),
            conv_layout: true,
            layer_norm_eps: Scalar::F64(0x3EE4_F8B5_88E3_68F1),
        }
    }

    /// Width of a head.
    pub fn head_dim(&self) -> (r: usize)
        requires
            self.num_heads > 0,
        ensures
            r == self.width(),
    {
        self.d_model / self.num_heads
    }

    fn can_count(&self, b: usize, t: usize) -> (r: bool)
        requires
            self.num_heads > 0,
        ensures
            r == self.countable(b as int, t as int),
    {
        b.checked_mul(self.num_heads).is_some() && t.checked_mul(t).is_some() && t.checked_mul(
            self.head_dim() / 2,
        ).is_some()
    }
}

#[derive(Debug, Clone)]
pub struct LayerNormWeights {
    pub gain: Data,
    pub bias: Data,
}

/// Projections `[d_model, d_model]`.
#[derive(Debug, Clone)]
pub struct MimiAttentionWeights {
    pub q_proj: WeightStorage,
    pub k_proj: WeightStorage,
    pub v_proj: WeightStorage,
    pub o_proj: WeightStorage,
}

#[derive(Debug, Clone)]
pub struct MimiMlpWeights {
    pub fc1: WeightStorage,
    pub fc2: WeightStorage,
}

#[derive(Debug, Clone)]
pub struct MimiTransformerLayerWeights {
    pub norm1: LayerNormWeights,
    pub norm2: LayerNormWeights,
    pub attn: MimiAttentionWeights,
    pub mlp: MimiMlpWeights,
    /// Scale of each channel that the attention adds.
    pub layer_scale_1: Data,
    /// Scale of each channel that the feed-forward part adds.
    pub layer_scale_2: Data,
}

#[derive(Debug, Clone)]
pub struct MimiTransformerWeights {
    pub layers: Vec<MimiTransformerLayerWeights>,
}

#[derive(Debug, Clone)]
pub struct ProjectedTransformerWeights {
    pub transformer: MimiTransformerWeights,
    /// `[input_dim, d_model]`; absent where the widths agree.
    pub input_proj: Option<WeightStorage>,
    /// One projection `[d_model, width]` and its width for each output; the
    /// projection is absent where the widths agree.
    pub output_projs: Vec<(Option<WeightStorage>, usize)>,
}

#[derive(Debug, Clone)]
pub struct ProjectedTransformerModel {
    pub config: MimiTransformerConfig,
    pub input_dim: usize,
    pub weights: ProjectedTransformerWeights,
}

/// The angle by which the pair `i` of a head is turned at position `pos`.
pub open spec fn angle(pos: int, i: int, head_dim: int, max_period: Scalar) -> Scalar {
    mul32(
        Scalar::Nat(Precision::Single, pos as usize),
        div32(
            one(),
            pow32(
                max_period,
                div32(
                    Scalar::Nat(Precision::Single, (2 * i) as usize),
                    Scalar::Nat(Precision::Single, head_dim as usize),
                ),
            ),
        ),
    )
}

/// A function of the angles of all positions and pairs; the value for
/// `(pos, i)` stands at `pos * (head_dim / 2) + i`.
pub open spec fn angle_table(f: UnaryFn, t: int, head_dim: int, max_period: Scalar) -> Seq<Scalar> {
    let half = head_dim / 2;
    Seq::new(
        (t * half) as nat,
        |k: int| unary(Precision::Single, f, angle(k / half, k % half, head_dim, max_period)),
    )
}

/// Cosines or sines of the angles, `(t, head_dim / 2)`.
pub open spec fn angle_tensor(f: UnaryFn, t: int, head_dim: int, max_period: Scalar) -> Tensor {
    Tensor::constant(angle_table(f, t, head_dim, max_period), seq![t, head_dim / 2])
}

fn tabulate(f: UnaryFn, t: usize, head_dim: usize, max_period: &Scalar) -> (r: Vec<Scalar>)
    requires
        t * (head_dim as int / 2) <= usize::MAX,
    ensures
        r@ == angle_table(f, t as int, head_dim as int, *max_period),
{
    let half: usize = head_dim / 2;
    let n: usize = t * half;
    let ghost want = angle_table(f, t as int, head_dim as int, *max_period);
    let mut out: Vec<Scalar> = Vec::new();
    let mut k: usize = 0;
    while k < n
        invariant
            k <= n == t * half,
            half == head_dim / 2,
            want == angle_table(f, t as int, head_dim as int, *max_period),
            out@.len() == k,
            forall|m: int| 0 <= m < k ==> out@[m] == want[m],
        decreases n - k,
    {
        assert(half > 0) by (nonlinear_arith)
            requires
                t * half > 0,
                t >= 0,
        ;
        let pos: usize = k / half;
        let i: usize = k % half;
        assert(i < half);
        let share = Scalar::Nat(Precision::Single, 2 * i).div32(Scalar::Nat(Precision::Single, head_dim));
        let freq = Scalar::F32(0x3F80_0000).div32(max_period.clone().pow32(share));
        out.push(Scalar::Nat(Precision::Single, pos).mul32(freq).unary(Precision::Single, f));
        k = k + 1;
    }
    assert(out@ =~= want);
    out
}

/// Cosines and sines `(t, head_dim / 2)` of the rotary embedding.
pub fn build_rope_tables(t: usize, head_dim: usize, max_period: &Scalar) -> (r: (LazyTensor, LazyTensor))
    requires
        t * (head_dim as int / 2) <= usize::MAX,
    ensures
        r.0@ == angle_tensor(UnaryFn::Cos, t as int, head_dim as int, *max_period),
        r.1@ == angle_tensor(UnaryFn::Sin, t as int, head_dim as int, *max_period),
{
    let cos = Arc::new(tabulate(UnaryFn::Cos, t, head_dim, max_period));
    let sin = Arc::new(tabulate(UnaryFn::Sin, t, head_dim, max_period));
    (LazyTensor::const2(&cos, t, head_dim / 2), LazyTensor::const2(&sin, t, head_dim / 2))
}

/// The two halves of each pair of features turned against each other:
/// `(e, o)` becomes `(e * cos - o * sin, e * sin + o * cos)`.
pub open spec fn rotated(
    x: Tensor,
    cos: Tensor,
    sin: Tensor,
    b: int,
    heads: int,
    t: int,
    head_dim: int,
) -> Tensor {
    let half = head_dim / 2;
    let pairs = x.reshape(seq![b, heads, t, half, 2]);
    let even = pairs.narrow(4, 0, 1).reshape(seq![b, heads, t, half]);
    let odd = pairs.narrow(4, 1, 1).reshape(seq![b, heads, t, half]);
    let c = cos.reshape(seq![1, 1, t, half]).broadcast_to(seq![b, heads, t, half]);
    let s = sin.reshape(seq![1, 1, t, half]).broadcast_to(seq![b, heads, t, half]);
    let new_even = even.mul(c).sub(odd.mul(s));
    let new_odd = even.mul(s).add(odd.mul(c));
    new_even.unsqueeze(4).concat(new_odd.unsqueeze(4), 4).reshape(seq![b, heads, t, head_dim])
}

fn rotate(
    x: &LazyTensor,
    cos: &LazyTensor,
    sin: &LazyTensor,
    b: usize,
    heads: usize,
    t: usize,
    head_dim: usize,
) -> (r: LazyTensor)
    ensures
        r@ == rotated(x@, cos@, sin@, b as int, heads as int, t as int, head_dim as int),
{
    let half: usize = head_dim / 2;
    let pairs = x.reshape5(b, heads, t, half, 2);
    let even = pairs.narrow(4, 0, 1).reshape4(b, heads, t, half);
    let odd = pairs.narrow(4, 1, 1).reshape4(b, heads, t, half);
    let c = cos.reshape4(1, 1, t, half).broadcast_to4(b, heads, t, half);
    let s = sin.reshape4(1, 1, t, half).broadcast_to4(b, heads, t, half);
    let new_even = even.mul(&c).sub(&odd.mul(&s));
    let new_odd = even.mul(&s).add(&odd.mul(&c));
    new_even.unsqueeze(4).concat(&new_odd.unsqueeze(4), 4).reshape4(b, heads, t, head_dim)
}

/// Turns adjacent features of `(b, heads, t, head_dim)` by tables
/// `(t, head_dim / 2)`.
pub fn apply_rope_interleaved(
    x: &LazyTensor,
    cos: &LazyTensor,
    sin: &LazyTensor,
    b: usize,
    heads: usize,
    t: usize,
    head_dim: usize,
) -> (r: Result<LazyTensor, Error>)
    ensures
        outcome(r, rotated(x@, cos@, sin@, b as int, heads as int, t as int, head_dim as int)),
{
    rotate(x, cos, sin, b, heads, t, head_dim).finish()
}

/// The causal mask `(t, t)`.
pub open spec fn causal_square(t: int) -> Tensor {
    Tensor::constant(causal_data(t), seq![t, t])
}

/// The causal mask `(t, t)`.
pub fn build_causal_mask(t: usize) -> (r: LazyTensor)
    requires
        t * t <= usize::MAX,
    ensures
        r@ == causal_square(t as int),
{
    LazyTensor::const2(&Arc::new(build_causal_data(t)), t, t)
}

/// One value for each of `n` channels, over all positions of `x`.
pub open spec fn spread(v: Seq<Scalar>, n: int, x: Tensor) -> Tensor {
    Tensor::constant(v, seq![n]).reshape(seq![1, 1, n]).broadcast_to(x.dims)
}

fn spread_over(v: &Data, n: usize, x: &LazyTensor) -> (r: LazyTensor)
    ensures
        r@ == spread(v@, n as int, x@),
{
    LazyTensor::const1(v, n).reshape3(1, 1, n).broadcast_to(x.dims().as_slice())
}

impl LayerNormWeights {
    pub open spec fn value(&self, x: Tensor, n: int, eps: Scalar) -> Tensor {
        x.layer_norm_last_dim(eps).mul(spread(self.gain@, n, x)).add(spread(self.bias@, n, x))
    }

    fn apply(&self, x: &LazyTensor, n: usize, eps: &Scalar) -> (r: LazyTensor)
        ensures
            r@ == self.value(x@, n as int, *eps),
    {
        let g = spread_over(&self.gain, n, x);
        let b = spread_over(&self.bias, n, x);
        x.layer_norm_last_dim(eps).mul(&g).add(&b)
    }
}

/// A projection split into heads.
pub open spec fn heads_of(
    x: Tensor,
    w: Seq<Scalar>,
    cfg: &MimiTransformerConfig,
    b: int,
    t: int,
) -> Tensor {
    let d = cfg.d_model as int;
    x.linear(w, d, d).reshape(seq![b, t, cfg.num_heads as int, cfg.width()]).permute(seq![0, 2, 1, 3])
}

fn project_heads(
    x: &LazyTensor,
    w: &WeightStorage,
    cfg: &MimiTransformerConfig,
    b: usize,
    t: usize,
) -> (r: LazyTensor)
    requires
        cfg.num_heads > 0,
    ensures
        r@ == heads_of(x@, w@, cfg, b as int, t as int),
{
    w.apply_linear(x, cfg.d_model, cfg.d_model).reshape4(b, t, cfg.num_heads, cfg.head_dim()).permute4(
        0,
        2,
        1,
        3,
    )
}

impl MimiAttentionWeights {
    /// Masked attention with rotary positions.
    pub open spec fn value(
        &self,
        x: Tensor,
        cos: Tensor,
        sin: Tensor,
        mask: Tensor,
        cfg: &MimiTransformerConfig,
        b: int,
        t: int,
    ) -> Tensor {
        let d = cfg.d_model as int;
        let heads = cfg.num_heads as int;
        let w = cfg.width();
        let n = b * heads;
        let q = rotated(heads_of(x, self.q_proj@, cfg, b, t), cos, sin, b, heads, t, w);
        let k = rotated(heads_of(x, self.k_proj@, cfg, b, t), cos, sin, b, heads, t, w);
        let v = heads_of(x, self.v_proj@, cfg, b, t);
        let q3 = q.reshape(seq![n, t, w]);
        let k3 = k.reshape(seq![n, t, w]);
        let v3 = v.reshape(seq![n, t, w]);
        let scores = q3.matmul(k3.permute(seq![0, 2, 1])).mul_scalar(inv_sqrt64(w as usize));
        let hidden = mask.reshape(seq![1, t, t]).broadcast_to(seq![n, t, t]);
        let mixed = scores.add(hidden).softmax_last_dim().matmul(v3);
        mixed.reshape(seq![b, heads, t, w]).permute(seq![0, 2, 1, 3]).reshape(seq![b, t, d]).linear(
            self.o_proj@,
            d,
            d,
        )
    }

    fn apply(
        &self,
        x: &LazyTensor,
        cos: &LazyTensor,
        sin: &LazyTensor,
        mask: &LazyTensor,
        cfg: &MimiTransformerConfig,
        b: usize,
        t: usize,
    ) -> (r: LazyTensor)
        requires
            cfg.num_heads > 0,
            b * cfg.num_heads <= usize::MAX,
        ensures
            r@ == self.value(x@, cos@, sin@, mask@, cfg, b as int, t as int),
    {
        let d: usize = cfg.d_model;
        let heads: usize = cfg.num_heads;
        let w: usize = cfg.head_dim();
        let n: usize = b * heads;
        let q = rotate(&project_heads(x, &self.q_proj, cfg, b, t), cos, sin, b, heads, t, w);
        let k = rotate(&project_heads(x, &self.k_proj, cfg, b, t), cos, sin, b, heads, t, w);
        let v = project_heads(x, &self.v_proj, cfg, b, t);
        let q3 = q.reshape3(n, t, w);
        let k3 = k.reshape3(n, t, w);
        let v3 = v.reshape3(n, t, w);
        let scores = q3.matmul(&k3.permute3(0, 2, 1)).mul_scalar(&Scalar::inv_sqrt64(w));
        let hidden = mask.reshape3(1, t, t).broadcast_to3(n, t, t);
        let mixed = scores.add(&hidden).softmax_last_dim().matmul(&v3);
        let merged = mixed.reshape4(b, heads, t, w).permute4(0, 2, 1, 3).reshape3(b, t, d);
        self.o_proj.apply_linear(&merged, d, d)
    }
}

impl MimiMlpWeights {
    pub open spec fn value(&self, x: Tensor, cfg: &MimiTransformerConfig) -> Tensor {
        let d = cfg.d_model as int;
        let inner = cfg.dim_feedforward as int;
        x.linear(self.fc1@, d, inner).gelu_erf().linear(self.fc2@, inner, d)
    }

    fn apply(&self, x: &LazyTensor, cfg: &MimiTransformerConfig) -> (r: LazyTensor)
        ensures
            r@ == self.value(x@, cfg),
    {
        let h = self.fc1.apply_linear(x, cfg.d_model, cfg.dim_feedforward).gelu_erf();
        self.fc2.apply_linear(&h, cfg.dim_feedforward, cfg.d_model)
    }
}

impl MimiTransformerLayerWeights {
    /// One layer.
    pub open spec fn value(
        &self,
        x: Tensor,
        cos: Tensor,
        sin: Tensor,
        mask: Tensor,
        cfg: &MimiTransformerConfig,
        b: int,
        t: int,
    ) -> Tensor {
        let d = cfg.d_model as int;
        let a = self.attn.value(
            self.norm1.value(x, d, cfg.layer_norm_eps),
            cos,
            sin,
            mask,
            cfg,
            b,
            t,
        );
        let y = x.add(a.mul(spread(self.layer_scale_1@, d, a)));
        let m = self.mlp.value(self.norm2.value(y, d, cfg.layer_norm_eps), cfg);
        y.add(m.mul(spread(self.layer_scale_2@, d, m)))
    }

    fn apply(
        &self,
        x: &LazyTensor,
        cos: &LazyTensor,
        sin: &LazyTensor,
        mask: &LazyTensor,
        cfg: &MimiTransformerConfig,
        b: usize,
        t: usize,
    ) -> (r: LazyTensor)
        requires
            cfg.num_heads > 0,
            b * cfg.num_heads <= usize::MAX,
        ensures
            r@ == self.value(x@, cos@, sin@, mask@, cfg, b as int, t as int),
    {
        let d: usize = cfg.d_model;
        let n1 = self.norm1.apply(x, d, &cfg.layer_norm_eps);
        let a = self.attn.apply(&n1, cos, sin, mask, cfg, b, t);
        let y = x.add(&a.mul(&spread_over(&self.layer_scale_1, d, &a)));
        let n2 = self.norm2.apply(&y, d, &cfg.layer_norm_eps);
        let m = self.mlp.apply(&n2, cfg);
        y.add(&m.mul(&spread_over(&self.layer_scale_2, d, &m)))
    }
}

/// The first `n` layers.
pub open spec fn layers_value(
    layers: Seq<MimiTransformerLayerWeights>,
    n: int,
    x: Tensor,
    cfg: &MimiTransformerConfig,
) -> Tensor
    decreases n,
{
    if n <= 0 {
        x
    } else {
        let b = x.dim(0);
        let t = x.dim(1);
        layers[n - 1].value(
            layers_value(layers, n - 1, x, cfg),
            angle_tensor(UnaryFn::Cos, t, cfg.width(), cfg.max_period),
            angle_tensor(UnaryFn::Sin, t, cfg.width(), cfg.max_period),
            causal_square(t),
            cfg,
            b,
            t,
        )
    }
}

impl ProjectedTransformerWeights {
    /// The signal as `(batch, time, d_model)`.
    pub open spec fn entry(&self, cfg: &MimiTransformerConfig, input_dim: int, xs: Tensor) -> Tensor {
        let x = if cfg.conv_layout {
            xs.permute(seq![0, 2, 1])
        } else {
            xs
        };
        match self.input_proj {
            None => x,
            Some(w) => x.linear(w@, input_dim, cfg.d_model as int),
        }
    }

    /// The signal after all layers, `(batch, time, d_model)`.
    pub open spec fn hidden(&self, cfg: &MimiTransformerConfig, input_dim: int, xs: Tensor) -> Tensor {
        let h = self.entry(cfg, input_dim, xs);
        if cfg.countable(h.dim(0), h.dim(1)) {
            layers_value(self.transformer.layers@, self.transformer.layers@.len() as int, h, cfg)
        } else {
            Tensor::invalid(Error::Shape)
        }
    }

    /// Output `i` for the hidden signal `h`.
    pub open spec fn output(&self, cfg: &MimiTransformerConfig, h: Tensor, i: int) -> Tensor {
        let y = match self.output_projs@[i].0 {
            None => h,
            Some(w) => h.linear(w@, cfg.d_model as int, self.output_projs@[i].1 as int),
        };
        if cfg.conv_layout {
            y.permute(seq![0, 2, 1])
        } else {
            y
        }
    }

    /// All outputs for the hidden signal `h`.
    pub open spec fn outputs(&self, cfg: &MimiTransformerConfig, h: Tensor) -> Seq<Tensor> {
        Seq::new(self.output_projs@.len(), |i: int| self.output(cfg, h, i))
    }

    fn build_hidden(&self, cfg: &MimiTransformerConfig, input_dim: usize, xs: &LazyTensor) -> (r: LazyTensor)
        requires
            cfg.num_heads > 0,
        ensures
            r@ == self.hidden(cfg, input_dim as int, xs@),
    {
        let x = if cfg.conv_layout {
            xs.permute3(0, 2, 1)
        } else {
            xs.clone()
        };
        let h = match &self.input_proj {
            None => x,
            Some(w) => w.apply_linear(&x, input_dim, cfg.d_model),
        };
        let b: usize = h.dim(0);
        let t: usize = h.dim(1);
        if !cfg.can_count(b, t) {
            return LazyTensor::invalid(Error::Shape);
        }
        let (cos, sin) = build_rope_tables(t, cfg.head_dim(), &cfg.max_period);
        let mask = build_causal_mask(t);
        let layers = &self.transformer.layers;
        let mut y = h.clone();
        let mut i: usize = 0;
        while i < layers.len()
            invariant
                i <= layers@.len(),
                layers == self.transformer.layers,
                cfg.num_heads > 0,
                cfg.countable(b as int, t as int),
                b == h@.dim(0),
                t == h@.dim(1),
                cos@ == angle_tensor(UnaryFn::Cos, t as int, cfg.width(), cfg.max_period),
                sin@ == angle_tensor(UnaryFn::Sin, t as int, cfg.width(), cfg.max_period),
                mask@ == causal_square(t as int),
                y@ == layers_value(layers@, i as int, h@, cfg),
            decreases layers@.len() - i,
        {
            y = layers[i].apply(&y, &cos, &sin, &mask, cfg, b, t);
            i = i + 1;
        }
        y
    }

    fn build_output(&self, cfg: &MimiTransformerConfig, h: &LazyTensor, i: usize) -> (r: LazyTensor)
        requires
            i < self.output_projs@.len(),
        ensures
            r@ == self.output(cfg, h@, i as int),
    {
        let y = match &self.output_projs[i].0 {
            None => h.clone(),
            Some(w) => w.apply_linear(h, cfg.d_model, self.output_projs[i].1),
        };
        if cfg.conv_layout {
            y.permute3(0, 2, 1)
        } else {
            y
        }
    }

    /// All outputs, or the first failure: that of the layers, else that of the
    /// first output that has one.
    pub open spec fn result(
        &self,
        cfg: &MimiTransformerConfig,
        input_dim: int,
        xs: Tensor,
        r: Result<Vec<LazyTensor>, Error>,
    ) -> bool {
        let h = self.hidden(cfg, input_dim, xs);
        let outs = self.outputs(cfg, h);
        match r {
            Ok(v) => first_failure(seq![h] + outs) is None && views(v@) == outs,
            Err(e) => first_failure(seq![h] + outs) == Some(e),
        }
    }

    /// The first output, or the first failure.
    pub open spec fn first_output(&self, cfg: &MimiTransformerConfig, input_dim: int, xs: Tensor) -> Tensor {
        let h = self.hidden(cfg, input_dim, xs);
        match first_failure(seq![h] + self.outputs(cfg, h)) {
            Some(e) => Tensor::invalid(e),
            None => self.output(cfg, h, 0),
        }
    }

    pub(crate) fn run(&self, cfg: &MimiTransformerConfig, input_dim: usize, xs: &LazyTensor) -> (r: Result<
        Vec<LazyTensor>,
        Error,
    >)
        requires
            cfg.num_heads > 0,
        ensures
            self.result(cfg, input_dim as int, xs@, r),
    {
        let h = self.build_hidden(cfg, input_dim, xs);
        let ghost want = self.outputs(cfg, h@);
        let mut all: Vec<LazyTensor> = Vec::new();
        let mut outs: Vec<LazyTensor> = Vec::new();
        all.push(h.clone());
        let mut i: usize = 0;
        while i < self.output_projs.len()
            invariant
                i <= self.output_projs@.len(),
                want == self.outputs(cfg, h@),
                views(outs@) == want.take(i as int),
                views(all@) == seq![h@] + want.take(i as int),
            decreases self.output_projs@.len() - i,
        {
            let y = self.build_output(cfg, &h, i);
            let ghost before = views(all@);
            all.push(y.clone());
            assert(views(all@) =~= before.push(y@));
            outs.push(y);
            i = i + 1;
            assert(views(outs@) =~= want.take(i as int));
            assert(views(all@) =~= seq![h@] + want.take(i as int));
        }
        assert(want.take(i as int) =~= want);
        match find_failure(&all) {
            Some(e) => Err(e),
            None => Ok(outs),
        }
    }
}

impl ProjectedTransformerWeights {
    pub(crate) fn run_first(&self, cfg: &MimiTransformerConfig, input_dim: usize, xs: &LazyTensor) -> (r:
        LazyTensor)
        requires
            cfg.num_heads > 0,
            self.output_projs@.len() > 0,
        ensures
            r@ == self.first_output(cfg, input_dim as int, xs@),
    {
        match self.run(cfg, input_dim, xs) {
            Err(e) => LazyTensor::invalid(e),
            Ok(outs) => {
                proof {
                    let h = self.hidden(cfg, input_dim as int, xs@);
                    assert(views(outs@)[0] == self.outputs(cfg, h)[0]);
                }
                outs[0].clone()
            },
        }
    }
}

impl ProjectedTransformerModel {
    /// One signal for each output projection, in the layout of the input.
    pub fn forward(&self, xs: &LazyTensor) -> (r: Result<Vec<LazyTensor>, Error>)
        requires
            self.config.num_heads > 0,
            xs@.rank() == 3,
        ensures
            self.weights.result(&self.config, self.input_dim as int, xs@, r),
    {
        self.weights.run(&self.config, self.input_dim, xs)
    }
}

} // verus!
