//! Mamba-2: a decoder of state-space mixers computed by a chunked scan.
//!
//! ```text
//! residual:  x -> norm -> mixer -> + x
//! mixer:     in_proj -> [z, xbc, dt]
//!            xbc -> depthwise causal conv -> silu -> [x, b, c]
//!            dt  = softplus(dt + dt_bias)
//!            a   = -exp(a_log)
//!            y   = ssd_chunk_scan(x by heads, dt, a, b, c) + x * d
//!            out = out_proj(out_norm(y) * silu(z))
//! ```

use crate::causality::{
    begin_alike, bias_agrees, convolved_rows, convolved_rows_agree, embeddings_agree, piece_agrees,
    rms_norm_agrees, rows_map_alike, sum_agrees,
};
use crate::error::Error;
use crate::evaluation::{agrees, lawful, regroups_behind, same, At};
use crate::extents::{
    broadcast_mul_under, broadcast_to_has, constant_has, embed_has, extents, has, products,
    reshape_has, reshape_merges, reshape_splits, ssd_chunk_scan_keeps,
};
use crate::lazy::{outcome, LazyTensor, Tensor, WeightStorage};
use crate::lazy_mamba::{pad_vocab, padded_vocab};
use crate::scalar::{Data, Scalar};
use vstd::prelude::*;

verus! {

/// Width of the depthwise convolution.
pub const D_CONV: usize = 4;

#[derive(Debug, Clone)]
pub struct Mamba2Config {
    pub d_model: usize,
    pub n_layer: usize,
    pub vocab_size: usize,
    pub d_state: usize,
    pub expand: usize,
    pub head_dim: usize,
    pub ngroups: usize,
    pub pad_vocab_size_multiple: usize,
    pub chunk_size: usize,
    pub rms_norm_eps: Scalar,
}

impl Mamba2Config {
    /// Vocabulary after padding.
    pub open spec fn vocab(&self) -> int {
        padded_vocab(self.vocab_size as int, self.pad_vocab_size_multiple as int)
    }

    /// Width inside a mixer.
    pub open spec fn inner(&self) -> int {
        self.d_model * self.expand
    }

    /// Number of heads of the scan.
    pub open spec fn heads(&self) -> int {
        self.inner() / self.head_dim as int
    }

    /// Width of `b`, and of `c`.
    pub open spec fn group_state(&self) -> int {
        self.ngroups * self.d_state
    }

    /// Width of `x`, `b` and `c` side by side.
    pub open spec fn xbc(&self) -> int {
        self.inner() + 2 * self.group_state()
    }

    /// Width of what `in_proj` yields.
    pub open spec fn proj(&self) -> int {
        self.inner() + self.xbc() + self.heads()
    }

    /// The widths can be counted, and the heads can share the groups evenly.
    pub open spec fn valid(&self) -> bool {
        &&& self.head_dim > 0
        &&& self.chunk_size > 0
        &&& self.vocab() <= usize::MAX
        &&& self.proj() <= usize::MAX
        &&& self.ngroups == self.heads() || (self.ngroups > 0 && self.heads() % self.ngroups as int == 0)
    }

    proof fn widths_fit(&self)
        requires
            self.valid(),
        ensures
            0 <= self.inner() <= usize::MAX,
            0 <= self.heads() <= usize::MAX,
            0 <= self.group_state() <= usize::MAX,
            0 <= 2 * self.group_state() <= usize::MAX,
            0 <= self.xbc() <= usize::MAX,
            self.inner() + self.xbc() <= usize::MAX,
    {
        assert(self.inner() >= 0) by (nonlinear_arith)
            requires
                self.inner() == self.d_model * self.expand,
        ;
        assert(self.group_state() >= 0) by (nonlinear_arith)
            requires
                self.group_state() == self.ngroups * self.d_state,
        ;
        let n = self.inner();
        let d = self.head_dim as int;
        assert(n / d >= 0) by (nonlinear_arith)
            requires
                n >= 0,
                d > 0,
        ;
    }

    /// Vocabulary after padding: the least multiple of the padding unit that
    /// holds every token.
    pub fn vocab_size(&self) -> (r: usize)
        requires
            self.vocab() <= usize::MAX,
        ensures
            r == self.vocab(),
    {
        pad_vocab(self.vocab_size, self.pad_vocab_size_multiple)
    }

    pub fn d_inner(&self) -> (r: usize)
        requires
            self.inner() <= usize::MAX,
        ensures
            r == self.inner(),
    {
        self.d_model * self.expand
    }

    pub fn n_heads(&self) -> (r: usize)
        requires
            self.inner() <= usize::MAX,
            self.head_dim > 0,
        ensures
            r == self.heads(),
    {
        self.d_inner() / self.head_dim
    }

    /// Width of `x`, `b` and `c` side by side.
    pub fn d_xbc(&self) -> (r: usize)
        requires
            self.valid(),
        ensures
            r == self.xbc(),
    {
        proof {
            self.widths_fit();
        }
        assert(2 * self.ngroups <= usize::MAX || self.d_state == 0) by (nonlinear_arith)
            requires
                2 * (self.ngroups * self.d_state) <= usize::MAX,
        ;
        let g: usize = self.ngroups * self.d_state;
        self.d_inner() + 2 * g
    }

    /// The `mamba2-130m` sizes.
    pub fn mamba2_130m() -> (r: Self)
        ensures
            r == (Mamba2Config {
                d_model: 768,
                n_layer: 24,
                vocab_size: 50_277,
                d_state: 64,
                expand: 2,
                head_dim: 64,
                ngroups: 1,
                pad_vocab_size_multiple: 16,
                chunk_size: 256,
                rms_norm_eps: Scalar::F64(0x3EE4_F8B5_88E3_68F1),
            }),
            r.valid(),
    {
        assert(padded_vocab(50_277, 16) == 50288) by (nonlinear_arith);
        assert(768int * 2 / 64 == 24) by (nonlinear_arith);
        assert(1int * 64 == 64) by (nonlinear_arith);
        Mamba2Config {
            d_model: 768,
            n_layer: 24,
            vocab_size: 50_277,
            d_state: 64,
            expand: 2,
            head_dim: 64,
            ngroups: 1,
            pad_vocab_size_multiple: 16,
            chunk_size: 256,
            rms_norm_eps: Scalar::F64(0x3EE4_F8B5_88E3_68F1),
        }
    }
}

/// Weights of one mixer block.
#[derive(Debug, Clone)]
pub struct Mamba2LayerWeights {
    /// `[d_model]`.
    pub norm_gain: Data,
    /// `[d_model, d_inner + d_xbc + n_heads]`.
    pub in_proj: WeightStorage,
    /// `[d_xbc, 1, D_CONV]`.
    pub conv1d_weight: Data,
    /// `[d_xbc]`.
    pub conv1d_bias: Data,
    /// `[n_heads]`; `a = -exp(a_log)`.
    pub a_log: Data,
    /// `[n_heads]`: scale of the skip path.
    pub d: Data,
    /// `[n_heads]`: added to the steps before `softplus`.
    pub dt_bias: Data,
    /// `[d_inner]`.
    pub out_norm_gain: Data,
    /// `[d_inner, d_model]`.
    pub out_proj: WeightStorage,
}

#[derive(Debug, Clone)]
pub struct Mamba2Weights {
    pub token_embedding: Data,
    pub layers: Vec<Mamba2LayerWeights>,
    pub final_norm_gain: Data,
    pub output: WeightStorage,
}

#[derive(Debug, Clone)]
pub struct Mamba2Model {
    pub config: Mamba2Config,
    pub weights: Mamba2Weights,
}

/// `b` or `c` of `(batch, seq, ngroups, d_state)`, repeated for the heads of
/// each group.
pub open spec fn by_head(cfg: &Mamba2Config, t: Tensor, batch: int, seq: int) -> Tensor {
    let g = cfg.ngroups as int;
    let n = cfg.d_state as int;
    if g == cfg.heads() {
        t
    } else {
        t.reshape(seq![batch, seq, g, 1, n]).broadcast_to(
            seq![batch, seq, g, cfg.heads() / g, n],
        ).reshape(seq![batch, seq, cfg.heads(), n])
    }
}

/// The steps of the scan: `ln(1 + exp(dt + bias))`.
pub open spec fn steps(w: &Mamba2LayerWeights, dt: Tensor, heads: int) -> Tensor {
    dt.broadcast_add(Tensor::constant(w.dt_bias@, seq![heads])).exp().add_scalar(
        crate::scalar::one64(),
    ).log()
}

/// What a mixer makes of `x (batch, seq, d_model)`.
pub open spec fn mixer(cfg: &Mamba2Config, w: &Mamba2LayerWeights, x: Tensor) -> Tensor {
    let batch = x.dim(0);
    let seq = x.dim(1);
    let inner = cfg.inner();
    let xbc_w = cfg.xbc();
    let heads = cfg.heads();
    let gs = cfg.group_state();
    let proj = x.linear(w.in_proj@, cfg.d_model as int, cfg.proj());
    let z = proj.narrow(2, 0, inner);
    let xbc = proj.narrow(2, inner, xbc_w);
    let dt = proj.narrow(2, inner + xbc_w, heads);
    let conv = xbc.permute(seq![0, 2, 1]).pad_with_zeros(2, D_CONV - 1, 0).causal_conv1d(
        Tensor::constant(w.conv1d_weight@, seq![xbc_w, 1, D_CONV as int]),
        Tensor::constant(w.conv1d_bias@, seq![xbc_w]),
        true,
    ).permute(seq![0, 2, 1]);
    let xh = conv.narrow(2, 0, inner).reshape(seq![batch, seq, heads, cfg.head_dim as int]);
    let b = conv.narrow(2, inner, gs).reshape(seq![batch, seq, cfg.ngroups as int, cfg.d_state as int]);
    let c = conv.narrow(2, inner + gs, gs).reshape(
        seq![batch, seq, cfg.ngroups as int, cfg.d_state as int],
    );
    let a = Tensor::constant(w.a_log@, seq![heads]).exp().neg();
    let y = xh.ssd_chunk_scan(
        steps(w, dt, heads),
        a,
        by_head(cfg, b, batch, seq),
        by_head(cfg, c, batch, seq),
        cfg.chunk_size as int,
    );
    let skip = xh.broadcast_mul(Tensor::constant(w.d@, seq![heads]).reshape(seq![1, 1, heads, 1]));
    y.add(skip).reshape(seq![batch, seq, inner]).rms_norm(
        w.out_norm_gain@,
        inner,
        cfg.rms_norm_eps,
    ).mul(z.silu()).linear(w.out_proj@, inner, cfg.d_model as int)
}

/// A mixer on the normed input, added to the input.
pub open spec fn residual_block(cfg: &Mamba2Config, w: &Mamba2LayerWeights, x: Tensor) -> Tensor {
    x.add(mixer(cfg, w, x.rms_norm(w.norm_gain@, cfg.d_model as int, cfg.rms_norm_eps)))
}

/// The first `n` blocks, one after the other.
pub open spec fn blocks(cfg: &Mamba2Config, layers: Seq<Mamba2LayerWeights>, n: int, x: Tensor) -> Tensor
    decreases n,
{
    if n <= 0 {
        x
    } else {
        residual_block(cfg, &layers[n - 1], blocks(cfg, layers, n - 1, x))
    }
}

impl Mamba2Model {
    /// Final hidden states `(1, seq, d_model)`.
    pub open spec fn hidden(&self, tokens: Seq<u32>) -> Tensor {
        let cfg = &self.config;
        let d = cfg.d_model as int;
        blocks(
            cfg,
            self.weights.layers@,
            self.weights.layers@.len() as int,
            Tensor::embed_tokens(self.weights.token_embedding@, cfg.vocab(), d, tokens),
        ).rms_norm(self.weights.final_norm_gain@, d, cfg.rms_norm_eps)
    }

    /// Logits `(1, seq, vocab)`.
    pub open spec fn logits(&self, tokens: Seq<u32>) -> Tensor {
        self.hidden(tokens).linear(
            self.weights.output@,
            self.config.d_model as int,
            self.config.vocab(),
        )
    }

    /// Logits `(1, seq, vocab)` of a whole sequence, whose length is a multiple
    /// of the chunk length.
    pub fn forward(&self, tokens: &[u32]) -> (r: Result<LazyTensor, Error>)
        requires
            self.config.valid(),
            tokens@.len() > 0,
            tokens@.len() % self.config.chunk_size as nat == 0,
        ensures
            outcome(r, self.logits(tokens@)),
    {
        let h = self.run_backbone(tokens);
        self.weights.output.apply_linear(&h, self.config.d_model, self.config.vocab_size()).finish()
    }

    /// Final hidden states `(1, seq, d_model)` of a whole sequence.
    pub fn forward_hidden(&self, tokens: &[u32]) -> (r: Result<LazyTensor, Error>)
        requires
            self.config.valid(),
            tokens@.len() > 0,
            tokens@.len() % self.config.chunk_size as nat == 0,
        ensures
            outcome(r, self.hidden(tokens@)),
    {
        self.run_backbone(tokens).finish()
    }

    fn run_backbone(&self, tokens: &[u32]) -> (r: LazyTensor)
        requires
            self.config.valid(),
        ensures
            r@ == self.hidden(tokens@),
    {
        let cfg = &self.config;
        let weights = &self.weights;
        let mut h = LazyTensor::embed_tokens(
            &weights.token_embedding,
            cfg.vocab_size(),
            cfg.d_model,
            tokens,
        );
        let ghost h0 = h@;
        let mut i: usize = 0;
        while i < weights.layers.len()
            invariant
                cfg == &self.config,
                weights == &self.weights,
                cfg.valid(),
                i <= weights.layers@.len(),
                h@ == blocks(cfg, weights.layers@, i as int, h0),
            decreases weights.layers@.len() - i,
        {
            h = self.apply_residual_block(&h, &weights.layers[i]);
            i = i + 1;
        }
        h.rms_norm(&weights.final_norm_gain, cfg.d_model, &cfg.rms_norm_eps)
    }

    fn apply_residual_block(&self, x: &LazyTensor, layer: &Mamba2LayerWeights) -> (r: LazyTensor)
        requires
            self.config.valid(),
        ensures
            r@ == residual_block(&self.config, layer, x@),
    {
        let cfg = &self.config;
        let x_norm = x.rms_norm(&layer.norm_gain, cfg.d_model, &cfg.rms_norm_eps);
        x.add(&self.apply_mixer(&x_norm, layer))
    }

    fn expand(&self, t: &LazyTensor, batch: usize, seq: usize) -> (r: LazyTensor)
        requires
            self.config.valid(),
        ensures
            r@ == by_head(&self.config, t@, batch as int, seq as int),
    {
        let cfg = &self.config;
        proof {
            cfg.widths_fit();
        }
        let n_heads: usize = cfg.n_heads();
        if cfg.ngroups == n_heads {
            return t.clone();
        }
        let n_per_group: usize = n_heads / cfg.ngroups;
        t.reshape5(batch, seq, cfg.ngroups, 1, cfg.d_state).broadcast_to5(
            batch,
            seq,
            cfg.ngroups,
            n_per_group,
            cfg.d_state,
        ).reshape4(batch, seq, n_heads, cfg.d_state)
    }

    fn apply_mixer(&self, x: &LazyTensor, layer: &Mamba2LayerWeights) -> (r: LazyTensor)
        requires
            self.config.valid(),
        ensures
            r@ == mixer(&self.config, layer, x@),
    {
        let cfg = &self.config;
        proof {
            cfg.widths_fit();
        }
        let d_inner: usize = cfg.d_inner();
        let d_xbc: usize = cfg.d_xbc();
        let n_heads: usize = cfg.n_heads();
        let batch: usize = x.dim(0);
        let seq: usize = x.dim(1);

        let proj = layer.in_proj.apply_linear(x, cfg.d_model, d_inner + d_xbc + n_heads);
        let z = proj.narrow(2, 0, d_inner);
        let xbc = proj.narrow(2, d_inner, d_xbc);
        let dt = proj.narrow(2, d_inner + d_xbc, n_heads);

        let conv_w = LazyTensor::const3(&layer.conv1d_weight, d_xbc, 1, D_CONV);
        let conv_b = LazyTensor::const1(&layer.conv1d_bias, d_xbc);
        let conv = xbc.permute3(0, 2, 1).pad_with_zeros(2, D_CONV - 1, 0).causal_conv1d(
            &conv_w,
            &conv_b,
            true,
        ).permute3(0, 2, 1);

        let bc_dim: usize = cfg.ngroups * cfg.d_state;
        let x_heads = conv.narrow(2, 0, d_inner).reshape4(batch, seq, n_heads, cfg.head_dim);
        let b = conv.narrow(2, d_inner, bc_dim).reshape4(batch, seq, cfg.ngroups, cfg.d_state);
        let c = conv.narrow(2, d_inner + bc_dim, bc_dim).reshape4(
            batch,
            seq,
            cfg.ngroups,
            cfg.d_state,
        );
        let b_heads = self.expand(&b, batch, seq);
        let c_heads = self.expand(&c, batch, seq);

        let dt_soft = dt.broadcast_add(&LazyTensor::const1(&layer.dt_bias, n_heads)).exp().add_scalar(
            &Scalar::F64(0x3FF0_0000_0000_0000),
        ).log();
        let a = LazyTensor::const1(&layer.a_log, n_heads).exp().neg();
        let y = x_heads.ssd_chunk_scan(&dt_soft, &a, &b_heads, &c_heads, cfg.chunk_size);

        let d_per_head = LazyTensor::const1(&layer.d, n_heads).reshape4(1, 1, n_heads, 1);
        let skip = x_heads.broadcast_mul(&d_per_head);
        let y_flat = y.add(&skip).reshape3(batch, seq, d_inner);
        let gated = y_flat.rms_norm(&layer.out_norm_gain, d_inner, &cfg.rms_norm_eps).mul(&z.silu());
        layer.out_proj.apply_linear(&gated, d_inner, cfg.d_model)
    }
}

impl Mamba2Config {
    /// The heads fill the width inside a mixer, all sizes are positive, and for
    /// `seq` tokens every tensor can be addressed.
    pub open spec fn addressable(&self, seq: int) -> bool {
        let d = self.d_model as int;
        let inner = self.inner();
        &&& self.valid()
        &&& self.heads() * self.head_dim == inner
        &&& d >= 1
        &&& self.expand >= 1
        &&& self.d_state >= 1
        &&& self.ngroups >= 1
        &&& self.vocab() >= 1
        &&& seq >= 1
        &&& seq % self.chunk_size as int == 0
        &&& seq + D_CONV <= usize::MAX
        &&& seq * d <= usize::MAX
        &&& seq * inner <= usize::MAX
        &&& seq * (self.heads() * self.d_state) <= usize::MAX
        &&& d * self.proj() <= usize::MAX
        &&& self.xbc() * D_CONV <= usize::MAX
        &&& inner * d <= usize::MAX
        &&& d * self.vocab() <= usize::MAX
    }
}

impl Mamba2LayerWeights {
    /// Every weight has the size that the configuration declares.
    pub open spec fn sized(&self, cfg: &Mamba2Config) -> bool {
        let d = cfg.d_model as int;
        let inner = cfg.inner();
        &&& self.norm_gain@.len() == d
        &&& self.in_proj@.len() == d * cfg.proj()
        &&& self.conv1d_weight@.len() == cfg.xbc() * D_CONV
        &&& self.conv1d_bias@.len() == cfg.xbc()
        &&& self.a_log@.len() == cfg.heads()
        &&& self.d@.len() == cfg.heads()
        &&& self.dt_bias@.len() == cfg.heads()
        &&& self.out_norm_gain@.len() == inner
        &&& self.out_proj@.len() == inner * d
    }
}

impl Mamba2Weights {
    /// Every weight has the size that the configuration declares.
    pub open spec fn sized(&self, cfg: &Mamba2Config) -> bool {
        let d = cfg.d_model as int;
        &&& self.token_embedding@.len() == cfg.vocab() * d
        &&& forall|i: int| 0 <= i < self.layers@.len() ==> (#[trigger] self.layers@[i]).sized(cfg)
        &&& self.final_norm_gain@.len() == d
        &&& self.output@.len() == d * cfg.vocab()
    }
}

/// Repeated for the heads, `b` and `c` have one row for each head.
pub proof fn by_head_has(cfg: &Mamba2Config, t: Tensor, s: int)
    requires
        cfg.addressable(s),
        cfg.heads() >= 1,
        has(t, seq![1, s, cfg.ngroups as int, cfg.d_state as int]),
    ensures
        has(by_head(cfg, t, 1, s), seq![1, s, cfg.heads(), cfg.d_state as int]),
        cfg.ngroups != cfg.heads() ==> {
            let g = cfg.ngroups as int;
            let n = cfg.d_state as int;
            let a = t.reshape(seq![1, s, g, 1, n]);
            &&& has(a, seq![1, s, g, 1, n])
            &&& has(a.broadcast_to(seq![1, s, g, cfg.heads() / g, n]), seq![1, s, g, cfg.heads() / g, n])
        },
{
    let g = cfg.ngroups as int;
    let n = cfg.d_state as int;
    let h = cfg.heads();
    if g != h {
        let r = h / g;
        vstd::arithmetic::div_mod::lemma_fundamental_div_mod(h, g);
        assert(r >= 1) by (nonlinear_arith)
            requires
                h == g * r,
                h >= 1,
                g >= 1,
        ;
        products(1, s, g, n, 1, 1);
        products(1, s, g, 1, n, 1);
        products(1, s, g, r, n, 1);
        products(1, s, h, n, 1, 1);
        assert(1 * s * g * 1 * n == 1 * s * g * n) by (nonlinear_arith);
        assert(1 * s * g * r * n == s * (h * n) && 1 * s * h * n == s * (h * n)) by (nonlinear_arith)
            requires
                h == g * r,
        ;
        assert(1 * s * g * n <= s * (h * n)) by (nonlinear_arith)
            requires
                h == g * r,
                r >= 1,
                g >= 1,
                s >= 1,
                n >= 1,
        ;
        let a = t.reshape(seq![1, s, g, 1, n]);
        reshape_has(t, seq![1, s, g, 1, n]);
        broadcast_to_has(a, seq![1, s, g, r, n]);
        reshape_has(a.broadcast_to(seq![1, s, g, r, n]), seq![1, s, h, n]);
    }
}

/// A block keeps the extents of its operand.
#[verifier::rlimit(40)]
pub proof fn block_has(cfg: &Mamba2Config, w: &Mamba2LayerWeights, x: Tensor, s: int)
    requires
        cfg.addressable(s),
        w.sized(cfg),
        has(x, seq![1, s, cfg.d_model as int]),
    ensures
        has(residual_block(cfg, w, x), seq![1, s, cfg.d_model as int]),
{
    broadcast use extents;

    let d = cfg.d_model as int;
    let inner = cfg.inner();
    let xbc_w = cfg.xbc();
    let heads = cfg.heads();
    let hd = cfg.head_dim as int;
    let gs = cfg.group_state();
    let g = cfg.ngroups as int;
    let n = cfg.d_state as int;
    assert(inner >= 1) by (nonlinear_arith)
        requires
            inner == d * cfg.expand,
            d >= 1,
            cfg.expand >= 1,
    ;
    assert(heads >= 1) by (nonlinear_arith)
        requires
            heads * hd == inner,
            inner >= 1,
            hd >= 1,
    ;
    assert(gs >= 1) by (nonlinear_arith)
        requires
            gs == g * n,
            g >= 1,
            n >= 1,
    ;
    assert(g <= heads) by {
        if g != heads {
            vstd::arithmetic::div_mod::lemma_fundamental_div_mod(heads, g);
            assert(g <= heads) by (nonlinear_arith)
                requires
                    heads == g * (heads / g),
                    heads >= 1,
                    g >= 1,
            ;
        }
    }
    assert(s * gs <= s * (heads * n)) by (nonlinear_arith)
        requires
            gs == g * n,
            1 <= g <= heads,
            n >= 1,
            s >= 1,
    ;
    products(xbc_w, 1, D_CONV as int, 1, 1, 1);
    assert(xbc_w * 1 * D_CONV == xbc_w * D_CONV) by (nonlinear_arith);
    constant_has(w.conv1d_weight@, seq![xbc_w, 1, D_CONV as int]);
    let y = x.rms_norm(w.norm_gain@, d, cfg.rms_norm_eps);
    let proj = y.linear(w.in_proj@, d, cfg.proj());
    assert(has(proj, seq![1, s, cfg.proj()]));
    let z = proj.narrow(2, 0, inner);
    assert(z.dims =~= seq![1, s, inner]);
    let xbc = proj.narrow(2, inner, xbc_w);
    let dt = proj.narrow(2, inner + xbc_w, heads);
    assert(dt.dims =~= seq![1, s, heads]);
    let front = xbc.permute(seq![0, 2, 1]).pad_with_zeros(2, D_CONV - 1, 0);
    assert(front.dims =~= seq![1, xbc_w, s + 3]);
    let conv = front.causal_conv1d(
        Tensor::constant(w.conv1d_weight@, seq![xbc_w, 1, D_CONV as int]),
        Tensor::constant(w.conv1d_bias@, seq![xbc_w]),
        true,
    ).permute(seq![0, 2, 1]);
    assert(has(conv, seq![1, s, xbc_w]));
    let x0 = conv.narrow(2, 0, inner);
    let b0 = conv.narrow(2, inner, gs);
    let c0 = conv.narrow(2, inner + gs, gs);
    assert(x0.dims =~= seq![1, s, heads * hd]);
    assert(b0.dims =~= seq![1, s, g * n]);
    assert(c0.dims =~= seq![1, s, g * n]);
    assert(1 * s * (heads * hd) == s * inner && 1 * s * (g * n) == s * gs) by (nonlinear_arith)
        requires
            heads * hd == inner,
            g * n == gs,
    ;
    reshape_splits(x0, 1, s, heads, hd);
    reshape_splits(b0, 1, s, g, n);
    reshape_splits(c0, 1, s, g, n);
    let xh = x0.reshape(seq![1, s, heads, hd]);
    let b = b0.reshape(seq![1, s, g, n]);
    let c = c0.reshape(seq![1, s, g, n]);
    by_head_has(cfg, b, s);
    by_head_has(cfg, c, s);
    let a = Tensor::constant(w.a_log@, seq![heads]).exp().neg();
    let st = steps(w, dt, heads);
    assert(has(st, seq![1, s, heads]));
    ssd_chunk_scan_keeps(
        xh,
        st,
        a,
        by_head(cfg, b, 1, s),
        by_head(cfg, c, 1, s),
        cfg.chunk_size as int,
    );
    let scanned = xh.ssd_chunk_scan(
        st,
        a,
        by_head(cfg, b, 1, s),
        by_head(cfg, c, 1, s),
        cfg.chunk_size as int,
    );
    products(heads, 1, 1, 1, 1, 1);
    products(1, 1, heads, 1, 1, 1);
    let dv = Tensor::constant(w.d@, seq![heads]);
    reshape_has(dv, seq![1, 1, heads, 1]);
    broadcast_mul_under(xh, dv.reshape(seq![1, 1, heads, 1]));
    let skip = xh.broadcast_mul(dv.reshape(seq![1, 1, heads, 1]));
    reshape_merges(scanned.add(skip), 1, s, heads, hd);
    let flat = scanned.add(skip).reshape(seq![1, s, inner]);
    assert(has(flat, seq![1, s, inner]));
}

pub proof fn blocks_have(cfg: &Mamba2Config, layers: Seq<Mamba2LayerWeights>, n: int, x: Tensor, s: int)
    requires
        cfg.addressable(s),
        0 <= n <= layers.len(),
        forall|i: int| 0 <= i < layers.len() ==> (#[trigger] layers[i]).sized(cfg),
        has(x, seq![1, s, cfg.d_model as int]),
    ensures
        has(blocks(cfg, layers, n, x), seq![1, s, cfg.d_model as int]),
    decreases n,
{
    if n > 0 {
        blocks_have(cfg, layers, n - 1, x, s);
        block_has(cfg, &layers[n - 1], blocks(cfg, layers, n - 1, x), s);
    }
}

/// On weights of the declared sizes a run over a whole number of chunks
/// succeeds: the hidden states are `(1, seq, d_model)`, the logits
/// `(1, seq, vocab)` with the padded vocabulary.
pub proof fn forward_succeeds(model: &Mamba2Model, tokens: Seq<u32>)
    requires
        model.config.addressable(tokens.len() as int),
        model.weights.sized(&model.config),
    ensures
        has(
            model.hidden(tokens),
            seq![1, tokens.len() as int, model.config.d_model as int],
        ),
        has(model.logits(tokens), seq![1, tokens.len() as int, model.config.vocab()]),
{
    broadcast use extents;

    let cfg = &model.config;
    let d = cfg.d_model as int;
    let s = tokens.len() as int;
    assert(cfg.vocab() * d == d * cfg.vocab()) by (nonlinear_arith);
    embed_has(model.weights.token_embedding@, cfg.vocab(), d, tokens);
    blocks_have(
        cfg,
        model.weights.layers@,
        model.weights.layers@.len() as int,
        Tensor::embed_tokens(model.weights.token_embedding@, cfg.vocab(), d, tokens),
        s,
    );
}

/// Groups repeated for their heads agree as far as they did.
proof fn by_head_agrees<V>(at: At<V>, cfg: &Mamba2Config, x: Tensor, y: Tensor, t: int, u: int, m: int)
    requires
        lawful(at),
        cfg.addressable(t),
        cfg.addressable(u),
        cfg.heads() >= 1,
        has(x, seq![1, t, cfg.ngroups as int, cfg.d_state as int]),
        has(y, seq![1, u, cfg.ngroups as int, cfg.d_state as int]),
        agrees(at, x, y, 1, m),
    ensures
        agrees(at, by_head(cfg, x, 1, t), by_head(cfg, y, 1, u), 1, m),
{
    let g = cfg.ngroups as int;
    let n = cfg.d_state as int;
    let h = cfg.heads();
    by_head_has(cfg, x, t);
    by_head_has(cfg, y, u);
    if g != h {
        let r = h / g;
        let (d5, e5) = (seq![1, t, g, 1, n], seq![1, u, g, 1, n]);
        let (dr, er) = (seq![1, t, g, r, n], seq![1, u, g, r, n]);
        let (d4, e4) = (seq![1, t, h, n], seq![1, u, h, n]);
        let (rx, ry) = (x.reshape(d5), y.reshape(e5));
        let (bx, by) = (rx.broadcast_to(dr), ry.broadcast_to(er));
        assert(regroups_behind(x.dims, y.dims, d5, e5, 1));
        assert(regroups_behind(dr, er, d4, e4, 1));
        assert(d5.update(1, u) =~= e5);
        assert(dr.update(1, u) =~= er);
        assert forall|j: int| 0 <= j < m implies #[trigger] same(at, bx.reshape(d4), by.reshape(e4), 1, j) by {
            assert(same(at, x, y, 1, j));
            assert(same(at, rx, ry, 1, j));
            assert(same(at, bx, by, 1, j));
        }
    }
}

/// Features of each row as a matrix.
proof fn split_rows_agree<V>(at: At<V>, x: Tensor, y: Tensor, h: int, w: int, t: int, u: int, m: int)
    requires
        lawful(at),
        has(x, seq![1, t, h * w]),
        has(y, seq![1, u, h * w]),
        h >= 1,
        w >= 1,
        t >= 1,
        u >= 1,
        t * (h * w) <= usize::MAX,
        u * (h * w) <= usize::MAX,
        agrees(at, x, y, 1, m),
    ensures
        has(x.reshape(seq![1, t, h, w]), seq![1, t, h, w]),
        has(y.reshape(seq![1, u, h, w]), seq![1, u, h, w]),
        agrees(at, x.reshape(seq![1, t, h, w]), y.reshape(seq![1, u, h, w]), 1, m),
{
    let (d, e) = (seq![1, t, h, w], seq![1, u, h, w]);
    assert(1 * t * (h * w) == t * (h * w) && 1 * u * (h * w) == u * (h * w));
    reshape_splits(x, 1, t, h, w);
    reshape_splits(y, 1, u, h, w);
    assert(regroups_behind(x.dims, y.dims, d, e, 1));
    assert forall|j: int| 0 <= j < m implies #[trigger] same(at, x.reshape(d), y.reshape(e), 1, j) by {
        assert(same(at, x, y, 1, j));
    }
}

/// The sizes that a block works with.
pub proof fn sizes_are_positive(cfg: &Mamba2Config, s: int)
    requires
        cfg.addressable(s),
    ensures
        cfg.inner() >= 1,
        cfg.heads() >= 1,
        cfg.group_state() >= 1,
        s * cfg.group_state() <= usize::MAX,
{
    let inner = cfg.inner();
    let heads = cfg.heads();
    let gs = cfg.group_state();
    let g = cfg.ngroups as int;
    let n = cfg.d_state as int;
    assert(inner >= 1) by (nonlinear_arith)
        requires
            inner == cfg.d_model * cfg.expand,
            cfg.d_model >= 1,
            cfg.expand >= 1,
    ;
    assert(heads >= 1) by (nonlinear_arith)
        requires
            heads * cfg.head_dim == inner,
            inner >= 1,
            cfg.head_dim >= 1,
    ;
    assert(gs >= 1) by (nonlinear_arith)
        requires
            gs == g * n,
            g >= 1,
            n >= 1,
    ;
    if g != heads {
        vstd::arithmetic::div_mod::lemma_fundamental_div_mod(heads, g);
        assert(g <= heads) by (nonlinear_arith)
            requires
                heads == g * (heads / g),
                heads >= 1,
                g >= 1,
        ;
    }
    assert(s * gs <= s * (heads * n)) by (nonlinear_arith)
        requires
            gs == g * n,
            1 <= g <= heads,
            n >= 1,
            s >= 1,
    ;
}

/// The scan, with what skips it, as rows.
pub open spec fn scanned_rows(
    cfg: &Mamba2Config,
    w: &Mamba2LayerWeights,
    xh: Tensor,
    dt: Tensor,
    b: Tensor,
    c: Tensor,
    t: int,
) -> Tensor {
    let heads = cfg.heads();
    let a = Tensor::constant(w.a_log@, seq![heads]).exp().neg();
    let y = xh.ssd_chunk_scan(
        steps(w, dt, heads),
        a,
        by_head(cfg, b, 1, t),
        by_head(cfg, c, 1, t),
        cfg.chunk_size as int,
    );
    let skip = xh.broadcast_mul(Tensor::constant(w.d@, seq![heads]).reshape(seq![1, 1, heads, 1]));
    y.add(skip).reshape(seq![1, t, cfg.inner()])
}

/// The steps of the scan succeed.
proof fn scanned_rows_have(
    cfg: &Mamba2Config,
    w: &Mamba2LayerWeights,
    xh: Tensor,
    dt: Tensor,
    b: Tensor,
    c: Tensor,
    t: int,
)
    requires
        cfg.addressable(t),
        w.sized(cfg),
        has(xh, seq![1, t, cfg.heads(), cfg.head_dim as int]),
        has(dt, seq![1, t, cfg.heads()]),
        has(b, seq![1, t, cfg.ngroups as int, cfg.d_state as int]),
        has(c, seq![1, t, cfg.ngroups as int, cfg.d_state as int]),
    ensures
        ({
            let heads = cfg.heads();
            let hd = cfg.head_dim as int;
            let a = Tensor::constant(w.a_log@, seq![heads]).exp().neg();
            let y = xh.ssd_chunk_scan(
                steps(w, dt, heads),
                a,
                by_head(cfg, b, 1, t),
                by_head(cfg, c, 1, t),
                cfg.chunk_size as int,
            );
            let row = Tensor::constant(w.d@, seq![heads]).reshape(seq![1, 1, heads, 1]);
            &&& has(steps(w, dt, heads), seq![1, t, heads])
            &&& has(y, seq![1, t, heads, hd])
            &&& has(row, seq![1, 1, heads, 1])
            &&& has(xh.broadcast_mul(row), seq![1, t, heads, hd])
            &&& has(y.add(xh.broadcast_mul(row)), seq![1, t, heads, hd])
            &&& has(scanned_rows(cfg, w, xh, dt, b, c, t), seq![1, t, cfg.inner()])
        }),
{
    broadcast use extents;

    let heads = cfg.heads();
    let hd = cfg.head_dim as int;
    sizes_are_positive(cfg, t);
    by_head_has(cfg, b, t);
    by_head_has(cfg, c, t);
    let a = Tensor::constant(w.a_log@, seq![heads]).exp().neg();
    let st = steps(w, dt, heads);
    assert(has(st, seq![1, t, heads]));
    let (bh, ch) = (by_head(cfg, b, 1, t), by_head(cfg, c, 1, t));
    ssd_chunk_scan_keeps(xh, st, a, bh, ch, cfg.chunk_size as int);
    let y = xh.ssd_chunk_scan(st, a, bh, ch, cfg.chunk_size as int);
    products(heads, 1, 1, 1, 1, 1);
    products(1, 1, heads, 1, 1, 1);
    let dv = Tensor::constant(w.d@, seq![heads]);
    reshape_has(dv, seq![1, 1, heads, 1]);
    broadcast_mul_under(xh, dv.reshape(seq![1, 1, heads, 1]));
    let skip = xh.broadcast_mul(dv.reshape(seq![1, 1, heads, 1]));
    assert(1 * t * (heads * hd) == t * cfg.inner()) by (nonlinear_arith)
        requires
            heads * hd == cfg.inner(),
    ;
    reshape_merges(y.add(skip), 1, t, heads, hd);
}

proof fn scanned_rows_agree<V>(
    at: At<V>,
    cfg: &Mamba2Config,
    w: &Mamba2LayerWeights,
    xh: Tensor,
    dx: Tensor,
    bx: Tensor,
    cx: Tensor,
    yh: Tensor,
    dy: Tensor,
    by: Tensor,
    cy: Tensor,
    t: int,
    u: int,
    m: int,
)
    requires
        lawful(at),
        cfg.addressable(t),
        cfg.addressable(u),
        w.sized(cfg),
        has(xh, seq![1, t, cfg.heads(), cfg.head_dim as int]),
        has(dx, seq![1, t, cfg.heads()]),
        has(bx, seq![1, t, cfg.ngroups as int, cfg.d_state as int]),
        has(cx, seq![1, t, cfg.ngroups as int, cfg.d_state as int]),
        has(yh, seq![1, u, cfg.heads(), cfg.head_dim as int]),
        has(dy, seq![1, u, cfg.heads()]),
        has(by, seq![1, u, cfg.ngroups as int, cfg.d_state as int]),
        has(cy, seq![1, u, cfg.ngroups as int, cfg.d_state as int]),
        m <= t,
        m <= u,
        agrees(at, xh, yh, 1, m),
        agrees(at, dx, dy, 1, m),
        agrees(at, bx, by, 1, m),
        agrees(at, cx, cy, 1, m),
    ensures
        agrees(
            at,
            scanned_rows(cfg, w, xh, dx, bx, cx, t),
            scanned_rows(cfg, w, yh, dy, by, cy, u),
            1,
            m,
        ),
{
    broadcast use extents;

    let heads = cfg.heads();
    let hd = cfg.head_dim as int;
    let inner = cfg.inner();
    let one = crate::scalar::one64();
    sizes_are_positive(cfg, t);
    scanned_rows_have(cfg, w, xh, dx, bx, cx, t);
    scanned_rows_have(cfg, w, yh, dy, by, cy, u);
    by_head_agrees(at, cfg, bx, by, t, u, m);
    by_head_agrees(at, cfg, cx, cy, t, u, m);
    let bias = Tensor::constant(w.dt_bias@, seq![heads]);
    bias_agrees(at, dx, dy, bias, m);
    let (lx, ly) = (dx.broadcast_add(bias), dy.broadcast_add(bias));
    let (sx, sy) = (steps(w, dx, heads), steps(w, dy, heads));
    assert forall|j: int| 0 <= j < m implies #[trigger] same(at, sx, sy, 1, j) by {
        assert(same(at, lx, ly, 1, j));
        assert(same(at, lx.exp(), ly.exp(), 1, j));
        assert(same(at, lx.exp().add_scalar(one), ly.exp().add_scalar(one), 1, j));
        assert(same(
            at,
            lx.exp().add_scalar(one).log(),
            ly.exp().add_scalar(one).log(),
            1,
            j,
        ));
    }
    let a = Tensor::constant(w.a_log@, seq![heads]).exp().neg();
    let chunk = cfg.chunk_size as int;
    let (px, py) = (by_head(cfg, bx, 1, t), by_head(cfg, by, 1, u));
    let (qx, qy) = (by_head(cfg, cx, 1, t), by_head(cfg, cy, 1, u));
    let (vx, vy) = (xh.ssd_chunk_scan(sx, a, px, qx, chunk), yh.ssd_chunk_scan(sy, a, py, qy, chunk));
    let row = Tensor::constant(w.d@, seq![heads]).reshape(seq![1, 1, heads, 1]);
    let (kx, ky) = (xh.broadcast_mul(row), yh.broadcast_mul(row));
    let (d, e) = (seq![1, t, inner], seq![1, u, inner]);
    assert(regroups_behind(vx.add(kx).dims, vy.add(ky).dims, d, e, 1));
    assert forall|j: int| 0 <= j < m implies #[trigger] same(
        at,
        vx.add(kx).reshape(d),
        vy.add(ky).reshape(e),
        1,
        j,
    ) by {
        assert(same(at, vx, vy, 1, j));
        assert(same(at, xh, yh, 1, j));
        assert(same(at, kx, ky, 1, j));
        assert(same(at, vx.add(kx), vy.add(ky), 1, j));
    }
}

proof fn block_agrees<V>(
    at: At<V>,
    cfg: &Mamba2Config,
    w: &Mamba2LayerWeights,
    x: Tensor,
    y: Tensor,
    t: int,
    u: int,
    m: int,
)
    requires
        lawful(at),
        cfg.addressable(t),
        cfg.addressable(u),
        w.sized(cfg),
        has(x, seq![1, t, cfg.d_model as int]),
        has(y, seq![1, u, cfg.d_model as int]),
        m <= t,
        m <= u,
        agrees(at, x, y, 1, m),
    ensures
        agrees(at, residual_block(cfg, w, x), residual_block(cfg, w, y), 1, m),
{
    broadcast use extents;

    let d = cfg.d_model as int;
    let inner = cfg.inner();
    let xbc = cfg.xbc();
    let heads = cfg.heads();
    let hd = cfg.head_dim as int;
    let gs = cfg.group_state();
    let g = cfg.ngroups as int;
    let n = cfg.d_state as int;
    let k = D_CONV as int;
    let all = cfg.proj();
    sizes_are_positive(cfg, t);
    sizes_are_positive(cfg, u);
    block_has(cfg, w, x, t);
    block_has(cfg, w, y, u);
    rms_norm_agrees(at, x, y, w.norm_gain@, d, cfg.rms_norm_eps, t, u, m);
    let nx = x.rms_norm(w.norm_gain@, d, cfg.rms_norm_eps);
    let ny = y.rms_norm(w.norm_gain@, d, cfg.rms_norm_eps);
    rows_map_alike(at, nx, ny, w.in_proj@, d, all, t, u, m);
    let (ix, iy) = (nx.linear(w.in_proj@, d, all), ny.linear(w.in_proj@, d, all));
    piece_agrees(at, ix, iy, 0, inner, t, u, all, m);
    piece_agrees(at, ix, iy, inner, xbc, t, u, all, m);
    piece_agrees(at, ix, iy, inner + xbc, heads, t, u, all, m);
    let (zx, zy) = (ix.narrow(2, 0, inner), iy.narrow(2, 0, inner));
    let (fx, fy) = (ix.narrow(2, inner, xbc), iy.narrow(2, inner, xbc));
    let (dx, dy) = (ix.narrow(2, inner + xbc, heads), iy.narrow(2, inner + xbc, heads));
    convolved_rows_agree(at, fx, fy, w.conv1d_weight@, w.conv1d_bias@, xbc, k, t, u, m);
    let ux = convolved_rows(fx, w.conv1d_weight@, w.conv1d_bias@, xbc, k);
    let uy = convolved_rows(fy, w.conv1d_weight@, w.conv1d_bias@, xbc, k);
    piece_agrees(at, ux, uy, 0, inner, t, u, xbc, m);
    piece_agrees(at, ux, uy, inner, gs, t, u, xbc, m);
    piece_agrees(at, ux, uy, inner + gs, gs, t, u, xbc, m);
    let (x0, y0) = (ux.narrow(2, 0, inner), uy.narrow(2, 0, inner));
    let (b0, e0) = (ux.narrow(2, inner, gs), uy.narrow(2, inner, gs));
    let (c0, f0) = (ux.narrow(2, inner + gs, gs), uy.narrow(2, inner + gs, gs));
    split_rows_agree(at, x0, y0, heads, hd, t, u, m);
    split_rows_agree(at, b0, e0, g, n, t, u, m);
    split_rows_agree(at, c0, f0, g, n, t, u, m);
    let (xh, yh) = (x0.reshape(seq![1, t, heads, hd]), y0.reshape(seq![1, u, heads, hd]));
    let (bx, by) = (b0.reshape(seq![1, t, g, n]), e0.reshape(seq![1, u, g, n]));
    let (cx, cy) = (c0.reshape(seq![1, t, g, n]), f0.reshape(seq![1, u, g, n]));
    scanned_rows_have(cfg, w, xh, dx, bx, cx, t);
    scanned_rows_have(cfg, w, yh, dy, by, cy, u);
    scanned_rows_agree(at, cfg, w, xh, dx, bx, cx, yh, dy, by, cy, t, u, m);
    let (sx, sy) = (
        scanned_rows(cfg, w, xh, dx, bx, cx, t),
        scanned_rows(cfg, w, yh, dy, by, cy, u),
    );
    rms_norm_agrees(at, sx, sy, w.out_norm_gain@, inner, cfg.rms_norm_eps, t, u, m);
    let rx = sx.rms_norm(w.out_norm_gain@, inner, cfg.rms_norm_eps);
    let ry = sy.rms_norm(w.out_norm_gain@, inner, cfg.rms_norm_eps);
    let (mx, my) = (rx.mul(zx.silu()), ry.mul(zy.silu()));
    assert forall|j: int| 0 <= j < m implies #[trigger] same(at, mx, my, 1, j) by {
        assert(same(at, rx, ry, 1, j));
        assert(same(at, zx, zy, 1, j));
        assert(same(at, zx.silu(), zy.silu(), 1, j));
    }
    rows_map_alike(at, mx, my, w.out_proj@, inner, d, t, u, m);
    sum_agrees(
        at,
        x,
        mx.linear(w.out_proj@, inner, d),
        y,
        my.linear(w.out_proj@, inner, d),
        1,
        m,
    );
}

proof fn blocks_agree<V>(
    at: At<V>,
    cfg: &Mamba2Config,
    layers: Seq<Mamba2LayerWeights>,
    n: int,
    x: Tensor,
    y: Tensor,
    t: int,
    u: int,
    m: int,
)
    requires
        lawful(at),
        cfg.addressable(t),
        cfg.addressable(u),
        0 <= n <= layers.len(),
        forall|i: int| 0 <= i < layers.len() ==> (#[trigger] layers[i]).sized(cfg),
        has(x, seq![1, t, cfg.d_model as int]),
        has(y, seq![1, u, cfg.d_model as int]),
        m <= t,
        m <= u,
        agrees(at, x, y, 1, m),
    ensures
        agrees(at, blocks(cfg, layers, n, x), blocks(cfg, layers, n, y), 1, m),
    decreases n,
{
    if n > 0 {
        blocks_agree(at, cfg, layers, n - 1, x, y, t, u, m);
        blocks_have(cfg, layers, n - 1, x, t);
        blocks_have(cfg, layers, n - 1, y, u);
        block_agrees(
            at,
            cfg,
            &layers[n - 1],
            blocks(cfg, layers, n - 1, x),
            blocks(cfg, layers, n - 1, y),
            t,
            u,
            m,
        );
    }
}

/// The final states and the logits of a position depend on the tokens up to it:
/// sequences that begin alike have states and logits that begin alike, whatever
/// follows.
pub proof fn logits_are_causal<V>(at: At<V>, model: &Mamba2Model, a: Seq<u32>, b: Seq<u32>, m: int)
    requires
        lawful(at),
        model.config.addressable(a.len() as int),
        model.config.addressable(b.len() as int),
        model.weights.sized(&model.config),
        begin_alike(a, b, m),
    ensures
        agrees(at, model.hidden(a), model.hidden(b), 1, m),
        agrees(at, model.logits(a), model.logits(b), 1, m),
{
    let cfg = &model.config;
    let w = &model.weights;
    let d = cfg.d_model as int;
    let v = cfg.vocab();
    let (t, u) = (a.len() as int, b.len() as int);
    let n = w.layers@.len() as int;
    assert(v * d == d * v) by (nonlinear_arith);
    embed_has(w.token_embedding@, v, d, a);
    embed_has(w.token_embedding@, v, d, b);
    embeddings_agree(at, w.token_embedding@, v, d, a, b, m);
    let ea = Tensor::embed_tokens(w.token_embedding@, v, d, a);
    let eb = Tensor::embed_tokens(w.token_embedding@, v, d, b);
    blocks_have(cfg, w.layers@, n, ea, t);
    blocks_have(cfg, w.layers@, n, eb, u);
    blocks_agree(at, cfg, w.layers@, n, ea, eb, t, u, m);
    rms_norm_agrees(
        at,
        blocks(cfg, w.layers@, n, ea),
        blocks(cfg, w.layers@, n, eb),
        w.final_norm_gain@,
        d,
        cfg.rms_norm_eps,
        t,
        u,
        m,
    );
    rows_map_alike(at, model.hidden(a), model.hidden(b), w.output@, d, v, t, u, m);
}

} // verus!
