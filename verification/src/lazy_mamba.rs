//! Mamba: a decoder of selective state-space mixers.
//!
//! ```text
//! residual:  x -> norm -> mixer -> + x
//! mixer:     in_proj -> [x, z]
//!            x -> depthwise causal conv -> silu -> x_proj -> [delta, b, c]
//!            delta = dt_proj(delta) + bias
//!            a     = -exp(a_log)
//!            y     = selective_scan(x, delta, a, b, c) + x * d
//!            out   = out_proj(y * silu(z))
//! ```

use crate::causality::{
    affine_agrees, begin_alike, convolved_rows, convolved_rows_agree, embeddings_agree,
    piece_agrees, rms_norm_agrees, rows_map_alike, sum_agrees,
};
use crate::error::Error;
use crate::evaluation::{agrees, lawful, same, At};
use crate::extents::{constant_has, embed_has, extents, has, products};
use crate::lazy::{outcome, LazyTensor, Tensor, WeightStorage};
use crate::scalar::{Data, Scalar};
use vstd::prelude::*;

verus! {

/// Width of the depthwise convolution.
pub const D_CONV: usize = 4;

/// State size of a channel.
pub const D_STATE: usize = 16;

/// The least multiple of `unit` (of one, where `unit` is zero) that is at
/// least `n`.
pub open spec fn padded_vocab(n: int, unit: int) -> int {
    let u = if unit < 1 { 1 } else { unit };
    (if n % u == 0 { n / u } else { n / u + 1 }) * u
}

/// Rounds a vocabulary up to a multiple of the padding unit.
pub fn pad_vocab(n: usize, unit: usize) -> (r: usize)
    requires
        padded_vocab(n as int, unit as int) <= usize::MAX,
    ensures
        r == padded_vocab(n as int, unit as int),
{
    let u: usize = if unit < 1 { 1 } else { unit };
    if n % u == 0 {
        assert(n / u * u <= n) by (nonlinear_arith)
            requires
                u > 0,
        ;
        n / u * u
    } else {
        assert(n / u < n || u == 1) by (nonlinear_arith)
            requires
                u > 0,
                n % u != 0,
        ;
        assert(n % 1 == 0);
        (n / u + 1) * u
    }
}

/// Padding yields a multiple of the unit, at least `n` and less than one unit
/// above it.
pub proof fn padded_vocab_rounds_up(n: int, unit: int)
    requires
        n >= 0,
        unit >= 1,
    ensures
        padded_vocab(n, unit) % unit == 0,
        n <= padded_vocab(n, unit) < n + unit,
{
    let q = if n % unit == 0 { n / unit } else { n / unit + 1 };
    assert(n == (n / unit) * unit + n % unit && 0 <= n % unit < unit) by (nonlinear_arith)
        requires
            unit >= 1,
    ;
    assert((n / unit + 1) * unit == (n / unit) * unit + unit) by (nonlinear_arith);
    assert((q * unit) % unit == 0) by (nonlinear_arith)
        requires
            unit >= 1,
    ;
}

#[derive(Debug, Clone)]
pub struct MambaConfig {
    pub d_model: usize,
    pub n_layer: usize,
    pub vocab_size: usize,
    /// The vocabulary is rounded up to a multiple of this.
    pub pad_vocab_size_multiple: usize,
    pub rms_norm_eps: Scalar,
}

impl MambaConfig {
    /// Vocabulary after padding.
    pub open spec fn vocab(&self) -> int {
        padded_vocab(self.vocab_size as int, self.pad_vocab_size_multiple as int)
    }

    /// Rank of the projection of the steps.
    pub open spec fn rank(&self) -> int {
        (self.d_model + 15) / 16
    }

    /// Width inside a mixer.
    pub open spec fn inner(&self) -> int {
        self.d_model * 2
    }

    /// The widths can be counted.
    pub open spec fn valid(&self) -> bool {
        &&& self.vocab() <= usize::MAX
        &&& 2 * self.inner() <= usize::MAX
    }

    /// Vocabulary after padding.
    pub fn vocab_size(&self) -> (r: usize)
        requires
            self.vocab() <= usize::MAX,
        ensures
            r == self.vocab(),
    {
        pad_vocab(self.vocab_size, self.pad_vocab_size_multiple)
    }

    /// Rank of the projection of the steps: a sixteenth of the model width,
    /// rounded up.
    pub fn dt_rank(&self) -> (r: usize)
        ensures
            r == self.rank(),
    {
        if self.d_model % 16 == 0 {
            self.d_model / 16
        } else {
            self.d_model / 16 + 1
        }
    }

    /// Width inside a mixer: twice the model width.
    pub fn d_inner(&self) -> (r: usize)
        requires
            self.inner() <= usize::MAX,
        ensures
            r == self.inner(),
    {
        self.d_model * 2
    }

    /// The `mamba-130m` sizes.
    pub fn mamba_130m() -> (r: Self)
        ensures
            r == (MambaConfig {
                d_model: 768,
                n_layer: 24,
                vocab_size: 50_277,
                pad_vocab_size_multiple: 8,
                rms_norm_eps: Scalar::F64(0x3EE4_F8B5_88E3_68F1),
            }),
            r.valid(),
    {
        assert(padded_vocab(50_277, 8) == 50280) by (nonlinear_arith);
        MambaConfig {
            d_model: 768,
            n_layer: 24,
            vocab_size: 50_277,
            pad_vocab_size_multiple: 8,
            rms_norm_eps: Scalar::F64(0x3EE4_F8B5_88E3_68F1),
        }
    }
}

/// Weights of one mixer block.
#[derive(Debug, Clone)]
pub struct MambaLayerWeights {
    /// `[d_model]`.
    pub norm_gain: Data,
    /// `[d_model, 2 * d_inner]`.
    pub in_proj: WeightStorage,
    /// `[d_inner, 1, D_CONV]`.
    pub conv1d_weight: Data,
    /// `[d_inner]`.
    pub conv1d_bias: Data,
    /// `[d_inner, dt_rank + 2 * D_STATE]`.
    pub x_proj: WeightStorage,
    /// `[dt_rank, d_inner]`.
    pub dt_proj: WeightStorage,
    /// `[d_inner]`.
    pub dt_proj_bias: Data,
    /// `[d_inner, D_STATE]`; `a = -exp(a_log)`.
    pub a_log: Data,
    /// `[d_inner]`: scale of the skip path.
    pub d: Data,
    /// `[d_inner, d_model]`.
    pub out_proj: WeightStorage,
}

#[derive(Debug, Clone)]
pub struct MambaWeights {
    /// `[vocab, d_model]`.
    pub token_embedding: Data,
    pub layers: Vec<MambaLayerWeights>,
    /// `[d_model]`.
    pub final_norm_gain: Data,
    /// `[d_model, vocab]`.
    pub output: WeightStorage,
}

#[derive(Debug, Clone)]
pub struct MambaModel {
    pub config: MambaConfig,
    pub weights: MambaWeights,
}

/// What a mixer makes of `x (batch, seq, d_model)`.
pub open spec fn mixer(cfg: &MambaConfig, w: &MambaLayerWeights, x: Tensor) -> Tensor {
    let inner = cfg.inner();
    let rank = cfg.rank();
    let n = D_STATE as int;
    let xz = x.linear(w.in_proj@, cfg.d_model as int, 2 * inner);
    let z = xz.narrow(2, inner, inner);
    let u = xz.narrow(2, 0, inner).permute(seq![0, 2, 1]).pad_with_zeros(
        2,
        D_CONV - 1,
        0,
    ).causal_conv1d(
        Tensor::constant(w.conv1d_weight@, seq![inner, 1, D_CONV as int]),
        Tensor::constant(w.conv1d_bias@, seq![inner]),
        true,
    ).permute(seq![0, 2, 1]);
    let proj = u.linear(w.x_proj@, inner, rank + 2 * n);
    let delta = proj.narrow(2, 0, rank).affine(w.dt_proj@, w.dt_proj_bias@, rank, inner);
    let b = proj.narrow(2, rank, n);
    let c = proj.narrow(2, rank + n, n);
    let a = Tensor::constant(w.a_log@, seq![inner, n]).exp().neg();
    let y = u.selective_scan(delta, a, b, c, true);
    y.add(u.broadcast_mul(Tensor::constant(w.d@, seq![inner]))).mul(z.silu()).linear(
        w.out_proj@,
        inner,
        cfg.d_model as int,
    )
}

/// A mixer on the normed input, added to the input.
pub open spec fn residual_block(cfg: &MambaConfig, w: &MambaLayerWeights, x: Tensor) -> Tensor {
    x.add(mixer(cfg, w, x.rms_norm(w.norm_gain@, cfg.d_model as int, cfg.rms_norm_eps)))
}

/// The first `n` blocks, one after the other.
pub open spec fn blocks(cfg: &MambaConfig, layers: Seq<MambaLayerWeights>, n: int, x: Tensor) -> Tensor
    decreases n,
{
    if n <= 0 {
        x
    } else {
        residual_block(cfg, &layers[n - 1], blocks(cfg, layers, n - 1, x))
    }
}

impl MambaModel {
    /// Final hidden states `(1, seq, d_model)`.
    pub open spec fn hidden(&self, tokens: Seq<u32>) -> Tensor {
        let cfg = &self.config;
        let d = cfg.d_model as int;
        blocks(
            cfg,
            self.weights.layers@,
            self.weights.layers@.len() as int,
            Tensor::embed_tokens(self.weights.token_embedding@, cfg.vocab(), d, tokens),
        ).rms_norm(self.weights.final_norm_gain@, d, cfg.rms_norm_eps)
    }

    /// Logits `(1, seq, vocab)`.
    pub open spec fn logits(&self, tokens: Seq<u32>) -> Tensor {
        self.hidden(tokens).linear(
            self.weights.output@,
            self.config.d_model as int,
            self.config.vocab(),
        )
    }

    /// Logits `(1, seq, vocab)` of a whole sequence.
    pub fn forward(&self, tokens: &[u32]) -> (r: Result<LazyTensor, Error>)
        requires
            self.config.valid(),
            tokens@.len() > 0,
        ensures
            outcome(r, self.logits(tokens@)),
    {
        let h = self.run_backbone(tokens);
        self.weights.output.apply_linear(&h, self.config.d_model, self.config.vocab_size()).finish()
    }

    /// Final hidden states `(1, seq, d_model)` of a whole sequence.
    pub fn forward_hidden(&self, tokens: &[u32]) -> (r: Result<LazyTensor, Error>)
        requires
            self.config.valid(),
            tokens@.len() > 0,
        ensures
            outcome(r, self.hidden(tokens@)),
    {
        self.run_backbone(tokens).finish()
    }

    fn run_backbone(&self, tokens: &[u32]) -> (r: LazyTensor)
        requires
            self.config.valid(),
        ensures
            r@ == self.hidden(tokens@),
    {
        let cfg = &self.config;
        let weights = &self.weights;
        let mut h = LazyTensor::embed_tokens(
            &weights.token_embedding,
            cfg.vocab_size(),
            cfg.d_model,
            tokens,
        );
        let ghost h0 = h@;
        let mut i: usize = 0;
        while i < weights.layers.len()
            invariant
                cfg == &self.config,
                weights == &self.weights,
                cfg.valid(),
                i <= weights.layers@.len(),
                h@ == blocks(cfg, weights.layers@, i as int, h0),
            decreases weights.layers@.len() - i,
        {
            h = self.apply_residual_block(&h, &weights.layers[i]);
            i = i + 1;
        }
        h.rms_norm(&weights.final_norm_gain, cfg.d_model, &cfg.rms_norm_eps)
    }

    fn apply_residual_block(&self, x: &LazyTensor, layer: &MambaLayerWeights) -> (r: LazyTensor)
        requires
            self.config.valid(),
        ensures
            r@ == residual_block(&self.config, layer, x@),
    {
        let cfg = &self.config;
        let x_norm = x.rms_norm(&layer.norm_gain, cfg.d_model, &cfg.rms_norm_eps);
        x.add(&self.apply_mixer(&x_norm, layer))
    }

    fn apply_mixer(&self, x: &LazyTensor, layer: &MambaLayerWeights) -> (r: LazyTensor)
        requires
            self.config.valid(),
        ensures
            r@ == mixer(&self.config, layer, x@),
    {
        let cfg = &self.config;
        let d_inner: usize = cfg.d_inner();
        let dt_rank: usize = cfg.dt_rank();
        let xz = layer.in_proj.apply_linear(x, cfg.d_model, 2 * d_inner);
        let x_path = xz.narrow(2, 0, d_inner);
        let z_path = xz.narrow(2, d_inner, d_inner);

        let conv_w = LazyTensor::const3(&layer.conv1d_weight, d_inner, 1, D_CONV);
        let conv_b = LazyTensor::const1(&layer.conv1d_bias, d_inner);
        let x_conv = x_path.permute3(0, 2, 1).pad_with_zeros(2, D_CONV - 1, 0).causal_conv1d(
            &conv_w,
            &conv_b,
            true,
        ).permute3(0, 2, 1);

        let proj = layer.x_proj.apply_linear(&x_conv, d_inner, dt_rank + 2 * D_STATE);
        let delta_low = proj.narrow(2, 0, dt_rank);
        let b = proj.narrow(2, dt_rank, D_STATE);
        let c = proj.narrow(2, dt_rank + D_STATE, D_STATE);
        let delta = layer.dt_proj.apply_linear(&delta_low, dt_rank, d_inner).broadcast_add(
            &LazyTensor::const1(&layer.dt_proj_bias, d_inner),
        );
        let a = LazyTensor::const2(&layer.a_log, d_inner, D_STATE).exp().neg();
        let y = x_conv.selective_scan(&delta, &a, &b, &c, true);

        let skip = x_conv.broadcast_mul(&LazyTensor::const1(&layer.d, d_inner));
        let gated = y.add(&skip).mul(&z_path.silu());
        layer.out_proj.apply_linear(&gated, d_inner, cfg.d_model)
    }
}

impl MambaConfig {
    /// All sizes are positive, and for `seq` tokens every tensor can be
    /// addressed.
    pub open spec fn addressable(&self, seq: int) -> bool {
        let d = self.d_model as int;
        let inner = self.inner();
        &&& self.valid()
        &&& d >= 1
        &&& self.vocab() >= 1
        &&& seq >= 1
        &&& seq + D_CONV <= usize::MAX
        &&& seq * d <= usize::MAX
        &&& d * (2 * inner) <= usize::MAX
        &&& inner * D_CONV <= usize::MAX
        &&& inner * (self.rank() + 2 * D_STATE) <= usize::MAX
        &&& self.rank() * inner <= usize::MAX
        &&& inner * D_STATE <= usize::MAX
        &&& d * self.vocab() <= usize::MAX
    }
}

impl MambaLayerWeights {
    /// Every weight has the size that the configuration declares.
    pub open spec fn sized(&self, cfg: &MambaConfig) -> bool {
        let d = cfg.d_model as int;
        let inner = cfg.inner();
        let rank = cfg.rank();
        &&& self.norm_gain@.len() == d
        &&& self.in_proj@.len() == d * (2 * inner)
        &&& self.conv1d_weight@.len() == inner * D_CONV
        &&& self.conv1d_bias@.len() == inner
        &&& self.x_proj@.len() == inner * (rank + 2 * D_STATE)
        &&& self.dt_proj@.len() == rank * inner
        &&& self.dt_proj_bias@.len() == inner
        &&& self.a_log@.len() == inner * D_STATE
        &&& self.d@.len() == inner
        &&& self.out_proj@.len() == inner * d
    }
}

impl MambaWeights {
    /// Every weight has the size that the configuration declares.
    pub open spec fn sized(&self, cfg: &MambaConfig) -> bool {
        let d = cfg.d_model as int;
        &&& self.token_embedding@.len() == cfg.vocab() * d
        &&& forall|i: int| 0 <= i < self.layers@.len() ==> (#[trigger] self.layers@[i]).sized(cfg)
        &&& self.final_norm_gain@.len() == d
        &&& self.output@.len() == d * cfg.vocab()
    }
}

/// A block keeps the extents of its operand.
pub proof fn block_has(cfg: &MambaConfig, w: &MambaLayerWeights, x: Tensor, s: int)
    requires
        cfg.addressable(s),
        w.sized(cfg),
        has(x, seq![1, s, cfg.d_model as int]),
    ensures
        has(residual_block(cfg, w, x), seq![1, s, cfg.d_model as int]),
{
    broadcast use extents;

    let d = cfg.d_model as int;
    let inner = cfg.inner();
    let rank = cfg.rank();
    let n = D_STATE as int;
    assert(inner * d <= d * (2 * inner)) by (nonlinear_arith)
        requires
            d >= 1,
            inner >= 1,
    ;
    products(inner, 1, D_CONV as int, 1, 1, 1);
    assert(inner * 1 * D_CONV == inner * D_CONV) by (nonlinear_arith);
    constant_has(w.conv1d_weight@, seq![inner, 1, D_CONV as int]);
    products(inner, n, 1, 1, 1, 1);
    constant_has(w.a_log@, seq![inner, n]);
    let y = x.rms_norm(w.norm_gain@, d, cfg.rms_norm_eps);
    let xz = y.linear(w.in_proj@, d, 2 * inner);
    let z = xz.narrow(2, inner, inner);
    let front = xz.narrow(2, 0, inner).permute(seq![0, 2, 1]).pad_with_zeros(2, D_CONV - 1, 0);
    assert(front.dims =~= seq![1, inner, s + 3]);
    let u = front.causal_conv1d(
        Tensor::constant(w.conv1d_weight@, seq![inner, 1, D_CONV as int]),
        Tensor::constant(w.conv1d_bias@, seq![inner]),
        true,
    ).permute(seq![0, 2, 1]);
    assert(has(u, seq![1, s, inner]));
    let proj = u.linear(w.x_proj@, inner, rank + 2 * n);
    let delta = proj.narrow(2, 0, rank).affine(w.dt_proj@, w.dt_proj_bias@, rank, inner);
    assert(has(delta, seq![1, s, inner]));
    let b = proj.narrow(2, rank, n);
    let c = proj.narrow(2, rank + n, n);
    let a = Tensor::constant(w.a_log@, seq![inner, n]).exp().neg();
    let scanned = u.selective_scan(delta, a, b, c, true);
    assert(has(scanned, seq![1, s, inner]));
    assert(z.dims =~= seq![1, s, inner]);
}

pub proof fn blocks_have(cfg: &MambaConfig, layers: Seq<MambaLayerWeights>, n: int, x: Tensor, s: int)
    requires
        cfg.addressable(s),
        0 <= n <= layers.len(),
        forall|i: int| 0 <= i < layers.len() ==> (#[trigger] layers[i]).sized(cfg),
        has(x, seq![1, s, cfg.d_model as int]),
    ensures
        has(blocks(cfg, layers, n, x), seq![1, s, cfg.d_model as int]),
    decreases n,
{
    if n > 0 {
        blocks_have(cfg, layers, n - 1, x, s);
        block_has(cfg, &layers[n - 1], blocks(cfg, layers, n - 1, x), s);
    }
}

/// On weights of the declared sizes a run succeeds: the hidden states are
/// `(1, seq, d_model)`, the logits `(1, seq, vocab)` with the padded vocabulary.
pub proof fn forward_succeeds(model: &MambaModel, tokens: Seq<u32>)
    requires
        model.config.addressable(tokens.len() as int),
        model.weights.sized(&model.config),
    ensures
        has(
            model.hidden(tokens),
            seq![1, tokens.len() as int, model.config.d_model as int],
        ),
        has(model.logits(tokens), seq![1, tokens.len() as int, model.config.vocab()]),
{
    broadcast use extents;

    let cfg = &model.config;
    let d = cfg.d_model as int;
    let s = tokens.len() as int;
    assert(cfg.vocab() * d == d * cfg.vocab()) by (nonlinear_arith);
    embed_has(model.weights.token_embedding@, cfg.vocab(), d, tokens);
    blocks_have(
        cfg,
        model.weights.layers@,
        model.weights.layers@.len() as int,
        Tensor::embed_tokens(model.weights.token_embedding@, cfg.vocab(), d, tokens),
        s,
    );
}

proof fn block_agrees<V>(
    at: At<V>,
    cfg: &MambaConfig,
    w: &MambaLayerWeights,
    x: Tensor,
    y: Tensor,
    t: int,
    u: int,
    m: int,
)
    requires
        lawful(at),
        cfg.addressable(t),
        cfg.addressable(u),
        w.sized(cfg),
        has(x, seq![1, t, cfg.d_model as int]),
        has(y, seq![1, u, cfg.d_model as int]),
        m <= t,
        m <= u,
        agrees(at, x, y, 1, m),
    ensures
        agrees(at, residual_block(cfg, w, x), residual_block(cfg, w, y), 1, m),
{
    broadcast use extents;

    let d = cfg.d_model as int;
    let inner = cfg.inner();
    let rank = cfg.rank();
    let n = D_STATE as int;
    let k = D_CONV as int;
    let wide = rank + 2 * n;
    assert(inner * d <= d * (2 * inner)) by (nonlinear_arith)
        requires
            d >= 1,
            inner >= 1,
    ;
    block_has(cfg, w, x, t);
    block_has(cfg, w, y, u);
    rms_norm_agrees(at, x, y, w.norm_gain@, d, cfg.rms_norm_eps, t, u, m);
    let nx = x.rms_norm(w.norm_gain@, d, cfg.rms_norm_eps);
    let ny = y.rms_norm(w.norm_gain@, d, cfg.rms_norm_eps);
    rows_map_alike(at, nx, ny, w.in_proj@, d, 2 * inner, t, u, m);
    let (ix, iy) = (nx.linear(w.in_proj@, d, 2 * inner), ny.linear(w.in_proj@, d, 2 * inner));
    piece_agrees(at, ix, iy, inner, inner, t, u, 2 * inner, m);
    piece_agrees(at, ix, iy, 0, inner, t, u, 2 * inner, m);
    let (zx, zy) = (ix.narrow(2, inner, inner), iy.narrow(2, inner, inner));
    let (fx, fy) = (ix.narrow(2, 0, inner), iy.narrow(2, 0, inner));
    convolved_rows_agree(at, fx, fy, w.conv1d_weight@, w.conv1d_bias@, inner, k, t, u, m);
    let ux = convolved_rows(fx, w.conv1d_weight@, w.conv1d_bias@, inner, k);
    let uy = convolved_rows(fy, w.conv1d_weight@, w.conv1d_bias@, inner, k);
    rows_map_alike(at, ux, uy, w.x_proj@, inner, wide, t, u, m);
    let (px, py) = (ux.linear(w.x_proj@, inner, wide), uy.linear(w.x_proj@, inner, wide));
    piece_agrees(at, px, py, 0, rank, t, u, wide, m);
    piece_agrees(at, px, py, rank, n, t, u, wide, m);
    piece_agrees(at, px, py, rank + n, n, t, u, wide, m);
    let (rx, ry) = (px.narrow(2, 0, rank), py.narrow(2, 0, rank));
    let (bx, by) = (px.narrow(2, rank, n), py.narrow(2, rank, n));
    let (cx, cy) = (px.narrow(2, rank + n, n), py.narrow(2, rank + n, n));
    affine_agrees(at, rx, ry, w.dt_proj@, w.dt_proj_bias@, rank, inner, t, u, m);
    let dx = rx.affine(w.dt_proj@, w.dt_proj_bias@, rank, inner);
    let dy = ry.affine(w.dt_proj@, w.dt_proj_bias@, rank, inner);
    products(inner, n, 1, 1, 1, 1);
    constant_has(w.a_log@, seq![inner, n]);
    let a = Tensor::constant(w.a_log@, seq![inner, n]).exp().neg();
    let (sx, sy) = (ux.selective_scan(dx, a, bx, cx, true), uy.selective_scan(dy, a, by, cy, true));
    assert(has(sx, seq![1, t, inner]));
    assert(has(sy, seq![1, u, inner]));
    let g = Tensor::constant(w.d@, seq![inner]);
    let (ax, ay) = (sx.add(ux.broadcast_mul(g)), sy.add(uy.broadcast_mul(g)));
    let (mx, my) = (ax.mul(zx.silu()), ay.mul(zy.silu()));
    assert forall|j: int| 0 <= j < m implies #[trigger] same(at, mx, my, 1, j) by {
        assert(same(at, sx, sy, 1, j));
        assert(same(at, ux, uy, 1, j));
        assert(same(at, zx, zy, 1, j));
        assert(same(at, ux.broadcast_mul(g), uy.broadcast_mul(g), 1, j));
        assert(same(at, ax, ay, 1, j));
        assert(same(at, zx.silu(), zy.silu(), 1, j));
    }
    rows_map_alike(at, mx, my, w.out_proj@, inner, d, t, u, m);
    sum_agrees(
        at,
        x,
        mx.linear(w.out_proj@, inner, d),
        y,
        my.linear(w.out_proj@, inner, d),
        1,
        m,
    );
}

proof fn blocks_agree<V>(
    at: At<V>,
    cfg: &MambaConfig,
    layers: Seq<MambaLayerWeights>,
    n: int,
    x: Tensor,
    y: Tensor,
    t: int,
    u: int,
    m: int,
)
    requires
        lawful(at),
        cfg.addressable(t),
        cfg.addressable(u),
        0 <= n <= layers.len(),
        forall|i: int| 0 <= i < layers.len() ==> (#[trigger] layers[i]).sized(cfg),
        has(x, seq![1, t, cfg.d_model as int]),
        has(y, seq![1, u, cfg.d_model as int]),
        m <= t,
        m <= u,
        agrees(at, x, y, 1, m),
    ensures
        agrees(at, blocks(cfg, layers, n, x), blocks(cfg, layers, n, y), 1, m),
    decreases n,
{
    if n > 0 {
        blocks_agree(at, cfg, layers, n - 1, x, y, t, u, m);
        blocks_have(cfg, layers, n - 1, x, t);
        blocks_have(cfg, layers, n - 1, y, u);
        block_agrees(
            at,
            cfg,
            &layers[n - 1],
            blocks(cfg, layers, n - 1, x),
            blocks(cfg, layers, n - 1, y),
            t,
            u,
            m,
        );
    }
}

/// The final states and the logits of a position depend on the tokens up to it:
/// sequences that begin alike have states and logits that begin alike, whatever
/// follows.
pub proof fn logits_are_causal<V>(at: At<V>, model: &MambaModel, a: Seq<u32>, b: Seq<u32>, m: int)
    requires
        lawful(at),
        model.config.addressable(a.len() as int),
        model.config.addressable(b.len() as int),
        model.weights.sized(&model.config),
        begin_alike(a, b, m),
    ensures
        agrees(at, model.hidden(a), model.hidden(b), 1, m),
        agrees(at, model.logits(a), model.logits(b), 1, m),
{
    let cfg = &model.config;
    let w = &model.weights;
    let d = cfg.d_model as int;
    let v = cfg.vocab();
    let (t, u) = (a.len() as int, b.len() as int);
    let n = w.layers@.len() as int;
    assert(v * d == d * v) by (nonlinear_arith);
    embed_has(w.token_embedding@, v, d, a);
    embed_has(w.token_embedding@, v, d, b);
    embeddings_agree(at, w.token_embedding@, v, d, a, b, m);
    let ea = Tensor::embed_tokens(w.token_embedding@, v, d, a);
    let eb = Tensor::embed_tokens(w.token_embedding@, v, d, b);
    blocks_have(cfg, w.layers@, n, ea, t);
    blocks_have(cfg, w.layers@, n, eb, u);
    blocks_agree(at, cfg, w.layers@, n, ea, eb, t, u, m);
    rms_norm_agrees(
        at,
        blocks(cfg, w.layers@, n, ea),
        blocks(cfg, w.layers@, n, eb),
        w.final_norm_gain@,
        d,
        cfg.rms_norm_eps,
        t,
        u,
        m,
    );
    rows_map_alike(at, model.hidden(a), model.hidden(b), w.output@, d, v, t, u, m);
}

} // verus!
