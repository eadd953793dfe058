//! What Moondream computes, number by number.

use crate::causality::{affine_agrees, begin_alike, embeddings_agree, layer_norm_agrees};
use crate::common::full_attention;
use crate::evaluation::{agrees, lawful, place, same, At};
use crate::extents::{broadcast_to_has, constant_has, embed_has, extents, has, permute_axes, products, reshape_has};
use crate::formulas::Rows;
use crate::lazy::Tensor;
use crate::lazy_mixformer::{layers_agree, layers_over};
use crate::lazy_moondream::{
    activated, block_value, blocks_value, mlp, patches_have, MoondreamActivation, MoondreamModel,
    MoondreamVisionBlockWeights, MoondreamVisionConfig,
};
use crate::meaning::{at, at2, at3, at4, number, Functions};
use crate::mixformer_meaning::{embedding_holds, logit_rows, run_reads, token_rows};
use crate::readings::{
    names, number_of_scale, pick, place2, place3, place4, read_broadcast3, read_permute, read_reshape, readings,
};
use crate::rows_read::{
    affine_holds, affine_rows, all_seen, cut_holds, cut_rows, each, full_holds, heads_of, holds, layer_norm_holds,
    layer_normed_rows, mixed_rows, split_holds, sum_holds, sum_rows,
};
use crate::scalar::{inv_sqrt64, Scalar};
use vstd::prelude::*;

verus! {

/// The activation of a feed-forward part.
pub open spec fn activation(f: Functions, kind: MoondreamActivation) -> spec_fn(real) -> real {
    match kind {
        MoondreamActivation::GeluPytorchTanh => f.gelu,
        MoondreamActivation::Gelu => f.gelu_erf,
    }
}

/// Two maps of each row, with an activation between them.
pub open spec fn mlp_rows(
    f: Functions,
    x: Rows,
    w1: Seq<Scalar>,
    b1: Seq<Scalar>,
    w2: Seq<Scalar>,
    b2: Seq<Scalar>,
    fan_in: int,
    hidden: int,
    fan_out: int,
    kind: MoondreamActivation,
) -> Rows {
    affine_rows(f, each(activation(f, kind), affine_rows(f, x, w1, b1, fan_in, hidden)), w2, b2, hidden, fan_out)
}

/// The patches after a block of the vision tower: each sees all of them.
pub open spec fn after_block(
    f: Functions,
    cfg: &MoondreamVisionConfig,
    w: &MoondreamVisionBlockWeights,
    x: Rows,
    s: int,
) -> Rows {
    let h = cfg.embed_dim as int;
    let d = h / cfg.num_heads as int;
    let n = layer_normed_rows(f, x, w.norm1_gain@, w.norm1_bias@, h, cfg.layer_norm_eps);
    let qkv = affine_rows(f, n, w.qkv@, w.qkv_bias@, h, 3 * h);
    let seen = mixed_rows(
        f,
        heads_of(cut_rows(qkv, 0), d),
        heads_of(cut_rows(qkv, h), d),
        heads_of(cut_rows(qkv, 2 * h), d),
        d,
        1,
        s,
        1real / (f.sqrt)(d as real),
        all_seen(),
    );
    let y = sum_rows(x, affine_rows(f, seen, w.proj@, w.proj_bias@, h, h));
    sum_rows(
        y,
        mlp_rows(
            f,
            layer_normed_rows(f, y, w.norm2_gain@, w.norm2_bias@, h, cfg.layer_norm_eps),
            w.fc1@,
            w.fc1_bias@,
            w.fc2@,
            w.fc2_bias@,
            h,
            cfg.mlp_hidden as int,
            h,
            cfg.activation,
        ),
    )
}

/// The patches after the first `n` blocks.
pub open spec fn after_blocks(
    f: Functions,
    cfg: &MoondreamVisionConfig,
    blocks: Seq<MoondreamVisionBlockWeights>,
    n: int,
    x: Rows,
    s: int,
) -> Rows
    decreases n,
{
    if n <= 0 {
        x
    } else {
        after_block(f, cfg, &blocks[n - 1], after_blocks(f, cfg, blocks, n - 1, x, s), s)
    }
}

/// The numbers of the patches, in order.
pub open spec fn patch_rows(f: Functions, model: &MoondreamModel, image: Tensor) -> Rows {
    |p: int| |k: int| at3(f, model.patches(image), 0, p, k)
}

/// The patches as the language model reads them: embedded, with the embedding of
/// their place added, through the vision tower, normed and projected.
pub open spec fn projected_rows(f: Functions, model: &MoondreamModel, image: Tensor) -> Rows {
    let cfg = &model.config.vision;
    let w = &model.weights.vision;
    let p = &model.config.projection;
    let pw = &model.weights.projection;
    let n = cfg.num_patches as int;
    let e = cfg.embed_dim as int;
    let x = sum_rows(
        affine_rows(f, patch_rows(f, model, image), w.patch_embed@, w.patch_embed_bias@, cfg.patch_len(), e),
        |i: int| |k: int| number(f, w.pos_embed@[i * e + k]),
    );
    mlp_rows(
        f,
        layer_normed_rows(
            f,
            after_blocks(f, cfg, w.blocks@, w.blocks@.len() as int, x, n),
            w.norm_gain@,
            w.norm_bias@,
            e,
            cfg.layer_norm_eps,
        ),
        pw.fc1@,
        pw.fc1_bias@,
        pw.fc2@,
        pw.fc2_bias@,
        p.in_dim as int,
        p.hidden_dim as int,
        p.out_dim as int,
        p.activation,
    )
}

/// What the language model reads: row `p` below the number of patches is patch `p`,
/// the row that many and `i` is text token `i`.
pub open spec fn input_rows(f: Functions, model: &MoondreamModel, image: Tensor, tokens: Seq<u32>) -> Rows {
    let n = model.config.vision.num_patches as int;
    let patches = projected_rows(f, model, image);
    let text = token_rows(f, &model.decoder(), tokens);
    |r: int|
        if r < n {
            patches(r)
        } else {
            text(r - n)
        }
}

proof fn mlp_holds(
    f: Functions,
    t: Tensor,
    x: Rows,
    w1: Seq<Scalar>,
    b1: Seq<Scalar>,
    w2: Seq<Scalar>,
    b2: Seq<Scalar>,
    fan_in: int,
    hidden: int,
    fan_out: int,
    kind: MoondreamActivation,
    s: int,
)
    requires
        has(t, seq![1, s, fan_in]),
        holds(f, t, x, s, fan_in),
        fan_in >= 1,
        1 <= hidden <= usize::MAX,
        1 <= fan_out <= usize::MAX,
        fan_in * hidden <= usize::MAX,
        hidden * fan_out <= usize::MAX,
        w1.len() == fan_in * hidden,
        b1.len() == hidden,
        w2.len() == hidden * fan_out,
        b2.len() == fan_out,
    ensures
        has(mlp(t, w1, b1, w2, b2, fan_in, hidden, fan_out, kind), seq![1, s, fan_out]),
        holds(
            f,
            mlp(t, w1, b1, w2, b2, fan_in, hidden, fan_out, kind),
            mlp_rows(f, x, w1, b1, w2, b2, fan_in, hidden, fan_out, kind),
            s,
            fan_out,
        ),
{
    broadcast use {extents, readings};

    affine_holds(f, t, x, w1, b1, fan_in, hidden, s);
    let up = t.affine(w1, b1, fan_in, hidden);
    let ups = affine_rows(f, x, w1, b1, fan_in, hidden);
    let act = activated(up, kind);
    let acts = each(activation(f, kind), ups);
    assert forall|i: int, k: int| 0 <= i < s && 0 <= k < hidden implies #[trigger] at3(f, act, 0, i, k) == acts(i)(
        k,
    ) by {
        assert(at3(f, up, 0, i, k) == ups(i)(k));
    }
    affine_holds(f, act, acts, w2, b2, hidden, fan_out, s);
}

/// A block of the vision tower, number by number.
#[verifier::spinoff_prover]
pub proof fn block_reads(
    f: Functions,
    cfg: &MoondreamVisionConfig,
    w: &MoondreamVisionBlockWeights,
    t: Tensor,
    x: Rows,
    s: int,
)
    requires
        cfg.addressable(),
        w.sized(cfg),
        has(t, seq![1, s, cfg.embed_dim as int]),
        holds(f, t, x, s, cfg.embed_dim as int),
    ensures
        has(block_value(cfg, w, t), seq![1, s, cfg.embed_dim as int]),
        holds(f, block_value(cfg, w, t), after_block(f, cfg, w, x, s), s, cfg.embed_dim as int),
{
    broadcast use extents;

    let h = cfg.embed_dim as int;
    let heads = cfg.num_heads as int;
    let d = h / heads;
    let m = cfg.mlp_hidden as int;
    assert(h * h <= h * (3 * h) && m * h == h * m) by (nonlinear_arith)
        requires
            h >= 1,
    ;
    assert(1 <= d <= h) by (nonlinear_arith)
        requires
            heads * d == h,
            heads >= 1,
            h >= 1,
    ;
    let n = t.layer_norm(w.norm1_gain@, w.norm1_bias@, h, cfg.layer_norm_eps);
    let ns = layer_normed_rows(f, x, w.norm1_gain@, w.norm1_bias@, h, cfg.layer_norm_eps);
    layer_norm_holds(f, t, x, w.norm1_gain@, w.norm1_bias@, h, cfg.layer_norm_eps, s);
    let qkv = n.affine(w.qkv@, w.qkv_bias@, h, 3 * h);
    let fused = affine_rows(f, ns, w.qkv@, w.qkv_bias@, h, 3 * h);
    affine_holds(f, n, ns, w.qkv@, w.qkv_bias@, h, 3 * h, s);
    cut_holds(f, qkv, fused, s, 3 * h, 0, h);
    cut_holds(f, qkv, fused, s, 3 * h, h, h);
    cut_holds(f, qkv, fused, s, 3 * h, 2 * h, h);
    split_holds(f, qkv.narrow(2, 0, h), cut_rows(fused, 0), heads, d, s);
    split_holds(f, qkv.narrow(2, h, h), cut_rows(fused, h), heads, d, s);
    split_holds(f, qkv.narrow(2, 2 * h, h), cut_rows(fused, 2 * h), heads, d, s);
    let q = qkv.narrow(2, 0, h).split_heads(heads, d);
    let k = qkv.narrow(2, h, h).split_heads(heads, d);
    let v = qkv.narrow(2, 2 * h, h).split_heads(heads, d);
    let (qs, ks, vs) = (
        heads_of(cut_rows(fused, 0), d),
        heads_of(cut_rows(fused, h), d),
        heads_of(cut_rows(fused, 2 * h), d),
    );
    let scale = inv_sqrt64(d as usize);
    number_of_scale(f, d as usize);
    full_holds(f, q, k, v, qs, ks, vs, scale, heads, s, s, d);
    let merged = full_attention(q, k, v, scale).merge_heads();
    let seen = mixed_rows(f, qs, ks, vs, d, 1, s, 1real / (f.sqrt)(d as real), all_seen());
    affine_holds(f, merged, seen, w.proj@, w.proj_bias@, h, h, s);
    let attn = merged.affine(w.proj@, w.proj_bias@, h, h);
    let attns = affine_rows(f, seen, w.proj@, w.proj_bias@, h, h);
    sum_holds(f, t, attn, x, attns, s, h);
    let h1 = t.add(attn);
    let ys = sum_rows(x, attns);
    layer_norm_holds(f, h1, ys, w.norm2_gain@, w.norm2_bias@, h, cfg.layer_norm_eps, s);
    let n2 = h1.layer_norm(w.norm2_gain@, w.norm2_bias@, h, cfg.layer_norm_eps);
    let n2s = layer_normed_rows(f, ys, w.norm2_gain@, w.norm2_bias@, h, cfg.layer_norm_eps);
    mlp_holds(f, n2, n2s, w.fc1@, w.fc1_bias@, w.fc2@, w.fc2_bias@, h, m, h, cfg.activation, s);
    sum_holds(
        f,
        h1,
        mlp(n2, w.fc1@, w.fc1_bias@, w.fc2@, w.fc2_bias@, h, m, h, cfg.activation),
        ys,
        mlp_rows(f, n2s, w.fc1@, w.fc1_bias@, w.fc2@, w.fc2_bias@, h, m, h, cfg.activation),
        s,
        h,
    );
}

/// The first blocks of the vision tower, number by number.
pub proof fn blocks_read(
    f: Functions,
    cfg: &MoondreamVisionConfig,
    blocks: Seq<MoondreamVisionBlockWeights>,
    n: int,
    t: Tensor,
    x: Rows,
    s: int,
)
    requires
        cfg.addressable(),
        0 <= n <= blocks.len(),
        forall|i: int| 0 <= i < blocks.len() ==> (#[trigger] blocks[i]).sized(cfg),
        has(t, seq![1, s, cfg.embed_dim as int]),
        holds(f, t, x, s, cfg.embed_dim as int),
    ensures
        has(blocks_value(cfg, blocks, n, t), seq![1, s, cfg.embed_dim as int]),
        holds(f, blocks_value(cfg, blocks, n, t), after_blocks(f, cfg, blocks, n, x, s), s, cfg.embed_dim as int),
    decreases n,
{
    if n > 0 {
        blocks_read(f, cfg, blocks, n - 1, t, x, s);
        block_reads(
            f,
            cfg,
            &blocks[n - 1],
            blocks_value(cfg, blocks, n - 1, t),
            after_blocks(f, cfg, blocks, n - 1, x, s),
            s,
        );
    }
}

/// The projected patches, number by number.
#[verifier::spinoff_prover]
pub proof fn projection_reads(f: Functions, model: &MoondreamModel, image: Tensor, seq: int)
    requires
        model.addressable(seq),
        !image.bad(),
        model.accepts(image),
    ensures
        has(
            model.projected(image),
            seq![1, model.config.vision.num_patches as int, model.config.text.hidden_size as int],
        ),
        holds(
            f,
            model.projected(image),
            projected_rows(f, model, image),
            model.config.vision.num_patches as int,
            model.config.text.hidden_size as int,
        ),
{
    broadcast use {extents, readings};

    let cfg = &model.config.vision;
    let w = &model.weights.vision;
    let p = &model.config.projection;
    let pw = &model.weights.projection;
    let n = cfg.num_patches as int;
    let e = cfg.embed_dim as int;
    patches_have(model, image);
    products(n, e, 1, 1, 1, 1);
    products(1, n, e, 1, 1, 1);
    assert(1 * n * e == n * e);
    constant_has(w.pos_embed@, seq![n, e]);
    let rows = Tensor::constant(w.pos_embed@, seq![n, e]);
    reshape_has(rows, seq![1, n, e]);
    let flat = rows.reshape(seq![1, n, e]);
    broadcast_to_has(flat, seq![1, n, e]);
    let pos = flat.broadcast_to(seq![1, n, e]);
    let spots = |i: int| |k: int| number(f, w.pos_embed@[i * e + k]);
    assert forall|i: int, k: int| 0 <= i < n && 0 <= k < e implies #[trigger] at3(f, pos, 0, i, k) == spots(i)(k) by {
        read_broadcast3(f, flat, seq![1, n, e], 0, i, k);
        assert(pick(n, i) == i && pick(e, k) == k);
        place2(i, k, n, e);
        place3(0, i, k, 1, n, e);
        assert(0 * n == 0) by (nonlinear_arith);
        read_reshape(f, rows, seq![1, n, e], seq![i, k], seq![0, i, k]);
        assert(at2(f, rows, i, k) == number(f, w.pos_embed@[i * e + k]));
    }
    let cut = model.patches(image);
    let cuts = patch_rows(f, model, image);
    affine_holds(f, cut, cuts, w.patch_embed@, w.patch_embed_bias@, cfg.patch_len(), e, n);
    let x = cut.affine(w.patch_embed@, w.patch_embed_bias@, cfg.patch_len(), e);
    let xs = affine_rows(f, cuts, w.patch_embed@, w.patch_embed_bias@, cfg.patch_len(), e);
    sum_holds(f, x, pos, xs, spots, n, e);
    let last = w.blocks@.len() as int;
    blocks_read(f, cfg, w.blocks@, last, x.add(pos), sum_rows(xs, spots), n);
    let ys = after_blocks(f, cfg, w.blocks@, last, sum_rows(xs, spots), n);
    layer_norm_holds(
        f,
        blocks_value(cfg, w.blocks@, last, x.add(pos)),
        ys,
        w.norm_gain@,
        w.norm_bias@,
        e,
        cfg.layer_norm_eps,
        n,
    );
    mlp_holds(
        f,
        model.vision(image),
        layer_normed_rows(f, ys, w.norm_gain@, w.norm_bias@, e, cfg.layer_norm_eps),
        pw.fc1@,
        pw.fc1_bias@,
        pw.fc2@,
        pw.fc2_bias@,
        p.in_dim as int,
        p.hidden_dim as int,
        p.out_dim as int,
        p.activation,
        n,
    );
}

/// The rows that the language model reads: first the projected patches in their
/// order, then the embeddings of the text tokens in theirs.
pub proof fn patches_come_first(f: Functions, model: &MoondreamModel, image: Tensor, tokens: Seq<u32>)
    requires
        model.addressable(tokens.len() as int),
        !image.bad(),
        model.accepts(image),
    ensures
        ({
            let n = model.config.vision.num_patches as int;
            let h = model.config.text.hidden_size as int;
            let c = model.combined(image, tokens);
            &&& has(c, seq![1, n + tokens.len(), h])
            &&& forall|p: int, k: int|
                0 <= p < n && 0 <= k < h ==> #[trigger] at3(f, c, 0, p, k) == projected_rows(f, model, image)(p)(k)
            &&& forall|i: int, k: int|
                0 <= i < tokens.len() && 0 <= k < h ==> #[trigger] at3(f, c, 0, n + i, k) == number(
                    f,
                    model.weights.text.token_embedding@[tokens[i] * h + k],
                )
            &&& holds(f, c, input_rows(f, model, image, tokens), n + tokens.len(), h)
        }),
{
    broadcast use {extents, readings};

    let n = model.config.vision.num_patches as int;
    let h = model.config.text.hidden_size as int;
    let vocab = model.config.text.vocab_size as int;
    let t = tokens.len() as int;
    let c = model.combined(image, tokens);
    projection_reads(f, model, image, t);
    assert(vocab * h == h * vocab) by (nonlinear_arith);
    assert(t * h <= (n + t) * h) by (nonlinear_arith)
        requires
            n >= 0,
            t >= 1,
            h >= 1,
    ;
    let (x, y) = (model.projected(image), model.decoder().embedded(tokens));
    embed_has(model.weights.text.token_embedding@, vocab, h, tokens);
    embedding_holds(f, &model.decoder(), tokens);
    assert(n + t <= (n + t) * h) by (nonlinear_arith)
        requires
            n >= 0,
            t >= 1,
            h >= 1,
    ;
    assert(c.dims =~= seq![1, n + t, h]);
    assert forall|p: int, k: int| 0 <= p < n && 0 <= k < h implies #[trigger] at3(f, c, 0, p, k)
        == projected_rows(f, model, image)(p)(k) by {
        assert(at3(f, c, 0, p, k) == at3(f, x, 0, p, k));
    }
    assert forall|i: int, k: int| 0 <= i < t && 0 <= k < h implies #[trigger] at3(f, c, 0, n + i, k) == number(
        f,
        model.weights.text.token_embedding@[tokens[i] * h + k],
    ) by {
        assert(at3(f, c, 0, n + i, k) == at3(f, y, 0, i, k));
    }
    let rows = input_rows(f, model, image, tokens);
    assert forall|r: int, k: int| 0 <= r < n + t && 0 <= k < h implies #[trigger] at3(f, c, 0, r, k) == rows(r)(k) by {
        if r >= n {
            assert(at3(f, c, 0, r, k) == at3(f, y, 0, r - n, k));
        } else {
            assert(at3(f, c, 0, r, k) == at3(f, x, 0, r, k));
        }
    }
}

/// The logits, number by number: those of the language model over the projected
/// patches followed by the embedded text, from position zero on.
pub proof fn logits_read(f: Functions, model: &MoondreamModel, image: Tensor, tokens: Seq<u32>)
    requires
        model.addressable(tokens.len() as int),
        !image.bad(),
        model.accepts(image),
    ensures
        ({
            let s = model.config.vision.num_patches + tokens.len();
            holds(
                f,
                model.logits(image, tokens),
                logit_rows(f, &model.decoder(), input_rows(f, model, image, tokens), 0, s),
                s,
                model.config.text.vocab_size as int,
            )
        }),
{
    let s = model.config.vision.num_patches + tokens.len();
    patches_come_first(f, model, image, tokens);
    run_reads(f, &model.decoder(), model.combined(image, tokens), input_rows(f, model, image, tokens), 0, s);
}

/// Two runs over one image whose texts begin alike have the same logits at every
/// patch and at the text tokens that they share; those of the patches do not depend
/// on the text at all.
pub proof fn logits_are_causal<V>(
    at: At<V>,
    model: &MoondreamModel,
    image: Tensor,
    a: Seq<u32>,
    b: Seq<u32>,
    m: int,
)
    requires
        lawful(at),
        model.addressable(a.len() as int),
        model.addressable(b.len() as int),
        !image.bad(),
        model.accepts(image),
        0 <= m,
        begin_alike(a, b, m),
    ensures
        agrees(
            at,
            model.logits(image, a),
            model.logits(image, b),
            1,
            model.config.vision.num_patches + m,
        ),
{
    broadcast use extents;

    let d = model.decoder();
    let cfg = &d.config;
    let w = &d.weights;
    let n = model.config.vision.num_patches as int;
    let h = cfg.hidden_size as int;
    let v = cfg.vocab_size as int;
    let (t, u) = (n + a.len(), n + b.len());
    let f: Functions = arbitrary();
    patches_come_first(f, model, image, a);
    patches_come_first(f, model, image, b);
    projection_reads(f, model, image, a.len() as int);
    assert(v * h == h * v) by (nonlinear_arith);
    assert(a.len() * h <= t * h && b.len() * h <= u * h) by (nonlinear_arith)
        requires
            t >= a.len(),
            u >= b.len(),
            h >= 1,
    ;
    embeddings_agree(at, w.token_embedding@, v, h, a, b, m);
    let (ea, eb) = (d.embedded(a), d.embedded(b));
    let x = model.projected(image);
    let (ca, cb) = (model.combined(image, a), model.combined(image, b));
    assert forall|j: int| 0 <= j < n + m implies #[trigger] same(at, ca, cb, 1, j) by {
        assert(at(x.concat(ea, 1), 1, j) == if j < x.dim(1) {
            at(x, 1, j)
        } else {
            at(ea, 1, j - x.dim(1))
        });
        assert(at(x.concat(eb, 1), 1, j) == if j < x.dim(1) {
            at(x, 1, j)
        } else {
            at(eb, 1, j - x.dim(1))
        });
        if j >= n {
            assert(same(at, ea, eb, 1, j - n));
        }
    }
    let last = w.layers@.len() as int;
    layers_agree(at, cfg, w.layers@, last, ca, cb, 0, t, u, n + m);
    layer_norm_agrees(
        at,
        layers_over(cfg, w.layers@, last, ca, 0, t),
        layers_over(cfg, w.layers@, last, cb, 0, u),
        w.final_ln_gain@,
        w.final_ln_bias@,
        h,
        cfg.layer_norm_eps,
        t,
        u,
        n + m,
    );
    affine_agrees(
        at,
        d.hidden(ca, 0, t),
        d.hidden(cb, 0, u),
        d.head(),
        w.lm_head_bias@,
        h,
        v,
        t,
        u,
        n + m,
    );
}

/// The patches of an image: patch `py * side + px` holds the square of pixels whose
/// corner is `(py * patch_size, px * patch_size)`, channel after channel, row after
/// row.
#[verifier::spinoff_prover]
pub proof fn patches_tile_the_image(
    f: Functions,
    model: &MoondreamModel,
    image: Tensor,
    py: int,
    px: int,
    ch: int,
    dy: int,
    dx: int,
)
    requires
        model.config.vision.addressable(),
        !image.bad(),
        model.accepts(image),
        0 <= py < model.config.vision.side(),
        0 <= px < model.config.vision.side(),
        0 <= ch < model.config.vision.num_channels,
        0 <= dy < model.config.vision.patch_size,
        0 <= dx < model.config.vision.patch_size,
    ensures
        ({
            let p = model.config.vision.patch_size as int;
            at3(
                f,
                model.patches(image),
                0,
                py * model.config.vision.side() + px,
                (ch * p + dy) * p + dx,
            ) == at4(f, image, 0, ch, py * p + dy, px * p + dx)
        }),
{
    let cfg = &model.config.vision;
    let p = cfg.patch_size as int;
    let s = cfg.side();
    let c = cfg.num_channels as int;
    let n = cfg.image_size as int;
    patches_have(model, image);
    assert(image.dims =~= seq![1, c, n, n]);
    assert(s >= 1) by (nonlinear_arith)
        requires
            s * p == n,
            n >= 1,
            p >= 1,
    ;
    products(1, c, n, n, 1, 1);
    products(1, c, s, p, s, p);
    assert(1 * c * n * n == c * (n * n)) by (nonlinear_arith);
    assert(1 * c * s * p * s * p == c * (n * n)) by (nonlinear_arith)
        requires
            s * p == n,
    ;
    let six = seq![1, c, s, p, s, p];
    reshape_has(image, six);
    let cut = image.reshape(six);
    let ax = seq![0int, 2, 4, 1, 3, 5];
    permute_axes(cut, ax);
    let turned = cut.permute(ax);
    assert(turned.dims =~= seq![1, s, s, c, p, p]);
    let (y, x) = (py * p + dy, px * p + dx);
    assert(0 <= y < n && 0 <= x < n) by (nonlinear_arith)
        requires
            y == py * p + dy,
            x == px * p + dx,
            0 <= py < s,
            0 <= px < s,
            0 <= dy < p,
            0 <= dx < p,
            s * p == n,
    ;
    let whole = seq![0, ch, y, x];
    let parts = seq![0, ch, py, dy, px, dx];
    place4(0, ch, y, x, 1, c, n, n);
    place6(0, ch, py, dy, px, dx, 1, c, s, p, s, p);
    assert(((0 * c + ch) * n + y) * n + x == ((((0 * c + ch) * s + py) * p + dy) * s + px) * p + dx)
        by (nonlinear_arith)
        requires
            y == py * p + dy,
            x == px * p + dx,
            n == s * p,
    ;
    read_reshape(f, image, six, whole, parts);
    let moved = seq![0, py, px, ch, dy, dx];
    assert(ax[0] == 0 && ax[1] == 2 && ax[2] == 4 && ax[3] == 1 && ax[4] == 3 && ax[5] == 5);
    assert forall|q: int| 0 <= q < ax.len() implies #[trigger] names(ax, q) by {
        assert(q == ax[0] || q == ax[1] || q == ax[2] || q == ax[3] || q == ax[4] || q == ax[5]);
    }
    read_permute(f, cut, ax, parts, moved);
    let (row, col) = (py * s + px, (ch * p + dy) * p + dx);
    place6(0, py, px, ch, dy, dx, 1, s, s, c, p, p);
    place3(0, row, col, 1, s * s, c * p * p);
    assert((0 * (s * s) + row) * (c * p * p) + col == ((((0 * s + py) * s + px) * c + ch) * p + dy) * p + dx)
        by (nonlinear_arith)
        requires
            row == py * s + px,
            col == (ch * p + dy) * p + dx,
    ;
    read_reshape(f, turned, seq![1, s * s, c * p * p], moved, seq![0, row, col]);
}

proof fn place6(
    a: int,
    b: int,
    c: int,
    d: int,
    e: int,
    g: int,
    k: int,
    l: int,
    m: int,
    n: int,
    o: int,
    q: int,
)
    ensures
        place(seq![a, b, c, d, e, g], seq![k, l, m, n, o, q]) == ((((a * l + b) * m + c) * n + d) * o + e) * q + g,
{
    reveal_with_fuel(place, 3);
    place4(a, b, c, d, k, l, m, n);
    assert(seq![a, b, c, d, e, g].drop_last() =~= seq![a, b, c, d, e]);
    assert(seq![k, l, m, n, o, q].drop_last() =~= seq![k, l, m, n, o]);
    assert(seq![a, b, c, d, e].drop_last() =~= seq![a, b, c, d]);
    assert(seq![k, l, m, n, o].drop_last() =~= seq![k, l, m, n]);
}

} // verus!
