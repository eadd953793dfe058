//! What the transformer of Mimi computes, number by number.

use crate::codec_extents::{heads_of_has, norm_has, rotated_has, spread_has, tables_have};
use crate::common::{causal_data, causal_mask_rows};
use crate::evaluation::place;
use crate::extents::{broadcast_to_has, constant_has, extents, has, products, reshape_has};
use crate::formulas::{averages_alike, dot, head_of, norms_alike, Heads, Rows};
use crate::lazy::Tensor;
use crate::lazy_mimi_transformer::{
    angle_table, angle_tensor, causal_square, layers_value, rotated, spread, LayerNormWeights,
    MimiTransformerConfig, MimiTransformerLayerWeights, ProjectedTransformerWeights,
};
use crate::meaning::{
    at, at1, at2, at3, at4, elements, lows, number, row3, share, standard, sum, under, Functions,
};
use crate::mpt_meaning::gelu_erf_holds;
use crate::readings::{
    number_of_scale, numbers_zero_one, pick, place1, place2, place3, place4, read_broadcast3, read_constant,
    read_reshape, readings, sums_alike,
};
use crate::rows_read::{
    averaged_rows, by_heads_holds, each, heads_hold, heads_of, holds, joined_holds, layer_normed_rows, linear_holds,
    linear_rows, sum_holds, sum_rows,
};
use crate::scalar::{inv_sqrt64, Scalar, UnaryFn};
use vstd::prelude::*;

verus! {

/// The angle of pair `m` of a head at position `i`.
pub open spec fn pair_angle(f: Functions, cfg: &MimiTransformerConfig, i: int, m: int) -> real {
    i as real * (1real / (f.pow)(number(f, cfg.max_period), (2 * m) as real / cfg.width() as real))
}

/// Heads whose neighbouring features are turned against each other by the angles of
/// their positions.
pub open spec fn paired_heads(f: Functions, cfg: &MimiTransformerConfig, x: Heads) -> Heads {
    |g: int, i: int| |k: int|
        {
            let a = pair_angle(f, cfg, i, k / 2);
            if k % 2 == 0 {
                x(g, i)(k) * (f.cos)(a) - x(g, i)(k + 1) * (f.sin)(a)
            } else {
                x(g, i)(k - 1) * (f.sin)(a) + x(g, i)(k) * (f.cos)(a)
            }
        }
}

/// Rows scaled feature by feature.
pub open spec fn scaled_rows(f: Functions, x: Rows, s: Seq<Scalar>) -> Rows {
    |i: int| |j: int| x(i)(j) * number(f, s[j])
}

/// What each position attends to among itself and those before it, projected.
pub open spec fn attended(f: Functions, cfg: &MimiTransformerConfig, w: &MimiTransformerLayerWeights, x: Rows, t: int) -> Rows {
    let d = cfg.d_model as int;
    let width = cfg.width();
    let q = paired_heads(f, cfg, heads_of(linear_rows(f, x, w.attn.q_proj@, d, d), width));
    let k = paired_heads(f, cfg, heads_of(linear_rows(f, x, w.attn.k_proj@, d, d), width));
    let v = heads_of(linear_rows(f, x, w.attn.v_proj@, d, d), width);
    linear_rows(
        f,
        averaged_rows(
            f,
            |g: int, i: int, o: int| dot(width, q(g, i), k(g, o)) * (1real / (f.sqrt)(width as real)),
            |i: int, o: int| o > i,
            v,
            width,
            1,
            t,
        ),
        w.attn.o_proj@,
        d,
        d,
    )
}

/// The rows after a layer: what attention makes of the normed rows is scaled and
/// added, then what the feed-forward part makes of the normed sums.
pub open spec fn after_layer(f: Functions, cfg: &MimiTransformerConfig, w: &MimiTransformerLayerWeights, x: Rows, t: int) -> Rows {
    let d = cfg.d_model as int;
    let inner = cfg.dim_feedforward as int;
    let n = layer_normed_rows(f, x, w.norm1.gain@, w.norm1.bias@, d, cfg.layer_norm_eps);
    let y = sum_rows(x, scaled_rows(f, attended(f, cfg, w, n, t), w.layer_scale_1@));
    let m = layer_normed_rows(f, y, w.norm2.gain@, w.norm2.bias@, d, cfg.layer_norm_eps);
    let up = each(f.gelu_erf, linear_rows(f, m, w.mlp.fc1@, d, inner));
    sum_rows(y, scaled_rows(f, linear_rows(f, up, w.mlp.fc2@, inner, d), w.layer_scale_2@))
}

/// The rows after the first `n` layers.
pub open spec fn after_layers(
    f: Functions,
    cfg: &MimiTransformerConfig,
    layers: Seq<MimiTransformerLayerWeights>,
    n: int,
    x: Rows,
    t: int,
) -> Rows
    decreases n,
{
    if n <= 0 {
        x
    } else {
        after_layer(f, cfg, &layers[n - 1], after_layers(f, cfg, layers, n - 1, x, t), t)
    }
}

proof fn place5(a: int, b: int, c: int, d: int, e: int, k: int, l: int, m: int, n: int, o: int)
    ensures
        place(seq![a, b, c, d, e], seq![k, l, m, n, o]) == (((a * l + b) * m + c) * n + d) * o + e,
{
    reveal_with_fuel(place, 2);
    place4(a, b, c, d, k, l, m, n);
    assert(seq![a, b, c, d, e].drop_last() =~= seq![a, b, c, d]);
    assert(seq![k, l, m, n, o].drop_last() =~= seq![k, l, m, n]);
}

/// Values for the channels, number by number.
proof fn spread_reads(f: Functions, v: Seq<Scalar>, d: int, x: Tensor, s: int, i: int, k: int)
    requires
        has(x, seq![1, s, d]),
        1 <= d <= usize::MAX,
        v.len() == d,
        0 <= i < s,
        0 <= k < d,
    ensures
        has(spread(v, d, x), seq![1, s, d]),
        at3(f, spread(v, d, x), 0, i, k) == number(f, v[k]),
{
    broadcast use {extents, readings};

    spread_has(v, d, x, 1, s);
    let row = Tensor::constant(v, seq![d]);
    products(d, 1, 1, 1, 1, 1);
    products(1, 1, d, 1, 1, 1);
    reshape_has(row, seq![1, 1, d]);
    let flat = row.reshape(seq![1, 1, d]);
    read_broadcast3(f, flat, x.dims, 0, i, k);
    assert(pick(d, k) == k);
    place1(k, d);
    place3(0, 0, k, 1, 1, d);
    assert((0 * 1 + 0) * d == 0) by (nonlinear_arith);
    read_reshape(f, row, seq![1, 1, d], seq![k], seq![0, 0, k]);
    assert(at1(f, row, k) == number(f, v[k]));
}

proof fn norm_holds(f: Functions, w: &LayerNormWeights, t: Tensor, x: Rows, d: int, eps: Scalar, s: int)
    requires
        has(t, seq![1, s, d]),
        holds(f, t, x, s, d),
        1 <= d <= usize::MAX,
        w.gain@.len() == d,
        w.bias@.len() == d,
    ensures
        has(w.value(t, d, eps), seq![1, s, d]),
        holds(f, w.value(t, d, eps), layer_normed_rows(f, x, w.gain@, w.bias@, d, eps), s, d),
{
    broadcast use {extents, readings};

    norm_has(w, t, d, eps, 1, s);
    let n = t.layer_norm_last_dim(eps);
    spread_has(w.gain@, d, t, 1, s);
    spread_has(w.bias@, d, t, 1, s);
    let y = n.mul(spread(w.gain@, d, t));
    assert forall|i: int, j: int| 0 <= i < s && 0 <= j < d implies #[trigger] at3(f, w.value(t, d, eps), 0, i, j)
        == layer_normed_rows(f, x, w.gain@, w.bias@, d, eps)(i)(j) by {
        assert forall|k: int| 0 <= k < d implies #[trigger] row3(f, t, 0, i)(k) == x(i)(k) by {
            assert(at3(f, t, 0, i, k) == x(i)(k));
        }
        norms_alike(f, row3(f, t, 0, i), x(i), d, number(f, eps), j);
        spread_reads(f, w.gain@, d, t, s, i, j);
        spread_reads(f, w.bias@, d, t, s, i, j);
        assert(at3(f, n, 0, i, j) == standard(f, row3(f, t, 0, i), d, number(f, eps), j));
        assert(at3(f, y, 0, i, j) == at3(f, n, 0, i, j) * at3(f, spread(w.gain@, d, t), 0, i, j));
    }
}

proof fn scaled_holds(f: Functions, t: Tensor, x: Rows, v: Seq<Scalar>, d: int, s: int)
    requires
        has(t, seq![1, s, d]),
        holds(f, t, x, s, d),
        1 <= d <= usize::MAX,
        v.len() == d,
        s >= 1,
    ensures
        has(t.mul(spread(v, d, t)), seq![1, s, d]),
        holds(f, t.mul(spread(v, d, t)), scaled_rows(f, x, v), s, d),
{
    broadcast use {extents, readings};

    spread_has(v, d, t, 1, s);
    let y = t.mul(spread(v, d, t));
    assert forall|i: int, j: int| 0 <= i < s && 0 <= j < d implies #[trigger] at3(f, y, 0, i, j) == scaled_rows(
        f,
        x,
        v,
    )(i)(j) by {
        spread_reads(f, v, d, t, s, i, j);
        assert(at3(f, t, 0, i, j) == x(i)(j));
    }
}

/// The tables of cosines and sines, number by number.
proof fn table_reads(f: Functions, cfg: &MimiTransformerConfig, u: UnaryFn, t: int, i: int, m: int)
    requires
        cfg.width() >= 2,
        cfg.width() <= usize::MAX,
        t >= 1,
        t * (cfg.width() / 2) <= usize::MAX,
        0 <= i < t,
        0 <= m < cfg.width() / 2,
        u == UnaryFn::Cos || u == UnaryFn::Sin,
    ensures
        at2(f, angle_tensor(u, t, cfg.width(), cfg.max_period), i, m) == if u == UnaryFn::Cos {
            (f.cos)(pair_angle(f, cfg, i, m))
        } else {
            (f.sin)(pair_angle(f, cfg, i, m))
        },
{
    broadcast use readings;

    let half = cfg.width() / 2;
    tables_have(u, t, cfg.width(), cfg.max_period);
    let table = angle_table(u, t, cfg.width(), cfg.max_period);
    let spot = i * half + m;
    assert(0 <= spot < t * half) by (nonlinear_arith)
        requires
            0 <= i < t,
            0 <= m < half,
            spot == i * half + m,
    ;
    vstd::arithmetic::div_mod::lemma_fundamental_div_mod_converse(spot, half, i, m);
    assert(t <= t * half) by (nonlinear_arith)
        requires
            t >= 1,
            half >= 1,
    ;
    numbers_zero_one(f);
    assert(at2(f, Tensor::constant(table, seq![t, half]), i, m) == number(f, table[i * half + m]));
    reveal_with_fuel(number, 6);
}

/// Turned pairs, number by number.
#[verifier::spinoff_prover]
proof fn rotated_holds(f: Functions, cfg: &MimiTransformerConfig, x: Tensor, xs: Heads, t: int)
    requires
        cfg.addressable(1, t),
        cfg.width() >= 2,
        has(x, seq![1, cfg.num_heads as int, t, cfg.width()]),
        heads_hold(f, x, xs, cfg.num_heads as int, t, cfg.width()),
    ensures
        ({
            let y = rotated(
                x,
                angle_tensor(UnaryFn::Cos, t, cfg.width(), cfg.max_period),
                angle_tensor(UnaryFn::Sin, t, cfg.width(), cfg.max_period),
                1,
                cfg.num_heads as int,
                t,
                cfg.width(),
            );
            &&& has(y, seq![1, cfg.num_heads as int, t, cfg.width()])
            &&& heads_hold(f, y, paired_heads(f, cfg, xs), cfg.num_heads as int, t, cfg.width())
        }),
{
    let heads = cfg.num_heads as int;
    let w = cfg.width();
    let half = w / 2;
    let d = cfg.d_model as int;
    let cos = angle_tensor(UnaryFn::Cos, t, w, cfg.max_period);
    let sin = angle_tensor(UnaryFn::Sin, t, w, cfg.max_period);
    tables_have(UnaryFn::Cos, t, w, cfg.max_period);
    tables_have(UnaryFn::Sin, t, w, cfg.max_period);
    assert(1 * heads * t * w == 1 * t * d) by (nonlinear_arith)
        requires
            heads * w == d,
    ;
    rotated_has(x, cos, sin, 1, heads, t, w);
    let y = rotated(x, cos, sin, 1, heads, t, w);
    let ys = paired_heads(f, cfg, xs);
    assert(w <= d) by (nonlinear_arith)
        requires
            heads * w == d,
            heads >= 1,
            w >= 2,
    ;
    assert forall|g: int, i: int, k: int| 0 <= g < heads && 0 <= i < t && 0 <= k < w implies #[trigger] at4(
        f,
        y,
        0,
        g,
        i,
        k,
    ) == ys(g, i)(k) by {
        rotated_reads(f, x, cos, sin, heads, t, w, g, i, k);
        table_reads(f, cfg, UnaryFn::Cos, t, i, k / 2);
        table_reads(f, cfg, UnaryFn::Sin, t, i, k / 2);
        assert(at4(f, x, 0, g, i, k) == xs(g, i)(k));
        if k % 2 == 0 {
            assert(at4(f, x, 0, g, i, k + 1) == xs(g, i)(k + 1));
        } else {
            assert(at4(f, x, 0, g, i, k - 1) == xs(g, i)(k - 1));
        }
    }
}

#[verifier::spinoff_prover]
#[verifier::rlimit(40)]
proof fn rotated_reads(
    f: Functions,
    x: Tensor,
    cos: Tensor,
    sin: Tensor,
    heads: int,
    t: int,
    w: int,
    g: int,
    i: int,
    k: int,
)
    requires
        has(x, seq![1, heads, t, w]),
        has(cos, seq![t, w / 2]),
        has(sin, seq![t, w / 2]),
        heads >= 1,
        t >= 1,
        w >= 2,
        w % 2 == 0,
        1 * heads * t * w <= usize::MAX,
        0 <= g < heads,
        0 <= i < t,
        0 <= k < w,
    ensures
        at4(f, rotated(x, cos, sin, 1, heads, t, w), 0, g, i, k) == if k % 2 == 0 {
            at4(f, x, 0, g, i, k) * at2(f, cos, i, k / 2) - at4(f, x, 0, g, i, k + 1) * at2(f, sin, i, k / 2)
        } else {
            at4(f, x, 0, g, i, k - 1) * at2(f, sin, i, k / 2) + at4(f, x, 0, g, i, k) * at2(f, cos, i, k / 2)
        },
{
    broadcast use {extents, readings};

    let half = w / 2;
    let m = k / 2;
    let z = k % 2;
    let n = 1 * heads * t;
    assert(n >= 1 && t <= n) by (nonlinear_arith)
        requires
            n == 1 * heads * t,
            heads >= 1,
            t >= 1,
    ;
    assert(n * half * 2 == n * w && n * half <= n * w && t * half <= n * w) by (nonlinear_arith)
        requires
            2 * half == w,
            half >= 1,
            1 <= t <= n,
    ;
    rotated_has(x, cos, sin, 1, heads, t, w);
    products(1, heads, t, w, 1, 1);
    products(1, heads, t, half, 2, 1);
    products(1, heads, t, half, 1, 1);
    products(t, half, 1, 1, 1, 1);
    products(1, 1, t, half, 1, 1);
    assert(1 * 1 * t * half == t * half);
    let five = seq![1, heads, t, half, 2];
    reshape_has(x, five);
    let pairs = x.reshape(five);
    let to = seq![1, heads, t, half];
    let (e, o) = (pairs.narrow(4, 0, 1), pairs.narrow(4, 1, 1));
    assert(e.dims =~= seq![1, heads, t, half, 1]);
    assert(o.dims =~= seq![1, heads, t, half, 1]);
    assert(n * half * 1 == n * half);
    reshape_has(e, to);
    reshape_has(o, to);
    let (even, odd) = (e.reshape(to), o.reshape(to));
    let one = seq![1, 1, t, half];
    reshape_has(cos, one);
    reshape_has(sin, one);
    broadcast_to_has(cos.reshape(one), to);
    broadcast_to_has(sin.reshape(one), to);
    let (c, s) = (cos.reshape(one).broadcast_to(to), sin.reshape(one).broadcast_to(to));
    let ne = even.mul(c).sub(odd.mul(s));
    let no = even.mul(s).add(odd.mul(c));
    assert(has(ne, to) && has(no, to));
    let (ue, uo) = (ne.unsqueeze(4), no.unsqueeze(4));
    assert(ue.dims =~= seq![1, heads, t, half, 1]);
    assert(uo.dims =~= seq![1, heads, t, half, 1]);
    let both = ue.concat(uo, 4);
    assert(both.dims =~= five);
    reshape_has(both, seq![1, heads, t, w]);
    let spot = seq![0, g, i, m, z];
    place5(0, g, i, m, z, 1, heads, t, half, 2);
    place4(0, g, i, k, 1, heads, t, w);
    assert((((0 * heads + g) * t + i) * half + m) * 2 + z == ((0 * heads + g) * t + i) * w + k) by (nonlinear_arith)
        requires
            w == 2 * half,
            k == 2 * m + z,
    ;
    read_reshape(f, both, seq![1, heads, t, w], spot, seq![0, g, i, k]);
    interleaved_reads(f, ne, no, heads, t, half, g, i, m, z);
    half_reads(f, x, heads, t, w, half, g, i, m, 0);
    half_reads(f, x, heads, t, w, half, g, i, m, 1);
    stretched_reads(f, cos, heads, t, half, g, i, m);
    stretched_reads(f, sin, heads, t, half, g, i, m);
    assert(at4(f, even.mul(c), 0, g, i, m) == at4(f, even, 0, g, i, m) * at4(f, c, 0, g, i, m));
    assert(at4(f, odd.mul(s), 0, g, i, m) == at4(f, odd, 0, g, i, m) * at4(f, s, 0, g, i, m));
    assert(at4(f, even.mul(s), 0, g, i, m) == at4(f, even, 0, g, i, m) * at4(f, s, 0, g, i, m));
    assert(at4(f, odd.mul(c), 0, g, i, m) == at4(f, odd, 0, g, i, m) * at4(f, c, 0, g, i, m));
    assert(at4(f, ne, 0, g, i, m) == at4(f, even.mul(c), 0, g, i, m) - at4(f, odd.mul(s), 0, g, i, m));
    assert(at4(f, no, 0, g, i, m) == at4(f, even.mul(s), 0, g, i, m) + at4(f, odd.mul(c), 0, g, i, m));
}

/// Two signals side by side along a new last axis.
proof fn interleaved_reads(f: Functions, x: Tensor, y: Tensor, heads: int, t: int, half: int, g: int, i: int, m: int, z: int)
    requires
        has(x, seq![1, heads, t, half]),
        has(y, seq![1, heads, t, half]),
        has(x.unsqueeze(4), seq![1, heads, t, half, 1]),
        has(y.unsqueeze(4), seq![1, heads, t, half, 1]),
        !x.unsqueeze(4).concat(y.unsqueeze(4), 4).bad(),
        0 <= z < 2,
    ensures
        at(f, x.unsqueeze(4).concat(y.unsqueeze(4), 4), seq![0, g, i, m, z]) == if z == 0 {
            at4(f, x, 0, g, i, m)
        } else {
            at4(f, y, 0, g, i, m)
        },
{
    let (u, v) = (x.unsqueeze(4), y.unsqueeze(4));
    let spot = seq![0, g, i, m, z];
    let front = seq![0, g, i, m, 0];
    assert(spot[4] == z);
    assert(z == 1 ==> spot.update(4, spot[4] - u.dims[4]) =~= front);
    assert(z == 0 ==> spot =~= front);
    assert(at(f, u.concat(v, 4), spot) == if z == 0 {
        at(f, u, front)
    } else {
        at(f, v, front)
    }) by {
        reveal(Tensor::concat);
        reveal(elements);
    }
    assert(front.remove(4) =~= seq![0, g, i, m]);
    assert(at(f, u, front) == at(f, x, seq![0, g, i, m]) && at(f, v, front) == at(f, y, seq![0, g, i, m])) by {
        reveal(Tensor::unsqueeze);
        reveal(elements);
    }
}

/// One feature of each pair.
proof fn half_reads(f: Functions, x: Tensor, heads: int, t: int, w: int, half: int, g: int, i: int, m: int, z: int)
    requires
        has(x, seq![1, heads, t, w]),
        has(x.reshape(seq![1, heads, t, half, 2]), seq![1, heads, t, half, 2]),
        has(x.reshape(seq![1, heads, t, half, 2]).narrow(4, z, 1), seq![1, heads, t, half, 1]),
        !x.reshape(seq![1, heads, t, half, 2]).narrow(4, z, 1).reshape(seq![1, heads, t, half]).bad(),
        w == 2 * half,
        0 <= g < heads,
        0 <= i < t,
        0 <= m < half,
        0 <= z < 2,
    ensures
        at4(
            f,
            x.reshape(seq![1, heads, t, half, 2]).narrow(4, z, 1).reshape(seq![1, heads, t, half]),
            0,
            g,
            i,
            m,
        ) == at4(f, x, 0, g, i, 2 * m + z),
{
    let five = seq![1, heads, t, half, 2];
    let pairs = x.reshape(five);
    let e = pairs.narrow(4, z, 1);
    let to = seq![1, heads, t, half];
    let spot = seq![0, g, i, m, 0];
    let far = seq![0, g, i, m, z];
    place5(0, g, i, m, 0, 1, heads, t, half, 1);
    place4(0, g, i, m, 1, heads, t, half);
    assert((((0 * heads + g) * t + i) * half + m) * 1 + 0 == ((0 * heads + g) * t + i) * half + m)
        by (nonlinear_arith);
    read_reshape(f, e, to, spot, seq![0, g, i, m]);
    assert(at(f, e, spot) == at(f, pairs, far)) by {
        reveal(Tensor::narrow);
        reveal(elements);
        assert(spot.update(4, spot[4] + z) =~= far);
    }
    place5(0, g, i, m, z, 1, heads, t, half, 2);
    place4(0, g, i, 2 * m + z, 1, heads, t, w);
    assert((((0 * heads + g) * t + i) * half + m) * 2 + z == ((0 * heads + g) * t + i) * w + (2 * m + z))
        by (nonlinear_arith)
        requires
            w == 2 * half,
    ;
    read_reshape(f, x, five, seq![0, g, i, 2 * m + z], far);
}

/// A table for all heads.
proof fn stretched_reads(f: Functions, c: Tensor, heads: int, t: int, half: int, g: int, i: int, m: int)
    requires
        has(c, seq![t, half]),
        has(c.reshape(seq![1, 1, t, half]), seq![1, 1, t, half]),
        !c.reshape(seq![1, 1, t, half]).broadcast_to(seq![1, heads, t, half]).bad(),
        0 <= g < heads,
        0 <= i < t,
        0 <= m < half,
    ensures
        at4(f, c.reshape(seq![1, 1, t, half]).broadcast_to(seq![1, heads, t, half]), 0, g, i, m) == at2(f, c, i, m),
{
    let one = seq![1, 1, t, half];
    let flat = c.reshape(one);
    let spot = seq![0, g, i, m];
    assert(under(spot, one) =~= seq![0, 0, i, m]) by {
        assert(t == 1 ==> i == 0);
        assert(half == 1 ==> m == 0);
    }
    assert(at(f, flat.broadcast_to(seq![1, heads, t, half]), spot) == at(f, flat, seq![0, 0, i, m])) by {
        reveal(Tensor::broadcast_to);
        reveal(elements);
    }
    place2(i, m, t, half);
    place4(0, 0, i, m, 1, 1, t, half);
    assert(((0 * 1 + 0) * t + i) * half + m == i * half + m) by (nonlinear_arith);
    read_reshape(f, c, one, seq![i, m], seq![0, 0, i, m]);
}

/// Heads side by side, number by number.
proof fn flat_reads(f: Functions, x: Tensor, heads: int, t: int, w: int, g: int, i: int, k: int)
    requires
        has(x, seq![1, heads, t, w]),
        !x.reshape(seq![heads, t, w]).bad(),
        0 <= g < heads,
        0 <= i < t,
        0 <= k < w,
    ensures
        at3(f, x.reshape(seq![heads, t, w]), g, i, k) == at4(f, x, 0, g, i, k),
{
    place4(0, g, i, k, 1, heads, t, w);
    place3(g, i, k, heads, t, w);
    assert(((0 * heads + g) * t + i) * w + k == (g * t + i) * w + k) by (nonlinear_arith);
    read_reshape(f, x, seq![heads, t, w], seq![0, g, i, k], seq![g, i, k]);
}

proof fn matmul3_reads(f: Functions, p: Tensor, q: Tensor, a: int, c: int, d: int)
    requires
        !p.matmul(q).bad(),
        p.dims.len() == 3,
        q.dims.len() == 3,
    ensures
        at3(f, p.matmul(q), a, c, d) == sum(p.dims[2], |k: int| at3(f, p, a, c, k) * at3(f, q, a, k, d)),
{
    reveal(Tensor::matmul);
    reveal(elements);
    let i = seq![a, c, d];
    let (ga, gb) = (elements(f, p), elements(f, q));
    let g = |k: int|
        ga(i.update(2, k)) * (if q.dims.len() == 2 {
            gb(seq![k, i.last()])
        } else {
            gb(i.update(1, k))
        });
    let h = |k: int| at3(f, p, a, c, k) * at3(f, q, a, k, d);
    assert forall|k: int| #[trigger] g(k) == h(k) by {
        assert(i.update(2, k) =~= seq![a, c, k]);
        assert(i.update(1, k) =~= seq![a, k, d]);
    }
    assert(g =~= h);
}

proof fn softmax3_reads(f: Functions, t: Tensor, hidden: spec_fn(int) -> bool, a: int, b: int, c: int)
    requires
        !t.bad(),
        t.dims.len() == 3,
        forall|k: int| #[trigger] hidden(k) == lows(t)(seq![a, b, k]),
    ensures
        at3(f, t.softmax_last_dim(), a, b, c) == share(f, row3(f, t, a, b), hidden, t.dims[2], c),
{
    reveal(Tensor::softmax_last_dim);
    reveal(elements);
    let i = seq![a, b, c];
    let g = elements(f, t);
    let l = lows(t);
    let x = |k: int| g(i.update(2, k));
    let y = row3(f, t, a, b);
    let p = |k: int| l(i.update(2, k));
    assert forall|k: int| #[trigger] x(k) == y(k) by {
        assert(i.update(2, k) =~= seq![a, b, k]);
    }
    assert forall|k: int| #[trigger] p(k) == hidden(k) by {
        assert(i.update(2, k) =~= seq![a, b, k]);
    }
    assert(x =~= y);
    assert(p =~= hidden);
}

/// The mask of positions that come later, for all heads.
proof fn mask_reads(f: Functions, t: int, n: int, g: int, i: int, o: int)
    requires
        t >= 1,
        t * t <= usize::MAX,
        has(causal_square(t), seq![t, t]),
        has(causal_square(t).reshape(seq![1, t, t]), seq![1, t, t]),
        !causal_square(t).reshape(seq![1, t, t]).broadcast_to(seq![n, t, t]).bad(),
        0 <= g < n,
        0 <= i < t,
        0 <= o < t,
    ensures
        ({
            let m = causal_square(t).reshape(seq![1, t, t]).broadcast_to(seq![n, t, t]);
            &&& lows(m)(seq![g, i, o]) == (o > i)
            &&& o <= i ==> at3(f, m, g, i, o) == 0real
        }),
{
    let sq = causal_square(t);
    let flat = sq.reshape(seq![1, t, t]);
    let m = flat.broadcast_to(seq![n, t, t]);
    let spot = seq![g, i, o];
    let low = seq![0, i, o];
    assert(under(spot, seq![1, t, t]) =~= low) by {
        assert(t == 1 ==> i == 0 && o == 0);
    }
    assert(at(f, m, spot) == at(f, flat, low) && lows(m)(spot) == lows(flat)(low)) by {
        reveal(Tensor::broadcast_to);
        reveal(elements);
        reveal(lows);
    }
    place2(i, o, t, t);
    place3(0, i, o, 1, t, t);
    assert((0 * t + i) * t + o == i * t + o) by (nonlinear_arith);
    read_reshape(f, sq, seq![1, t, t], seq![i, o], low);
    read_constant(f, causal_data(t), seq![t, t], seq![i, o]);
    causal_mask_rows(t, i, o);
    numbers_zero_one(f);
}

/// Attention, number by number.
#[verifier::spinoff_prover]
#[verifier::rlimit(40)]
proof fn attended_holds(
    f: Functions,
    cfg: &MimiTransformerConfig,
    w: &MimiTransformerLayerWeights,
    x: Tensor,
    xs: Rows,
    t: int,
)
    requires
        cfg.addressable(1, t),
        w.sized(cfg),
        has(x, seq![1, t, cfg.d_model as int]),
        holds(f, x, xs, t, cfg.d_model as int),
    ensures
        ({
            let y = w.attn.value(
                x,
                angle_tensor(UnaryFn::Cos, t, cfg.width(), cfg.max_period),
                angle_tensor(UnaryFn::Sin, t, cfg.width(), cfg.max_period),
                causal_square(t),
                cfg,
                1,
                t,
            );
            &&& has(y, seq![1, t, cfg.d_model as int])
            &&& holds(f, y, attended(f, cfg, w, xs, t), t, cfg.d_model as int)
        }),
{
    broadcast use {extents, readings};

    let d = cfg.d_model as int;
    let h = cfg.num_heads as int;
    let wd = cfg.width();
    let a = &w.attn;
    let cos = angle_tensor(UnaryFn::Cos, t, wd, cfg.max_period);
    let sin = angle_tensor(UnaryFn::Sin, t, wd, cfg.max_period);
    heads_of_has(x, a.q_proj@, cfg, 1, t);
    linear_holds(f, x, xs, a.q_proj@, d, d, t);
    linear_holds(f, x, xs, a.k_proj@, d, d, t);
    linear_holds(f, x, xs, a.v_proj@, d, d, t);
    let (qr, kr, vr) = (
        linear_rows(f, xs, a.q_proj@, d, d),
        linear_rows(f, xs, a.k_proj@, d, d),
        linear_rows(f, xs, a.v_proj@, d, d),
    );
    by_heads_holds(f, x.linear(a.q_proj@, d, d), qr, h, wd, t);
    by_heads_holds(f, x.linear(a.k_proj@, d, d), kr, h, wd, t);
    by_heads_holds(f, x.linear(a.v_proj@, d, d), vr, h, wd, t);
    let qh = crate::lazy_mimi_transformer::heads_of(x, a.q_proj@, cfg, 1, t);
    let kh = crate::lazy_mimi_transformer::heads_of(x, a.k_proj@, cfg, 1, t);
    let v = crate::lazy_mimi_transformer::heads_of(x, a.v_proj@, cfg, 1, t);
    rotated_holds(f, cfg, qh, heads_of(qr, wd), t);
    rotated_holds(f, cfg, kh, heads_of(kr, wd), t);
    let q = rotated(qh, cos, sin, 1, h, t, wd);
    let k = rotated(kh, cos, sin, 1, h, t, wd);
    let (qs, ks, vs) = (
        paired_heads(f, cfg, heads_of(qr, wd)),
        paired_heads(f, cfg, heads_of(kr, wd)),
        heads_of(vr, wd),
    );
    assert(1 * h * t * wd == 1 * t * d) by (nonlinear_arith)
        requires
            h * wd == d,
    ;
    products(1, h, t, wd, 1, 1);
    products(h, t, wd, 1, 1, 1);
    assert(1 * h == h);
    let flat = seq![h, t, wd];
    reshape_has(q, flat);
    reshape_has(k, flat);
    reshape_has(v, flat);
    let (q3, k3, v3) = (q.reshape(flat), k.reshape(flat), v.reshape(flat));
    let kt = k3.permute(seq![0, 2, 1]);
    let prods = q3.matmul(kt);
    let scale = inv_sqrt64(wd as usize);
    number_of_scale(f, wd as usize);
    let scores = prods.mul_scalar(scale);
    assert(has(scores, seq![h, t, t]));
    products(t, t, 1, 1, 1, 1);
    products(1, t, t, 1, 1, 1);
    assert(1 * t * t == t * t);
    assert(t * t >= 0) by (nonlinear_arith);
    let square = causal_square(t);
    constant_has(causal_data(t), seq![t, t]);
    reshape_has(square, seq![1, t, t]);
    broadcast_to_has(square.reshape(seq![1, t, t]), seq![h, t, t]);
    let mask = square.reshape(seq![1, t, t]).broadcast_to(seq![h, t, t]);
    let masked = scores.add(mask);
    let shares = masked.softmax_last_dim();
    let mixed = shares.matmul(v3);
    assert(has(mixed, seq![h, t, wd]));
    reshape_has(mixed, seq![1, h, t, wd]);
    let ctx = mixed.reshape(seq![1, h, t, wd]);
    let score = |g: int, i: int, o: int| dot(wd, qs(g, i), ks(g, o)) * (1real / (f.sqrt)(wd as real));
    let hidden = |i: int, o: int| o > i;
    let rows = averaged_rows(f, score, hidden, vs, wd, 1, t);
    assert forall|i: int, c: int| 0 <= i < t && 0 <= c < h * wd implies at4(f, ctx, 0, c / wd, i, c % wd)
        == #[trigger] rows(i)(c) by {
        head_of(c, h, wd);
        let (g, z) = (c / wd, c % wd);
        place4(0, g, i, z, 1, h, t, wd);
        place3(g, i, z, h, t, wd);
        assert(((0 * h + g) * t + i) * wd + z == (g * t + i) * wd + z) by (nonlinear_arith);
        read_reshape(f, mixed, seq![1, h, t, wd], seq![g, i, z], seq![0, g, i, z]);
        matmul3_reads(f, shares, v3, g, i, z);
        let low = |o: int| lows(masked)(seq![g, i, o]);
        let hid = |o: int| hidden(i, o);
        let got = row3(f, masked, g, i);
        let want = |o: int| score(g, i, o);
        assert forall|o: int| 0 <= o < t implies #[trigger] low(o) == hid(o) && (!hid(o) ==> got(o) == want(o)) by {
            mask_reads(f, t, h, g, i, o);
            assert(lows(masked)(seq![g, i, o]) == (lows(scores)(seq![g, i, o]) || lows(mask)(seq![g, i, o]))) by {
                reveal(Tensor::add);
                reveal(lows);
            }
            assert(!lows(scores)(seq![g, i, o]));
            matmul3_reads(f, q3, kt, g, i, o);
            let x1 = |m: int| at3(f, q3, g, i, m) * at3(f, kt, g, m, o);
            let x2 = |m: int| qs(g, i)(m) * ks(g, o)(m);
            assert forall|m: int| 0 <= m < wd implies #[trigger] x1(m) == x2(m) by {
                flat_reads(f, q, h, t, wd, g, i, m);
                flat_reads(f, k, h, t, wd, g, o, m);
                assert(at3(f, kt, g, m, o) == at3(f, k3, g, o, m));
                assert(at4(f, q, 0, g, i, m) == qs(g, i)(m));
                assert(at4(f, k, 0, g, o, m) == ks(g, o)(m));
            }
            sums_alike(wd, x1, x2);
            assert(at3(f, scores, g, i, o) == at3(f, prods, g, i, o) * number(f, scale));
            assert(at3(f, masked, g, i, o) == at3(f, scores, g, i, o) + at3(f, mask, g, i, o));
        }
        assert forall|o: int| 0 <= o < t && !low(o) implies #[trigger] got(o) == want(o) by {
            assert(low(o) == hid(o));
        }
        let vals = |o: int| vs(g / 1, o)(z);
        let held = |o: int| at3(f, v3, g, o, z);
        assert forall|o: int| 0 <= o < t implies #[trigger] held(o) == vals(o) by {
            flat_reads(f, v, h, t, wd, g, o, z);
            assert(at4(f, v, 0, g, o, z) == vs(g, o)(z));
        }
        averages_alike(f, t, got, want, low, hid, held, vals);
        let y1 = |o: int| at3(f, shares, g, i, o) * at3(f, v3, g, o, z);
        let y2 = |o: int| share(f, got, low, t, o) * held(o);
        assert forall|o: int| 0 <= o < t implies #[trigger] y1(o) == y2(o) by {
            softmax3_reads(f, masked, low, g, i, o);
        }
        sums_alike(t, y1, y2);
    }
    joined_holds(f, ctx, rows, h, wd, t);
    let merged = ctx.permute(seq![0, 2, 1, 3]).reshape(seq![1, t, d]);
    linear_holds(f, merged, rows, a.o_proj@, d, d, t);
}

/// A layer, number by number.
#[verifier::spinoff_prover]
pub proof fn layer_reads(
    f: Functions,
    cfg: &MimiTransformerConfig,
    w: &MimiTransformerLayerWeights,
    x: Tensor,
    xs: Rows,
    t: int,
)
    requires
        cfg.addressable(1, t),
        w.sized(cfg),
        has(x, seq![1, t, cfg.d_model as int]),
        holds(f, x, xs, t, cfg.d_model as int),
    ensures
        ({
            let y = w.value(
                x,
                angle_tensor(UnaryFn::Cos, t, cfg.width(), cfg.max_period),
                angle_tensor(UnaryFn::Sin, t, cfg.width(), cfg.max_period),
                causal_square(t),
                cfg,
                1,
                t,
            );
            &&& has(y, seq![1, t, cfg.d_model as int])
            &&& holds(f, y, after_layer(f, cfg, w, xs, t), t, cfg.d_model as int)
        }),
{
    let d = cfg.d_model as int;
    let inner = cfg.dim_feedforward as int;
    let cos = angle_tensor(UnaryFn::Cos, t, cfg.width(), cfg.max_period);
    let sin = angle_tensor(UnaryFn::Sin, t, cfg.width(), cfg.max_period);
    let eps = cfg.layer_norm_eps;
    assert(inner * d == d * inner) by (nonlinear_arith);
    norm_holds(f, &w.norm1, x, xs, d, eps, t);
    let n = w.norm1.value(x, d, eps);
    let ns = layer_normed_rows(f, xs, w.norm1.gain@, w.norm1.bias@, d, eps);
    attended_holds(f, cfg, w, n, ns, t);
    let a = w.attn.value(n, cos, sin, causal_square(t), cfg, 1, t);
    let at = attended(f, cfg, w, ns, t);
    scaled_holds(f, a, at, w.layer_scale_1@, d, t);
    let sa = a.mul(spread(w.layer_scale_1@, d, a));
    sum_holds(f, x, sa, xs, scaled_rows(f, at, w.layer_scale_1@), t, d);
    let y = x.add(sa);
    let ys = sum_rows(xs, scaled_rows(f, at, w.layer_scale_1@));
    norm_holds(f, &w.norm2, y, ys, d, eps, t);
    let m = w.norm2.value(y, d, eps);
    let ms = layer_normed_rows(f, ys, w.norm2.gain@, w.norm2.bias@, d, eps);
    linear_holds(f, m, ms, w.mlp.fc1@, d, inner, t);
    let up = m.linear(w.mlp.fc1@, d, inner);
    let ups = linear_rows(f, ms, w.mlp.fc1@, d, inner);
    gelu_erf_holds(f, up, ups, t, inner);
    linear_holds(f, up.gelu_erf(), each(f.gelu_erf, ups), w.mlp.fc2@, inner, d, t);
    let o = up.gelu_erf().linear(w.mlp.fc2@, inner, d);
    let os = linear_rows(f, each(f.gelu_erf, ups), w.mlp.fc2@, inner, d);
    scaled_holds(f, o, os, w.layer_scale_2@, d, t);
    sum_holds(
        f,
        y,
        o.mul(spread(w.layer_scale_2@, d, o)),
        ys,
        scaled_rows(f, os, w.layer_scale_2@),
        t,
        d,
    );
}

/// The first layers, number by number.
#[verifier::spinoff_prover]
#[verifier::rlimit(40)]
pub proof fn layers_read(
    f: Functions,
    cfg: &MimiTransformerConfig,
    layers: Seq<MimiTransformerLayerWeights>,
    n: int,
    x: Tensor,
    xs: Rows,
    t: int,
)
    requires
        cfg.addressable(1, t),
        0 <= n <= layers.len(),
        forall|i: int| 0 <= i < layers.len() ==> (#[trigger] layers[i]).sized(cfg),
        has(x, seq![1, t, cfg.d_model as int]),
        holds(f, x, xs, t, cfg.d_model as int),
    ensures
        has(layers_value(layers, n, x, cfg), seq![1, t, cfg.d_model as int]),
        holds(f, layers_value(layers, n, x, cfg), after_layers(f, cfg, layers, n, xs, t), t, cfg.d_model as int),
    decreases n,
{
    if n > 0 {
        layers_read(f, cfg, layers, n - 1, x, xs, t);
        let y = layers_value(layers, n - 1, x, cfg);
        let ys = after_layers(f, cfg, layers, n - 1, xs, t);
        let w = layers[n - 1];
        layer_reads(f, cfg, &w, y, ys, t);
        assert(x.dim(0) == 1 && x.dim(1) == t);
        assert(layers_value(layers, n, x, cfg) == w.value(
            y,
            angle_tensor(UnaryFn::Cos, t, cfg.width(), cfg.max_period),
            angle_tensor(UnaryFn::Sin, t, cfg.width(), cfg.max_period),
            causal_square(t),
            cfg,
            1,
            t,
        ));
        assert(after_layers(f, cfg, layers, n, xs, t) == after_layer(f, cfg, &w, ys, t));
    }
}

/// The rows that the layers read: the samples of each position, in either layout,
/// mapped where there is a matrix.
pub open spec fn entry_rows(
    f: Functions,
    w: &ProjectedTransformerWeights,
    cfg: &MimiTransformerConfig,
    input_dim: int,
    xs: Tensor,
) -> Rows {
    let x = |i: int| |c: int|
        if cfg.conv_layout {
            at3(f, xs, 0, c, i)
        } else {
            at3(f, xs, 0, i, c)
        };
    match w.input_proj {
        None => x,
        Some(m) => linear_rows(f, x, m@, input_dim, cfg.d_model as int),
    }
}

/// An output, number by number: the rows after all layers, mapped where there is a
/// matrix, in the layout of the input.
#[verifier::spinoff_prover]
pub proof fn output_reads(
    f: Functions,
    w: &ProjectedTransformerWeights,
    cfg: &MimiTransformerConfig,
    input_dim: int,
    xs: Tensor,
    t: int,
    q: int,
    i: int,
    j: int,
)
    requires
        cfg.addressable(1, t),
        w.sized(cfg, input_dim),
        cfg.conv_layout ==> has(xs, seq![1, input_dim, t]),
        !cfg.conv_layout ==> has(xs, seq![1, t, input_dim]),
        0 <= q < w.output_projs@.len(),
        0 <= i < t,
        0 <= j < w.output_projs@[q].1,
    ensures
        ({
            let y = w.output(cfg, w.hidden(cfg, input_dim, xs), q);
            let layers = w.transformer.layers@;
            let x = after_layers(f, cfg, layers, layers.len() as int, entry_rows(f, w, cfg, input_dim, xs), t);
            let want = match w.output_projs@[q].0 {
                None => x(i)(j),
                Some(m) => linear_rows(f, x, m@, cfg.d_model as int, w.output_projs@[q].1 as int)(i)(j),
            };
            if cfg.conv_layout {
                at3(f, y, 0, j, i) == want
            } else {
                at3(f, y, 0, i, j) == want
            }
        }),
{
    broadcast use {extents, readings};

    let d = cfg.d_model as int;
    let x0 = if cfg.conv_layout {
        xs.permute(seq![0, 2, 1])
    } else {
        xs
    };
    assert(has(x0, seq![1, t, input_dim]));
    let rows = |i: int| |c: int|
        if cfg.conv_layout {
            at3(f, xs, 0, c, i)
        } else {
            at3(f, xs, 0, i, c)
        };
    assert forall|a: int, c: int| 0 <= a < t && 0 <= c < input_dim implies #[trigger] at3(f, x0, 0, a, c) == rows(a)(
        c,
    ) by {}
    if let Some(m) = w.input_proj {
        linear_holds(f, x0, rows, m@, input_dim, d, t);
    }
    let e = w.entry(cfg, input_dim, xs);
    let es = entry_rows(f, w, cfg, input_dim, xs);
    assert(has(e, seq![1, t, d]));
    assert(holds(f, e, es, t, d));
    let layers = w.transformer.layers@;
    let n = layers.len() as int;
    layers_read(f, cfg, layers, n, e, es, t);
    let h = w.hidden(cfg, input_dim, xs);
    assert(h == layers_value(layers, n, e, cfg));
    let hs = after_layers(f, cfg, layers, n, es, t);
    assert(w.output_sized(cfg, q));
    let width = w.output_projs@[q].1 as int;
    let y = match w.output_projs@[q].0 {
        None => h,
        Some(m) => h.linear(m@, d, width),
    };
    if let Some(m) = w.output_projs@[q].0 {
        linear_holds(f, h, hs, m@, d, width, t);
    }
    assert(has(y, seq![1, t, width]));
    assert(at3(f, y, 0, i, j) == match w.output_projs@[q].0 {
        None => hs(i)(j),
        Some(m) => linear_rows(f, hs, m@, d, width)(i)(j),
    });
    if cfg.conv_layout {
        assert(at3(f, y.permute(seq![0, 2, 1]), 0, j, i) == at3(f, y, 0, i, j));
    }
}

} // verus!
