//! What the parts of image models compute, pixel by pixel.

use crate::evaluation::inside;
use crate::extents::{
    broadcast_add_under, broadcast_mul_under, constant_has, conv2d_has, extents, has, lies_under,
    odd_windows, per_channel_has, products, reshape_has, shrunk,
};
use crate::lazy::Tensor;
use crate::lazy_mobilenetv4::{
    activated, conv_succeeds, maybe_has, out_opt, scale_sized, scaled_skip, scaled_skip_has,
    side_opt, Conv2dBnWeights, Mv4Activation, UibWeights,
};
use crate::formulas::affine_row;
use crate::lazy_mmdit::{patch_tokens, patch_tokens_have, whole_patches, PatchEmbedderWeights};
use crate::lazy_mobileone::{
    channel_bias, head_sized, se_conv, se_conv_has, MobileOneLayerWeights, MobileOneModel, MobileOneSeWeights,
};
use crate::meaning::{
    at, at1, at2, at3, at4, elements, larger, mean, number, or_zero, sigmoid, sum, under, window2, Functions, Row,
};
use crate::readings::{
    mapped, mapped_alike, place1, place3, place4, read_constant, read_reshape, readings, row2, sums_alike,
    under_same,
};
use crate::scalar::{Data, Scalar};
use vstd::prelude::*;

verus! {

/// A pixel of a channel; outside the image it is zero.
pub open spec fn pixel(f: Functions, t: Tensor, p: int, c: int, y: int, x: int) -> real {
    if 0 <= c < t.dims[1] && 0 <= y < t.dims[2] && 0 <= x < t.dims[3] {
        at4(f, t, p, c, y, x)
    } else {
        0real
    }
}

/// A pixel of channel `o` of the filtered image: the square of `k` by `k` pixels
/// under the kernel, in the channels of the group of `o`.
pub open spec fn filtered(
    f: Functions,
    t: Tensor,
    data: Seq<Scalar>,
    c_out: int,
    per: int,
    k: int,
    stride: int,
    pad: int,
    groups: int,
    p: int,
    o: int,
    y: int,
    x: int,
) -> real {
    sum(
        per,
        |c: int|
            sum(
                k,
                |dy: int|
                    sum(
                        k,
                        |dx: int|
                            pixel(
                                f,
                                t,
                                p,
                                o / (c_out / groups) * per + c,
                                y * stride + dy - pad,
                                x * stride + dx - pad,
                            ) * number(f, data[((o * per + c) * k + dy) * k + dx]),
                    ),
            ),
    )
}

/// A convolution, pixel by pixel.
#[verifier::spinoff_prover]
pub proof fn conv_reads(
    f: Functions,
    t: Tensor,
    data: Seq<Scalar>,
    c_out: int,
    per: int,
    k: int,
    stride: int,
    pad: int,
    groups: int,
    p: int,
    o: int,
    y: int,
    x: int,
)
    requires
        !t.bad(),
        t.dims.len() == 4,
        has(Tensor::constant(data, seq![c_out, per, k, k]), seq![c_out, per, k, k]),
        !t.conv2d(Tensor::constant(data, seq![c_out, per, k, k]), stride, pad, groups).bad(),
        0 <= p < t.dims[0],
    ensures
        at4(f, t.conv2d(Tensor::constant(data, seq![c_out, per, k, k]), stride, pad, groups), p, o, y, x)
            == filtered(f, t, data, c_out, per, k, stride, pad, groups, p, o, y, x),
{
    let w = Tensor::constant(data, seq![c_out, per, k, k]);
    let r = t.conv2d(w, stride, pad, groups);
    let (ga, gb) = (elements(f, t), elements(f, w));
    let i = seq![p, o, y, x];
    let (da, dw) = (t.dims, w.dims);
    assert(at4(f, r, p, o, y, x) == window2(ga, gb, da, dw, stride, pad, groups, i)) by {
        reveal(Tensor::conv2d);
        reveal(elements);
    }
    let group = i[1] / (dw[0] / groups);
    let got = |c: int|
        sum(
            dw[2],
            |y: int|
                sum(
                    dw[3],
                    |x: int|
                        or_zero(
                            ga,
                            seq![i[0], group * dw[1] + c, i[2] * stride + y - pad, i[3] * stride + x - pad],
                            da,
                        ) * gb(seq![i[1], c, y, x]),
                ),
        );
    let want = |c: int|
        sum(
            k,
            |dy: int|
                sum(
                    k,
                    |dx: int|
                        pixel(
                            f,
                            t,
                            p,
                            o / (c_out / groups) * per + c,
                            y * stride + dy - pad,
                            x * stride + dx - pad,
                        ) * number(f, data[((o * per + c) * k + dy) * k + dx]),
                ),
        );
    assert forall|c: int| #[trigger] got(c) == want(c) by {
        let g1 = |y: int|
            sum(
                dw[3],
                |x: int|
                    or_zero(
                        ga,
                        seq![i[0], group * dw[1] + c, i[2] * stride + y - pad, i[3] * stride + x - pad],
                        da,
                    ) * gb(seq![i[1], c, y, x]),
            );
        let h1 = |dy: int|
            sum(
                k,
                |dx: int|
                    pixel(
                        f,
                        t,
                        p,
                        o / (c_out / groups) * per + c,
                        y * stride + dy - pad,
                        x * stride + dx - pad,
                    ) * number(f, data[((o * per + c) * k + dy) * k + dx]),
            );
        assert forall|dy: int| #[trigger] g1(dy) == h1(dy) by {
            let g2 = |x: int|
                or_zero(
                    ga,
                    seq![i[0], group * dw[1] + c, i[2] * stride + dy - pad, i[3] * stride + x - pad],
                    da,
                ) * gb(seq![i[1], c, dy, x]);
            let h2 = |dx: int|
                pixel(
                    f,
                    t,
                    p,
                    o / (c_out / groups) * per + c,
                    y * stride + dy - pad,
                    x * stride + dx - pad,
                ) * number(f, data[((o * per + c) * k + dy) * k + dx]);
            assert forall|dx: int| #[trigger] g2(dx) == h2(dx) by {
                let spot = seq![p, group * per + c, y * stride + dy - pad, x * stride + dx - pad];
                assert(spot =~= seq![
                    i[0],
                    group * dw[1] + c,
                    i[2] * stride + dy - pad,
                    i[3] * stride + dx - pad,
                ]);
                pixel_or_zero(f, t, p, group * per + c, y * stride + dy - pad, x * stride + dx - pad);
                let cell = seq![o, c, dy, dx];
                read_constant(f, data, seq![c_out, per, k, k], cell);
                place4(o, c, dy, dx, c_out, per, k, k);
                assert(gb(cell) == at(f, w, cell));
            }
            assert(g2 =~= h2);
        }
        assert(g1 =~= h1);
    }
    assert(got =~= want);
}

proof fn pixel_or_zero(f: Functions, t: Tensor, p: int, c: int, y: int, x: int)
    requires
        t.dims.len() == 4,
        0 <= p < t.dims[0],
    ensures
        or_zero(elements(f, t), seq![p, c, y, x], t.dims) == pixel(f, t, p, c, y, x),
{
    let spot = seq![p, c, y, x];
    let d = t.dims;
    if inside(spot, d) {
        assert(0 <= spot[1] < d[1] && 0 <= spot[2] < d[2] && 0 <= spot[3] < d[3]);
    } else if 0 <= c < d[1] && 0 <= y < d[2] && 0 <= x < d[3] {
        assert(inside(spot, d)) by {
            assert forall|k: int| 0 <= k < spot.len() implies 0 <= #[trigger] spot[k] < d[k] by {
                assert(k == 0 || k == 1 || k == 2 || k == 3);
            }
        }
    }
}

/// A number for each channel, pixel by pixel.
proof fn channel_number(f: Functions, v: Seq<Scalar>, c: int)
    requires
        1 <= v.len() <= usize::MAX,
        0 <= c < v.len(),
    ensures
        has(Tensor::per_channel(v), seq![1, v.len() as int, 1, 1]),
        at4(f, Tensor::per_channel(v), 0, c, 0, 0) == number(f, v[c]),
{
    broadcast use {extents, readings};

    let n = v.len() as int;
    products(n, 1, 1, 1, 1, 1);
    products(1, n, 1, 1, 1, 1);
    constant_has(v, seq![n]);
    let row = Tensor::constant(v, seq![n]);
    reshape_has(row, seq![1, n, 1, 1]);
    place1(c, n);
    place4(0, c, 0, 0, 1, n, 1, 1);
    assert(((0 * n + c) * 1 + 0) * 1 + 0 == c) by (nonlinear_arith);
    read_reshape(f, row, seq![1, n, 1, 1], seq![c], seq![0, c, 0, 0]);
    assert(at1(f, row, c) == number(f, v[c]));
}

/// A sum with, or a product by, one number for each channel.
proof fn over_channels(f: Functions, t: Tensor, m: Tensor, b: int, n: int, h: int, w: int, p: int, c: int, y: int, x: int)
    requires
        has(t, seq![b, n, h, w]),
        !m.bad(),
        m.dims.len() == 4,
        m.dims[1] == n,
        m.dims[2] == 1,
        m.dims[3] == 1,
        m.dims[0] == 1 || m.dims[0] == b,
        0 <= p < b,
        0 <= c < n,
        0 <= y < h,
        0 <= x < w,
    ensures
        !t.broadcast_mul(m).bad() ==> at4(f, t.broadcast_mul(m), p, c, y, x) == at4(f, t, p, c, y, x) * at4(
            f,
            m,
            if m.dims[0] == 1 {
                0
            } else {
                p
            },
            c,
            0,
            0,
        ),
        !t.broadcast_add(m).bad() ==> at4(f, t.broadcast_add(m), p, c, y, x) == at4(f, t, p, c, y, x) + at4(
            f,
            m,
            if m.dims[0] == 1 {
                0
            } else {
                p
            },
            c,
            0,
            0,
        ),
{
    let spot = seq![p, c, y, x];
    under_same(spot, t.dims);
    let q = if m.dims[0] == 1 {
        0
    } else {
        p
    };
    assert(under(spot, m.dims) =~= seq![q, c, 0, 0]) by {
        assert(n == 1 ==> c == 0);
    }
    reveal(Tensor::broadcast_mul);
    reveal(Tensor::broadcast_add);
    reveal(elements);
}

/// A pixel of a convolution with its norm.
pub open spec fn normed_pixel(f: Functions, w: &Conv2dBnWeights, t: Tensor, p: int, o: int, y: int, x: int) -> real {
    filtered(
        f,
        t,
        w.w@,
        w.c_out as int,
        w.c_in as int / w.groups as int,
        w.k as int,
        w.stride as int,
        w.pad as int,
        w.groups as int,
        p,
        o,
        y,
        x,
    ) * number(f, w.bn.w@[o]) + number(f, w.bn.b@[o])
}

/// A convolution with its norm, pixel by pixel.
pub proof fn conv_bn_reads(
    f: Functions,
    w: &Conv2dBnWeights,
    t: Tensor,
    b: int,
    c: int,
    h: int,
    wd: int,
    p: int,
    o: int,
    y: int,
    x: int,
)
    requires
        w.reads(c),
        w.covers(h),
        w.covers(wd),
        h >= 1,
        wd >= 1,
        has(t, seq![b, c, h, wd]),
        0 <= p < b,
        0 <= o < w.c_out,
        0 <= y < shrunk(h, w.stride as int),
        0 <= x < shrunk(wd, w.stride as int),
    ensures
        at4(f, w.value(t), p, o, y, x) == normed_pixel(f, w, t, p, o, y, x),
{
    let per = w.c_in as int / w.groups as int;
    let k = w.k as int;
    let n = w.c_out as int;
    let st = w.stride as int;
    assert(per >= 1) by (nonlinear_arith)
        requires
            per * w.groups == w.c_in,
            w.c_in >= 1,
            w.groups >= 1,
    ;
    products(n, per, k, k, 1, 1);
    constant_has(w.w@, seq![n, per, k, k]);
    let kernel = Tensor::constant(w.w@, seq![n, per, k, k]);
    odd_windows(h, k, st);
    odd_windows(wd, k, st);
    conv2d_has(t, kernel, st, k / 2, w.groups as int);
    let r = t.conv2d(kernel, st, k / 2, w.groups as int);
    let (oh, ow) = (shrunk(h, st), shrunk(wd, st));
    assert(has(r, seq![b, n, oh, ow]));
    conv_reads(f, t, w.w@, n, per, k, st, k / 2, w.groups as int, p, o, y, x);
    per_channel_has(w.bn.w@, r);
    broadcast_mul_under(r, Tensor::per_channel(w.bn.w@));
    let m = r.broadcast_mul(Tensor::per_channel(w.bn.w@));
    per_channel_has(w.bn.b@, m);
    broadcast_add_under(m, Tensor::per_channel(w.bn.b@));
    channel_number(f, w.bn.w@, o);
    channel_number(f, w.bn.b@, o);
    over_channels(f, r, Tensor::per_channel(w.bn.w@), b, n, oh, ow, p, o, y, x);
    over_channels(f, m, Tensor::per_channel(w.bn.b@), b, n, oh, ow, p, o, y, x);
}

/// The activation of the second family of image models.
pub open spec fn activation(f: Functions, act: Mv4Activation) -> spec_fn(real) -> real {
    match act {
        Mv4Activation::Relu => |x: real| larger(x, 0real),
        Mv4Activation::Gelu => f.gelu,
    }
}

pub proof fn activated_reads(f: Functions, t: Tensor, act: Mv4Activation, p: int, c: int, y: int, x: int)
    requires
        !t.bad(),
    ensures
        at4(f, activated(t, act), p, c, y, x) == activation(f, act)(at4(f, t, p, c, y, x)),
{
    broadcast use readings;

}

/// What a block adds to its input, scaled by channel, and with the input where
/// asked.
pub proof fn skip_reads(
    f: Functions,
    t: Tensor,
    gamma: Option<Data>,
    skip: bool,
    z: Tensor,
    b: int,
    c: int,
    h: int,
    w: int,
    p: int,
    o: int,
    y: int,
    x: int,
)
    requires
        has(t, seq![b, c, h, w]),
        1 <= c <= usize::MAX,
        scale_sized(gamma, c),
        skip ==> has(z, seq![b, c, h, w]),
        0 <= p < b,
        0 <= o < c,
        0 <= y < h,
        0 <= x < w,
    ensures
        at4(f, scaled_skip(t, gamma, skip, z), p, o, y, x) == at4(f, t, p, o, y, x) * (match gamma {
            None => 1real,
            Some(g) => number(f, g@[o]),
        }) + (if skip {
            at4(f, z, p, o, y, x)
        } else {
            0real
        }),
{
    broadcast use {extents, readings};

    scaled_skip_has(t, gamma, skip, z, b, c, h, w);
    if let Some(g) = gamma {
        per_channel_has(g@, t);
        broadcast_mul_under(t, Tensor::per_channel(g@));
        channel_number(f, g@, o);
        over_channels(f, t, Tensor::per_channel(g@), b, c, h, w, p, o, y, x);
    }
    let v = at4(f, t, p, o, y, x);
    assert(v * 1real == v);
    let r = match gamma {
        None => t,
        Some(g) => t.broadcast_mul(Tensor::per_channel(g@)),
    };
    if skip {
        assert(at4(f, r.add(z), p, o, y, x) == at4(f, r, p, o, y, x) + at4(f, z, p, o, y, x));
    }
}

/// A universal bottleneck, pixel by pixel: its input, filtered by the first filter
/// where there is one, is widened and activated; filtered by the second and
/// activated where there is one; narrowed, scaled, and added to the input where
/// asked.
#[verifier::spinoff_prover]
pub proof fn bottleneck_reads(
    f: Functions,
    u: &UibWeights,
    t: Tensor,
    act: Mv4Activation,
    b: int,
    c: int,
    h: int,
    w: int,
    p: int,
    o: int,
    y: int,
    x: int,
)
    requires
        u.reads(c),
        u.covers(h),
        u.covers(w),
        h >= 1,
        w >= 1,
        has(t, seq![b, c, h, w]),
        0 <= p < b,
        0 <= y,
        0 <= x,
    ensures
        ({
            let start = match u.dw_start {
                None => t,
                Some(v) => v.value(t),
            };
            let wide = activated(u.pw_exp.value(start), act);
            let mid = match u.dw_mid {
                None => wide,
                Some(v) => activated(v.value(wide), act),
            };
            let (h1, w1) = (side_opt(u.dw_start, h), side_opt(u.dw_start, w));
            let (h2, w2) = (shrunk(h1, u.pw_exp.stride as int), shrunk(w1, u.pw_exp.stride as int));
            let (h3, w3) = (side_opt(u.dw_mid, h2), side_opt(u.dw_mid, w2));
            &&& u.dw_start matches Some(v) ==> (0 <= o < v.c_out && y < h1 && x < w1 ==> at4(f, start, p, o, y, x)
                == normed_pixel(f, &v, t, p, o, y, x))
            &&& 0 <= o < u.pw_exp.c_out && y < h2 && x < w2 ==> at4(f, wide, p, o, y, x) == activation(f, act)(
                normed_pixel(f, &u.pw_exp, start, p, o, y, x),
            )
            &&& u.dw_mid matches Some(v) ==> (0 <= o < v.c_out && y < h3 && x < w3 ==> at4(f, mid, p, o, y, x)
                == activation(f, act)(normed_pixel(f, &v, wide, p, o, y, x)))
            &&& 0 <= o < u.pw_proj.c_out && y < u.side(h) && x < u.side(w) ==> at4(f, u.value(t, act), p, o, y, x)
                == normed_pixel(f, &u.pw_proj, mid, p, o, y, x) * (match u.layer_scale_gamma {
                None => 1real,
                Some(g) => number(f, g@[o]),
            }) + (if u.skip {
                at4(f, t, p, o, y, x)
            } else {
                0real
            })
        }),
{
    broadcast use extents;

    let c1 = out_opt(u.dw_start, c);
    let (h1, w1) = (side_opt(u.dw_start, h), side_opt(u.dw_start, w));
    maybe_has(u.dw_start, t, b, c, h, w);
    let start = Conv2dBnWeights::maybe(u.dw_start, t);
    conv_succeeds(&u.pw_exp, start, b, c1, h1, w1);
    let mc = u.pw_exp.c_out as int;
    let (h2, w2) = (shrunk(h1, u.pw_exp.stride as int), shrunk(w1, u.pw_exp.stride as int));
    let e = u.pw_exp.value(start);
    let wide = activated(e, act);
    assert(has(wide, seq![b, mc, h2, w2]));
    maybe_has(u.dw_mid, wide, b, mc, h2, w2);
    let mid = match u.dw_mid {
        None => wide,
        Some(v) => activated(v.value(wide), act),
    };
    let c3 = out_opt(u.dw_mid, mc);
    let (h3, w3) = (side_opt(u.dw_mid, h2), side_opt(u.dw_mid, w2));
    assert(has(mid, seq![b, c3, h3, w3]));
    conv_succeeds(&u.pw_proj, mid, b, c3, h3, w3);
    if let Some(v) = u.dw_start {
        conv_succeeds(&v, t, b, c, h, w);
        if 0 <= o < v.c_out && y < h1 && x < w1 {
            conv_bn_reads(f, &v, t, b, c, h, w, p, o, y, x);
        }
    }
    if 0 <= o < mc && y < h2 && x < w2 {
        conv_bn_reads(f, &u.pw_exp, start, b, c1, h1, w1, p, o, y, x);
        activated_reads(f, e, act, p, o, y, x);
    }
    if let Some(v) = u.dw_mid {
        conv_succeeds(&v, wide, b, mc, h2, w2);
        if 0 <= o < v.c_out && y < h3 && x < w3 {
            conv_bn_reads(f, &v, wide, b, mc, h2, w2, p, o, y, x);
            activated_reads(f, v.value(wide), act, p, o, y, x);
        }
    }
    if u.skip {
        assert(h1 == h && w1 == w);
        assert(h2 == h && w2 == w);
        assert(h3 == h && w3 == w);
        assert(u.side(h) == h && u.side(w) == w);
    }
    if 0 <= o < u.pw_proj.c_out && y < u.side(h) && x < u.side(w) {
        conv_bn_reads(f, &u.pw_proj, mid, b, c3, h3, w3, p, o, y, x);
        skip_reads(
            f,
            u.pw_proj.value(mid),
            u.layer_scale_gamma,
            u.skip,
            t,
            b,
            u.pw_proj.c_out as int,
            u.side(h),
            u.side(w),
            p,
            o,
            y,
            x,
        );
    }
}

/// The mean of a channel over the whole image.
pub open spec fn channel_mean(f: Functions, t: Tensor, p: int, c: int) -> real {
    mean(t.dims[3], |x: int| mean(t.dims[2], |y: int| at4(f, t, p, c, y, x)))
}

/// The weight of channel `o`: the means of all channels through two layers.
pub open spec fn channel_weight(f: Functions, se: &MobileOneSeWeights, t: Tensor, p: int, o: int) -> real {
    let c = se.channels as int;
    let s = se.squeeze as int;
    sigmoid(
        f,
        sum(
            s,
            |k: int|
                larger(
                    sum(c, |e: int| channel_mean(f, t, p, e) * number(f, se.fc1_w@[k * c + e])) + number(
                        f,
                        se.fc1_b@[k],
                    ),
                    0real,
                ) * number(f, se.fc2_w@[o * s + k]),
        ) + number(f, se.fc2_b@[o]),
    )
}

/// A map of the channels of a single pixel.
proof fn point_reads(f: Functions, t: Tensor, r: Row, w: Seq<Scalar>, b: Seq<Scalar>, c_in: int, c_out: int, n: int, p: int, o: int)
    requires
        has(t, seq![n, c_in, 1, 1]),
        c_in >= 1,
        1 <= c_out <= usize::MAX,
        c_out * c_in <= usize::MAX,
        w.len() == c_out * c_in,
        b.len() == c_out,
        0 <= p < n,
        0 <= o < c_out,
        forall|c: int| 0 <= c < c_in ==> #[trigger] at4(f, t, p, c, 0, 0) == r(c),
    ensures
        at4(f, se_conv(t, w, b, c_in, c_out), p, o, 0, 0) == sum(c_in, |c: int| r(c) * number(f, w[o * c_in + c]))
            + number(f, b[o]),
{
    se_conv_has(t, w, b, c_in, c_out, n);
    products(c_out, c_in, 1, 1, 1, 1);
    constant_has(w, seq![c_out, c_in, 1, 1]);
    let k = Tensor::constant(w, seq![c_out, c_in, 1, 1]);
    odd_windows(1, 1, 1);
    conv2d_has(t, k, 1, 0, 1);
    let y = t.conv2d(k, 1, 0, 1);
    assert(y.dims =~= seq![n, c_out, 1, 1]);
    conv_reads(f, t, w, c_out, c_in, 1, 1, 0, 1, p, o, 0, 0);
    let got = |c: int|
        sum(
            1,
            |dy: int|
                sum(
                    1,
                    |dx: int|
                        pixel(f, t, p, o / (c_out / 1) * c_in + c, 0 * 1 + dy - 0, 0 * 1 + dx - 0) * number(
                            f,
                            w[((o * c_in + c) * 1 + dy) * 1 + dx],
                        ),
                ),
        );
    let want = |c: int| r(c) * number(f, w[o * c_in + c]);
    assert forall|c: int| 0 <= c < c_in implies #[trigger] got(c) == want(c) by {
        assert(c_out / 1 == c_out);
        vstd::arithmetic::div_mod::lemma_basic_div(o, c_out);
        assert(0 * c_in == 0) by (nonlinear_arith);
        let g1 = |dy: int|
            sum(
                1,
                |dx: int|
                    pixel(f, t, p, o / (c_out / 1) * c_in + c, 0 * 1 + dy - 0, 0 * 1 + dx - 0) * number(
                        f,
                        w[((o * c_in + c) * 1 + dy) * 1 + dx],
                    ),
            );
        let g2 = |dx: int|
            pixel(f, t, p, o / (c_out / 1) * c_in + c, 0 * 1 + 0 - 0, 0 * 1 + dx - 0) * number(
                f,
                w[((o * c_in + c) * 1 + 0) * 1 + dx],
            );
        assert(sum(1, g1) == sum(0, g1) + g1(0) && sum(0, g1) == 0real);
        assert(sum(1, g2) == sum(0, g2) + g2(0) && sum(0, g2) == 0real);
        assert(g1(0) == sum(1, g2));
        assert(at4(f, t, p, c, 0, 0) == r(c));
    }
    sums_alike(c_in, got, want);
    per_channel_has(b, y);
    broadcast_add_under(y, channel_bias(b, c_out));
    channel_number(f, b, o);
    over_channels(f, y, Tensor::per_channel(b), n, c_out, 1, 1, p, o, 0, 0);
}

/// The mean of each channel over the whole image.
pub proof fn pool_reads(f: Functions, t: Tensor, p: int, c: int)
    requires
        !t.bad(),
        t.dims.len() == 4,
    ensures
        at2(f, t.global_avg_pool_2d(), p, c) == mean(
            t.dims[2],
            |y: int| mean(t.dims[3], |x: int| at4(f, t, p, c, y, x)),
        ),
{
    reveal(Tensor::global_avg_pool_2d);
    reveal(elements);
    let spot = seq![p, c];
    let g = elements(f, t);
    let got = |y: int| mean(t.dims[3], |x: int| g(seq![spot[0], spot[1], y, x]));
    let want = |y: int| mean(t.dims[3], |x: int| at4(f, t, p, c, y, x));
    assert forall|y: int| #[trigger] got(y) == want(y) by {
        let a = |x: int| g(seq![spot[0], spot[1], y, x]);
        let b = |x: int| at4(f, t, p, c, y, x);
        assert(a =~= b);
    }
    assert(got =~= want);
}

/// The logits of a class: the means of the channels of the last feature map, mapped
/// by the head; without a head the means themselves.
pub proof fn logits_read(f: Functions, model: &MobileOneModel, image: Tensor, b: int, h: int, w: int, p: int, j: int)
    requires
        has(model.features(image), seq![b, model.config.channels(4), h, w]),
        model.config.channels(4) >= 1,
        0 <= p < b,
        model.weights.head is None ==> 0 <= j < model.config.channels(4),
        model.weights.head matches Some(v) ==> {
            &&& model.config.nclasses matches Some(n) && 0 <= j < n
            &&& head_sized(v.0@, v.1@, model.config.channels(4), model.config.nclasses->Some_0 as int)
            &&& model.config.channels(4) * model.config.nclasses->Some_0 <= usize::MAX
        },
    ensures
        ({
            let t = model.features(image);
            let pooled = |c: int| mean(h, |y: int| mean(w, |x: int| at4(f, t, p, c, y, x)));
            at2(f, model.value(image), p, j) == match model.weights.head {
                None => pooled(j),
                Some(v) => affine_row(
                    f,
                    pooled,
                    v.0@,
                    v.1@,
                    model.config.channels(4),
                    model.config.nclasses->Some_0 as int,
                    j,
                ),
            }
        }),
{
    broadcast use {extents, readings};

    let t = model.features(image);
    let c = model.config.channels(4);
    let pool = t.global_avg_pool_2d();
    let pooled = |e: int| mean(h, |y: int| mean(w, |x: int| at4(f, t, p, e, y, x)));
    assert forall|e: int| #[trigger] row2(f, pool, p)(e) == pooled(e) by {
        pool_reads(f, t, p, e);
    }
    if let Some(v) = model.weights.head {
        let n = model.config.nclasses->Some_0 as int;
        mapped_alike(f, row2(f, pool, p), pooled, v.0@, c, n, j);
        let y = pool.linear(v.0@, c, n);
        assert(at2(f, y, p, j) == mapped(f, row2(f, pool, p), v.0@, c, n, j));
    } else {
        assert(row2(f, pool, p)(j) == pooled(j));
    }
}

/// The tokens of a latent, number by number: token `y * (width / patch) + x` is the
/// square of pixels at `(y, x)` under each filter, plus a bias.
#[verifier::spinoff_prover]
pub proof fn patch_tokens_read(
    f: Functions,
    t: Tensor,
    w: &PatchEmbedderWeights,
    k: int,
    c: int,
    d: int,
    b: int,
    h: int,
    wd: int,
    p: int,
    y: int,
    x: int,
    o: int,
)
    requires
        has(t, seq![b, c, h, wd]),
        k >= 2,
        h >= k,
        wd >= k,
        h % k == 0,
        wd % k == 0,
        b >= 1,
        c >= 1,
        1 <= d <= usize::MAX,
        h <= usize::MAX,
        wd <= usize::MAX,
        d * c * k * k <= usize::MAX,
        w.proj_weight@.len() == d * c * k * k,
        w.proj_bias@.len() == d,
        b * d * ((h / k) * (wd / k)) <= usize::MAX,
        0 <= p < b,
        0 <= y < h / k,
        0 <= x < wd / k,
        0 <= o < d,
    ensures
        at3(f, patch_tokens(t, w, k, c, d), p, y * (wd / k) + x, o) == filtered(
            f,
            t,
            w.proj_weight@,
            d,
            c,
            k,
            k,
            0,
            1,
            p,
            o,
            y,
            x,
        ) + number(f, w.proj_bias@[o]),
{
    broadcast use extents;

    let (ph, pw) = (h / k, wd / k);
    patch_tokens_have(t, w, k, c, d, b, h, wd);
    whole_patches(h, k);
    whole_patches(wd, k);
    products(d, c, k, k, 1, 1);
    constant_has(w.proj_weight@, seq![d, c, k, k]);
    let kernel = Tensor::constant(w.proj_weight@, seq![d, c, k, k]);
    assert(ph <= h && pw <= wd) by (nonlinear_arith)
        requires
            k * ph == h,
            k * pw == wd,
            k >= 2,
            ph >= 1,
            pw >= 1,
    ;
    conv2d_has(t, kernel, k, 0, 1);
    let y0 = t.conv2d(kernel, k, 0, 1);
    assert(has(y0, seq![b, d, ph, pw]));
    conv_reads(f, t, w.proj_weight@, d, c, k, k, 0, 1, p, o, y, x);
    per_channel_has(w.proj_bias@, y0);
    let bias = Tensor::per_channel(w.proj_bias@);
    broadcast_add_under(y0, bias);
    let y1 = y0.broadcast_add(bias);
    channel_number(f, w.proj_bias@, o);
    over_channels(f, y0, bias, b, d, ph, pw, p, o, y, x);
    assert(ph * pw >= 1) by (nonlinear_arith)
        requires
            ph >= 1,
            pw >= 1,
    ;
    assert(ph * pw <= b * d * (ph * pw)) by (nonlinear_arith)
        requires
            ph * pw >= 1,
            b >= 1,
            d >= 1,
    ;
    products(b, d, ph, pw, 1, 1);
    products(b, d, ph * pw, 1, 1, 1);
    assert(b * d * ph * pw == b * d * (ph * pw)) by (nonlinear_arith);
    reshape_has(y1, seq![b, d, ph * pw]);
    let flat = y1.reshape(seq![b, d, ph * pw]);
    let z = flat.transpose_dims(1, 2);
    assert(z.dims =~= seq![b, ph * pw, d]);
    let n = y * pw + x;
    place4(p, o, y, x, b, d, ph, pw);
    place3(p, o, n, b, d, ph * pw);
    assert((p * d + o) * (ph * pw) + n == ((p * d + o) * ph + y) * pw + x) by (nonlinear_arith)
        requires
            n == y * pw + x,
    ;
    read_reshape(f, y1, seq![b, d, ph * pw], seq![p, o, y, x], seq![p, o, n]);
    let spot = seq![p, n, o];
    assert(at(f, z, spot) == at(f, flat, seq![p, o, n])) by {
        reveal(Tensor::transpose_dims);
        reveal(elements);
        assert(spot.update(1, spot[2]).update(2, spot[1]) =~= seq![p, o, n]);
    }
}

/// The means of the channels, number by number.
proof fn means_read(f: Functions, t: Tensor, b: int, c: int, h: int, w: int, p: int, e: int)
    requires
        has(t, seq![b, c, h, w]),
    ensures
        at4(f, t.mean_keepdim(2).mean_keepdim(3), p, e, 0, 0) == channel_mean(f, t, p, e),
        has(t.mean_keepdim(2).mean_keepdim(3), seq![b, c, 1, 1]),
{
    broadcast use extents;

    let m = t.mean_keepdim(2);
    let z = m.mean_keepdim(3);
    assert(m.dims =~= seq![b, c, 1, w]);
    assert(z.dims =~= seq![b, c, 1, 1]);
    let (gt, gm) = (elements(f, t), elements(f, m));
    let spot = seq![p, e, 0, 0];
    let outer = |x: int| gm(spot.update(3, x));
    let want = |x: int| mean(h, |y: int| at4(f, t, p, e, y, x));
    assert forall|x: int| #[trigger] outer(x) == want(x) by {
        let mid = seq![p, e, 0, x];
        assert(spot.update(3, x) =~= mid);
        let inner = |y: int| gt(mid.update(2, y));
        let rows = |y: int| at4(f, t, p, e, y, x);
        assert forall|y: int| #[trigger] inner(y) == rows(y) by {
            assert(mid.update(2, y) =~= seq![p, e, y, x]);
        }
        assert(inner =~= rows);
        assert(gm(mid) == mean(h, inner)) by {
            reveal(Tensor::mean_keepdim);
            reveal(elements);
        }
    }
    assert(outer =~= want);
    assert(elements(f, z)(spot) == mean(w, outer)) by {
        reveal(Tensor::mean_keepdim);
        reveal(elements);
    }
}

/// A layer, pixel by pixel: the filtered image plus a bias, weighed by the weights of
/// the channels where there are any, where it is positive.
#[verifier::spinoff_prover]
pub proof fn layer_reads(
    f: Functions,
    w: &MobileOneLayerWeights,
    t: Tensor,
    b: int,
    h: int,
    wd: int,
    p: int,
    o: int,
    y: int,
    x: int,
)
    requires
        w.sized(),
        has(t, seq![b, w.c_in as int, h, wd]),
        1 <= h,
        1 <= wd,
        h + 3 <= usize::MAX,
        wd + 3 <= usize::MAX,
        0 <= p < b,
        0 <= o < w.c_out,
        0 <= y < shrunk(h, w.stride as int),
        0 <= x < shrunk(wd, w.stride as int),
    ensures
        ({
            let pad = w.kernel as int / 2;
            let per = w.c_in as int / w.groups as int;
            let plain = t.conv2d(
                Tensor::constant(w.conv_w@, seq![w.c_out as int, per, w.kernel as int, w.kernel as int]),
                w.stride as int,
                pad,
                w.groups as int,
            ).broadcast_add(channel_bias(w.conv_b@, w.c_out as int));
            &&& at4(f, plain, p, o, y, x) == filtered(
                f,
                t,
                w.conv_w@,
                w.c_out as int,
                per,
                w.kernel as int,
                w.stride as int,
                pad,
                w.groups as int,
                p,
                o,
                y,
                x,
            ) + number(f, w.conv_b@[o])
            &&& at4(f, w.value(t), p, o, y, x) == larger(
                match w.se {
                    None => at4(f, plain, p, o, y, x),
                    Some(se) => at4(f, plain, p, o, y, x) * channel_weight(f, &se, plain, p, o),
                },
                0real,
            )
        }),
{
    broadcast use {extents, readings};

    let per = w.c_in as int / w.groups as int;
    let k = w.kernel as int;
    let c = w.c_out as int;
    let st = w.stride as int;
    assert(per >= 1) by (nonlinear_arith)
        requires
            per * w.groups == w.c_in,
            w.c_in >= 1,
            w.groups >= 1,
    ;
    products(c, per, k, k, 1, 1);
    constant_has(w.conv_w@, seq![c, per, k, k]);
    let kernel = Tensor::constant(w.conv_w@, seq![c, per, k, k]);
    odd_windows(h, k, st);
    odd_windows(wd, k, st);
    conv2d_has(t, kernel, st, k / 2, w.groups as int);
    let r = t.conv2d(kernel, st, k / 2, w.groups as int);
    let (oh, ow) = (shrunk(h, st), shrunk(wd, st));
    assert(has(r, seq![b, c, oh, ow]));
    conv_reads(f, t, w.conv_w@, c, per, k, st, k / 2, w.groups as int, p, o, y, x);
    per_channel_has(w.conv_b@, r);
    broadcast_add_under(r, channel_bias(w.conv_b@, c));
    channel_number(f, w.conv_b@, o);
    over_channels(f, r, Tensor::per_channel(w.conv_b@), b, c, oh, ow, p, o, y, x);
    let plain = r.broadcast_add(channel_bias(w.conv_b@, c));
    assert(has(plain, seq![b, c, oh, ow]));
    if let Some(se) = w.se {
        let sq = se.squeeze as int;
        assert(c * sq == sq * c) by (nonlinear_arith);
        means_read(f, plain, b, c, oh, ow, p, 0);
        let m = plain.mean_keepdim(2).mean_keepdim(3);
        let ms = |e: int| channel_mean(f, plain, p, e);
        assert forall|e: int| 0 <= e < c implies #[trigger] at4(f, m, p, e, 0, 0) == ms(e) by {
            means_read(f, plain, b, c, oh, ow, p, e);
        }
        se_conv_has(m, se.fc1_w@, se.fc1_b@, c, sq, b);
        let g0 = se_conv(m, se.fc1_w@, se.fc1_b@, c, sq);
        let g = g0.relu();
        let gs = |e: int|
            larger(
                sum(c, |i: int| ms(i) * number(f, se.fc1_w@[e * c + i])) + number(f, se.fc1_b@[e]),
                0real,
            );
        assert forall|e: int| 0 <= e < sq implies #[trigger] at4(f, g, p, e, 0, 0) == gs(e) by {
            point_reads(f, m, ms, se.fc1_w@, se.fc1_b@, c, sq, b, p, e);
            assert(at4(f, g, p, e, 0, 0) == larger(at4(f, g0, p, e, 0, 0), 0real));
        }
        se_conv_has(g, se.fc2_w@, se.fc2_b@, sq, c, b);
        let z0 = se_conv(g, se.fc2_w@, se.fc2_b@, sq, c);
        let z = z0.sigmoid();
        point_reads(f, g, gs, se.fc2_w@, se.fc2_b@, sq, c, b, p, o);
        assert(at4(f, z, p, o, 0, 0) == sigmoid(f, at4(f, z0, p, o, 0, 0)));
        assert(lies_under(z.dims, plain.dims));
        broadcast_mul_under(plain, z);
        over_channels(f, plain, z, b, c, oh, ow, p, o, y, x);
        let s1 = |e: int| gs(e) * number(f, se.fc2_w@[o * sq + e]);
        let s2 = |k: int|
            larger(
                sum(c, |e: int| channel_mean(f, plain, p, e) * number(f, se.fc1_w@[k * c + e])) + number(
                    f,
                    se.fc1_b@[k],
                ),
                0real,
            ) * number(f, se.fc2_w@[o * sq + k]);
        assert forall|e: int| 0 <= e < sq implies #[trigger] s1(e) == s2(e) by {
            let a = |i: int| ms(i) * number(f, se.fc1_w@[e * c + i]);
            let d = |i: int| channel_mean(f, plain, p, i) * number(f, se.fc1_w@[e * c + i]);
            assert(a =~= d);
        }
        sums_alike(sq, s1, s2);
        let v = se.value(plain);
        assert(at4(f, v.relu(), p, o, y, x) == larger(at4(f, v, p, o, y, x), 0real));
        assert(b == 1 ==> p == 0);
    } else {
        assert(at4(f, plain.relu(), p, o, y, x) == larger(at4(f, plain, p, o, y, x), 0real));
    }
}

} // verus!
