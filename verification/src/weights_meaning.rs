//! What folded weights are, number by number.

use crate::batch_norm::{folded_bias, folded_gain};
use crate::lazy_mimi_conv::{row_norm, sum_squares, weight_normed};
use crate::lazy_mimi_seanet::{fused_norm, row_length, sum_squares64};
use crate::meaning::{number, sum, Functions};
use crate::readings::numbers_zero_one;
use crate::scalar::Scalar;
use vstd::prelude::*;

verus! {

/// A channel with mean zero and variance one, scaled and shifted, is the channel
/// times the folded gain, plus the folded bias.
pub proof fn folding_keeps_the_norm(
    f: Functions,
    gain: Seq<Scalar>,
    bias: Seq<Scalar>,
    mean: Seq<Scalar>,
    var: Seq<Scalar>,
    eps: Scalar,
    i: int,
    x: real,
)
    requires
        0 <= i < gain.len(),
    ensures
        ({
            let r = 1real / (f.sqrt)(number(f, var[i]) + number(f, eps));
            x * number(f, folded_gain(gain, var, eps)[i]) + number(f, folded_bias(gain, bias, mean, var, eps)[i])
                == (x - number(f, mean[i])) * r * number(f, gain[i]) + number(f, bias[i])
        }),
{
    numbers_zero_one(f);
    let r = 1real / (f.sqrt)(number(f, var[i]) + number(f, eps));
    let (g, m, b) = (number(f, gain[i]), number(f, mean[i]), number(f, bias[i]));
    assert(number(f, folded_gain(gain, var, eps)[i]) == g * r) by {
        reveal_with_fuel(number, 7);
    }
    assert(number(f, folded_bias(gain, bias, mean, var, eps)[i]) == b - m * (g * r)) by {
        reveal_with_fuel(number, 9);
    }
    assert(x * (g * r) + (b - m * (g * r)) == (x - m) * r * g + b) by (nonlinear_arith);
}

/// Sums of squares, number by number.
proof fn squares_read(f: Functions, v: Seq<Scalar>, base: int, n: int)
    requires
        n >= 0,
    ensures
        number(f, sum_squares(v, base, n)) == sum(n, |k: int| number(f, v[base + k]) * number(f, v[base + k])),
    decreases n,
{
    let g = |k: int| number(f, v[base + k]) * number(f, v[base + k]);
    numbers_zero_one(f);
    if n > 0 {
        squares_read(f, v, base, n - 1);
        reveal_with_fuel(number, 3);
        assert(number(f, sum_squares(v, base, n)) == number(f, sum_squares(v, base, n - 1)) + g(n - 1));
    }
}

/// The weight of a row: its direction times its gain over its length.
pub proof fn weight_norm_reads(f: Functions, g: Seq<Scalar>, v: Seq<Scalar>, rows: int, per_out: int, r: int, k: int)
    requires
        per_out >= 1,
        0 <= r < rows,
        0 <= k < per_out,
    ensures
        number(f, weight_normed(g, v, rows, per_out)[r * per_out + k]) == number(f, v[r * per_out + k]) * (number(
            f,
            g[r],
        ) / (f.sqrt)(
            sum(per_out, |e: int| number(f, v[r * per_out + e]) * number(f, v[r * per_out + e])),
        )),
{
    let i = r * per_out + k;
    assert(0 <= i < rows * per_out) by (nonlinear_arith)
        requires
            i == r * per_out + k,
            0 <= r < rows,
            0 <= k < per_out,
    ;
    vstd::arithmetic::div_mod::lemma_fundamental_div_mod_converse(i, per_out, r, k);
    squares_read(f, v, r * per_out, per_out);
    assert(number(f, row_norm(v, per_out, r)) == (f.sqrt)(number(f, sum_squares(v, r * per_out, per_out)))) by {
        reveal_with_fuel(number, 2);
    }
    reveal_with_fuel(number, 3);
}

/// Sums of squares in double precision, number by number.
proof fn squares64_read(f: Functions, v: Seq<Scalar>, base: int, n: int)
    requires
        n >= 0,
    ensures
        number(f, sum_squares64(v, base, n)) == sum(n, |k: int| number(f, v[base + k]) * number(f, v[base + k])),
    decreases n,
{
    let g = |k: int| number(f, v[base + k]) * number(f, v[base + k]);
    if n > 0 {
        squares64_read(f, v, base, n - 1);
        reveal_with_fuel(number, 4);
        assert(number(f, sum_squares64(v, base, n)) == number(f, sum_squares64(v, base, n - 1)) + g(n - 1));
    } else {
        vstd::arithmetic::power2::lemma2_to64();
        vstd::arithmetic::power2::lemma2_to64_rest();
        vstd::arithmetic::power2::lemma_pow2_pos(1074);
        let p = vstd::arithmetic::power2::pow2(1074) as real;
        assert(0real / p == 0real) by (nonlinear_arith)
            requires
                p > 0real,
        ;
        assert(crate::meaning::scaled(0, -1074) == 0real);
        assert(0int % 0x10_0000_0000_0000 == 0 && 0int / 0x10_0000_0000_0000 == 0);
        assert(crate::meaning::decoded(0, 52, 2048, 1023) == 0real);
    }
}

/// The fused weight of a row: its direction times its gain over its length; a row
/// of length zero becomes zero.
pub proof fn fused_norm_reads(f: Functions, g: Seq<Scalar>, v: Seq<Scalar>, leading: int, inner: int, o: int, k: int)
    requires
        inner >= 1,
        0 <= o < leading,
        0 <= k < inner,
    ensures
        ({
            let len = (f.sqrt)(sum(inner, |e: int| number(f, v[o * inner + e]) * number(f, v[o * inner + e])));
            number(f, fused_norm(g, v, leading, inner)[o * inner + k]) == number(f, v[o * inner + k]) * (if len > 0real {
                number(f, g[o]) / len
            } else {
                0real
            })
        }),
{
    let i = o * inner + k;
    assert(0 <= i < leading * inner) by (nonlinear_arith)
        requires
            i == o * inner + k,
            0 <= o < leading,
            0 <= k < inner,
    ;
    vstd::arithmetic::div_mod::lemma_fundamental_div_mod_converse(i, inner, o, k);
    squares64_read(f, v, o * inner, inner);
    assert(number(f, row_length(v, inner, o)) == (f.sqrt)(number(f, sum_squares64(v, o * inner, inner)))) by {
        reveal_with_fuel(number, 3);
    }
    numbers_zero_one(f);
    reveal_with_fuel(number, 4);
}

} // verus!
