//! What comparing images with texts computes, number by number.

use crate::extents::{broadcast_to_has, extents, has, products, reshape_has};
use crate::lazy::Tensor;
use crate::lazy_mobileclip::{text_logits, unit_rows, unit_rows_have};
use crate::meaning::{at, at1, at2, elements, number, sum, under, Functions, Row};
use crate::readings::{place1, place2, read_reshape, readings, row2, sums_alike};
use crate::scalar::Scalar;
use vstd::prelude::*;

verus! {

/// The length of a row.
pub open spec fn length(f: Functions, x: Row, n: int) -> real {
    (f.sqrt)(sum(n, |k: int| x(k) * x(k)))
}

/// Rows divided by their length, number by number.
#[verifier::spinoff_prover]
pub proof fn unit_rows_read(f: Functions, x: Tensor, n: int, d: int, i: int, k: int)
    requires
        has(x, seq![n, d]),
        1 <= n <= usize::MAX,
        0 <= i < n,
        0 <= k < d,
    ensures
        at2(f, unit_rows(x), i, k) == at2(f, x, i, k) / length(f, row2(f, x, i), d),
{
    broadcast use {extents, readings};

    unit_rows_have(x, n, d);
    let squares = x.mul(x);
    let sums = squares.sum_dim(1);
    let roots = sums.sqrt();
    assert(roots.dims =~= seq![n]);
    products(n, 1, 1, 1, 1, 1);
    reshape_has(roots, seq![n, 1]);
    let column = roots.reshape(seq![n, 1]);
    broadcast_to_has(column, seq![n, d]);
    let wide = column.broadcast_to(seq![n, d]);
    let row = row2(f, x, i);
    let want = |j: int| row(j) * row(j);
    assert(at1(f, sums, i) == sum(d, want)) by {
        let g = elements(f, squares);
        let spot = seq![i];
        let got = |j: int| g(spot.insert(1, j));
        assert forall|j: int| 0 <= j < d implies #[trigger] got(j) == want(j) by {
            assert(spot.insert(1, j) =~= seq![i, j]);
            assert(at2(f, squares, i, j) == at2(f, x, i, j) * at2(f, x, i, j));
        }
        sums_alike(d, got, want);
        reveal(Tensor::sum_dim);
        reveal(elements);
    }
    assert(at1(f, roots, i) == (f.sqrt)(at1(f, sums, i))) by {
        reveal(Tensor::sqrt);
        reveal(elements);
    }
    place1(i, n);
    place2(i, 0, n, 1);
    read_reshape(f, roots, seq![n, 1], seq![i], seq![i, 0]);
    let spot = seq![i, k];
    assert(under(spot, seq![n, 1]) =~= seq![i, 0]) by {
        assert(n == 1 ==> i == 0);
    }
    assert(at(f, wide, spot) == at(f, column, seq![i, 0])) by {
        reveal(Tensor::broadcast_to);
        reveal(elements);
    }
    assert(at2(f, x.div(wide), i, k) == at2(f, x, i, k) / at2(f, wide, i, k)) by {
        reveal(Tensor::div);
        reveal(elements);
    }
    assert(x.dims =~= seq![n, d]);
}

/// The logit of a text for an image: the product of their features, each divided by
/// its length, times the exponential of the scale.
pub proof fn logits_read(
    f: Functions,
    image: Tensor,
    text: Tensor,
    scale: Scalar,
    images: int,
    texts: int,
    d: int,
    i: int,
    j: int,
)
    requires
        has(image, seq![images, d]),
        has(text, seq![texts, d]),
        1 <= images <= usize::MAX,
        1 <= texts <= usize::MAX,
        0 <= i < texts,
        0 <= j < images,
    ensures
        at2(f, text_logits(image, text, scale), i, j) == sum(
            d,
            |k: int|
                at2(f, text, i, k) / length(f, row2(f, text, i), d) * (at2(f, image, j, k) / length(
                    f,
                    row2(f, image, j),
                    d,
                )),
        ) * (f.exp)(number(f, scale)),
{
    broadcast use {extents, readings};

    unit_rows_have(image, images, d);
    unit_rows_have(text, texts, d);
    let (t, m) = (unit_rows(text), unit_rows(image));
    let turned = m.permute(seq![1, 0]);
    let prods = t.matmul(turned);
    assert(has(prods, seq![texts, images]));
    let got = |k: int| at2(f, t, i, k) * at2(f, turned, k, j);
    let want = |k: int|
        at2(f, text, i, k) / length(f, row2(f, text, i), d) * (at2(f, image, j, k) / length(f, row2(f, image, j), d));
    assert forall|k: int| 0 <= k < d implies #[trigger] got(k) == want(k) by {
        unit_rows_read(f, text, texts, d, i, k);
        unit_rows_read(f, image, images, d, j, k);
        assert(at2(f, turned, k, j) == at2(f, m, j, k));
    }
    sums_alike(d, got, want);
    assert(at2(f, prods, i, j) == sum(d, got));
    reveal_with_fuel(number, 3);
}

} // verus!
