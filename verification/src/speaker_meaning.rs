//! What the speaker encoder computes, number by number.

use crate::extents::{constant_has, extents, has, lstm_has, products};
use crate::formulas::Rows;
use crate::lazy::Tensor;
use crate::lazy_lstm::{cell_value, cells_value, chained, follows, LstmCellWeights};
use crate::lazy_metavoice_speaker_encoder::SpeakerEncoderModel;
use crate::meaning::{
    at1, at2, at3, cell_state, elements, larger, number, sigmoid, sum, tanh, Functions, Grid, Row,
};
use crate::readings::{readings, sums_alike};
use crate::rows_read::{affine_holds, affine_rows, each, holds};
use crate::scalar::Scalar;
use vstd::prelude::*;

verus! {

/// The sum that gate row `r` of a cell sees: its biases, the input and the output
/// before it.
pub open spec fn drive(f: Functions, w: &LstmCellWeights, x: Row, out: Row, r: int) -> real {
    let (d, h) = (w.input_dim as int, w.hidden_dim as int);
    number(f, w.b_ih@[r]) + number(f, w.b_hh@[r]) + sum(d, |j: int| number(f, w.w_ih@[r * d + j]) * x(j)) + sum(
        h,
        |j: int| number(f, w.w_hh@[r * h + j]) * out(j),
    )
}

/// Output and memory of a cell after position `t`: of the memory a part is kept, a
/// part of the new value is added, and a part of the result is put out.
pub open spec fn after_step(f: Functions, w: &LstmCellWeights, x: Rows, t: int) -> (Row, Row)
    decreases t + 1,
{
    if t < 0 {
        (|j: int| 0real, |j: int| 0real)
    } else {
        let (out, memory) = after_step(f, w, x, t - 1);
        let h = w.hidden_dim as int;
        let kept = |j: int|
            sigmoid(f, drive(f, w, x(t), out, h + j)) * memory(j) + sigmoid(f, drive(f, w, x(t), out, j)) * tanh(
                f,
                drive(f, w, x(t), out, 2 * h + j),
            );
        (|j: int| sigmoid(f, drive(f, w, x(t), out, 3 * h + j)) * tanh(f, kept(j)), kept)
    }
}

/// The outputs of a cell.
pub open spec fn outputs(f: Functions, w: &LstmCellWeights, x: Rows) -> Rows {
    |t: int| after_step(f, w, x, t).0
}

/// The outputs of the first `n` cells.
pub open spec fn chain_outputs(f: Functions, layers: Seq<LstmCellWeights>, n: int, x: Rows) -> Rows
    decreases n,
{
    if n <= 0 {
        x
    } else {
        outputs(f, &layers[n - 1], chain_outputs(f, layers, n - 1, x))
    }
}

/// A row divided by its length.
pub open spec fn unit_row(f: Functions, x: Row, n: int) -> Row {
    |k: int| x(k) / larger((f.sqrt)(sum(n, |j: int| x(j) * x(j))), 0real)
}

/// The steps of a cell, number by number.
proof fn steps_read(
    f: Functions,
    w: &LstmCellWeights,
    gx: Grid,
    gi: Grid,
    gh: Grid,
    gb: Grid,
    gc: Grid,
    x: Rows,
    t: int,
)
    requires
        forall|i: int, j: int| 0 <= i <= t && 0 <= j < w.input_dim ==> gx(#[trigger] seq![0, i, j]) == x(i)(j),
        forall|r: int, j: int| gi(#[trigger] seq![r, j]) == number(f, w.w_ih@[r * w.input_dim + j]),
        forall|r: int, j: int| gh(#[trigger] seq![r, j]) == number(f, w.w_hh@[r * w.hidden_dim + j]),
        forall|r: int| gb(#[trigger] seq![r]) == number(f, w.b_ih@[r]),
        forall|r: int| gc(#[trigger] seq![r]) == number(f, w.b_hh@[r]),
    ensures
        ({
            let (a, b) = cell_state(f, gx, gi, gh, gb, gc, w.input_dim as int, w.hidden_dim as int, 0, t);
            let (c, d) = after_step(f, w, x, t);
            forall|j: int| 0 <= j < w.hidden_dim ==> #[trigger] a(j) == c(j) && b(j) == d(j)
        }),
    decreases t + 1,
{
    let (width, h) = (w.input_dim as int, w.hidden_dim as int);
    let (a, b) = cell_state(f, gx, gi, gh, gb, gc, width, h, 0, t);
    let (c, d) = after_step(f, w, x, t);
    if t >= 0 {
        steps_read(f, w, gx, gi, gh, gb, gc, x, t - 1);
        let (out, memory) = cell_state(f, gx, gi, gh, gb, gc, width, h, 0, t - 1);
        let (out2, memory2) = after_step(f, w, x, t - 1);
        let gate = |r: int|
            gb(seq![r]) + gc(seq![r]) + sum(width, |j: int| gi(seq![r, j]) * gx(seq![0, t, j])) + sum(
                h,
                |j: int| gh(seq![r, j]) * out(j),
            );
        assert forall|r: int| #[trigger] gate(r) == drive(f, w, x(t), out2, r) by {
            let (i1, i2) = (
                |j: int| gi(seq![r, j]) * gx(seq![0, t, j]),
                |j: int| number(f, w.w_ih@[r * width + j]) * x(t)(j),
            );
            assert forall|j: int| 0 <= j < width implies #[trigger] i1(j) == i2(j) by {
                assert(gi(seq![r, j]) == number(f, w.w_ih@[r * width + j]));
                assert(gx(seq![0, t, j]) == x(t)(j));
            }
            sums_alike(width, i1, i2);
            let (h1, h2) = (
                |j: int| gh(seq![r, j]) * out(j),
                |j: int| number(f, w.w_hh@[r * h + j]) * out2(j),
            );
            assert forall|j: int| 0 <= j < h implies #[trigger] h1(j) == h2(j) by {
                assert(gh(seq![r, j]) == number(f, w.w_hh@[r * h + j]));
                assert(out(j) == out2(j));
            }
            sums_alike(h, h1, h2);
            assert(gb(seq![r]) == number(f, w.b_ih@[r]));
            assert(gc(seq![r]) == number(f, w.b_hh@[r]));
        }
        assert forall|j: int| 0 <= j < h implies #[trigger] a(j) == c(j) && b(j) == d(j) by {
            assert(out(j) == out2(j) && memory(j) == memory2(j));
            assert(gate(j) == drive(f, w, x(t), out2, j));
            assert(gate(h + j) == drive(f, w, x(t), out2, h + j));
            assert(gate(2 * h + j) == drive(f, w, x(t), out2, 2 * h + j));
            assert(gate(3 * h + j) == drive(f, w, x(t), out2, 3 * h + j));
        }
    }
}

/// A cell, number by number.
#[verifier::spinoff_prover]
pub proof fn cell_reads(f: Functions, w: &LstmCellWeights, t: Tensor, x: Rows, s: int)
    requires
        w.sized(),
        has(t, seq![1, s, w.input_dim as int]),
        holds(f, t, x, s, w.input_dim as int),
    ensures
        has(cell_value(w, t), seq![1, s, w.hidden_dim as int]),
        holds(f, cell_value(w, t), outputs(f, w, x), s, w.hidden_dim as int),
{
    broadcast use {extents, readings};

    let (d, h) = (w.input_dim as int, w.hidden_dim as int);
    let g = 4 * w.hidden_dim;
    products(g, d, 1, 1, 1, 1);
    products(g, h, 1, 1, 1, 1);
    constant_has(w.w_ih@, seq![g, d]);
    constant_has(w.w_hh@, seq![g, h]);
    let (wi, wh) = (Tensor::constant(w.w_ih@, seq![g, d]), Tensor::constant(w.w_hh@, seq![g, h]));
    let (bi, bh) = (Tensor::constant(w.b_ih@, seq![g]), Tensor::constant(w.b_hh@, seq![g]));
    lstm_has(t, wi, wh, bi, bh, h);
    let y = cell_value(w, t);
    let (gx, gi, gh, gb, gc) = (elements(f, t), elements(f, wi), elements(f, wh), elements(f, bi), elements(f, bh));
    assert forall|r: int, j: int| gi(#[trigger] seq![r, j]) == number(f, w.w_ih@[r * w.input_dim + j]) by {
        assert(at2(f, wi, r, j) == gi(seq![r, j]));
    }
    assert forall|r: int, j: int| gh(#[trigger] seq![r, j]) == number(f, w.w_hh@[r * w.hidden_dim + j]) by {
        assert(at2(f, wh, r, j) == gh(seq![r, j]));
    }
    assert forall|r: int| gb(#[trigger] seq![r]) == number(f, w.b_ih@[r]) by {
        assert(at1(f, bi, r) == gb(seq![r]));
    }
    assert forall|r: int| gc(#[trigger] seq![r]) == number(f, w.b_hh@[r]) by {
        assert(at1(f, bh, r) == gc(seq![r]));
    }
    assert forall|i: int, j: int| 0 <= i < s && 0 <= j < h implies #[trigger] at3(f, y, 0, i, j) == outputs(
        f,
        w,
        x,
    )(i)(j) by {
        assert forall|m: int, e: int| 0 <= m <= i && 0 <= e < w.input_dim implies gx(#[trigger] seq![0, m, e])
            == x(m)(e) by {
            assert(at3(f, t, 0, m, e) == x(m)(e));
        }
        steps_read(f, w, gx, gi, gh, gb, gc, x, i);
        let spot = seq![0, i, j];
        let (a, b) = cell_state(f, gx, gi, gh, gb, gc, d, h, 0, i);
        assert(elements(f, y)(spot) == a(j)) by {
            reveal(Tensor::lstm);
            reveal(elements);
            assert(spot[0] == 0 && spot[1] == i && spot[2] == j);
        }
        assert(a(j) == after_step(f, w, x, i).0(j));
    }
}

/// A chain of cells, number by number.
pub proof fn cells_read(f: Functions, layers: Seq<LstmCellWeights>, n: int, t: Tensor, x: Rows, s: int, width: int)
    requires
        chained(layers, width),
        0 <= n <= layers.len(),
        has(t, seq![1, s, width]),
        holds(f, t, x, s, width),
    ensures
        ({
            let last = if n == 0 {
                width
            } else {
                layers[n - 1].hidden_dim as int
            };
            &&& has(cells_value(layers, n, t), seq![1, s, last])
            &&& holds(f, cells_value(layers, n, t), chain_outputs(f, layers, n, x), s, last)
        }),
    decreases n,
{
    if n > 0 {
        cells_read(f, layers, n - 1, t, x, s, width);
        assert(follows(layers, n - 1, width));
        cell_reads(f, &layers[n - 1], cells_value(layers, n - 1, t), chain_outputs(f, layers, n - 1, x), s);
    }
}

/// The speaker vectors, number by number: the outputs of the last cell, mapped, the
/// negative numbers set to zero, and divided by their length.
#[verifier::spinoff_prover]
pub proof fn value_reads(f: Functions, model: &SpeakerEncoderModel, mels: Tensor, x: Rows, s: int)
    requires
        model.weights.sized(&model.config),
        model.config.model_embedding_size <= usize::MAX,
        has(mels, seq![1, s, model.config.mel_n_channels as int]),
        holds(f, mels, x, s, model.config.mel_n_channels as int),
    ensures
        ({
            let w = &model.weights;
            let h = model.config.model_hidden_size as int;
            let e = model.config.model_embedding_size as int;
            let y = chain_outputs(f, w.lstm.layers@, w.lstm.layers@.len() as int, x);
            let z = each(|v: real| larger(v, 0real), affine_rows(f, y, w.linear@, w.linear_bias@, h, e));
            holds(f, model.value(mels), |i: int| unit_row(f, z(i), e), s, e)
        }),
{
    broadcast use {extents, readings};

    let w = &model.weights;
    let h = model.config.model_hidden_size as int;
    let e = model.config.model_embedding_size as int;
    let layers = w.lstm.layers@;
    let n = layers.len() as int;
    cells_read(f, layers, n, mels, x, s, model.config.mel_n_channels as int);
    let t = cells_value(layers, n, mels);
    let y = chain_outputs(f, layers, n, x);
    affine_holds(f, t, y, w.linear@, w.linear_bias@, h, e, s);
    let a = t.affine(w.linear@, w.linear_bias@, h, e);
    let rows = affine_rows(f, y, w.linear@, w.linear_bias@, h, e);
    let r = a.relu();
    let z = each(|v: real| larger(v, 0real), rows);
    let want = |i: int| unit_row(f, z(i), e);
    let eps = Scalar::F64(0);
    crate::readings::numbers_zero_one(f);
    assert(number(f, eps) == 0real) by {
        vstd::arithmetic::power2::lemma2_to64();
        vstd::arithmetic::power2::lemma2_to64_rest();
        vstd::arithmetic::power2::lemma_pow2_pos(1074);
        let p = vstd::arithmetic::power2::pow2(1074) as real;
        assert(0real / p == 0real) by (nonlinear_arith)
            requires
                p > 0real,
        ;
        assert(crate::meaning::scaled(0, -1074) == 0real);
        assert(0int % 0x10_0000_0000_0000 == 0 && 0int / 0x10_0000_0000_0000 == 0);
        assert(crate::meaning::decoded(0, 52, 2048, 1023) == 0real);
    }
    let v = r.l2_normalize(2, eps);
    assert forall|i: int, k: int| 0 <= i < s && 0 <= k < e implies #[trigger] at3(f, v, 0, i, k) == want(i)(k) by {
        let spot = seq![0, i, k];
        let g = elements(f, r);
        let q1 = |j: int| g(spot.update(2, j)) * g(spot.update(2, j));
        let q2 = |j: int| z(i)(j) * z(i)(j);
        assert forall|j: int| 0 <= j < e implies #[trigger] q1(j) == q2(j) by {
            assert(spot.update(2, j) =~= seq![0, i, j]);
            assert(at3(f, a, 0, i, j) == rows(i)(j));
            assert(at3(f, r, 0, i, j) == larger(at3(f, a, 0, i, j), 0real));
        }
        sums_alike(e, q1, q2);
        assert(at3(f, a, 0, i, k) == rows(i)(k));
        assert(at3(f, r, 0, i, k) == z(i)(k));
        assert(at3(f, v, 0, i, k) == at3(f, r, 0, i, k) / larger((f.sqrt)(sum(e, q1)), 0real)) by {
            reveal(Tensor::l2_normalize);
            reveal(elements);
        }
    }
}

} // verus!
