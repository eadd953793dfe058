//! Stacks of long short-term memory cells.

use crate::extents::{constant_has, extents, has, lstm_has, products};
use crate::lazy::{LazyTensor, Tensor};
use crate::scalar::Data;
use vstd::prelude::*;

verus! {

/// One cell; the gates stand in the order input, forget, cell, output.
#[derive(Debug, Clone)]
pub struct LstmCellWeights {
    /// `[4 * hidden_dim, input_dim]`.
    pub w_ih: Data,
    /// `[4 * hidden_dim, hidden_dim]`.
    pub w_hh: Data,
    /// `[4 * hidden_dim]`.
    pub b_ih: Data,
    /// `[4 * hidden_dim]`.
    pub b_hh: Data,
    pub input_dim: usize,
    pub hidden_dim: usize,
}

/// Cells, each of which reads what the one before it yields.
#[derive(Debug, Clone)]
pub struct LstmStack {
    pub layers: Vec<LstmCellWeights>,
}

/// The hidden states of one cell over `x (batch, seq, input_dim)`.
pub open spec fn cell_value(w: &LstmCellWeights, x: Tensor) -> Tensor {
    let g = 4 * w.hidden_dim;
    x.lstm(
        Tensor::constant(w.w_ih@, seq![g, w.input_dim as int]),
        Tensor::constant(w.w_hh@, seq![g, w.hidden_dim as int]),
        Tensor::constant(w.b_ih@, seq![g]),
        Tensor::constant(w.b_hh@, seq![g]),
        w.hidden_dim as int,
    )
}

/// The first `n` cells, one after the other.
pub open spec fn cells_value(layers: Seq<LstmCellWeights>, n: int, x: Tensor) -> Tensor
    decreases n,
{
    if n <= 0 {
        x
    } else {
        cell_value(&layers[n - 1], cells_value(layers, n - 1, x))
    }
}

/// The gates of every cell can be counted.
pub open spec fn countable(layers: Seq<LstmCellWeights>) -> bool {
    forall|i: int| 0 <= i < layers.len() ==> 4 * (#[trigger] layers[i]).hidden_dim <= usize::MAX
}

impl LstmStack {
    /// The hidden states of the last cell.
    pub open spec fn value(&self, x: Tensor) -> Tensor {
        cells_value(self.layers@, self.layers@.len() as int, x)
    }

    /// Runs the cells over `x (batch, seq, input_dim)` from zero states.
    pub fn forward(&self, x: &LazyTensor) -> (r: LazyTensor)
        requires
            countable(self.layers@),
        ensures
            r@ == self.value(x@),
    {
        let mut h = x.clone();
        let mut i: usize = 0;
        while i < self.layers.len()
            invariant
                countable(self.layers@),
                i <= self.layers@.len(),
                h@ == cells_value(self.layers@, i as int, x@),
            decreases self.layers@.len() - i,
        {
            let w = &self.layers[i];
            let g: usize = 4 * w.hidden_dim;
            let wi = LazyTensor::const2(&w.w_ih, g, w.input_dim);
            let wh = LazyTensor::const2(&w.w_hh, g, w.hidden_dim);
            let bi = LazyTensor::const1(&w.b_ih, g);
            let bh = LazyTensor::const1(&w.b_hh, g);
            h = h.lstm(&wi, &wh, &bi, &bh, w.hidden_dim);
            i = i + 1;
        }
        h
    }
}

impl LstmCellWeights {
    /// Every weight has the size that the cell declares.
    pub open spec fn sized(&self) -> bool {
        let g = 4 * self.hidden_dim;
        &&& self.input_dim >= 1
        &&& self.hidden_dim >= 1
        &&& g <= usize::MAX
        &&& g * self.input_dim <= usize::MAX
        &&& g * self.hidden_dim <= usize::MAX
        &&& self.w_ih@.len() == g * self.input_dim
        &&& self.w_hh@.len() == g * self.hidden_dim
        &&& self.b_ih@.len() == g
        &&& self.b_hh@.len() == g
    }
}

/// Whether cell `i` reads what the one before it, or the input, yields.
pub open spec fn follows(layers: Seq<LstmCellWeights>, i: int, width: int) -> bool {
    layers[i].sized() && layers[i].input_dim == (if i == 0 {
        width
    } else {
        layers[i - 1].hidden_dim as int
    })
}

/// Whether the cells fit together.
pub open spec fn chained(layers: Seq<LstmCellWeights>, width: int) -> bool {
    forall|i: int| 0 <= i < layers.len() ==> #[trigger] follows(layers, i, width)
}

/// On cells that fit together the first `n` succeed, and the last of them
/// determines the width of the result.
pub proof fn cells_succeed(layers: Seq<LstmCellWeights>, n: int, x: Tensor, b: int, s: int, width: int)
    requires
        chained(layers, width),
        0 <= n <= layers.len(),
        has(x, seq![b, s, width]),
    ensures
        has(
            cells_value(layers, n, x),
            seq![
                b,
                s,
                if n == 0 {
                    width
                } else {
                    layers[n - 1].hidden_dim as int
                },
            ],
        ),
    decreases n,
{
    broadcast use extents;

    if n > 0 {
        cells_succeed(layers, n - 1, x, b, s, width);
        let w = layers[n - 1];
        assert(follows(layers, n - 1, width));
        let g = 4 * w.hidden_dim;
        products(g, w.input_dim as int, 1, 1, 1, 1);
        products(g, w.hidden_dim as int, 1, 1, 1, 1);
        constant_has(w.w_ih@, seq![g, w.input_dim as int]);
        constant_has(w.w_hh@, seq![g, w.hidden_dim as int]);
        lstm_has(
            cells_value(layers, n - 1, x),
            Tensor::constant(w.w_ih@, seq![g, w.input_dim as int]),
            Tensor::constant(w.w_hh@, seq![g, w.hidden_dim as int]),
            Tensor::constant(w.b_ih@, seq![g]),
            Tensor::constant(w.b_hh@, seq![g]),
            w.hidden_dim as int,
        );
    }
}

} // verus!
