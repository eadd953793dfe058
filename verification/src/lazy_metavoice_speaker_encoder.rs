//! Speaker encoder: mel frames to unit-length speaker vectors.
//!
//! `long short-term memory cells -> linear -> relu -> unit length`

use crate::checkpoint::{decimal, join, loaded_matrix, numbered, wrong_len, Checkpoint, Loader};
use crate::error::{Error, Fault, LoadError};
use crate::extents::{extents, has};
use crate::lazy::{outcome, LazyTensor, Tensor, WeightStorage};
use crate::lazy_lstm::{cells_succeed, chained, countable, LstmCellWeights, LstmStack};
use crate::scalar::{fill, filled, zero, Data, Scalar};
use std::sync::Arc;
use vstd::prelude::*;

verus! {

#[derive(Debug, Clone, Copy, PartialEq, Eq, Structural)]
pub struct SpeakerEncoderConfig {
    pub sampling_rate: usize,
    pub partial_n_frames: usize,
    pub model_hidden_size: usize,
    pub model_embedding_size: usize,
    pub model_num_layers: usize,
    pub mel_window_length: usize,
    pub mel_window_step: usize,
    pub mel_n_channels: usize,
}

impl SpeakerEncoderConfig {
    /// The stored tensors can be counted.
    pub open spec fn loadable(&self) -> bool {
        &&& 4 * self.model_hidden_size <= usize::MAX
        &&& 4 * self.model_hidden_size * self.mel_n_channels <= usize::MAX
        &&& 4 * self.model_hidden_size * self.model_hidden_size <= usize::MAX
        &&& self.model_embedding_size * self.model_hidden_size <= usize::MAX
    }

    /// The default sizes.
    pub fn default_cfg() -> (r: Self)
        ensures
            r == (SpeakerEncoderConfig {
                sampling_rate: 16_000,
                partial_n_frames: 160,
                model_hidden_size: 256,
                model_embedding_size: 256,
                model_num_layers: 3,
                mel_window_length: 25,
                mel_window_step: 10,
                mel_n_channels: 40,
            }),
            r.loadable(),
    {
        SpeakerEncoderConfig {
            sampling_rate: 16_000,
            partial_n_frames: 160,
            model_hidden_size: 256,
            model_embedding_size: 256,
            model_num_layers: 3,
            mel_window_length: 25,
            mel_window_step: 10,
            mel_n_channels: 40,
        }
    }
}

#[derive(Debug, Clone)]
pub struct SpeakerEncoderWeights {
    pub lstm: LstmStack,
    /// `[hidden, embedding_size]`.
    pub linear: WeightStorage,
    /// `[embedding_size]`.
    pub linear_bias: Data,
}

#[derive(Debug, Clone)]
pub struct SpeakerEncoderModel {
    pub config: SpeakerEncoderConfig,
    pub weights: SpeakerEncoderWeights,
}

impl SpeakerEncoderModel {
    /// The speaker vectors `(1, frames, embedding_size)`.
    pub open spec fn value(&self, mels: Tensor) -> Tensor {
        self.weights.lstm.value(mels).affine(
            self.weights.linear@,
            self.weights.linear_bias@,
            self.config.model_hidden_size as int,
            self.config.model_embedding_size as int,
        ).relu().l2_normalize(2, Scalar::F64(0))
    }

    /// Maps mel frames `(1, frames, mel_n_channels)` to speaker vectors of unit
    /// length.
    pub fn forward(&self, mels: &LazyTensor) -> (r: Result<LazyTensor, Error>)
        requires
            mels@.rank() == 3,
            mels@.dim(0) == 1,
            mels@.dim(2) == self.config.mel_n_channels,
            countable(self.weights.lstm.layers@),
        ensures
            outcome(r, self.value(mels@)),
    {
        let h: usize = self.config.model_hidden_size;
        let e: usize = self.config.model_embedding_size;
        let lstm_out = self.weights.lstm.forward(mels);
        let activated = lstm_out.affine(
            self.weights.linear.data(),
            &self.weights.linear_bias,
            h,
            e,
        ).relu();
        l2_normalize_last(&activated).finish()
    }
}

/// Unit Euclidean length along the last of three axes.
pub fn l2_normalize_last(x: &LazyTensor) -> (r: LazyTensor)
    ensures
        r@ == x@.l2_normalize(2, Scalar::F64(0)),
{
    x.l2_normalize(2, &Scalar::F64(0))
}

/// Name of a tensor of cell `i`.
pub open spec fn cell_name(i: int, part: Seq<char>) -> Seq<char> {
    "lstm."@ + decimal(i) + part + decimal(i)
}

fn cell_string(i: usize, part: &str) -> (r: String)
    ensures
        r@ == cell_name(i as int, part@),
{
    numbered(join(numbered("lstm.", i).as_str(), part).as_str(), i)
}

/// Width of what cell `i` reads.
pub open spec fn cell_input(cfg: &SpeakerEncoderConfig, i: int) -> int {
    if i == 0 {
        cfg.mel_n_channels as int
    } else {
        cfg.model_hidden_size as int
    }
}

/// The failure, after an earlier one, to load cell `i`: all its tensors are
/// looked up before any length is compared.
pub open spec fn cell_need(
    st: &Checkpoint,
    cfg: &SpeakerEncoderConfig,
    e: Option<Fault>,
    i: int,
) -> Option<Fault> {
    let g = 4 * cfg.model_hidden_size;
    let w_ih = cell_name(i, ".weight_ih_l"@);
    let w_hh = cell_name(i, ".weight_hh_l"@);
    let b_ih = cell_name(i, ".bias_ih_l"@);
    let b_hh = cell_name(i, ".bias_hh_l"@);
    let e = st.need(st.need(st.need(st.need(e, w_ih), w_hh), b_ih), b_hh);
    let e = wrong_len(e, w_ih, st.data(w_ih), g * cell_input(cfg, i));
    let e = wrong_len(e, w_hh, st.data(w_hh), g * cfg.model_hidden_size);
    let e = wrong_len(e, b_ih, st.data(b_ih), g);
    wrong_len(e, b_hh, st.data(b_hh), g)
}

/// The failure, after an earlier one, to load the first `n` cells.
pub open spec fn cells_need(
    st: &Checkpoint,
    cfg: &SpeakerEncoderConfig,
    e: Option<Fault>,
    n: int,
) -> Option<Fault>
    decreases n,
{
    if n <= 0 {
        e
    } else {
        cell_need(st, cfg, cells_need(st, cfg, e, n - 1), n - 1)
    }
}

/// Whether `w` holds cell `i` of the checkpoint.
pub open spec fn cell_loaded(
    st: &Checkpoint,
    cfg: &SpeakerEncoderConfig,
    i: int,
    w: &LstmCellWeights,
) -> bool {
    &&& w.w_ih@ == st.data(cell_name(i, ".weight_ih_l"@))
    &&& w.w_hh@ == st.data(cell_name(i, ".weight_hh_l"@))
    &&& w.b_ih@ == st.data(cell_name(i, ".bias_ih_l"@))
    &&& w.b_hh@ == st.data(cell_name(i, ".bias_hh_l"@))
    &&& w.input_dim == cell_input(cfg, i)
    &&& w.hidden_dim == cfg.model_hidden_size
}

impl SpeakerEncoderWeights {
    /// Why a checkpoint cannot be loaded.
    pub open spec fn load_failure(st: &Checkpoint, cfg: &SpeakerEncoderConfig) -> Option<Fault> {
        let e = cells_need(st, cfg, None, cfg.model_num_layers as int);
        st.need_len(e, "linear.weight"@, cfg.model_embedding_size * cfg.model_hidden_size)
    }

    /// Whether these are the weights of the checkpoint. An absent bias is zero.
    pub open spec fn loaded(&self, st: &Checkpoint, cfg: &SpeakerEncoderConfig) -> bool {
        &&& self.lstm.layers@.len() == cfg.model_num_layers
        &&& forall|i: int|
            0 <= i < self.lstm.layers@.len() ==> cell_loaded(
                st,
                cfg,
                i,
                &#[trigger] self.lstm.layers@[i],
            )
        &&& self.linear@ == loaded_matrix(
            st,
            "linear.weight"@,
            cfg.model_embedding_size as int,
            cfg.model_hidden_size as int,
        )
        &&& self.linear_bias@ == match st.lookup("linear.bias"@) {
            Some(b) => b,
            None => filled(zero(), cfg.model_embedding_size as int),
        }
    }

    fn load_cell(ld: &mut Loader, cfg: &SpeakerEncoderConfig, li: usize) -> (r: LstmCellWeights)
        requires
            cfg.loadable(),
        ensures
            final(ld).st == old(ld).st,
            final(ld).fault() == cell_need(old(ld).st, cfg, old(ld).fault(), li as int),
            cell_loaded(old(ld).st, cfg, li as int, &r),
    {
        let h: usize = cfg.model_hidden_size;
        let four_h: usize = 4 * h;
        let in_dim: usize = if li == 0 { cfg.mel_n_channels } else { h };
        let w_ih_name = cell_string(li, ".weight_ih_l");
        let w_hh_name = cell_string(li, ".weight_hh_l");
        let b_ih_name = cell_string(li, ".bias_ih_l");
        let b_hh_name = cell_string(li, ".bias_hh_l");
        let w_ih = ld.take(w_ih_name.as_str());
        let w_hh = ld.take(w_hh_name.as_str());
        let b_ih = ld.take(b_ih_name.as_str());
        let b_hh = ld.take(b_hh_name.as_str());
        ld.expect_len(w_ih_name.as_str(), &w_ih, four_h * in_dim);
        ld.expect_len(w_hh_name.as_str(), &w_hh, four_h * h);
        ld.expect_len(b_ih_name.as_str(), &b_ih, four_h);
        ld.expect_len(b_hh_name.as_str(), &b_hh, four_h);
        LstmCellWeights { w_ih, w_hh, b_ih, b_hh, input_dim: in_dim, hidden_dim: h }
    }

    /// Loads the weights of a checkpoint.
    ///
    /// - `lstm.{i}.weight_ih_l{i}`, `lstm.{i}.weight_hh_l{i}`
    /// - `lstm.{i}.bias_ih_l{i}`, `lstm.{i}.bias_hh_l{i}`
    /// - `linear.weight`, stored as `(embedding, hidden)`
    /// - `linear.bias`, zero where absent
    pub fn load_from_mmapped(st: &Checkpoint, cfg: &SpeakerEncoderConfig) -> (r: Result<Self, LoadError>)
        requires
            cfg.loadable(),
        ensures
            match r {
                Ok(w) => SpeakerEncoderWeights::load_failure(st, cfg) is None && w.loaded(st, cfg)
                    && countable(w.lstm.layers@),
                Err(e) => SpeakerEncoderWeights::load_failure(st, cfg) == Some(e@),
            },
    {
        let h: usize = cfg.model_hidden_size;
        let e_dim: usize = cfg.model_embedding_size;
        let mut ld = Loader::new(st);
        let mut layers: Vec<LstmCellWeights> = Vec::new();
        let mut li: usize = 0;
        while li < cfg.model_num_layers
            invariant
                cfg.loadable(),
                li <= cfg.model_num_layers,
                ld.st == st,
                ld.fault() == cells_need(st, cfg, None, li as int),
                layers@.len() == li,
                forall|i: int| 0 <= i < li ==> cell_loaded(st, cfg, i, &#[trigger] layers@[i]),
            decreases cfg.model_num_layers - li,
        {
            let cell = SpeakerEncoderWeights::load_cell(&mut ld, cfg, li);
            layers.push(cell);
            li = li + 1;
        }
        let linear = ld.take_matrix("linear.weight", e_dim, h);
        let linear_bias = match st.get("linear.bias") {
            Some(b) => b,
            None => Arc::new(fill(&Scalar::F32(0), e_dim)),
        };
        match ld.error {
            Some(e) => Err(e),
            None => Ok(
                SpeakerEncoderWeights {
                    lstm: LstmStack { layers },
                    linear: WeightStorage::F32(linear),
                    linear_bias,
                },
            ),
        }
    }
}

impl SpeakerEncoderWeights {
    /// Every weight has the size that the configuration declares.
    pub open spec fn sized(&self, cfg: &SpeakerEncoderConfig) -> bool {
        let h = cfg.model_hidden_size as int;
        let e = cfg.model_embedding_size as int;
        &&& h >= 1
        &&& e >= 1
        &&& h * e <= usize::MAX
        &&& chained(self.lstm.layers@, cfg.mel_n_channels as int)
        &&& self.lstm.layers@.len() > 0
        &&& self.lstm.layers@.last().hidden_dim == h
        &&& self.linear@.len() == h * e
        &&& self.linear_bias@.len() == e
    }
}

/// On weights of the declared sizes a run over mel frames
/// `(1, frames, mel_n_channels)` succeeds, and the speaker vectors are
/// `(1, frames, model_embedding_size)`.
pub proof fn forward_succeeds(model: &SpeakerEncoderModel, mels: Tensor, frames: int)
    requires
        model.weights.sized(&model.config),
        has(mels, seq![1, frames, model.config.mel_n_channels as int]),
    ensures
        has(model.value(mels), seq![1, frames, model.config.model_embedding_size as int]),
{
    broadcast use extents;

    let layers = model.weights.lstm.layers@;
    cells_succeed(
        layers,
        layers.len() as int,
        mels,
        1,
        frames,
        model.config.mel_n_channels as int,
    );
}

} // verus!
