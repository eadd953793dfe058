//! Batch normalisation folded into a gain and a bias for each channel.

use crate::checkpoint::{join, Checkpoint, Loader};
use crate::error::Fault;
use crate::scalar::{add64, cast, div32, mul32, one, sqrt32, sub32, Data, Precision, Scalar};
use std::sync::Arc;
use vstd::prelude::*;

verus! {

/// A gain and a bias for each channel.
#[derive(Debug)]
pub struct BatchNormParams {
    pub w: Data,
    pub b: Data,
}

impl Clone for BatchNormParams {
    fn clone(&self) -> (r: Self)
        ensures
            r == *self,
    {
        BatchNormParams { w: self.w.clone(), b: self.b.clone() }
    }
}

/// `gain / sqrt(var + eps)`: the sum in double precision, the rest in single
/// precision.
pub open spec fn bn_scale(gain: Scalar, var: Scalar, eps: Scalar) -> Scalar {
    mul32(
        gain,
        div32(
            one(),
            sqrt32(cast(Precision::Single, add64(cast(Precision::Double, var), eps))),
        ),
    )
}

/// The gain `gain / sqrt(var + eps)` of each channel.
pub open spec fn folded_gain(gain: Seq<Scalar>, var: Seq<Scalar>, eps: Scalar) -> Seq<Scalar> {
    Seq::new(gain.len(), |i: int| bn_scale(gain[i], var[i], eps))
}

/// The bias `bias - mean * gain / sqrt(var + eps)` of each channel.
pub open spec fn folded_bias(
    gain: Seq<Scalar>,
    bias: Seq<Scalar>,
    mean: Seq<Scalar>,
    var: Seq<Scalar>,
    eps: Scalar,
) -> Seq<Scalar> {
    Seq::new(gain.len(), |i: int| sub32(bias[i], mul32(mean[i], bn_scale(gain[i], var[i], eps))))
}

/// Computes `gain / sqrt(var + eps)`.
pub fn channel_scale(gain: &Scalar, var: &Scalar, eps: &Scalar) -> (r: Scalar)
    ensures
        r == bn_scale(*gain, *var, *eps),
{
    let v = var.clone().cast(Precision::Double).add64(eps.clone()).cast(Precision::Single);
    gain.clone().mul32(Scalar::F32(0x3F80_0000).div32(v.sqrt32()))
}

impl BatchNormParams {
    /// Folds the statistics of a normalisation into a gain and a bias.
    pub fn from_raw(
        gain: &Vec<Scalar>,
        bias: &Vec<Scalar>,
        mean: &Vec<Scalar>,
        var: &Vec<Scalar>,
        eps: &Scalar,
    ) -> (r: Self)
        requires
            bias@.len() == gain@.len(),
            mean@.len() == gain@.len(),
            var@.len() == gain@.len(),
        ensures
            r.w@ == folded_gain(gain@, var@, *eps),
            r.b@ == folded_bias(gain@, bias@, mean@, var@, *eps),
    {
        let mut w: Vec<Scalar> = Vec::new();
        let mut b: Vec<Scalar> = Vec::new();
        let mut i: usize = 0;
        while i < gain.len()
            invariant
                i <= gain@.len(),
                bias@.len() == gain@.len(),
                mean@.len() == gain@.len(),
                var@.len() == gain@.len(),
                w@.len() == i,
                b@.len() == i,
                forall|j: int| 0 <= j < i ==> w@[j] == folded_gain(gain@, var@, *eps)[j],
                forall|j: int|
                    0 <= j < i ==> b@[j] == folded_bias(gain@, bias@, mean@, var@, *eps)[j],
            decreases gain@.len() - i,
        {
            let scale = channel_scale(&gain[i], &var[i], eps);
            b.push(bias[i].clone().sub32(mean[i].clone().mul32(scale.clone())));
            w.push(scale);
            i = i + 1;
        }
        assert(w@ =~= folded_gain(gain@, var@, *eps));
        assert(b@ =~= folded_bias(gain@, bias@, mean@, var@, *eps));
        BatchNormParams { w: Arc::new(w), b: Arc::new(b) }
    }
}

/// The four statistics of a normalisation, each of `n` elements.
pub struct BnStats {
    pub gain: Data,
    pub bias: Data,
    pub mean: Data,
    pub var: Data,
}

impl BnStats {
    /// Each statistic has `n` elements.
    pub open spec fn sized(&self, n: int) -> bool {
        &&& self.gain@.len() == n
        &&& self.bias@.len() == n
        &&& self.mean@.len() == n
        &&& self.var@.len() == n
    }

    /// Whether these are the statistics `{prefix}.weight`, `.bias`,
    /// `.running_mean` and `.running_var` of a checkpoint.
    pub open spec fn loaded(&self, st: &Checkpoint, prefix: Seq<char>) -> bool {
        &&& self.gain@ == st.data(prefix + ".weight"@)
        &&& self.bias@ == st.data(prefix + ".bias"@)
        &&& self.mean@ == st.data(prefix + ".running_mean"@)
        &&& self.var@ == st.data(prefix + ".running_var"@)
    }
}

/// The failure, after an earlier one, to load the statistics of a
/// normalisation.
pub open spec fn bn_need(st: &Checkpoint, e: Option<Fault>, prefix: Seq<char>, n: int) -> Option<Fault> {
    let e = st.need_len(e, prefix + ".weight"@, n);
    let e = st.need_len(e, prefix + ".bias"@, n);
    let e = st.need_len(e, prefix + ".running_mean"@, n);
    st.need_len(e, prefix + ".running_var"@, n)
}

/// Reads the statistics of a normalisation over `channels` channels.
pub fn load_stats(ld: &mut Loader, prefix: &str, channels: usize) -> (r: BnStats)
    ensures
        final(ld).st == old(ld).st,
        final(ld).fault() == bn_need(old(ld).st, old(ld).fault(), prefix@, channels as int),
        r.loaded(old(ld).st, prefix@),
        final(ld).fault() is None ==> r.sized(channels as int),
{
    let gain = ld.take_len(join(prefix, ".weight").as_str(), channels);
    let bias = ld.take_len(join(prefix, ".bias").as_str(), channels);
    let mean = ld.take_len(join(prefix, ".running_mean").as_str(), channels);
    let var = ld.take_len(join(prefix, ".running_var").as_str(), channels);
    BnStats { gain, bias, mean, var }
}

/// Whether `bn` folds the statistics `prefix` of a checkpoint.
pub open spec fn bn_loaded(st: &Checkpoint, prefix: Seq<char>, eps: Scalar, bn: &BatchNormParams) -> bool {
    let gain = st.data(prefix + ".weight"@);
    let bias = st.data(prefix + ".bias"@);
    let mean = st.data(prefix + ".running_mean"@);
    let var = st.data(prefix + ".running_var"@);
    &&& bn.w@ == folded_gain(gain, var, eps)
    &&& bn.b@ == folded_bias(gain, bias, mean, var, eps)
}

/// Reads and folds a normalisation over `channels` channels.
pub fn load_batch_norm(ld: &mut Loader, prefix: &str, channels: usize, eps: &Scalar) -> (r: BatchNormParams)
    ensures
        final(ld).st == old(ld).st,
        final(ld).fault() == bn_need(old(ld).st, old(ld).fault(), prefix@, channels as int),
        final(ld).fault() is None ==> bn_loaded(old(ld).st, prefix@, *eps, &r),
{
    let s = load_stats(ld, prefix, channels);
    if ld.error.is_none() {
        BatchNormParams::from_raw(&s.gain, &s.bias, &s.mean, &s.var, eps)
    } else {
        BatchNormParams { w: Arc::new(Vec::new()), b: Arc::new(Vec::new()) }
    }
}

} // verus!
