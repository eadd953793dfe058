//! MobileOne: an image backbone of depthwise and pointwise convolutions.
//!
//! Every layer of a stored model consists of parallel branches, each a
//! convolution with its normalisation. Loading sums the branches of a layer
//! into one convolution with a bias:
//!
//! - `k` branches of the layer's own kernel size,
//! - one pointwise branch, placed at the centre of the kernel, where the kernel
//!   is larger than one,
//! - one identity branch, where the layer keeps channels and resolution.

use crate::batch_norm::{bn_need, bn_scale, channel_scale, folded_bias, load_stats, BnStats};
use crate::checkpoint::{decimal, join, loaded_matrix, numbered, Checkpoint, Loader};
use crate::error::{Error, Fault, LoadError};
use crate::extents::{
    broadcast_add_under, broadcast_mul_under, constant_has,
    conv2d_has, extents, has, lies_under, odd_windows, per_channel_has, pool_has,
    products, shrunk,
};
use crate::lazy::{outcome, LazyTensor, Tensor, WeightStorage};
use crate::scalar::{add32, fill, filled, mul32, one, sub32, zero, Data, Scalar};
use std::sync::Arc;
use vstd::arithmetic::power2::pow2;
use vstd::prelude::*;

verus! {

/// Number of blocks of a stage; the stem counts as stage zero.
pub open spec fn stage_blocks(stage: int) -> int {
    if stage == 0 {
        1
    } else if stage == 1 {
        2
    } else if stage == 2 {
        8
    } else if stage == 3 {
        10
    } else {
        1
    }
}

/// Binary logarithm of the base channels `64, 64, 128, 256, 512` of a stage.
pub open spec fn base_log(stage: int) -> int {
    if stage <= 1 {
        6
    } else {
        stage + 5
    }
}

/// The single-precision number with these bits, times `2^shift`, cut to an
/// integer as a float is: toward zero, at the limits of the range where it lies
/// outside, and zero where it is no number.
pub open spec fn truncated(bits: u32, shift: int) -> int {
    let exponent = bits as int / 0x80_0000 % 256;
    let fraction = bits as int % 0x80_0000;
    let m = if exponent == 0 { fraction } else { fraction + 0x80_0000 };
    let x = (if exponent == 0 { 1 } else { exponent }) - 150 + shift;
    if bits >= 0x8000_0000 {
        0
    } else if exponent == 255 {
        if fraction == 0 {
            usize::MAX as int
        } else {
            0
        }
    } else if x < 0 {
        m / pow2((-x) as nat) as int
    } else if m * pow2(x as nat) > usize::MAX {
        usize::MAX as int
    } else {
        m * pow2(x as nat)
    }
}

fn halve(m: usize, n: usize) -> (r: usize)
    ensures
        r == m as int / pow2(n as nat) as int,
{
    let mut r: usize = m;
    let mut i: usize = 0;
    proof {
        vstd::arithmetic::power2::lemma2_to64();
    }
    while i < n
        invariant
            i <= n,
            r == m as int / pow2(i as nat) as int,
        decreases n - i,
    {
        proof {
            vstd::arithmetic::power2::lemma_pow2_pos(i as nat);
            vstd::arithmetic::power2::lemma_pow2_unfold((i + 1) as nat);
            vstd::arithmetic::div_mod::lemma_div_denominator(m as int, pow2(i as nat) as int, 2);
            assert(pow2(i as nat) * 2 == 2 * pow2(i as nat));
        }
        r = r / 2;
        i = i + 1;
    }
    r
}

fn double(m: usize, n: usize) -> (r: usize)
    requires
        m > 0,
    ensures
        r == if m * pow2(n as nat) > usize::MAX {
            usize::MAX as int
        } else {
            m * pow2(n as nat)
        },
{
    let mut r: usize = m;
    let mut i: usize = 0;
    proof {
        vstd::arithmetic::power2::lemma2_to64();
    }
    while i < n
        invariant
            i <= n,
            m > 0,
            r == m * pow2(i as nat),
        decreases n - i,
    {
        proof {
            vstd::arithmetic::power2::lemma_pow2_unfold((i + 1) as nat);
            assert(m * pow2((i + 1) as nat) == 2 * (m * pow2(i as nat))) by (nonlinear_arith)
                requires
                    pow2((i + 1) as nat) == 2 * pow2(i as nat),
            ;
        }
        match r.checked_mul(2) {
            None => {
                proof {
                    if i + 1 < n {
                        vstd::arithmetic::power2::lemma_pow2_strictly_increases(
                            (i + 1) as nat,
                            n as nat,
                        );
                    }
                    assert(m * pow2((i + 1) as nat) <= m * pow2(n as nat)) by (nonlinear_arith)
                        requires
                            pow2((i + 1) as nat) <= pow2(n as nat),
                            m > 0,
                    ;
                }
                return usize::MAX;
            },
            Some(d) => {
                r = d;
            },
        }
        i = i + 1;
    }
    r
}

/// Cuts a scaled single-precision number to an integer.
pub fn truncate(bits: u32, shift: usize) -> (r: usize)
    requires
        shift <= 9,
    ensures
        r == truncated(bits, shift as int),
{
    let exponent: usize = (bits / 0x80_0000 % 256) as usize;
    let fraction: usize = (bits % 0x80_0000) as usize;
    if bits >= 0x8000_0000 {
        return 0;
    }
    if exponent == 255 {
        return if fraction == 0 {
            usize::MAX
        } else {
            0
        };
    }
    let m: usize = if exponent == 0 { fraction } else { fraction + 0x80_0000 };
    let e: usize = if exponent == 0 { 1 } else { exponent };
    if e + shift < 150 {
        halve(m, 150 - (e + shift))
    } else {
        double(m, e + shift - 150)
    }
}

#[derive(Debug, Clone, Copy, PartialEq, Eq)]
pub struct MobileOneConfig {
    /// Branches of a layer's own kernel size.
    pub k: usize,
    /// Channel multipliers of the stages, as bits of single-precision numbers.
    pub alphas: [u32; 5],
    pub nclasses: Option<usize>,
}

/// Whether the multiplier lies within `1e-6` of `3.0`, `3.5` or `4.0`, given by
/// its bits: neighbours are `2^-22` apart below `4.0` and `2^-21` from it on.
pub open spec fn near(bits: u32, centre: u32, below: int, above: int) -> bool {
    centre - below <= bits <= centre + above
}

impl MobileOneConfig {
    /// Channels that a stage yields; those of the stem are capped.
    pub open spec fn channels(&self, stage: int) -> int {
        let n = truncated(self.alphas@[stage], base_log(stage));
        if stage == 0 && n > 64 {
            64
        } else {
            n
        }
    }

    /// Whether the multipliers are those of the one variant with
    /// squeeze-and-excitation.
    pub open spec fn se(&self) -> bool {
        &&& near(self.alphas@[0], 0x4040_0000, 4, 4)
        &&& near(self.alphas@[2], 0x4060_0000, 4, 4)
        &&& near(self.alphas@[4], 0x4080_0000, 4, 2)
    }

    pub fn s0(nclasses: Option<usize>) -> (r: Self)
        ensures
            r.k == 4,
            r.alphas@ == seq![0x3F40_0000u32, 0x3F40_0000, 0x3F80_0000, 0x3F80_0000, 0x4000_0000],
            r.nclasses == nclasses,
    {
        MobileOneConfig {
            k: 4,
            alphas: [0x3F40_0000, 0x3F40_0000, 0x3F80_0000, 0x3F80_0000, 0x4000_0000],
            nclasses,
        }
    }

    pub fn s1(nclasses: Option<usize>) -> (r: Self)
        ensures
            r.k == 1,
            r.alphas@ == seq![0x3FC0_0000u32, 0x3FC0_0000, 0x3FC0_0000, 0x4000_0000, 0x4020_0000],
            r.nclasses == nclasses,
    {
        MobileOneConfig {
            k: 1,
            alphas: [0x3FC0_0000, 0x3FC0_0000, 0x3FC0_0000, 0x4000_0000, 0x4020_0000],
            nclasses,
        }
    }

    pub fn s2(nclasses: Option<usize>) -> (r: Self)
        ensures
            r.k == 1,
            r.alphas@ == seq![0x3FC0_0000u32, 0x3FC0_0000, 0x4000_0000, 0x4020_0000, 0x4080_0000],
            r.nclasses == nclasses,
    {
        MobileOneConfig {
            k: 1,
            alphas: [0x3FC0_0000, 0x3FC0_0000, 0x4000_0000, 0x4020_0000, 0x4080_0000],
            nclasses,
        }
    }

    pub fn s3(nclasses: Option<usize>) -> (r: Self)
        ensures
            r.k == 1,
            r.alphas@ == seq![0x4000_0000u32, 0x4000_0000, 0x4020_0000, 0x4040_0000, 0x4080_0000],
            r.nclasses == nclasses,
    {
        MobileOneConfig {
            k: 1,
            alphas: [0x4000_0000, 0x4000_0000, 0x4020_0000, 0x4040_0000, 0x4080_0000],
            nclasses,
        }
    }

    pub fn s4(nclasses: Option<usize>) -> (r: Self)
        ensures
            r.k == 1,
            r.alphas@ == seq![0x4040_0000u32, 0x4040_0000, 0x4060_0000, 0x4060_0000, 0x4080_0000],
            r.nclasses == nclasses,
            r.se(),
    {
        MobileOneConfig {
            k: 1,
            alphas: [0x4040_0000, 0x4040_0000, 0x4060_0000, 0x4060_0000, 0x4080_0000],
            nclasses,
        }
    }

    /// Channels that a stage yields; the stem is stage zero and has at most 64.
    pub fn channels_at(&self, stage: usize) -> (r: usize)
        requires
            stage < 5,
        ensures
            r == self.channels(stage as int),
    {
        let shift: usize = if stage <= 1 { 6 } else { stage + 5 };
        let n: usize = truncate(self.alphas[stage], shift);
        if stage == 0 && n > 64 {
            64
        } else {
            n
        }
    }

    /// Whether the layers of this variant have squeeze-and-excitation.
    pub fn has_se(&self) -> (r: bool)
        ensures
            r == self.se(),
    {
        let a: u32 = self.alphas[0];
        let b: u32 = self.alphas[2];
        let c: u32 = self.alphas[4];
        0x4040_0000 - 4 <= a && a <= 0x4040_0000 + 4 && 0x4060_0000 - 4 <= b && b <= 0x4060_0000 + 4
            && 0x4080_0000 - 4 <= c && c <= 0x4080_0000 + 2
    }
}

/// One convolution with a bias, and optionally squeeze-and-excitation.
#[derive(Debug, Clone)]
pub struct MobileOneLayerWeights {
    /// `[c_out, c_in / groups, kernel, kernel]`.
    pub conv_w: WeightStorage,
    pub conv_b: Data,
    pub c_in: usize,
    pub c_out: usize,
    pub kernel: usize,
    pub stride: usize,
    pub groups: usize,
    pub se: Option<MobileOneSeWeights>,
}

#[derive(Debug, Clone)]
pub struct MobileOneSeWeights {
    /// `[squeeze, channels, 1, 1]`.
    pub fc1_w: WeightStorage,
    pub fc1_b: Data,
    /// `[channels, squeeze, 1, 1]`.
    pub fc2_w: WeightStorage,
    pub fc2_b: Data,
    pub squeeze: usize,
    pub channels: usize,
}

#[derive(Debug, Clone)]
pub struct MobileOneWeights {
    pub stem: MobileOneLayerWeights,
    /// The layers of the four stages: for each block a depthwise and a
    /// pointwise one.
    pub stages: [Vec<MobileOneLayerWeights>; 4],
    pub head: Option<(WeightStorage, Data)>,
}

#[derive(Debug, Clone)]
pub struct MobileOneModel {
    pub config: MobileOneConfig,
    pub weights: MobileOneWeights,
}

/// A bias for each of `c` channels, as `(1, c, 1, 1)`.
pub open spec fn channel_bias(b: Seq<Scalar>, c: int) -> Tensor {
    Tensor::constant(b, seq![c]).reshape(seq![1, c, 1, 1])
}

/// A pointwise convolution with a bias.
pub open spec fn se_conv(x: Tensor, w: Seq<Scalar>, b: Seq<Scalar>, c_in: int, c_out: int) -> Tensor {
    x.conv2d(Tensor::constant(w, seq![c_out, c_in, 1, 1]), 1, 0, 1).broadcast_add(
        channel_bias(b, c_out),
    )
}

impl MobileOneSeWeights {
    /// `x` with every channel weighed by its global mean.
    pub open spec fn value(&self, x: Tensor) -> Tensor {
        let c = self.channels as int;
        let s = self.squeeze as int;
        let g = se_conv(
            x.mean_keepdim(2).mean_keepdim(3),
            self.fc1_w@,
            self.fc1_b@,
            c,
            s,
        ).relu();
        x.broadcast_mul(se_conv(g, self.fc2_w@, self.fc2_b@, s, c).sigmoid())
    }
}

impl MobileOneLayerWeights {
    /// What the layer makes of `x (batch, c_in, h, w)`.
    pub open spec fn value(&self, x: Tensor) -> Tensor {
        let w = Tensor::constant(
            self.conv_w@,
            seq![
                self.c_out as int,
                self.c_in as int / self.groups as int,
                self.kernel as int,
                self.kernel as int,
            ],
        );
        let pad = if self.kernel > 1 { 1int } else { 0 };
        let y = x.conv2d(w, self.stride as int, pad, self.groups as int).broadcast_add(
            channel_bias(self.conv_b@, self.c_out as int),
        );
        match self.se {
            None => y.relu(),
            Some(se) => se.value(y).relu(),
        }
    }
}

/// The first `n` layers, one after the other.
pub open spec fn layers_value(layers: Seq<MobileOneLayerWeights>, n: int, x: Tensor) -> Tensor
    decreases n,
{
    if n <= 0 {
        x
    } else {
        layers[n - 1].value(layers_value(layers, n - 1, x))
    }
}

/// The first `s` stages, one after the other.
pub open spec fn stages_value(stages: Seq<Vec<MobileOneLayerWeights>>, s: int, x: Tensor) -> Tensor
    decreases s,
{
    if s <= 0 {
        x
    } else {
        layers_value(
            stages[s - 1]@,
            stages[s - 1]@.len() as int,
            stages_value(stages, s - 1, x),
        )
    }
}

impl MobileOneWeights {
    /// Every convolution has groups.
    pub open spec fn grouped(&self) -> bool {
        &&& self.stem.groups > 0
        &&& forall|s: int, i: int|
            0 <= s < 4 && 0 <= i < self.stages@[s]@.len() ==> (#[trigger] self.stages@[s]@[i]).groups
                > 0
    }
}

impl MobileOneModel {
    /// The feature map after the last stage.
    pub open spec fn features(&self, image: Tensor) -> Tensor {
        stages_value(self.weights.stages@, 4, self.weights.stem.value(image))
    }

    /// Class logits where there is a head, else pooled features.
    pub open spec fn value(&self, image: Tensor) -> Tensor {
        let pooled = self.features(image).global_avg_pool_2d();
        match self.weights.head {
            None => pooled,
            Some((w, b)) => pooled.affine(
                w@,
                b@,
                self.config.channels(4),
                self.config.nclasses->Some_0 as int,
            ),
        }
    }

    /// Classifies `image (batch, 3, h, w)`, or yields pooled features where there
    /// is no head.
    pub fn forward(&self, image: &LazyTensor) -> (r: Result<LazyTensor, Error>)
        requires
            image@.rank() == 4,
            image@.dim(1) == 3,
            self.weights.grouped(),
            self.weights.head is Some ==> self.config.nclasses is Some,
        ensures
            outcome(r, self.value(image@)),
    {
        let pooled = self.run_backbone(image).global_avg_pool_2d();
        match (&self.weights.head, self.config.nclasses) {
            (Some((w, b)), Some(n)) => pooled.affine(w.data(), b, self.config.channels_at(4), n).finish(),
            _ => pooled.finish(),
        }
    }

    /// The feature map after the last stage, before pooling and head.
    pub fn forward_features(&self, image: &LazyTensor) -> (r: Result<LazyTensor, Error>)
        requires
            image@.rank() == 4,
            image@.dim(1) == 3,
            self.weights.grouped(),
        ensures
            outcome(r, self.features(image@)),
    {
        self.run_backbone(image).finish()
    }

    fn run_backbone(&self, image: &LazyTensor) -> (r: LazyTensor)
        requires
            self.weights.grouped(),
        ensures
            r@ == self.features(image@),
    {
        let mut x = self.apply_layer(image, &self.weights.stem);
        let ghost x0 = x@;
        let mut s: usize = 0;
        while s < 4
            invariant
                s <= 4,
                self.weights.grouped(),
                x@ == stages_value(self.weights.stages@, s as int, x0),
            decreases 4 - s,
        {
            let stage = &self.weights.stages[s];
            let ghost xs = x@;
            let mut i: usize = 0;
            while i < stage.len()
                invariant
                    s < 4,
                    self.weights.grouped(),
                    stage@ == self.weights.stages@[s as int]@,
                    i <= stage@.len(),
                    x@ == layers_value(stage@, i as int, xs),
                decreases stage@.len() - i,
            {
                assert(self.weights.stages@[s as int]@[i as int].groups > 0);
                x = self.apply_layer(&x, &stage[i]);
                i = i + 1;
            }
            s = s + 1;
        }
        x
    }

    fn apply_layer(&self, x: &LazyTensor, layer: &MobileOneLayerWeights) -> (r: LazyTensor)
        requires
            layer.groups > 0,
        ensures
            r@ == layer.value(x@),
    {
        let w = LazyTensor::const4(
            layer.conv_w.data(),
            layer.c_out,
            layer.c_in / layer.groups,
            layer.kernel,
            layer.kernel,
        );
        let pad: usize = if layer.kernel > 1 { 1 } else { 0 };
        let bias_t = LazyTensor::const1(&layer.conv_b, layer.c_out).reshape4(1, layer.c_out, 1, 1);
        let out = x.conv2d(&w, layer.stride, pad, layer.groups).broadcast_add(&bias_t);
        match &layer.se {
            None => out.relu(),
            Some(se) => self.apply_se(&out, se).relu(),
        }
    }

    fn apply_se(&self, x: &LazyTensor, se: &MobileOneSeWeights) -> (r: LazyTensor)
        ensures
            r@ == se.value(x@),
    {
        let pooled = x.mean_keepdim(2).mean_keepdim(3);
        let g = self.apply_se_conv(&pooled, &se.fc1_w, &se.fc1_b, se.channels, se.squeeze).relu();
        let g = self.apply_se_conv(&g, &se.fc2_w, &se.fc2_b, se.squeeze, se.channels).sigmoid();
        x.broadcast_mul(&g)
    }

    fn apply_se_conv(&self, x: &LazyTensor, w: &WeightStorage, b: &Data, c_in: usize, c_out: usize) -> (r:
        LazyTensor)
        ensures
            r@ == se_conv(x@, w@, b@, c_in as int, c_out as int),
    {
        let wt = LazyTensor::const4(w.data(), c_out, c_in, 1, 1);
        let bt = LazyTensor::const1(b, c_out).reshape4(1, c_out, 1, 1);
        x.conv2d(&wt, 1, 0, 1).broadcast_add(&bt)
    }
}

/// The normalisation constant, `1e-5` in double precision.
pub open spec fn mobileone_eps() -> Scalar {
    Scalar::F64(0x3EE4_F8B5_88E3_68F1)
}

/// A kernel with rows of `per_out` elements, each row scaled by the gain of its
/// normalisation.
pub open spec fn scaled_kernel(w: Seq<Scalar>, gain: Seq<Scalar>, var: Seq<Scalar>, per_out: int) -> Seq<
    Scalar,
> {
    Seq::new(
        w.len(),
        |j: int| mul32(w[j], bn_scale(gain[j / per_out], var[j / per_out], mobileone_eps())),
    )
}

/// Element by element.
pub open spec fn summed(a: Seq<Scalar>, b: Seq<Scalar>) -> Seq<Scalar> {
    Seq::new(a.len(), |j: int| add32(a[j], b[j]))
}

/// `b[i]` added at the centre of the `i`-th of the kernels of `cells` elements
/// that make up `a`.
pub open spec fn centred(a: Seq<Scalar>, b: Seq<Scalar>, cells: int) -> Seq<Scalar> {
    Seq::new(
        a.len(),
        |j: int| if j % cells == cells / 2 {
            add32(a[j], b[j / cells])
        } else {
            a[j]
        },
    )
}

/// The kernel of `n` elements that hands `c_in` channels on unchanged: one at
/// the centre of each kernel, or on the diagonal of a pointwise matrix.
pub open spec fn identity_kernel(n: int, c_in: int, per_group: int, kernel: int) -> Seq<Scalar> {
    let cells = kernel * kernel;
    Seq::new(
        n as nat,
        |j: int| if kernel > 1 {
            if j % cells == cells / 2 && j / cells < c_in {
                one()
            } else {
                zero()
            }
        } else {
            if j % (per_group + 1) == 0 && j / (per_group + 1) < c_in {
                one()
            } else {
                zero()
            }
        },
    )
}

/// One layer to load.
#[derive(Debug, Clone, Copy, PartialEq, Eq, Structural)]
pub struct LayerSpec {
    pub has_identity: bool,
    pub c_in: usize,
    pub c_out: usize,
    pub kernel: usize,
    pub stride: usize,
    pub groups: usize,
    /// Branches of the layer's own kernel size.
    pub k: usize,
    pub has_se: bool,
}

impl LayerSpec {
    pub open spec fn per_group(&self) -> int {
        self.c_in as int / self.groups as int
    }

    pub open spec fn cells(&self) -> int {
        self.kernel * self.kernel
    }

    /// Elements of a kernel for one output channel.
    pub open spec fn per_out(&self) -> int {
        self.per_group() * self.cells()
    }

    /// Elements of the kernel.
    pub open spec fn len(&self) -> int {
        self.c_out * self.per_out()
    }

    pub open spec fn squeeze(&self) -> int {
        if self.c_out < 32 {
            1
        } else {
            self.c_out as int / 16
        }
    }

    /// The elements can be counted, and an identity branch finds its places.
    pub open spec fn countable(&self) -> bool {
        &&& self.groups > 0
        &&& self.cells() <= usize::MAX
        &&& self.per_out() <= usize::MAX
        &&& self.len() <= usize::MAX
        &&& self.c_out * self.per_group() <= usize::MAX
        &&& self.squeeze() * self.c_out <= usize::MAX
        &&& self.per_group() + 1 <= usize::MAX
        &&& self.has_identity ==> if self.kernel > 1 {
            self.c_in * self.cells() <= self.len()
        } else {
            self.c_in * (self.per_group() + 1) <= self.len() + self.per_group()
        }
    }

    pub open spec fn branch(&self, p: Seq<char>, i: int) -> Seq<char> {
        p + ".conv_kxk."@ + decimal(i)
    }

    /// Kernel of the sum of the first `n` main branches.
    pub open spec fn main_w(&self, st: &Checkpoint, p: Seq<char>, n: int) -> Seq<Scalar>
        decreases n,
    {
        if n <= 0 {
            filled(zero(), self.len())
        } else {
            let b = self.branch(p, n - 1);
            summed(
                self.main_w(st, p, n - 1),
                scaled_kernel(
                    st.data(b + ".conv.weight"@),
                    st.data(b + ".bn"@ + ".weight"@),
                    st.data(b + ".bn"@ + ".running_var"@),
                    self.per_out(),
                ),
            )
        }
    }

    /// Bias of the sum of the first `n` main branches.
    pub open spec fn main_b(&self, st: &Checkpoint, p: Seq<char>, n: int) -> Seq<Scalar>
        decreases n,
    {
        if n <= 0 {
            filled(zero(), self.c_out as int)
        } else {
            summed(self.main_b(st, p, n - 1), bn_bias(st, self.branch(p, n - 1) + ".bn"@))
        }
    }

    /// Kernel of the layer.
    pub open spec fn fused_w(&self, st: &Checkpoint, p: Seq<char>) -> Seq<Scalar> {
        let a = self.main_w(st, p, self.k as int);
        let s = p + ".conv_scale.bn"@;
        let b = if self.kernel > 1 {
            centred(
                a,
                scaled_kernel(
                    st.data(p + ".conv_scale.conv.weight"@),
                    st.data(s + ".weight"@),
                    st.data(s + ".running_var"@),
                    self.per_group(),
                ),
                self.cells(),
            )
        } else {
            a
        };
        let d = p + ".identity"@;
        if self.has_identity {
            summed(
                b,
                scaled_kernel(
                    identity_kernel(
                        self.len(),
                        self.c_in as int,
                        self.per_group(),
                        self.kernel as int,
                    ),
                    st.data(d + ".weight"@),
                    st.data(d + ".running_var"@),
                    self.per_out(),
                ),
            )
        } else {
            b
        }
    }

    /// Bias of the layer.
    pub open spec fn fused_b(&self, st: &Checkpoint, p: Seq<char>) -> Seq<Scalar> {
        let a = self.main_b(st, p, self.k as int);
        let b = if self.kernel > 1 {
            summed(a, bn_bias(st, p + ".conv_scale.bn"@))
        } else {
            a
        };
        if self.has_identity {
            summed(b, bn_bias(st, p + ".identity"@))
        } else {
            b
        }
    }

    /// The failure, after an earlier one, to load the first `n` main branches.
    pub open spec fn main_need(&self, st: &Checkpoint, e: Option<Fault>, p: Seq<char>, n: int) -> Option<Fault>
        decreases n,
    {
        if n <= 0 {
            e
        } else {
            let b = self.branch(p, n - 1);
            let e = self.main_need(st, e, p, n - 1);
            let e = st.need_len(e, b + ".conv.weight"@, self.len());
            bn_need(st, e, b + ".bn"@, self.c_out as int)
        }
    }

    /// The failure, after an earlier one, to load squeeze-and-excitation.
    pub open spec fn se_need(&self, st: &Checkpoint, e: Option<Fault>, p: Seq<char>) -> Option<Fault> {
        let c = self.c_out as int;
        let s = self.squeeze();
        if self.has_se && st.lookup(p + ".attn.fc1.weight"@) is Some {
            let e = st.need_len(e, p + ".attn.fc1.weight"@, s * c);
            let e = st.need_len(e, p + ".attn.fc1.bias"@, s);
            let e = st.need_len(e, p + ".attn.fc2.weight"@, c * s);
            st.need_len(e, p + ".attn.fc2.bias"@, c)
        } else {
            e
        }
    }

    /// The failure, after an earlier one, to load the layer `p`.
    pub open spec fn need(&self, st: &Checkpoint, e: Option<Fault>, p: Seq<char>) -> Option<Fault> {
        let c = self.c_out as int;
        let e = self.main_need(st, e, p, self.k as int);
        let e = if self.kernel > 1 {
            let e = st.need_len(e, p + ".conv_scale.conv.weight"@, c * self.per_group());
            bn_need(st, e, p + ".conv_scale.bn"@, c)
        } else {
            e
        };
        let e = if self.has_identity {
            bn_need(st, e, p + ".identity"@, c)
        } else {
            e
        };
        self.se_need(st, e, p)
    }

    /// Whether `se` is the squeeze-and-excitation of the layer `p`; a layer
    /// without stored weights for it has none.
    pub open spec fn se_loaded(&self, st: &Checkpoint, p: Seq<char>, se: Option<MobileOneSeWeights>) -> bool {
        match se {
            None => !(self.has_se && st.lookup(p + ".attn.fc1.weight"@) is Some),
            Some(w) => {
                &&& self.has_se && st.lookup(p + ".attn.fc1.weight"@) is Some
                &&& w.fc1_w@ == st.data(p + ".attn.fc1.weight"@)
                &&& w.fc1_b@ == st.data(p + ".attn.fc1.bias"@)
                &&& w.fc2_w@ == st.data(p + ".attn.fc2.weight"@)
                &&& w.fc2_b@ == st.data(p + ".attn.fc2.bias"@)
                &&& w.squeeze == self.squeeze()
                &&& w.channels == self.c_out
            },
        }
    }

    /// Whether `w` is the layer `p` of the checkpoint, its branches summed.
    pub open spec fn loaded(&self, st: &Checkpoint, p: Seq<char>, w: &MobileOneLayerWeights) -> bool {
        &&& w.conv_w@ == self.fused_w(st, p)
        &&& w.conv_b@ == self.fused_b(st, p)
        &&& w.c_in == self.c_in
        &&& w.c_out == self.c_out
        &&& w.kernel == self.kernel
        &&& w.stride == self.stride
        &&& w.groups == self.groups
        &&& self.se_loaded(st, p, w.se)
    }
}

/// The bias that a normalisation folds into.
pub open spec fn bn_bias(st: &Checkpoint, bn: Seq<char>) -> Seq<Scalar> {
    folded_bias(
        st.data(bn + ".weight"@),
        st.data(bn + ".bias"@),
        st.data(bn + ".running_mean"@),
        st.data(bn + ".running_var"@),
        mobileone_eps(),
    )
}

/// Folds a normalisation into the kernel `w`, whose rows have `per_out`
/// elements: the scaled kernel and the bias.
pub fn fuse_conv_bn_kernel(w: &Vec<Scalar>, s: &BnStats, c_out: usize, per_out: usize) -> (r: (
    Vec<Scalar>,
    Vec<Scalar>,
))
    requires
        w@.len() == c_out * per_out,
        s.sized(c_out as int),
    ensures
        r.0@ == scaled_kernel(w@, s.gain@, s.var@, per_out as int),
        r.1@ == folded_bias(s.gain@, s.bias@, s.mean@, s.var@, mobileone_eps()),
{
    let eps = Scalar::F64(0x3EE4_F8B5_88E3_68F1);
    let n: usize = w.len();
    let mut w_out: Vec<Scalar> = Vec::new();
    let mut b_out: Vec<Scalar> = Vec::new();
    let ghost want_w = scaled_kernel(w@, s.gain@, s.var@, per_out as int);
    let ghost want_b = folded_bias(s.gain@, s.bias@, s.mean@, s.var@, mobileone_eps());
    let mut o: usize = 0;
    proof {
        assert(0 * per_out == 0) by (nonlinear_arith);
    }
    while o < c_out
        invariant
            o <= c_out,
            n == w@.len() == c_out * per_out,
            s.sized(c_out as int),
            eps == mobileone_eps(),
            want_w == scaled_kernel(w@, s.gain@, s.var@, per_out as int),
            want_b == folded_bias(s.gain@, s.bias@, s.mean@, s.var@, mobileone_eps()),
            w_out@.len() == o * per_out,
            b_out@.len() == o,
            forall|j: int| 0 <= j < w_out@.len() ==> w_out@[j] == want_w[j],
            forall|j: int| 0 <= j < o ==> b_out@[j] == want_b[j],
        decreases c_out - o,
    {
        let scale = Arc::new(channel_scale(&s.gain[o], &s.var[o], &eps));
        assert(o * per_out + per_out <= c_out * per_out && o * per_out >= 0 && (o + 1) * per_out == o
            * per_out + per_out) by (nonlinear_arith)
            requires
                o < c_out,
                per_out >= 0,
        ;
        let base: usize = o * per_out;
        let mut i: usize = 0;
        while i < per_out
            invariant
                i <= per_out,
                o < c_out,
                base == o * per_out,
                base + per_out <= n == w@.len(),
                want_w == scaled_kernel(w@, s.gain@, s.var@, per_out as int),
                *scale == bn_scale(s.gain@[o as int], s.var@[o as int], mobileone_eps()),
                w_out@.len() == base + i,
                forall|j: int| 0 <= j < w_out@.len() ==> w_out@[j] == want_w[j],
            decreases per_out - i,
        {
            proof {
                vstd::arithmetic::div_mod::lemma_fundamental_div_mod_converse(
                    base + i,
                    per_out as int,
                    o as int,
                    i as int,
                );
            }
            w_out.push(w[base + i].clone().mul32_shared(&scale));
            i = i + 1;
        }
        b_out.push(s.bias[o].clone().sub32(s.mean[o].clone().mul32_shared(&scale)));
        o = o + 1;
    }
    assert(w_out@ =~= want_w);
    assert(b_out@ =~= want_b);
    (w_out, b_out)
}

fn add_all(a: &Vec<Scalar>, b: &Vec<Scalar>) -> (r: Vec<Scalar>)
    requires
        a@.len() == b@.len(),
    ensures
        r@ == summed(a@, b@),
{
    let mut out: Vec<Scalar> = Vec::new();
    let mut j: usize = 0;
    while j < a.len()
        invariant
            j <= a@.len() == b@.len(),
            out@.len() == j,
            forall|i: int| 0 <= i < j ==> out@[i] == summed(a@, b@)[i],
        decreases a@.len() - j,
    {
        out.push(a[j].clone().add32(b[j].clone()));
        j = j + 1;
    }
    assert(out@ =~= summed(a@, b@));
    out
}

fn add_centre(a: &Vec<Scalar>, b: &Vec<Scalar>, cells: usize) -> (r: Vec<Scalar>)
    requires
        cells > 0,
        a@.len() == b@.len() * cells,
    ensures
        r@ == centred(a@, b@, cells as int),
{
    let mut out: Vec<Scalar> = Vec::new();
    let mut j: usize = 0;
    while j < a.len()
        invariant
            cells > 0,
            a@.len() == b@.len() * cells,
            j <= a@.len(),
            out@.len() == j,
            forall|i: int| 0 <= i < j ==> out@[i] == centred(a@, b@, cells as int)[i],
        decreases a@.len() - j,
    {
        if j % cells == cells / 2 {
            assert(j / cells < b@.len()) by (nonlinear_arith)
                requires
                    cells > 0,
                    0 <= j < b@.len() * cells,
            ;
            out.push(a[j].clone().add32(b[j / cells].clone()));
        } else {
            out.push(a[j].clone());
        }
        j = j + 1;
    }
    assert(out@ =~= centred(a@, b@, cells as int));
    out
}

fn build_identity(n: usize, c_in: usize, per_group: usize, kernel: usize) -> (r: Vec<Scalar>)
    requires
        kernel * kernel <= usize::MAX,
        per_group + 1 <= usize::MAX,
    ensures
        r@ == identity_kernel(n as int, c_in as int, per_group as int, kernel as int),
{
    let cells: usize = kernel * kernel;
    let step: usize = per_group + 1;
    let mut out: Vec<Scalar> = Vec::new();
    let mut j: usize = 0;
    while j < n
        invariant
            cells == kernel * kernel,
            step == per_group + 1,
            j <= n,
            out@.len() == j,
            forall|i: int|
                0 <= i < j ==> out@[i] == identity_kernel(
                    n as int,
                    c_in as int,
                    per_group as int,
                    kernel as int,
                )[i],
        decreases n - j,
    {
        let hit: bool = if kernel > 1 {
            assert(cells > 0) by (nonlinear_arith)
                requires
                    cells == kernel * kernel,
                    kernel > 1,
            ;
            j % cells == cells / 2 && j / cells < c_in
        } else {
            j % step == 0 && j / step < c_in
        };
        out.push(
            if hit {
                Scalar::F32(0x3F80_0000)
            } else {
                Scalar::F32(0)
            },
        );
        j = j + 1;
    }
    assert(out@ =~= identity_kernel(n as int, c_in as int, per_group as int, kernel as int));
    out
}

/// Reads the statistics of a normalisation.
fn mobileone_load_bn(ld: &mut Loader, prefix: &str, channels: usize) -> (r: BnStats)
    ensures
        final(ld).st == old(ld).st,
        final(ld).fault() == bn_need(old(ld).st, old(ld).fault(), prefix@, channels as int),
        r.loaded(old(ld).st, prefix@),
        final(ld).fault() is None ==> r.sized(channels as int),
{
    load_stats(ld, prefix, channels)
}

fn load_main(ld: &mut Loader, prefix: &str, spec: &LayerSpec) -> (r: (Vec<Scalar>, Vec<Scalar>))
    requires
        spec.countable(),
    ensures
        final(ld).st == old(ld).st,
        final(ld).fault() == spec.main_need(old(ld).st, old(ld).fault(), prefix@, spec.k as int),
        final(ld).fault() is None ==> r.0@ == spec.main_w(old(ld).st, prefix@, spec.k as int),
        final(ld).fault() is None ==> r.1@ == spec.main_b(old(ld).st, prefix@, spec.k as int),
        final(ld).fault() is None ==> r.0@.len() == spec.len(),
        final(ld).fault() is None ==> r.1@.len() == spec.c_out,
{
    let ghost st = ld.st;
    let ghost e = ld.fault();
    let per_out: usize = spec.c_in / spec.groups * (spec.kernel * spec.kernel);
    let n_w: usize = spec.c_out * per_out;
    let mut w = fill(&Scalar::F32(0), n_w);
    let mut b = fill(&Scalar::F32(0), spec.c_out);
    let mut i: usize = 0;
    while i < spec.k
        invariant
            i <= spec.k,
            spec.countable(),
            per_out == spec.per_out(),
            n_w == spec.len(),
            ld.st == st,
            ld.fault() == spec.main_need(st, e, prefix@, i as int),
            ld.fault() is None ==> w@ == spec.main_w(st, prefix@, i as int),
            ld.fault() is None ==> b@ == spec.main_b(st, prefix@, i as int),
            ld.fault() is None ==> w@.len() == n_w && b@.len() == spec.c_out,
        decreases spec.k - i,
    {
        let branch = numbered(join(prefix, ".conv_kxk.").as_str(), i);
        let conv_w = ld.take_len(join(branch.as_str(), ".conv.weight").as_str(), n_w);
        let stats = mobileone_load_bn(ld, join(branch.as_str(), ".bn").as_str(), spec.c_out);
        if ld.error.is_none() {
            let (wk, bk) = fuse_conv_bn_kernel(&conv_w, &stats, spec.c_out, per_out);
            w = add_all(&w, &wk);
            b = add_all(&b, &bk);
        }
        i = i + 1;
    }
    (w, b)
}

fn load_se(ld: &mut Loader, prefix: &str, spec: &LayerSpec) -> (r: Option<MobileOneSeWeights>)
    requires
        spec.countable(),
    ensures
        final(ld).st == old(ld).st,
        final(ld).fault() == spec.se_need(old(ld).st, old(ld).fault(), prefix@),
        spec.se_loaded(old(ld).st, prefix@, r),
{
    if !spec.has_se || !ld.st.contains(join(prefix, ".attn.fc1.weight").as_str()) {
        return None;
    }
    let c_out: usize = spec.c_out;
    let squeeze: usize = if c_out < 32 { 1 } else { c_out / 16 };
    assert(c_out * squeeze == squeeze * c_out) by (nonlinear_arith);
    let fc1_w = ld.take_len(join(prefix, ".attn.fc1.weight").as_str(), squeeze * c_out);
    let fc1_b = ld.take_len(join(prefix, ".attn.fc1.bias").as_str(), squeeze);
    let fc2_w = ld.take_len(join(prefix, ".attn.fc2.weight").as_str(), c_out * squeeze);
    let fc2_b = ld.take_len(join(prefix, ".attn.fc2.bias").as_str(), c_out);
    Some(
        MobileOneSeWeights {
            fc1_w: WeightStorage::F32(fc1_w),
            fc1_b,
            fc2_w: WeightStorage::F32(fc2_w),
            fc2_b,
            squeeze,
            channels: c_out,
        },
    )
}

/// Loads one layer and sums its branches into one convolution.
fn mobileone_load_layer(ld: &mut Loader, prefix: &str, spec: &LayerSpec) -> (r: MobileOneLayerWeights)
    requires
        spec.countable(),
    ensures
        final(ld).st == old(ld).st,
        final(ld).fault() == spec.need(old(ld).st, old(ld).fault(), prefix@),
        final(ld).fault() is None ==> spec.loaded(old(ld).st, prefix@, &r),
{
    let ghost st = ld.st;
    let c_in_per_group: usize = spec.c_in / spec.groups;
    let kernel_elems: usize = spec.kernel * spec.kernel;
    let per_out: usize = c_in_per_group * kernel_elems;
    let n_w: usize = spec.c_out * per_out;
    let (mut fused_w, mut fused_b) = load_main(ld, prefix, spec);

    if spec.kernel > 1 {
        let scale_w = ld.take_len(
            join(prefix, ".conv_scale.conv.weight").as_str(),
            spec.c_out * c_in_per_group,
        );
        let stats = mobileone_load_bn(ld, join(prefix, ".conv_scale.bn").as_str(), spec.c_out);
        if ld.error.is_none() {
            let (ws, bs) = fuse_conv_bn_kernel(&scale_w, &stats, spec.c_out, c_in_per_group);
            assert(kernel_elems > 0) by (nonlinear_arith)
                requires
                    kernel_elems == spec.kernel * spec.kernel,
                    spec.kernel > 1,
            ;
            assert(spec.c_out * c_in_per_group * kernel_elems == spec.c_out * (c_in_per_group
                * kernel_elems)) by (nonlinear_arith);
            fused_w = add_centre(&fused_w, &ws, kernel_elems);
            fused_b = add_all(&fused_b, &bs);
        }
    }
    if spec.has_identity {
        let delta = build_identity(n_w, spec.c_in, c_in_per_group, spec.kernel);
        let stats = mobileone_load_bn(ld, join(prefix, ".identity").as_str(), spec.c_out);
        if ld.error.is_none() {
            let (wi, bi) = fuse_conv_bn_kernel(&delta, &stats, spec.c_out, per_out);
            fused_w = add_all(&fused_w, &wi);
            fused_b = add_all(&fused_b, &bi);
        }
    }
    let se = load_se(ld, prefix, spec);
    MobileOneLayerWeights {
        conv_w: WeightStorage::F32(Arc::new(fused_w)),
        conv_b: Arc::new(fused_b),
        c_in: spec.c_in,
        c_out: spec.c_out,
        kernel: spec.kernel,
        stride: spec.stride,
        groups: spec.groups,
        se,
    }
}

impl MobileOneConfig {
    /// The stem: no identity branch, one main branch.
    pub open spec fn stem_spec(&self) -> LayerSpec {
        LayerSpec {
            has_identity: false,
            c_in: 3,
            c_out: self.channels(0) as usize,
            kernel: 3,
            stride: 2,
            groups: 1,
            k: 1,
            has_se: self.se(),
        }
    }

    /// Channels that layer `i` of a stage reads.
    pub open spec fn layer_in(&self, stage: int, i: int) -> int {
        if i < 2 {
            self.channels(stage - 1)
        } else {
            self.channels(stage)
        }
    }

    /// Layer `i` of a stage: even ones are depthwise, odd ones pointwise; only
    /// the first block changes resolution and channels.
    pub open spec fn layer_spec(&self, stage: int, i: int) -> LayerSpec {
        let c = self.layer_in(stage, i) as usize;
        if i % 2 == 0 {
            LayerSpec {
                has_identity: i >= 2,
                c_in: c,
                c_out: c,
                kernel: 3,
                stride: if i < 2 {
                    2
                } else {
                    1
                },
                groups: c,
                k: self.k,
                has_se: false,
            }
        } else {
            LayerSpec {
                has_identity: i >= 2,
                c_in: c,
                c_out: self.channels(stage) as usize,
                kernel: 1,
                stride: 1,
                groups: 1,
                k: self.k,
                has_se: self.se(),
            }
        }
    }

    /// The stored tensors can be counted.
    pub open spec fn loadable(&self) -> bool {
        &&& self.stem_spec().countable()
        &&& forall|s: int, i: int|
            1 <= s <= 4 && 0 <= i < 2 * stage_blocks(s) ==> (#[trigger] self.layer_spec(
                s,
                i,
            )).countable()
        &&& self.nclasses matches Some(n) ==> n * self.channels(4) <= usize::MAX
    }

    fn build_layer_spec(&self, stage: usize, i: usize) -> (r: LayerSpec)
        requires
            1 <= stage <= 4,
        ensures
            r == self.layer_spec(stage as int, i as int),
    {
        let c: usize = if i < 2 { self.channels_at(stage - 1) } else { self.channels_at(stage) };
        if i % 2 == 0 {
            LayerSpec {
                has_identity: i >= 2,
                c_in: c,
                c_out: c,
                kernel: 3,
                stride: if i < 2 {
                    2
                } else {
                    1
                },
                groups: c,
                k: self.k,
                has_se: false,
            }
        } else {
            LayerSpec {
                has_identity: i >= 2,
                c_in: c,
                c_out: self.channels_at(stage),
                kernel: 1,
                stride: 1,
                groups: 1,
                k: self.k,
                has_se: self.has_se(),
            }
        }
    }
}

/// Name prefix of layer `i` of a stage.
pub open spec fn layer_prefix(stage: int, i: int) -> Seq<char> {
    "stages."@ + decimal(stage - 1) + "."@ + decimal(i)
}

/// The failure, after an earlier one, to load the first `n` layers of a stage.
pub open spec fn stage_need(
    st: &Checkpoint,
    cfg: &MobileOneConfig,
    e: Option<Fault>,
    stage: int,
    n: int,
) -> Option<Fault>
    decreases n,
{
    if n <= 0 {
        e
    } else {
        cfg.layer_spec(stage, n - 1).need(
            st,
            stage_need(st, cfg, e, stage, n - 1),
            layer_prefix(stage, n - 1),
        )
    }
}

/// Whether `layers` are the layers of a stage of the checkpoint.
pub open spec fn stage_loaded(
    st: &Checkpoint,
    cfg: &MobileOneConfig,
    stage: int,
    layers: Seq<MobileOneLayerWeights>,
) -> bool {
    &&& layers.len() == 2 * stage_blocks(stage)
    &&& forall|i: int|
        0 <= i < layers.len() ==> cfg.layer_spec(stage, i).loaded(
            st,
            layer_prefix(stage, i),
            &#[trigger] layers[i],
        )
}

proof fn layer_need_keeps(spec: LayerSpec, st: &Checkpoint, e: Option<Fault>, p: Seq<char>)
    ensures
        spec.need(st, e, p) is None ==> e is None,
{
    main_need_keeps(spec, st, e, p, spec.k as int);
}

proof fn main_need_keeps(spec: LayerSpec, st: &Checkpoint, e: Option<Fault>, p: Seq<char>, n: int)
    ensures
        spec.main_need(st, e, p, n) is None ==> e is None,
    decreases n,
{
    if n > 0 {
        main_need_keeps(spec, st, e, p, n - 1);
    }
}

proof fn stage_need_keeps(st: &Checkpoint, cfg: &MobileOneConfig, e: Option<Fault>, s: int, n: int)
    ensures
        stage_need(st, cfg, e, s, n) is None ==> e is None,
    decreases n,
{
    if n > 0 {
        stage_need_keeps(st, cfg, e, s, n - 1);
        layer_need_keeps(
            cfg.layer_spec(s, n - 1),
            st,
            stage_need(st, cfg, e, s, n - 1),
            layer_prefix(s, n - 1),
        );
    }
}

impl MobileOneWeights {
    /// Why a checkpoint cannot be loaded.
    pub open spec fn load_failure(st: &Checkpoint, cfg: &MobileOneConfig) -> Option<Fault> {
        let e = cfg.stem_spec().need(st, None, "stem"@);
        let e = stage_need(st, cfg, e, 1, 4);
        let e = stage_need(st, cfg, e, 2, 16);
        let e = stage_need(st, cfg, e, 3, 20);
        let e = stage_need(st, cfg, e, 4, 2);
        match cfg.nclasses {
            None => e,
            Some(n) => {
                let e = st.need_len(e, "head.fc.weight"@, n * cfg.channels(4));
                st.need_len(e, "head.fc.bias"@, n as int)
            },
        }
    }

    /// Whether these are the weights of the checkpoint.
    pub open spec fn loaded(&self, st: &Checkpoint, cfg: &MobileOneConfig) -> bool {
        &&& cfg.stem_spec().loaded(st, "stem"@, &self.stem)
        &&& stage_loaded(st, cfg, 1, self.stages@[0]@)
        &&& stage_loaded(st, cfg, 2, self.stages@[1]@)
        &&& stage_loaded(st, cfg, 3, self.stages@[2]@)
        &&& stage_loaded(st, cfg, 4, self.stages@[3]@)
        &&& match cfg.nclasses {
            None => self.head is None,
            Some(n) => self.head matches Some((w, b)) && {
                &&& w@ == loaded_matrix(st, "head.fc.weight"@, n as int, cfg.channels(4))
                &&& b@ == st.data("head.fc.bias"@)
            },
        }
    }

    fn load_stage(ld: &mut Loader, cfg: &MobileOneConfig, stage: usize, nblocks: usize) -> (r: Vec<
        MobileOneLayerWeights,
    >)
        requires
            1 <= stage <= 4,
            nblocks == stage_blocks(stage as int),
            cfg.loadable(),
        ensures
            final(ld).st == old(ld).st,
            final(ld).fault() == stage_need(
                old(ld).st,
                cfg,
                old(ld).fault(),
                stage as int,
                2 * nblocks,
            ),
            final(ld).fault() is None ==> stage_loaded(old(ld).st, cfg, stage as int, r@),
    {
        let ghost st = ld.st;
        let ghost e = ld.fault();
        let mut layers: Vec<MobileOneLayerWeights> = Vec::new();
        let mut i: usize = 0;
        while i < 2 * nblocks
            invariant
                1 <= stage <= 4,
                nblocks == stage_blocks(stage as int),
                cfg.loadable(),
                i <= 2 * nblocks,
                ld.st == st,
                ld.fault() == stage_need(st, cfg, e, stage as int, i as int),
                layers@.len() == i,
                ld.fault() is None ==> forall|j: int|
                    0 <= j < i ==> cfg.layer_spec(stage as int, j).loaded(
                        st,
                        layer_prefix(stage as int, j),
                        &#[trigger] layers@[j],
                    ),
            decreases 2 * nblocks - i,
        {
            let prefix = numbered(join(numbered("stages.", stage - 1).as_str(), ".").as_str(), i);
            let spec = cfg.build_layer_spec(stage, i);
            proof {
                layer_need_keeps(spec, st, ld.fault(), layer_prefix(stage as int, i as int));
            }
            let layer = mobileone_load_layer(ld, prefix.as_str(), &spec);
            layers.push(layer);
            i = i + 1;
        }
        layers
    }

    /// Loads the weights of a checkpoint.
    ///
    /// - Layers: `stem`, and `stages.{s}.{i}` with the depthwise ones at even and
    ///   the pointwise ones at odd `i`.
    /// - In a layer: `conv_kxk.{i}.conv.weight` and `conv_kxk.{i}.bn.*`;
    ///   `conv_scale.conv.weight` and `conv_scale.bn.*` where the kernel is
    ///   larger than one; `identity.*` where it has an identity branch;
    ///   `attn.fc1.*` and `attn.fc2.*` optionally in the variant with
    ///   squeeze-and-excitation.
    /// - Classifier: `head.fc.weight`, stored as `(classes, channels)`, and
    ///   `head.fc.bias`.
    pub fn load_from_mmapped(st: &Checkpoint, cfg: &MobileOneConfig) -> (r: Result<Self, LoadError>)
        requires
            cfg.loadable(),
        ensures
            match r {
                Ok(w) => MobileOneWeights::load_failure(st, cfg) is None && w.loaded(st, cfg),
                Err(e) => MobileOneWeights::load_failure(st, cfg) == Some(e@),
            },
    {
        let mut ld = Loader::new(st);
        let stem_spec = LayerSpec {
            has_identity: false,
            c_in: 3,
            c_out: cfg.channels_at(0),
            kernel: 3,
            stride: 2,
            groups: 1,
            k: 1,
            has_se: cfg.has_se(),
        };
        let stem = mobileone_load_layer(&mut ld, "stem", &stem_spec);
        let ghost e0 = ld.fault();
        let s1 = MobileOneWeights::load_stage(&mut ld, cfg, 1, 2);
        let ghost e1 = ld.fault();
        let s2 = MobileOneWeights::load_stage(&mut ld, cfg, 2, 8);
        let ghost e2 = ld.fault();
        let s3 = MobileOneWeights::load_stage(&mut ld, cfg, 3, 10);
        let ghost e3 = ld.fault();
        let s4 = MobileOneWeights::load_stage(&mut ld, cfg, 4, 1);
        proof {
            stage_need_keeps(st, cfg, e0, 1, 4);
            stage_need_keeps(st, cfg, e1, 2, 16);
            stage_need_keeps(st, cfg, e2, 3, 20);
            stage_need_keeps(st, cfg, e3, 4, 2);
        }
        let head = match cfg.nclasses {
            None => None,
            Some(n) => {
                let w = ld.take_matrix("head.fc.weight", n, cfg.channels_at(4));
                let b = ld.take_len("head.fc.bias", n);
                Some((WeightStorage::F32(w), b))
            },
        };
        match ld.error {
            Some(e) => Err(e),
            None => Ok(MobileOneWeights { stem, stages: [s1, s2, s3, s4], head }),
        }
    }
}

impl MobileOneLayerWeights {
    /// The kernel covers one position or three by three, and every weight has
    /// the size that the layer declares.
    pub open spec fn sized(&self) -> bool {
        let per = self.c_in as int / self.groups as int;
        let k = self.kernel as int;
        &&& k == 1 || k == 3
        &&& self.stride >= 1
        &&& self.groups >= 1
        &&& self.c_in >= 1
        &&& self.c_out >= 1
        &&& per * self.groups == self.c_in
        &&& self.c_out % self.groups == 0
        &&& self.c_out * per * k * k <= usize::MAX
        &&& self.conv_w@.len() == self.c_out * per * k * k
        &&& self.conv_b@.len() == self.c_out
        &&& self.se matches Some(se) ==> {
            &&& se.channels == self.c_out
            &&& se.squeeze >= 1
            &&& se.squeeze * se.channels <= usize::MAX
            &&& se.fc1_w@.len() == se.squeeze * se.channels
            &&& se.fc1_b@.len() == se.squeeze
            &&& se.fc2_w@.len() == se.channels * se.squeeze
            &&& se.fc2_b@.len() == se.channels
        }
    }
}

/// Whether layer `i` reads the channels that the one before it yields, the first
/// one `c` channels.
pub open spec fn follows(layers: Seq<MobileOneLayerWeights>, i: int, c: int) -> bool {
    layers[i].sized() && layers[i].c_in == channels_after(layers, i, c)
}

/// Whether the layers fit together.
pub open spec fn chained(layers: Seq<MobileOneLayerWeights>, c: int) -> bool {
    forall|i: int| 0 <= i < layers.len() ==> #[trigger] follows(layers, i, c)
}

/// Channels after the first `n` layers.
pub open spec fn channels_after(layers: Seq<MobileOneLayerWeights>, n: int, c: int) -> int {
    if n <= 0 {
        c
    } else {
        layers[n - 1].c_out as int
    }
}

/// Positions along a side of `side` after the first `n` layers.
pub open spec fn side_after(layers: Seq<MobileOneLayerWeights>, n: int, side: int) -> int
    decreases n,
{
    if n <= 0 {
        side
    } else {
        shrunk(side_after(layers, n - 1, side), layers[n - 1].stride as int)
    }
}

/// A convolution of a squeezed map with a bias.
pub proof fn se_conv_has(x: Tensor, w: Seq<Scalar>, b: Seq<Scalar>, c_in: int, c_out: int, n: int)
    requires
        has(x, seq![n, c_in, 1, 1]),
        c_in >= 1,
        1 <= c_out <= usize::MAX,
        c_out * c_in <= usize::MAX,
        w.len() == c_out * c_in,
        b.len() == c_out,
    ensures
        has(se_conv(x, w, b, c_in, c_out), seq![n, c_out, 1, 1]),
{
    products(c_out, c_in, 1, 1, 1, 1);
    constant_has(w, seq![c_out, c_in, 1, 1]);
    let k = Tensor::constant(w, seq![c_out, c_in, 1, 1]);
    odd_windows(1, 1, 1);
    conv2d_has(x, k, 1, 0, 1);
    let y = x.conv2d(k, 1, 0, 1);
    assert(y.dims =~= seq![n, c_out, 1, 1]);
    per_channel_has(b, y);
    broadcast_add_under(y, channel_bias(b, c_out));
}

/// On weights of the declared sizes a layer succeeds: it yields its channels at
/// every `stride`-th position.
pub proof fn layer_succeeds(w: &MobileOneLayerWeights, x: Tensor, b: int, h: int, wd: int)
    requires
        w.sized(),
        has(x, seq![b, w.c_in as int, h, wd]),
        1 <= h,
        1 <= wd,
        h + 3 <= usize::MAX,
        wd + 3 <= usize::MAX,
    ensures
        has(
            w.value(x),
            seq![b, w.c_out as int, shrunk(h, w.stride as int), shrunk(wd, w.stride as int)],
        ),
        1 <= shrunk(h, w.stride as int) <= h,
        1 <= shrunk(wd, w.stride as int) <= wd,
{
    broadcast use extents;

    let per = w.c_in as int / w.groups as int;
    let k = w.kernel as int;
    let c = w.c_out as int;
    let st = w.stride as int;
    assert(per >= 1) by (nonlinear_arith)
        requires
            per * w.groups == w.c_in,
            w.c_in >= 1,
            w.groups >= 1,
    ;
    products(c, per, k, k, 1, 1);
    constant_has(w.conv_w@, seq![c, per, k, k]);
    let kernel = Tensor::constant(w.conv_w@, seq![c, per, k, k]);
    odd_windows(h, k, st);
    odd_windows(wd, k, st);
    conv2d_has(x, kernel, st, k / 2, w.groups as int);
    let y0 = x.conv2d(kernel, st, k / 2, w.groups as int);
    per_channel_has(w.conv_b@, y0);
    broadcast_add_under(y0, channel_bias(w.conv_b@, c));
    let y = y0.broadcast_add(channel_bias(w.conv_b@, c));
    let oh = shrunk(h, st);
    let ow = shrunk(wd, st);
    assert(has(y, seq![b, c, oh, ow]));
    if let Some(se) = w.se {
        let sq = se.squeeze as int;
        let m = y.mean_keepdim(2).mean_keepdim(3);
        assert(m.dims =~= seq![b, c, 1, 1]);
        assert(c * sq == sq * c) by (nonlinear_arith);
        se_conv_has(m, se.fc1_w@, se.fc1_b@, c, sq, b);
        let g = se_conv(m, se.fc1_w@, se.fc1_b@, c, sq).relu();
        se_conv_has(g, se.fc2_w@, se.fc2_b@, sq, c, b);
        let z = se_conv(g, se.fc2_w@, se.fc2_b@, sq, c).sigmoid();
        assert(lies_under(z.dims, y.dims));
        broadcast_mul_under(y, z);
    }
}

/// On layers that fit together the first `n` succeed.
pub proof fn layers_succeed(
    layers: Seq<MobileOneLayerWeights>,
    n: int,
    x: Tensor,
    b: int,
    c: int,
    h: int,
    w: int,
)
    requires
        chained(layers, c),
        0 <= n <= layers.len(),
        has(x, seq![b, c, h, w]),
        1 <= h,
        1 <= w,
        h + 3 <= usize::MAX,
        w + 3 <= usize::MAX,
    ensures
        has(
            layers_value(layers, n, x),
            seq![b, channels_after(layers, n, c), side_after(layers, n, h), side_after(layers, n, w)],
        ),
        1 <= side_after(layers, n, h) <= h,
        1 <= side_after(layers, n, w) <= w,
    decreases n,
{
    if n > 0 {
        layers_succeed(layers, n - 1, x, b, c, h, w);
        assert(follows(layers, n - 1, c));
        layer_succeeds(
            &layers[n - 1],
            layers_value(layers, n - 1, x),
            b,
            side_after(layers, n - 1, h),
            side_after(layers, n - 1, w),
        );
    }
}

/// Whether a linear head maps `c` features to `n` logits.
pub open spec fn head_sized(w: Seq<Scalar>, b: Seq<Scalar>, c: int, n: int) -> bool {
    &&& c >= 1
    &&& 1 <= n <= usize::MAX
    &&& c * n <= usize::MAX
    &&& w.len() == c * n
    &&& b.len() == n
}

proof fn head_has(pooled: Tensor, w: Seq<Scalar>, bias: Seq<Scalar>, c: int, n: int, b: int)
    requires
        head_sized(w, bias, c, n),
        has(pooled, seq![b, c]),
    ensures
        has(pooled.affine(w, bias, c, n), seq![b, n]),
{
    broadcast use extents;

}

impl MobileOneWeights {
    /// Channels that stage `s` reads; the stem comes before stage zero.
    pub open spec fn stage_in(&self, s: int) -> int
        decreases s,
    {
        if s <= 0 {
            self.stem.c_out as int
        } else {
            let l = self.stages@[s - 1]@;
            channels_after(l, l.len() as int, self.stage_in(s - 1))
        }
    }

    /// Positions along a side of `side` before stage `s`.
    pub open spec fn stage_side(&self, s: int, side: int) -> int
        decreases s,
    {
        if s <= 0 {
            shrunk(side, self.stem.stride as int)
        } else {
            let l = self.stages@[s - 1]@;
            side_after(l, l.len() as int, self.stage_side(s - 1, side))
        }
    }

    /// All layers fit together, and the head has the size that the configuration
    /// declares.
    pub open spec fn sized(&self, cfg: &MobileOneConfig) -> bool {
        &&& self.stem.sized()
        &&& self.stem.c_in == 3
        &&& forall|s: int| 0 <= s < 4 ==> chained((#[trigger] self.stages@[s])@, self.stage_in(s))
        &&& self.head matches Some((w, b)) ==> {
            &&& cfg.channels(4) == self.stage_in(4)
            &&& cfg.nclasses matches Some(n) && head_sized(w@, b@, self.stage_in(4), n as int)
        }
    }
}

proof fn stages_have(w: &MobileOneWeights, cfg: &MobileOneConfig, s: int, x: Tensor, b: int, h: int, wd: int)
    requires
        w.sized(cfg),
        0 <= s <= 4,
        has(x, seq![b, 3, h, wd]),
        1 <= h,
        1 <= wd,
        h + 3 <= usize::MAX,
        wd + 3 <= usize::MAX,
    ensures
        has(
            stages_value(w.stages@, s, w.stem.value(x)),
            seq![b, w.stage_in(s), w.stage_side(s, h), w.stage_side(s, wd)],
        ),
        1 <= w.stage_side(s, h) <= h,
        1 <= w.stage_side(s, wd) <= wd,
    decreases s,
{
    if s <= 0 {
        layer_succeeds(&w.stem, x, b, h, wd);
    } else {
        stages_have(w, cfg, s - 1, x, b, h, wd);
        let l = w.stages@[s - 1]@;
        assert(chained(l, w.stage_in(s - 1)));
        layers_succeed(
            l,
            l.len() as int,
            stages_value(w.stages@, s - 1, w.stem.value(x)),
            b,
            w.stage_in(s - 1),
            w.stage_side(s - 1, h),
            w.stage_side(s - 1, wd),
        );
    }
}

/// On layers that fit together a run over images `(b, 3, h, w)` succeeds: the
/// feature map has the channels of the last stage, and the result is one row of
/// logits for each image, or of features where there is no head.
pub proof fn forward_succeeds(model: &MobileOneModel, image: Tensor, b: int, h: int, w: int)
    requires
        model.weights.sized(&model.config),
        has(image, seq![b, 3, h, w]),
        1 <= h,
        1 <= w,
        h + 3 <= usize::MAX,
        w + 3 <= usize::MAX,
    ensures
        has(
            model.features(image),
            seq![
                b,
                model.weights.stage_in(4),
                model.weights.stage_side(4, h),
                model.weights.stage_side(4, w),
            ],
        ),
        has(
            model.value(image),
            seq![
                b,
                match model.weights.head {
                    None => model.weights.stage_in(4),
                    Some(_) => model.config.nclasses->Some_0 as int,
                },
            ],
        ),
{
    let c = model.weights.stage_in(4);
    stages_have(&model.weights, &model.config, 4, image, b, h, w);
    let map = model.features(image);
    pool_has(map);
    let pooled = map.global_avg_pool_2d();
    if let Some((head, bias)) = model.weights.head {
        let n = model.config.nclasses->Some_0 as int;
        head_has(pooled, head@, bias@, c, n, b);
    }
}



impl LayerSpec {
    /// Whether the elements of the layer can be counted.
    pub fn is_countable(&self) -> (r: bool)
        ensures
            r == self.countable(),
    {
        if self.groups == 0 {
            return false;
        }
        let per: usize = self.c_in / self.groups;
        let squeeze: usize = if self.c_out < 32 { 1 } else { self.c_out / 16 };
        if self.c_out.checked_mul(per).is_none() || squeeze.checked_mul(self.c_out).is_none() {
            return false;
        }
        let next: usize = match per.checked_add(1) {
            None => return false,
            Some(n) => n,
        };
        let cells: usize = match self.kernel.checked_mul(self.kernel) {
            None => return false,
            Some(n) => n,
        };
        let per_out: usize = match per.checked_mul(cells) {
            None => return false,
            Some(n) => n,
        };
        let len: usize = match self.c_out.checked_mul(per_out) {
            None => return false,
            Some(n) => n,
        };
        if !self.has_identity {
            return true;
        }
        if self.kernel > 1 {
            match self.c_in.checked_mul(cells) {
                None => false,
                Some(n) => n <= len,
            }
        } else {
            assert(self.c_in * next <= 0xFFFF_FFFF_FFFF_FFFF * 0xFFFF_FFFF_FFFF_FFFF) by (nonlinear_arith)
                requires
                    0 <= self.c_in <= 0xFFFF_FFFF_FFFF_FFFF,
                    0 <= next <= 0xFFFF_FFFF_FFFF_FFFF,
            ;
            let places: u128 = self.c_in as u128 * next as u128;
            places <= len as u128 + per as u128
        }
    }
}

impl MobileOneConfig {
    /// Whether the stored tensors can be counted.
    pub fn is_loadable(&self) -> (r: bool)
        ensures
            r == self.loadable(),
    {
        let stem = LayerSpec {
            has_identity: false,
            c_in: 3,
            c_out: self.channels_at(0),
            kernel: 3,
            stride: 2,
            groups: 1,
            k: 1,
            has_se: self.has_se(),
        };
        if !stem.is_countable() {
            return false;
        }
        if let Some(n) = self.nclasses {
            if n.checked_mul(self.channels_at(4)).is_none() {
                return false;
            }
        }
        let mut s: usize = 1;
        while s <= 4
            invariant
                1 <= s <= 5,
                self.stem_spec().countable(),
                self.nclasses matches Some(n) ==> n * self.channels(4) <= usize::MAX,
                forall|t: int, i: int|
                    1 <= t < s && 0 <= i < 2 * stage_blocks(t) ==> (#[trigger] self.layer_spec(
                        t,
                        i,
                    )).countable(),
            decreases 5 - s,
        {
            let n: usize = match s {
                1 => 4,
                2 => 16,
                3 => 20,
                _ => 2,
            };
            let mut i: usize = 0;
            while i < n
                invariant
                    1 <= s <= 4,
                    i <= n,
                    n == 2 * stage_blocks(s as int),
                    forall|j: int|
                        0 <= j < i ==> (#[trigger] self.layer_spec(s as int, j)).countable(),
                decreases n - i,
            {
                if !self.build_layer_spec(s, i).is_countable() {
                    assert(!self.layer_spec(s as int, i as int).countable());
                    return false;
                }
                i = i + 1;
            }
            s = s + 1;
        }
        true
    }
}

/// Sums of branches keep the number of elements.
proof fn main_lengths(spec: LayerSpec, st: &Checkpoint, p: Seq<char>, n: int)
    requires
        spec.len() >= 0,
    ensures
        spec.main_w(st, p, n).len() == spec.len(),
        spec.main_b(st, p, n).len() == spec.c_out,
    decreases n,
{
    if n > 0 {
        main_lengths(spec, st, p, n - 1);
    }
}

/// A loaded layer has the sizes that it declares.
proof fn loaded_layer_is_sized(spec: LayerSpec, st: &Checkpoint, p: Seq<char>, w: &MobileOneLayerWeights)
    requires
        spec.countable(),
        spec.need(st, None, p) is None,
        spec.loaded(st, p, w),
        spec.kernel == 1 || spec.kernel == 3,
        spec.stride >= 1,
        spec.c_in >= 1,
        spec.c_out >= 1,
        spec.per_group() * spec.groups == spec.c_in,
        spec.c_out % spec.groups == 0,
    ensures
        w.sized(),
{
    let c = spec.c_out as int;
    let per = spec.per_group();
    let k = spec.kernel as int;
    assert(per >= 0 && spec.len() >= 0 && spec.len() == c * per * k * k) by (nonlinear_arith)
        requires
            per * spec.groups == spec.c_in,
            spec.c_in >= 1,
            spec.groups >= 1,
            c >= 1,
            k >= 1,
            spec.len() == c * (per * (k * k)),
    ;
    main_lengths(spec, st, p, spec.k as int);
    if let Some(se) = w.se {
        let s = spec.squeeze();
        assert(c * s == s * c) by (nonlinear_arith);
    }
}

/// A layer of a stage that loads could be loaded on its own.
proof fn stage_is_there(st: &Checkpoint, cfg: &MobileOneConfig, e: Option<Fault>, stage: int, n: int, i: int)
    requires
        stage_need(st, cfg, e, stage, n) is None,
        0 <= i < n,
    ensures
        cfg.layer_spec(stage, i).need(st, None, layer_prefix(stage, i)) is None,
    decreases n,
{
    layer_need_keeps(
        cfg.layer_spec(stage, n - 1),
        st,
        stage_need(st, cfg, e, stage, n - 1),
        layer_prefix(stage, n - 1),
    );
    if i < n - 1 {
        stage_is_there(st, cfg, e, stage, n - 1, i);
    }
}

/// The layers of a loaded stage fit together.
#[verifier::spinoff_prover]
proof fn loaded_stage_is_chained(
    st: &Checkpoint,
    cfg: &MobileOneConfig,
    e: Option<Fault>,
    stage: int,
    layers: Seq<MobileOneLayerWeights>,
)
    requires
        cfg.loadable(),
        1 <= stage <= 4,
        stage_need(st, cfg, e, stage, 2 * stage_blocks(stage)) is None,
        stage_loaded(st, cfg, stage, layers),
        1 <= cfg.channels(stage - 1) <= usize::MAX,
        1 <= cfg.channels(stage) <= usize::MAX,
    ensures
        chained(layers, cfg.channels(stage - 1)),
        channels_after(layers, layers.len() as int, cfg.channels(stage - 1)) == cfg.channels(stage),
{
    let c = cfg.channels(stage - 1);
    let n = 2 * stage_blocks(stage);
    assert forall|i: int| 0 <= i < layers.len() implies #[trigger] follows(layers, i, c) by {
        let spec = cfg.layer_spec(stage, i);
        assert(spec.loaded(st, layer_prefix(stage, i), &layers[i]));
        assert(spec.countable());
        stage_is_there(st, cfg, e, stage, n, i);
        let ci = cfg.layer_in(stage, i);
        vstd::arithmetic::div_mod::lemma_fundamental_div_mod_converse(ci, ci, 1, 0);
        assert(ci / 1 == ci && ci % 1 == 0 && cfg.channels(stage) % 1 == 0);
        assert(spec.c_in == ci);
        if i % 2 == 0 {
            assert(spec.groups == ci && spec.per_group() == 1);
            assert(1 * ci == ci);
        } else {
            assert(spec.groups == 1 && spec.per_group() == ci);
            assert(ci * 1 == ci);
        }
        assert(spec.per_group() * spec.groups == spec.c_in);
        loaded_layer_is_sized(spec, st, layer_prefix(stage, i), &layers[i]);
        if i > 0 {
            let before = cfg.layer_spec(stage, i - 1);
            assert(before.loaded(st, layer_prefix(stage, i - 1), &layers[i - 1]));
        }
    }
    let last = cfg.layer_spec(stage, n - 1);
    assert(last.loaded(st, layer_prefix(stage, n - 1), &layers[n - 1]));
}

/// Weights that were loaded fit together, so that a run over them succeeds.
pub proof fn loaded_weights_are_sized(w: &MobileOneWeights, st: &Checkpoint, cfg: &MobileOneConfig)
    requires
        cfg.loadable(),
        MobileOneWeights::load_failure(st, cfg) is None,
        w.loaded(st, cfg),
        forall|s: int| 0 <= s <= 4 ==> 1 <= #[trigger] cfg.channels(s) <= usize::MAX,
        cfg.nclasses matches Some(n) ==> n >= 1,
    ensures
        w.sized(cfg),
        w.stage_in(4) == cfg.channels(4),
{
    let e0 = cfg.stem_spec().need(st, None, "stem"@);
    let e1 = stage_need(st, cfg, e0, 1, 4);
    let e2 = stage_need(st, cfg, e1, 2, 16);
    let e3 = stage_need(st, cfg, e2, 3, 20);
    stage_need_keeps(st, cfg, e3, 4, 2);
    stage_need_keeps(st, cfg, e2, 3, 20);
    stage_need_keeps(st, cfg, e1, 2, 16);
    stage_need_keeps(st, cfg, e0, 1, 4);
    assert(1 <= cfg.channels(0) <= usize::MAX);
    assert(1 <= cfg.channels(1) <= usize::MAX);
    assert(1 <= cfg.channels(2) <= usize::MAX);
    assert(1 <= cfg.channels(3) <= usize::MAX);
    assert(1 <= cfg.channels(4) <= usize::MAX);
    loaded_layer_is_sized(cfg.stem_spec(), st, "stem"@, &w.stem);
    loaded_stage_is_chained(st, cfg, e0, 1, w.stages@[0]@);
    loaded_stage_is_chained(st, cfg, e1, 2, w.stages@[1]@);
    loaded_stage_is_chained(st, cfg, e2, 3, w.stages@[2]@);
    loaded_stage_is_chained(st, cfg, e3, 4, w.stages@[3]@);
    reveal_with_fuel(MobileOneWeights::stage_in, 6);
    assert(w.stage_in(0) == cfg.channels(0));
    assert(w.stage_in(1) == cfg.channels(1));
    assert(w.stage_in(2) == cfg.channels(2));
    assert(w.stage_in(3) == cfg.channels(3));
    assert(w.stage_in(4) == cfg.channels(4));
    assert forall|s: int| 0 <= s < 4 implies chained((#[trigger] w.stages@[s])@, w.stage_in(s)) by {
        if s == 0 {
        } else if s == 1 {
        } else if s == 2 {
        } else {
        }
    }
    if let Some(n) = cfg.nclasses {
        let c = w.stage_in(4);
        assert(n * c == c * n && c * n >= 0) by (nonlinear_arith)
            requires
                c >= 1,
                n >= 0,
        ;
    }
}

} // verus!
