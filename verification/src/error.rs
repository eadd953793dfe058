//! The reasons for which building a graph or loading weights can fail.

use vstd::prelude::*;

verus! {

/// Why a graph could not be built.
#[derive(Clone, Copy, Debug, PartialEq, Eq, Structural)]
pub enum Error {
    /// An operation met operands whose shapes it does not accept, or whose
    /// result would not be addressable.
    Shape,
    /// A chunk has another number of elements than its extents declare.
    ChunkLength { expected: usize, found: usize },
    /// A layer is declared with a channel count, kernel or stride of zero.
    ZeroExtent,
    /// Channels cannot be shared evenly among the groups.
    Groups,
    /// A kernel is shorter than its stride.
    KernelBelowStride,
    /// A kernel has another number of elements than its layer declares; a number
    /// that cannot be counted is not given.
    WeightLength { declared: Option<usize>, found: usize },
    /// A bias has another number of elements than its layer declares.
    BiasLength { expected: usize, found: usize },
    /// An input has another rank or channel count than its layer declares.
    InputShape,
    /// An empty sequence has no edge to repeat.
    EmptyPad,
    /// A weight vector has no usable length to divide by.
    WeightNorm,
    /// An attention block is declared with a stride other than one.
    BlockStride,
    /// A sequence of no tokens.
    EmptySequence,
    /// The heads do not fill the model width.
    HeadWidth,
    /// The key heads cannot share the query heads evenly.
    KeyHeads,
    /// A model is declared without any block.
    NoBlocks,
    /// A chunk is too short for the samples that overlap it.
    ChunkTooSmall,
    /// A quantizer is declared without any layer.
    NoLayers,
    /// The resampling stride of the weights is not that of the frame rates.
    StrideMismatch { expected: usize, found: usize },
}

/// A number of elements, where it can be counted.
pub open spec fn counted(n: int) -> Option<usize> {
    if 0 <= n <= usize::MAX {
        Some(n as usize)
    } else {
        None
    }
}

/// Why a checkpoint could not be loaded.
#[derive(Clone, Debug, PartialEq, Eq)]
pub enum LoadError {
    /// The checkpoint holds no tensor of this name.
    MissingTensor { name: String },
    /// The tensor of this name has another number of elements than expected.
    TensorLength { name: String, expected: usize, found: usize },
    /// No model can be built as it is declared.
    Model(Error),
}

/// What a [`LoadError`] says.
pub ghost enum Fault {
    MissingTensor { name: Seq<char> },
    TensorLength { name: Seq<char>, expected: int, found: int },
    Model(Error),
}

impl LoadError {
    pub open spec fn view(&self) -> Fault {
        match *self {
            LoadError::MissingTensor { name } => Fault::MissingTensor { name: name@ },
            LoadError::TensorLength { name, expected, found } => Fault::TensorLength {
                name: name@,
                expected: expected as int,
                found: found as int,
            },
            LoadError::Model(e) => Fault::Model(e),
        }
    }

    /// The same failure.
    pub fn copied(&self) -> (r: LoadError)
        ensures
            r@ == self@,
    {
        match self {
            LoadError::MissingTensor { name } => LoadError::MissingTensor { name: name.clone() },
            LoadError::TensorLength { name, expected, found } => LoadError::TensorLength {
                name: name.clone(),
                expected: *expected,
                found: *found,
            },
            LoadError::Model(e) => LoadError::Model(*e),
        }
    }
}

/// The first of two possible failures.
pub open spec fn first<E>(e: Option<E>, f: Option<E>) -> Option<E> {
    if e is Some {
        e
    } else {
        f
    }
}

} // verus!
