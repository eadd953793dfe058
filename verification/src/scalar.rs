//! Symbolic floating-point scalars.
//!
//! A [`Scalar`] records how a number is computed, operation by operation and
//! with the precision of each step, instead of the rounded result. Two equal
//! scalars therefore evaluate to the same bits on every machine.

use std::sync::Arc;
use vstd::prelude::*;

verus! {

/// The precision in which one step of a computation is rounded.
#[derive(Clone, Copy, Debug, PartialEq, Eq, Structural)]
pub enum Precision {
    Single,
    Double,
}

/// Functions of one argument.
#[derive(Clone, Copy, Debug, PartialEq, Eq, Structural)]
pub enum UnaryFn {
    Neg,
    Sqrt,
    Exp,
    Ln,
    Sin,
    Cos,
}

/// Functions of two arguments.
#[derive(Clone, Copy, Debug, PartialEq, Eq, Structural)]
pub enum BinaryFn {
    Add,
    Sub,
    Mul,
    Div,
    Pow,
    Max,
}

/// A floating-point number, given by the computation that yields it.
#[derive(Debug)]
pub enum Scalar {
    /// The single-precision number with these bits.
    F32(u32),
    /// The double-precision number with these bits.
    F64(u64),
    /// An integer rounded to the given precision.
    Nat(Precision, usize),
    /// A number rounded to the given precision.
    Cast(Precision, Arc<Scalar>),
    /// A function of one argument, rounded to the given precision.
    Unary(Precision, UnaryFn, Arc<Scalar>),
    /// A function of two arguments, rounded to the given precision.
    Binary(Precision, BinaryFn, Arc<Scalar>, Arc<Scalar>),
    /// The second number where the first is greater than zero, else the third.
    IfPositive(Arc<Scalar>, Arc<Scalar>, Arc<Scalar>),
}

/// Shared, immutable tensor contents.
pub type Data = Arc<Vec<Scalar>>;

impl Clone for Scalar {
    fn clone(&self) -> (r: Self)
        ensures
            r == *self,
    {
        match self {
            Scalar::F32(b) => Scalar::F32(*b),
            Scalar::F64(b) => Scalar::F64(*b),
            Scalar::Nat(p, n) => Scalar::Nat(*p, *n),
            Scalar::Cast(p, a) => Scalar::Cast(*p, a.clone()),
            Scalar::Unary(p, f, a) => Scalar::Unary(*p, *f, a.clone()),
            Scalar::Binary(p, f, a, b) => Scalar::Binary(*p, *f, a.clone(), b.clone()),
            Scalar::IfPositive(c, a, b) => Scalar::IfPositive(c.clone(), a.clone(), b.clone()),
        }
    }
}

/// Single-precision zero.
pub open spec fn zero() -> Scalar {
    Scalar::F32(0)
}

/// Single-precision one.
pub open spec fn one() -> Scalar {
    Scalar::F32(0x3F80_0000)
}

/// Single-precision negative infinity.
pub open spec fn neg_inf() -> Scalar {
    Scalar::F32(0xFF80_0000)
}

pub open spec fn cast(p: Precision, a: Scalar) -> Scalar {
    Scalar::Cast(p, Arc::new(a))
}

pub open spec fn unary(p: Precision, f: UnaryFn, a: Scalar) -> Scalar {
    Scalar::Unary(p, f, Arc::new(a))
}

pub open spec fn binary(p: Precision, f: BinaryFn, a: Scalar, b: Scalar) -> Scalar {
    Scalar::Binary(p, f, Arc::new(a), Arc::new(b))
}

/// Sum, difference, product and quotient in single precision.
pub open spec fn add32(a: Scalar, b: Scalar) -> Scalar {
    binary(Precision::Single, BinaryFn::Add, a, b)
}

pub open spec fn sub32(a: Scalar, b: Scalar) -> Scalar {
    binary(Precision::Single, BinaryFn::Sub, a, b)
}

pub open spec fn mul32(a: Scalar, b: Scalar) -> Scalar {
    binary(Precision::Single, BinaryFn::Mul, a, b)
}

pub open spec fn div32(a: Scalar, b: Scalar) -> Scalar {
    binary(Precision::Single, BinaryFn::Div, a, b)
}

pub open spec fn pow32(a: Scalar, b: Scalar) -> Scalar {
    binary(Precision::Single, BinaryFn::Pow, a, b)
}

pub open spec fn sqrt32(a: Scalar) -> Scalar {
    unary(Precision::Single, UnaryFn::Sqrt, a)
}

pub open spec fn add64(a: Scalar, b: Scalar) -> Scalar {
    binary(Precision::Double, BinaryFn::Add, a, b)
}

pub open spec fn mul64(a: Scalar, b: Scalar) -> Scalar {
    binary(Precision::Double, BinaryFn::Mul, a, b)
}

pub open spec fn div64(a: Scalar, b: Scalar) -> Scalar {
    binary(Precision::Double, BinaryFn::Div, a, b)
}

pub open spec fn pow64(a: Scalar, b: Scalar) -> Scalar {
    binary(Precision::Double, BinaryFn::Pow, a, b)
}

pub open spec fn sqrt64(a: Scalar) -> Scalar {
    unary(Precision::Double, UnaryFn::Sqrt, a)
}

/// Double-precision one.
pub open spec fn one64() -> Scalar {
    Scalar::F64(0x3FF0_0000_0000_0000)
}

/// The attention scale `1 / sqrt(n)` in double precision.
pub open spec fn inv_sqrt64(n: usize) -> Scalar {
    div64(one64(), sqrt64(Scalar::Nat(Precision::Double, n)))
}

/// `n` copies of one scalar.
pub open spec fn filled(s: Scalar, n: int) -> Seq<Scalar> {
    Seq::new(n as nat, |i: int| s)
}

impl Scalar {
    /// Rounds to the given precision.
    pub fn cast(self, p: Precision) -> (r: Scalar)
        ensures
            r == cast(p, self),
    {
        Scalar::Cast(p, Arc::new(self))
    }

    /// Applies a function of one argument.
    pub fn unary(self, p: Precision, f: UnaryFn) -> (r: Scalar)
        ensures
            r == unary(p, f, self),
    {
        Scalar::Unary(p, f, Arc::new(self))
    }

    /// Applies a function of two arguments.
    pub fn binary(self, p: Precision, f: BinaryFn, other: Scalar) -> (r: Scalar)
        ensures
            r == binary(p, f, self, other),
    {
        Scalar::Binary(p, f, Arc::new(self), Arc::new(other))
    }

    pub fn add32(self, other: Scalar) -> (r: Scalar)
        ensures
            r == add32(self, other),
    {
        self.binary(Precision::Single, BinaryFn::Add, other)
    }

    pub fn sub32(self, other: Scalar) -> (r: Scalar)
        ensures
            r == sub32(self, other),
    {
        self.binary(Precision::Single, BinaryFn::Sub, other)
    }

    pub fn mul32(self, other: Scalar) -> (r: Scalar)
        ensures
            r == mul32(self, other),
    {
        self.binary(Precision::Single, BinaryFn::Mul, other)
    }

    pub fn div32(self, other: Scalar) -> (r: Scalar)
        ensures
            r == div32(self, other),
    {
        self.binary(Precision::Single, BinaryFn::Div, other)
    }

    pub fn pow32(self, other: Scalar) -> (r: Scalar)
        ensures
            r == pow32(self, other),
    {
        self.binary(Precision::Single, BinaryFn::Pow, other)
    }

    pub fn sqrt32(self) -> (r: Scalar)
        ensures
            r == sqrt32(self),
    {
        self.unary(Precision::Single, UnaryFn::Sqrt)
    }

    pub fn add64(self, other: Scalar) -> (r: Scalar)
        ensures
            r == add64(self, other),
    {
        self.binary(Precision::Double, BinaryFn::Add, other)
    }

    pub fn mul64(self, other: Scalar) -> (r: Scalar)
        ensures
            r == mul64(self, other),
    {
        self.binary(Precision::Double, BinaryFn::Mul, other)
    }

    pub fn div64(self, other: Scalar) -> (r: Scalar)
        ensures
            r == div64(self, other),
    {
        self.binary(Precision::Double, BinaryFn::Div, other)
    }

    pub fn pow64(self, other: Scalar) -> (r: Scalar)
        ensures
            r == pow64(self, other),
    {
        self.binary(Precision::Double, BinaryFn::Pow, other)
    }

    pub fn sqrt64(self) -> (r: Scalar)
        ensures
            r == sqrt64(self),
    {
        self.unary(Precision::Double, UnaryFn::Sqrt)
    }

    /// Single-precision product with a shared scalar.
    pub fn mul32_shared(self, other: &Arc<Scalar>) -> (r: Scalar)
        ensures
            r == mul32(self, **other),
    {
        Scalar::Binary(Precision::Single, BinaryFn::Mul, Arc::new(self), other.clone())
    }

    /// The attention scale `1 / sqrt(n)`.
    pub fn inv_sqrt64(n: usize) -> (r: Scalar)
        ensures
            r == inv_sqrt64(n),
    {
        Scalar::F64(0x3FF0_0000_0000_0000).div64(Scalar::Nat(Precision::Double, n).sqrt64())
    }
}

/// A tensor body of `n` equal elements.
pub fn fill(s: &Scalar, n: usize) -> (r: Vec<Scalar>)
    ensures
        r@ == filled(*s, n as int),
{
    let mut v: Vec<Scalar> = Vec::new();
    let mut i: usize = 0;
    while i < n
        invariant
            i <= n,
            v@.len() == i,
            forall|j: int| 0 <= j < i ==> v@[j] == *s,
        decreases n - i,
    {
        v.push(s.clone());
        i = i + 1;
    }
    assert(v@ =~= filled(*s, n as int));
    v
}

} // verus!
