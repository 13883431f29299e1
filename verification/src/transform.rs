//! Scalars, vectors and transforms as the library carries them.

use vstd::prelude::*;

verus! {

/// Bit pattern of the scalar 0.
pub const ZERO: u32 = 0x0000_0000;

/// Bit pattern of the scalar 1.
pub const ONE: u32 = 0x3F80_0000;

/// Bit pattern of the scalar 0.75.
pub const THREE_QUARTERS: u32 = 0x3F40_0000;

/// Bit pattern of the scalar 2.
pub const TWO: u32 = 0x4000_0000;

/// Bit pattern of the scalar 5.
pub const FIVE: u32 = 0x40A0_0000;

/// Bit pattern of the scalar 10.
pub const TEN: u32 = 0x4120_0000;

/// Three scalars. A scalar is carried as its IEEE 754 binary32 bit pattern;
/// nothing in this crate does arithmetic on one.
#[derive(Clone, Copy, Debug, PartialEq, Eq, Structural)]
pub struct Vector3 {
    pub x: u32,
    pub y: u32,
    pub z: u32,
}

/// Four scalars: one column of a matrix.
#[derive(Clone, Copy, Debug, PartialEq, Eq, Structural)]
pub struct Vector4 {
    pub x: u32,
    pub y: u32,
    pub z: u32,
    pub w: u32,
}

/// A matrix of four columns.
#[derive(Clone, Copy, Debug, PartialEq, Eq, Structural)]
pub struct Matrix4 {
    pub x: Vector4,
    pub y: Vector4,
    pub z: Vector4,
    pub w: Vector4,
}

/// A quaternion: scalar part `s`, vector part `v`.
#[derive(Clone, Copy, Debug, PartialEq, Eq, Structural)]
pub struct Quaternion {
    pub s: u32,
    pub v: Vector3,
}

/// An elementary transform: one factor of a matrix product.
#[derive(Clone, Copy, Debug, PartialEq, Eq, Structural)]
pub enum Factor {
    Rotation(Quaternion),
    Translation(Vector3),
    Scale(u32),
}

/// A transform, held as the factors whose matrix product it is, leftmost
/// first. The empty product is the identity.
#[derive(Debug)]
pub struct Transform {
    pub factors: Vec<Factor>,
}

impl Vector3 {
    pub fn new(x: u32, y: u32, z: u32) -> (r: Self)
        ensures
            r == (Vector3 { x, y, z }),
    {
        Vector3 { x, y, z }
    }

    /// The zero vector.
    pub open spec fn spec_zero() -> Self {
        Vector3 { x: ZERO, y: ZERO, z: ZERO }
    }

    #[verifier::when_used_as_spec(spec_zero)]
    pub fn zero() -> (r: Self)
        ensures
            r == Self::spec_zero(),
    {
        Vector3 { x: ZERO, y: ZERO, z: ZERO }
    }
}

impl Quaternion {
    /// The rotation by no angle: scalar part one, vector part zero.
    pub open spec fn spec_identity() -> Self {
        Quaternion { s: ONE, v: Vector3::spec_zero() }
    }

    #[verifier::when_used_as_spec(spec_identity)]
    pub fn identity() -> (r: Self)
        ensures
            r == Self::spec_identity(),
    {
        Quaternion { s: ONE, v: Vector3::zero() }
    }
}

/// The factors of a local transform, in the order in which they are
/// multiplied: rotation, then translation, then scale.
pub open spec fn local_factors(rotation: Quaternion, position: Vector3, scale: u32) -> Seq<Factor> {
    seq![Factor::Rotation(rotation), Factor::Translation(position), Factor::Scale(scale)]
}

impl View for Transform {
    type V = Seq<Factor>;

    open spec fn view(&self) -> Seq<Factor> {
        self.factors@
    }
}

impl Transform {
    pub fn identity() -> (r: Self)
        ensures
            r@ == Seq::<Factor>::empty(),
    {
        Transform { factors: Vec::new() }
    }

    /// A transform with the same factors.
    pub fn duplicate(&self) -> (r: Self)
        ensures
            r@ == self@,
    {
        let mut factors: Vec<Factor> = Vec::new();
        let n: usize = self.factors.len();
        let mut i: usize = 0;
        while i < n
            invariant
                n == self.factors@.len(),
                i <= n,
                factors@ == self.factors@.subrange(0, i as int),
            decreases n - i,
        {
            factors.push(self.factors[i]);
            proof {
                assert(factors@ =~= self.factors@.subrange(0, i + 1));
            }
            i += 1;
        }
        proof {
            assert(factors@ =~= self@);
        }
        Transform { factors }
    }

    /// The product of `self` and the local transform of the three parts.
    pub fn then_local(&self, rotation: Quaternion, position: Vector3, scale: u32) -> (r: Self)
        ensures
            r@ == self@ + local_factors(rotation, position, scale),
    {
        let mut factors: Vec<Factor> = self.duplicate().factors;
        factors.push(Factor::Rotation(rotation));
        factors.push(Factor::Translation(position));
        factors.push(Factor::Scale(scale));
        proof {
            assert(factors@ =~= self@ + local_factors(rotation, position, scale));
        }
        Transform { factors }
    }

    /// The product of the local transform of the three parts alone.
    pub fn local(rotation: Quaternion, position: Vector3, scale: u32) -> (r: Self)
        ensures
            r@ == local_factors(rotation, position, scale),
    {
        let r = Transform::identity().then_local(rotation, position, scale);
        proof {
            assert(r@ =~= local_factors(rotation, position, scale));
        }
        r
    }
}

} // verus!
