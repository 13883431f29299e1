//! The placement of an instance, and its record for the device.

use vstd::prelude::*;
use crate::transform::{Factor, Matrix4, Quaternion, Transform, Vector3, ONE};

verus! {

/// One placement of a model: where it stands, how it is turned, how large it is.
#[derive(Clone, Copy, Debug, PartialEq, Eq, Structural)]
pub struct Instance {
    pub position: Vector3,
    pub rotation: Quaternion,
    pub scale: u32,
}

/// A placement as the device reads it: the model matrix and its inverse.
#[derive(Clone, Copy, Debug, PartialEq, Eq, Structural)]
pub struct InstanceRaw {
    pub model: Matrix4,
    pub inverse_model: Matrix4,
}

/// What `eval` may return for a transform with the given factors.
pub open spec fn evaluates<F: Fn(&Transform) -> InstanceRaw>(
    eval: &F,
    factors: Seq<Factor>,
    raw: InstanceRaw,
) -> bool {
    exists|t: Transform| #[trigger] t@ == factors && call_ensures(*eval, (&t,), raw)
}

/// `eval` accepts every transform.
pub open spec fn evaluator<F: Fn(&Transform) -> InstanceRaw>(eval: &F) -> bool {
    forall|t: Transform| #[trigger] call_requires(*eval, (&t,))
}

impl Instance {
    /// The factors of the model matrix, in the order in which they are
    /// multiplied: translation, then rotation, then scale.
    pub open spec fn factors(self) -> Seq<Factor> {
        seq![
            Factor::Translation(self.position),
            Factor::Rotation(self.rotation),
            Factor::Scale(self.scale),
        ]
    }

    /// The placement at the origin, not turned, of scale one.
    pub open spec fn spec_default() -> Instance {
        Instance {
            position: Vector3::spec_zero(),
            rotation: Quaternion::spec_identity(),
            scale: ONE,
        }
    }

    /// The model matrix as a product of its factors.
    pub fn transform(&self) -> (r: Transform)
        ensures
            r@ == self.factors(),
    {
        let mut factors: Vec<Factor> = Vec::new();
        factors.push(Factor::Translation(self.position));
        factors.push(Factor::Rotation(self.rotation));
        factors.push(Factor::Scale(self.scale));
        proof {
            assert(factors@ =~= self.factors());
        }
        Transform { factors }
    }

    /// The record for the device: `eval` multiplies the model matrix out and
    /// inverts it.
    pub fn to_raw<F: Fn(&Transform) -> InstanceRaw>(&self, eval: &F) -> (r: InstanceRaw)
        requires
            evaluator(eval),
        ensures
            evaluates(eval, self.factors(), r),
    {
        let t = self.transform();
        eval(&t)
    }
}

impl Default for Instance {
    fn default() -> (r: Self)
        ensures
            r == Instance::spec_default(),
    {
        Instance { position: Vector3::zero(), rotation: Quaternion::identity(), scale: ONE }
    }
}

} // verus!
