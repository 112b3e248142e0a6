//! Per-node animation overrides: independently settable translation,
//! rotation, and scale, composed into a single matrix.

use vstd::prelude::*;

verus! {

use crate::fixed::VAL_LIMIT;
use crate::mat4::{
    mat_identity, mat_mul, mat_rotation, mat_scaling, mat_translation, Mat4,
};

/// A 3-component fixed-point vector.
#[derive(Clone, Copy, Debug, PartialEq, Eq)]
pub struct Vec3 {
    pub x: i64,
    pub y: i64,
    pub z: i64,
}

/// A quaternion with components in `(x, y, z, w)` order, `w` the scalar part.
#[derive(Clone, Copy, Debug, PartialEq, Eq)]
pub struct Quat {
    pub x: i64,
    pub y: i64,
    pub z: i64,
    pub w: i64,
}

/// The transient transform override a sampled animation writes into a node.
/// Absent components contribute the identity.
#[derive(Clone, Copy, Debug, PartialEq, Eq)]
pub struct Transform {
    pub translation: Option<Vec3>,
    pub rotation: Option<Quat>,
    pub scale: Option<Vec3>,
}

/// All components of a vector stay within the admissible value range.
pub open spec fn vec3_wf(v: Vec3) -> bool {
    &&& -VAL_LIMIT <= v.x <= VAL_LIMIT
    &&& -VAL_LIMIT <= v.y <= VAL_LIMIT
    &&& -VAL_LIMIT <= v.z <= VAL_LIMIT
}

/// All components of a quaternion stay within the admissible value range.
pub open spec fn quat_wf(q: Quat) -> bool {
    &&& -VAL_LIMIT <= q.x <= VAL_LIMIT
    &&& -VAL_LIMIT <= q.y <= VAL_LIMIT
    &&& -VAL_LIMIT <= q.z <= VAL_LIMIT
    &&& -VAL_LIMIT <= q.w <= VAL_LIMIT
}

/// Every component that is set stays within the admissible value range.
pub open spec fn transform_wf(t: Transform) -> bool {
    &&& (t.translation matches Some(v) ==> vec3_wf(v))
    &&& (t.rotation matches Some(q) ==> quat_wf(q))
    &&& (t.scale matches Some(v) ==> vec3_wf(v))
}

/// The matrix of an override: translation, then rotation, then scale, each
/// multiplied on the right in that order, skipping absent components.
pub open spec fn override_matrix(t: Transform) -> Seq<int> {
    let m0 = mat_identity();
    let m1 = if t.translation is Some {
        let v = t.translation->0;
        mat_mul(m0, mat_translation(v.x as int, v.y as int, v.z as int))
    } else {
        m0
    };
    let m2 = if t.rotation is Some {
        let q = t.rotation->0;
        mat_mul(m1, mat_rotation(q.x as int, q.y as int, q.z as int, q.w as int))
    } else {
        m1
    };
    if t.scale is Some {
        let v = t.scale->0;
        mat_mul(m2, mat_scaling(v.x as int, v.y as int, v.z as int))
    } else {
        m2
    }
}

impl Transform {
    /// The override with no component set: the identity contribution.
    pub fn unset() -> (r: Transform)
        ensures
            r.translation is None,
            r.rotation is None,
            r.scale is None,
            transform_wf(r),
            override_matrix(r) == mat_identity(),
    {
        Transform { translation: None, rotation: None, scale: None }
    }

    /// Compose the set components into a single matrix. An override with
    /// only a translation composes to exactly that translation matrix.
    pub fn matrix(&self) -> (r: Mat4)
        requires
            transform_wf(*self),
        ensures
            r@ == override_matrix(*self),
            r.wf(),
            (self.translation is Some && self.rotation is None && self.scale is None) ==> r@
                == mat_translation(
                self.translation->0.x as int,
                self.translation->0.y as int,
                self.translation->0.z as int,
            ),
    {
        proof {
            if self.translation is Some && self.rotation is None && self.scale is None {
                let v = self.translation->0;
                crate::mat4::lemma_mat_mul_identity_left(
                    mat_translation(v.x as int, v.y as int, v.z as int),
                );
            }
        }
        let mut matrix = Mat4::identity();
        if let Some(translation) = self.translation {
            let t = Mat4::translation(translation.x, translation.y, translation.z);
            matrix = matrix.mul(&t);
        }
        if let Some(rotation) = self.rotation {
            let q = Mat4::rotation(rotation.x, rotation.y, rotation.z, rotation.w);
            matrix = matrix.mul(&q);
        }
        if let Some(scale) = self.scale {
            let s = Mat4::scaling(scale.x, scale.y, scale.z);
            matrix = matrix.mul(&s);
        }
        matrix
    }
}

} // verus!
