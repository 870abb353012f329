//! The body's frame of reference: where the body is and which way it faces.

use crate::arith::{div_floor, lemma_div_between};
use crate::vec3::{lemma_product_bound, Vector3, COORD_MAX, DIR_MAX, UNIT, V3};
use vstd::prelude::*;

verus! {

/// Position and orientation of a body in the world. The three axes are
/// directions of length [`UNIT`].
#[derive(Copy, Clone, PartialEq, Eq, Structural, Debug)]
pub struct BodyFrame {
    pub origin: Vector3,
    pub right: Vector3,
    pub up: Vector3,
    pub forward: Vector3,
}

impl BodyFrame {
    /// The origin is a supported position and the axes are supported
    /// directions.
    pub open spec fn wf(self) -> bool {
        &&& self.origin.in_range()
        &&& self.right.is_direction()
        &&& self.up.is_direction()
        &&& self.forward.is_direction()
    }

    /// Tells whether the frame is well-formed.
    pub fn is_wf(&self) -> (b: bool)
        ensures
            b == self.wf(),
    {
        self.origin.is_in_range() && self.right.is_in_direction_range()
            && self.up.is_in_direction_range() && self.forward.is_in_direction_range()
    }

    /// The displacement in the world that the body-relative displacement
    /// `local` stands for. The body looks along its negative third axis.
    pub open spec fn rotated(self, local: V3) -> V3 {
        self.right@.times(local.x).plus(self.up@.times(local.y)).minus(
            self.forward@.times(local.z),
        ).over(UNIT as int)
    }

    /// The point of the world that the body-relative point `local` stands
    /// for.
    pub open spec fn applied(self, local: V3) -> V3 {
        self.origin@.plus(self.rotated(local))
    }

    /// The supported position that the body-relative point `local` stands
    /// for. There is none where the frame is not well-formed or the point
    /// lies outside the supported range.
    pub open spec fn carried(self, local: V3) -> Option<Vector3> {
        if self.wf() && self.applied(local).within(COORD_MAX as int) {
            Some(self.applied(local).narrowed())
        } else {
            None
        }
    }

    /// Computes [`BodyFrame::carried`].
    pub fn transform_point(&self, local: &Vector3) -> (r: Option<Vector3>)
        ensures
            r == self.carried(local@),
            r is Some ==> r->0.in_range() && r->0@ == self.applied(local@),
    {
        if !self.is_wf() {
            return None;
        }
        let x: i128 = axis_sum(self.right.x, self.up.x, self.forward.x, local);
        let y: i128 = axis_sum(self.right.y, self.up.y, self.forward.y, local);
        let z: i128 = axis_sum(self.right.z, self.up.z, self.forward.z, local);
        Vector3::from_wide(self.origin.x as i128 + x, self.origin.y as i128 + y, self.origin.z as i128 + z)
    }
}

/// One coordinate of a rotated displacement.
fn axis_sum(right: i64, up: i64, forward: i64, local: &Vector3) -> (r: i128)
    requires
        -DIR_MAX <= right <= DIR_MAX,
        -DIR_MAX <= up <= DIR_MAX,
        -DIR_MAX <= forward <= DIR_MAX,
    ensures
        r == (right * local.x + up * local.y - forward * local.z) / (UNIT as int),
        -0x4_0000_0000_0000_0000 <= r <= 0x4_0000_0000_0000_0000,
{
    proof {
        let m = 0x8000_0000_0000_0000int;
        lemma_product_bound(right as int, local.x as int, DIR_MAX as int, m);
        lemma_product_bound(up as int, local.y as int, DIR_MAX as int, m);
        lemma_product_bound(forward as int, local.z as int, DIR_MAX as int, m);
    }
    let a: i128 = (right as i128) * (local.x as i128);
    let b: i128 = (up as i128) * (local.y as i128);
    let c: i128 = (forward as i128) * (local.z as i128);
    proof {
        lemma_div_between(
            (a + b - c) as int,
            UNIT as int,
            -0x4_0000_0000_0000_0000,
            0x4_0000_0000_0000_0000,
        );
    }
    div_floor(a + b - c, UNIT as i128)
}

} // verus!
