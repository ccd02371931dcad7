//! Points and parameter-space coordinates. The library only carries them
//! from input to output; all arithmetic on them happens outside it.
use vstd::prelude::*;

verus! {

/// A point in 3D space (`glam::Vec3`), carried through unchanged.
#[verifier::external_type_specification]
#[verifier::external_body]
pub struct ExVec3(glam::Vec3);

/// A point of the (u, v) parameter plane (`glam::Vec2`), carried through unchanged.
#[verifier::external_type_specification]
#[verifier::external_body]
pub struct ExVec2(glam::Vec2);

/// `<glam::Vec3 as Clone>::clone`: `Vec3` is a plain `Copy` value, so its
/// clone is the value itself.
pub assume_specification[ <glam::Vec3 as Clone>::clone ](v: &glam::Vec3) -> (r: glam::Vec3)
    ensures
        r == *v,
;

/// `<glam::Vec2 as Clone>::clone`: `Vec2` is a plain `Copy` value, so its
/// clone is the value itself.
pub assume_specification[ <glam::Vec2 as Clone>::clone ](v: &glam::Vec2) -> (r: glam::Vec2)
    ensures
        r == *v,
;

/// `glam::Vec2::ZERO`, the parameter-space origin given to vertices whose
/// coordinates the input leaves out. Nothing is claimed of the value.
#[verifier::external_body]
pub(crate) fn uv_origin() -> glam::Vec2 {
    glam::Vec2::ZERO
}

} // verus!
