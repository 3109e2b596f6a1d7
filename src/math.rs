//! The vector types of `ultraviolet`, carried through the library as opaque
//! values.
use ultraviolet::{Vec2, Vec3};
use vstd::prelude::*;

verus! {

#[verifier::external_type_specification]
#[verifier::external_body]
pub struct ExVec3(Vec3);

#[verifier::external_type_specification]
#[verifier::external_body]
pub struct ExVec2(Vec2);

/// What `a + b` gives on two vectors of `ultraviolet`.
pub uninterp spec fn vec3_sum(a: Vec3, b: Vec3) -> Vec3;

/// Relies on `ultraviolet`'s `Vec3 + Vec3`: componentwise addition, whose
/// result depends on the two vectors alone.
#[verifier::external_body]
pub(crate) fn add_vec3(a: Vec3, b: Vec3) -> (r: Vec3)
    ensures
        r == vec3_sum(a, b),
{
    a + b
}

/// Relies on `ultraviolet`'s `Vec2::zero`.
#[verifier::external_body]
pub(crate) fn vec2_zero() -> Vec2 {
    Vec2::zero()
}

/// Relies on `ultraviolet`'s `Vec2::unit_x`.
#[verifier::external_body]
pub(crate) fn vec2_unit_x() -> Vec2 {
    Vec2::unit_x()
}

/// Relies on `ultraviolet`'s `Vec2::unit_y`.
#[verifier::external_body]
pub(crate) fn vec2_unit_y() -> Vec2 {
    Vec2::unit_y()
}

} // verus!
