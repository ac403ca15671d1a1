//! Vectors, rotations and matrices.
//!
//! The numeric types come from `glam`. Their arithmetic is not verified here:
//! every item in this file is trusted, and states what `glam` does in terms of
//! the IEEE-754 single-precision bit patterns of the components. Every
//! not-a-number counts as the one pattern `0x7fc0_0000`, so that a pattern
//! says no more of such a component than that it is not a number.

use vstd::prelude::*;

verus! {

/// `glam::Vec3`, a vector of three numbers, taken as it is: the library
/// carries such values and never looks into them.
#[verifier::external_type_specification]
#[verifier::external_body]
pub struct ExVec3(glam::Vec3);

/// `glam::Quat`, a rotation as a quaternion of four numbers, taken as it is.
#[verifier::external_type_specification]
#[verifier::external_body]
pub struct ExQuat(glam::Quat);

/// `glam::Mat4`, a matrix of four columns of four numbers, taken as it is.
#[verifier::external_type_specification]
#[verifier::external_body]
pub struct ExMat4(glam::Mat4);

/// The bit patterns of the components `x`, `y`, `z` of a vector, in that order.
pub uninterp spec fn vec3_bits(v: glam::Vec3) -> Seq<u32>;

/// The bit patterns of the components `x`, `y`, `z`, `w` of a quaternion, in
/// that order.
pub uninterp spec fn quat_bits(q: glam::Quat) -> Seq<u32>;

/// The bit patterns of the sixteen entries of a matrix, column by column.
pub uninterp spec fn mat4_bits(m: glam::Mat4) -> Seq<u32>;

/// The entries of the product `a * b` as `glam::Mat4::mul_mat4` computes it,
/// from the entries of `a` and `b`.
pub uninterp spec fn mat4_product(a: Seq<u32>, b: Seq<u32>) -> Seq<u32>;

/// The entries of the affine matrix that
/// `glam::Mat4::from_scale_rotation_translation` builds, from the components of
/// the scale, the rotation and the translation.
pub uninterp spec fn mat4_compose(scale: Seq<u32>, rotation: Seq<u32>, translation: Seq<u32>) -> Seq<
    u32,
>;

/// `Clone` for `glam::Vec3`, which `glam` derives for a `Copy` type: the clone
/// is the value itself.
pub assume_specification[ <glam::Vec3 as Clone>::clone ](v: &glam::Vec3) -> (r: glam::Vec3)
    ensures
        r == *v,
;

/// `Clone` for `glam::Quat`, derived for a `Copy` type: the clone is the value
/// itself.
pub assume_specification[ <glam::Quat as Clone>::clone ](q: &glam::Quat) -> (r: glam::Quat)
    ensures
        r == *q,
;

/// `Clone` for `glam::Mat4`, derived for a `Copy` type: the clone is the value
/// itself.
pub assume_specification[ <glam::Mat4 as Clone>::clone ](m: &glam::Mat4) -> (r: glam::Mat4)
    ensures
        r == *m,
;

/// The bit pattern of the number one.
pub const ONE_BITS: u32 = 0x3f80_0000;

/// Components of the zero vector.
pub open spec fn zero3() -> Seq<u32> {
    seq![0u32, 0u32, 0u32]
}

/// Components of the vector whose entries are all one.
pub open spec fn one3() -> Seq<u32> {
    seq![ONE_BITS, ONE_BITS, ONE_BITS]
}

/// Components of the rotation that turns nothing.
pub open spec fn identity_rotation() -> Seq<u32> {
    seq![0u32, 0u32, 0u32, ONE_BITS]
}

/// Entries of the identity matrix.
pub open spec fn identity4() -> Seq<u32> {
    seq![
        ONE_BITS, 0u32, 0u32, 0u32,
        0u32, ONE_BITS, 0u32, 0u32,
        0u32, 0u32, ONE_BITS, 0u32,
        0u32, 0u32, 0u32, ONE_BITS,
    ]
}

/// `glam::Vec3::ZERO`: all three components are positive zero.
#[verifier::external_body]
pub(crate) fn vec3_zero() -> (r: glam::Vec3)
    ensures
        vec3_bits(r) == zero3(),
{
    glam::Vec3::ZERO
}

/// `glam::Vec3::ONE`: all three components are one.
#[verifier::external_body]
pub(crate) fn vec3_one() -> (r: glam::Vec3)
    ensures
        vec3_bits(r) == one3(),
{
    glam::Vec3::ONE
}

/// `glam::Quat::IDENTITY`: the components are 0, 0, 0, 1.
#[verifier::external_body]
pub(crate) fn quat_identity() -> (r: glam::Quat)
    ensures
        quat_bits(r) == identity_rotation(),
{
    glam::Quat::IDENTITY
}

/// `glam::Mat4::IDENTITY`: ones on the diagonal, positive zero elsewhere.
#[verifier::external_body]
pub(crate) fn mat4_identity() -> (r: glam::Mat4)
    ensures
        mat4_bits(r) == identity4(),
{
    glam::Mat4::IDENTITY
}

/// `glam::Mat4::from_scale_rotation_translation`. The call does not fail: its
/// check that the rotation is normalised is compiled only with a feature of
/// `glam` that this crate does not switch on. The result depends on the
/// components of the three arguments alone.
#[verifier::external_body]
pub(crate) fn mat4_from_scale_rotation_translation(
    scale: glam::Vec3,
    rotation: glam::Quat,
    translation: glam::Vec3,
) -> (r: glam::Mat4)
    ensures
        mat4_bits(r) == mat4_compose(vec3_bits(scale), quat_bits(rotation), vec3_bits(translation)),
{
    glam::Mat4::from_scale_rotation_translation(scale, rotation, translation)
}

/// `glam::Mat4::mul_mat4`: the matrix product `a * b`. The result depends on the
/// entries of the two matrices alone.
#[verifier::external_body]
pub(crate) fn mat4_mul(a: &glam::Mat4, b: &glam::Mat4) -> (r: glam::Mat4)
    ensures
        mat4_bits(r) == mat4_product(mat4_bits(*a), mat4_bits(*b)),
{
    a.mul_mat4(b)
}

/// `bytemuck::cast_slice` from matrices to bytes. A `glam::Mat4` is sixteen
/// four-byte numbers with no padding, and a byte has no alignment to violate,
/// so the cast does not fail and yields sixty-four bytes for each matrix. The
/// bytes are the numbers in the byte order of the machine, which is why the
/// contract speaks of their count alone.
#[verifier::external_body]
pub(crate) fn mat4_slice_bytes(matrices: &[glam::Mat4]) -> (bytes: &[u8])
    ensures
        bytes@.len() == 64 * matrices@.len(),
{
    bytemuck::cast_slice(matrices)
}

} // verus!
