//! Vectors and numbers in single precision. glam does all the arithmetic; this
//! module gives each operation the library uses a contract.

use vstd::prelude::*;

verus! {

/// glam's vector of three numbers in single precision. The library carries
/// such vectors and hands them to glam; it never looks inside.
#[verifier::external_type_specification]
#[verifier::external_body]
pub struct ExVec3(glam::Vec3);

/// glam's vector of two numbers in single precision, carried in the same way.
#[verifier::external_type_specification]
#[verifier::external_body]
pub struct ExVec2(glam::Vec2);

/// The vector in the plane whose lanes are the two integers, each converted
/// to single precision.
pub uninterp spec fn vec2_from_ints(x: int, y: int) -> glam::Vec2;

/// `glam::IVec2::new` followed by `as_vec2`: each integer is cast to single precision.
#[verifier::external_body]
pub(crate) fn plane_from_ints(x: i32, y: i32) -> (r: glam::Vec2)
    ensures
        r == vec2_from_ints(x as int, y as int),
{
    glam::IVec2::new(x, y).as_vec2()
}

/// The vector whose lanes are the three integers, each converted to single precision.
pub uninterp spec fn vec3_from_ints(x: int, y: int, z: int) -> glam::Vec3;

/// The vector that holds the integer, converted to single precision, in all
/// three lanes.
pub uninterp spec fn vec3_splat_int(i: int) -> glam::Vec3;

/// The lane-wise sum of two vectors.
pub uninterp spec fn vec3_sum(a: glam::Vec3, b: glam::Vec3) -> glam::Vec3;

/// The lane-wise difference of two vectors.
pub uninterp spec fn vec3_difference(a: glam::Vec3, b: glam::Vec3) -> glam::Vec3;

/// The lane-wise product of two vectors.
pub uninterp spec fn vec3_product(a: glam::Vec3, b: glam::Vec3) -> glam::Vec3;

/// The lane-wise quotient of two vectors.
pub uninterp spec fn vec3_quotient(a: glam::Vec3, b: glam::Vec3) -> glam::Vec3;

/// The cross product of two vectors.
pub uninterp spec fn vec3_cross(a: glam::Vec3, b: glam::Vec3) -> glam::Vec3;

/// The vector scaled to unit length.
pub uninterp spec fn vec3_unit(a: glam::Vec3) -> glam::Vec3;

/// `glam::IVec3::new` followed by `as_vec3`: each integer is cast to single precision.
#[verifier::external_body]
pub(crate) fn from_ints(x: i32, y: i32, z: i32) -> (r: glam::Vec3)
    ensures
        r == vec3_from_ints(x as int, y as int, z as int),
{
    glam::IVec3::new(x, y, z).as_vec3()
}

/// `glam::I64Vec3::splat` followed by `as_vec3`: the integer, cast to single
/// precision, in all three lanes.
#[verifier::external_body]
pub(crate) fn from_long(i: i64) -> (r: glam::Vec3)
    ensures
        r == vec3_splat_int(i as int),
{
    glam::I64Vec3::splat(i).as_vec3()
}

/// glam's `Add` for `Vec3`: lane by lane.
#[verifier::external_body]
pub(crate) fn sum(a: glam::Vec3, b: glam::Vec3) -> (r: glam::Vec3)
    ensures
        r == vec3_sum(a, b),
{
    a + b
}

/// glam's `Sub` for `Vec3`: lane by lane.
#[verifier::external_body]
pub(crate) fn difference(a: glam::Vec3, b: glam::Vec3) -> (r: glam::Vec3)
    ensures
        r == vec3_difference(a, b),
{
    a - b
}

/// glam's `Mul` for `Vec3`: lane by lane.
#[verifier::external_body]
pub(crate) fn product(a: glam::Vec3, b: glam::Vec3) -> (r: glam::Vec3)
    ensures
        r == vec3_product(a, b),
{
    a * b
}

/// glam's `Div` for `Vec3`: lane by lane. Division by zero gives an infinity or
/// a NaN in that lane; it does not panic.
#[verifier::external_body]
pub(crate) fn quotient(a: glam::Vec3, b: glam::Vec3) -> (r: glam::Vec3)
    ensures
        r == vec3_quotient(a, b),
{
    a / b
}

/// `glam::Vec3::cross`.
#[verifier::external_body]
pub(crate) fn cross(a: glam::Vec3, b: glam::Vec3) -> (r: glam::Vec3)
    ensures
        r == vec3_cross(a, b),
{
    a.cross(b)
}

/// `glam::Vec3::normalize`. For a vector of length zero the lanes are NaN; the
/// call panics only under glam's assertion features, which are not enabled.
#[verifier::external_body]
pub(crate) fn unit(a: glam::Vec3) -> (r: glam::Vec3)
    ensures
        r == vec3_unit(a),
{
    a.normalize()
}

/// The vector with every lane negated.
pub uninterp spec fn vec3_negated(a: glam::Vec3) -> glam::Vec3;

/// The vector that holds in every lane the first lane of `a`, taken as
/// degrees and converted to radians.
pub uninterp spec fn vec3_radians(a: glam::Vec3) -> glam::Vec3;

/// The vector whose lanes are the first lane of `x`, the first lane of `y`
/// and the first lane of `z`.
pub uninterp spec fn vec3_from_lanes(x: glam::Vec3, y: glam::Vec3, z: glam::Vec3) -> glam::Vec3;

/// glam's `Neg` for `Vec3`: lane by lane.
#[verifier::external_body]
pub(crate) fn negated(a: glam::Vec3) -> (r: glam::Vec3)
    ensures
        r == vec3_negated(a),
{
    -a
}

/// `glam::Vec3::cos`: the cosine of each lane. How close it comes to the true
/// cosine depends on the platform, so nothing is stated of the result.
#[verifier::external_body]
pub(crate) fn cosine(a: glam::Vec3) -> glam::Vec3 {
    a.cos()
}

/// `glam::Vec3::sin`: the sine of each lane. Nothing is stated of the result,
/// for the same reason as for the cosine.
#[verifier::external_body]
pub(crate) fn sine(a: glam::Vec3) -> glam::Vec3 {
    a.sin()
}

/// std's `to_radians` on the first lane, and `glam::Vec3::splat` of what it gives.
#[verifier::external_body]
pub(crate) fn radians(a: glam::Vec3) -> (r: glam::Vec3)
    ensures
        r == vec3_radians(a),
{
    glam::Vec3::splat(a.x.to_radians())
}

/// The text that std's `Display` gives for one lane of the vector: lane 0, 1
/// or 2. It is a function of the number in that lane alone.
pub uninterp spec fn lane_text(v: glam::Vec3, lane: int) -> Seq<char>;

/// std's `to_string` on each of the three lanes of the vector, in their order.
#[verifier::external_body]
pub(crate) fn lane_texts(v: glam::Vec3) -> (texts: (String, String, String))
    ensures
        texts.0@ == lane_text(v, 0),
        texts.1@ == lane_text(v, 1),
        texts.2@ == lane_text(v, 2),
{
    (v.x.to_string(), v.y.to_string(), v.z.to_string())
}

/// `glam::Vec3::new` on the first lane of each argument.
#[verifier::external_body]
pub(crate) fn from_lanes(x: glam::Vec3, y: glam::Vec3, z: glam::Vec3) -> (r: glam::Vec3)
    ensures
        r == vec3_from_lanes(x, y, z),
{
    glam::Vec3::new(x.x, y.x, z.x)
}

/// The normal of a triangle whose corners, in the order they were given, stand
/// at `first`, `second` and `third`: the unit vector along
/// `(second - third) x (second - first)`.
pub open spec fn triangle_normal(
    first: glam::Vec3,
    second: glam::Vec3,
    third: glam::Vec3,
) -> glam::Vec3 {
    vec3_unit(vec3_cross(vec3_difference(second, third), vec3_difference(second, first)))
}

/// Computes the normal of a triangle from the positions of its corners.
pub fn normal_of(first: glam::Vec3, second: glam::Vec3, third: glam::Vec3) -> (n: glam::Vec3)
    ensures
        n == triangle_normal(first, second, third),
{
    let along = difference(second, third);
    let across = difference(second, first);
    unit(cross(along, across))
}

} // verus!
