//! 2D/3D/4D vector algebra over Q16.16 fixed-point scalars.
//!
//! Rotations take the cosine and sine of the angle as fixed-point scalars:
//! the trigonometric evaluation itself is not representable here, but every
//! algebraic consequence (rotation by zero is the identity, the cross product
//! is antisymmetric, the dot product is symmetric) is stated and proved.

use vstd::prelude::*;
use vstd::math::abs;
use crate::fixed::{
    fp_div, fp_div_s, fp_mul, fp_mul_s, is_isqrt, isqrt_s, isqrt_u128, lemma_fp_mul_comm,
    lemma_fp_mul_neg,
    lemma_fp_mul_one, lemma_fp_mul_zero, lemma_sdiv_abs,
    lemma_sdiv_multiple, sdiv, FP_ONE,
};
use vstd::arithmetic::div_mod::{lemma_div_is_ordered};

verus! {

#[derive(Clone, Copy, Debug, PartialEq, Eq, Structural)]
pub struct Vec2 {
    pub x: i64,
    pub y: i64,
}

#[derive(Clone, Copy, Debug, PartialEq, Eq, Structural)]
pub struct Vec3 {
    pub x: i64,
    pub y: i64,
    pub z: i64,
}

#[derive(Clone, Copy, Debug, PartialEq, Eq, Structural)]
pub struct Vec4 {
    pub x: i64,
    pub y: i64,
    pub z: i64,
    pub w: i64,
}

impl Default for Vec2 {
    fn default() -> (r: Self)
        ensures
            r.x == 0 && r.y == 0,
    {
        Vec2 { x: 0, y: 0 }
    }
}

impl Default for Vec3 {
    fn default() -> (r: Self)
        ensures
            r.x == 0 && r.y == 0 && r.z == 0,
    {
        Vec3 { x: 0, y: 0, z: 0 }
    }
}

impl Default for Vec4 {
    fn default() -> (r: Self)
        ensures
            r.x == 0 && r.y == 0 && r.z == 0 && r.w == 0,
    {
        Vec4 { x: 0, y: 0, z: 0, w: 0 }
    }
}

/// A homogeneous point: `w` is fixed-point one.
pub fn vec4_from_vec3(v: &Vec3) -> (r: Vec4)
    ensures
        r.x == v.x && r.y == v.y && r.z == v.z && r.w == FP_ONE,
{
    Vec4 { x: v.x, y: v.y, z: v.z, w: FP_ONE }
}

pub fn vec3_from_vec4(v: &Vec4) -> (r: Vec3)
    ensures
        r.x == v.x && r.y == v.y && r.z == v.z,
{
    Vec3 { x: v.x, y: v.y, z: v.z }
}

/// Component magnitude accepted by the length functions; keeps the sum of
/// squares inside `u128` and the root inside `i64`.
pub open spec fn len_arg_ok(c: int) -> bool {
    abs(c) <= 0x8000_0000_0000
}

// ===============================================================================
// Vector 2D functions
// ===============================================================================
pub open spec fn vec2_sq_s(v: Vec2) -> int {
    v.x * v.x + v.y * v.y
}

/// Euclidean norm: the integer square root of the sum of squares (the squares
/// are Q32.32, so the root is again Q16.16).
pub fn vec2_length(v: Vec2) -> (r: i64)
    requires
        len_arg_ok(v.x as int),
        len_arg_ok(v.y as int),
    ensures
        r as int == isqrt_s(vec2_sq_s(v)),
        is_isqrt(r as int, vec2_sq_s(v)),
{
    proof {
        lemma_square_bounds(v.x as int, 0x8000_0000_0000);
        lemma_square_bounds(v.y as int, 0x8000_0000_0000);
    }
    let xx: u128 = ((v.x as i128) * (v.x as i128)) as u128;
    let yy: u128 = ((v.y as i128) * (v.y as i128)) as u128;
    let r: u128 = isqrt_u128(xx + yy);
    proof {
        lemma_isqrt_le_square_bound(vec2_sq_s(v), r as int, 0x1_0000_0000_0000);
    }
    r as i64
}

pub fn vec2_add(a: Vec2, b: Vec2) -> (r: Vec2)
    requires
        i64::MIN <= a.x + b.x <= i64::MAX,
        i64::MIN <= a.y + b.y <= i64::MAX,
    ensures
        r.x == a.x + b.x,
        r.y == a.y + b.y,
{
    Vec2 { x: a.x + b.x, y: a.y + b.y }
}

pub fn vec2_sub(a: Vec2, b: Vec2) -> (r: Vec2)
    requires
        i64::MIN <= a.x - b.x <= i64::MAX,
        i64::MIN <= a.y - b.y <= i64::MAX,
    ensures
        r.x == a.x - b.x,
        r.y == a.y - b.y,
{
    Vec2 { x: a.x - b.x, y: a.y - b.y }
}

pub fn vec2_mul(v: Vec2, factor: i64) -> (r: Vec2)
    requires
        i64::MIN <= fp_mul_s(v.x as int, factor as int) <= i64::MAX,
        i64::MIN <= fp_mul_s(v.y as int, factor as int) <= i64::MAX,
    ensures
        r.x == fp_mul_s(v.x as int, factor as int),
        r.y == fp_mul_s(v.y as int, factor as int),
{
    Vec2 { x: fp_mul(v.x, factor), y: fp_mul(v.y, factor) }
}

pub fn vec2_div(v: Vec2, factor: i64) -> (r: Vec2)
    requires
        factor != 0,
        i64::MIN <= fp_div_s(v.x as int, factor as int) <= i64::MAX,
        i64::MIN <= fp_div_s(v.y as int, factor as int) <= i64::MAX,
    ensures
        r.x == fp_div_s(v.x as int, factor as int),
        r.y == fp_div_s(v.y as int, factor as int),
{
    Vec2 { x: fp_div(v.x, factor), y: fp_div(v.y, factor) }
}

pub open spec fn vec2_dot_s(a: Vec2, b: Vec2) -> int {
    fp_mul_s(a.x as int, b.x as int) + fp_mul_s(a.y as int, b.y as int)
}

pub fn vec2_dot(a: Vec2, b: Vec2) -> (r: i64)
    requires
        i64::MIN <= fp_mul_s(a.x as int, b.x as int) <= i64::MAX,
        i64::MIN <= fp_mul_s(a.y as int, b.y as int) <= i64::MAX,
        i64::MIN <= vec2_dot_s(a, b) <= i64::MAX,
    ensures
        r as int == vec2_dot_s(a, b),
{
    fp_mul(a.x, b.x) + fp_mul(a.y, b.y)
}

/// Divides each component by the vector's length; the zero vector is excluded
/// as the documented undefined case of normalization.
pub fn vec2_normalize(v: &mut Vec2)
    requires
        len_arg_ok(old(v).x as int),
        len_arg_ok(old(v).y as int),
        !(old(v).x == 0 && old(v).y == 0),
    ensures
        final(v).x == sdiv(old(v).x * FP_ONE, isqrt_s(vec2_sq_s(*old(v)))),
        final(v).y == sdiv(old(v).y * FP_ONE, isqrt_s(vec2_sq_s(*old(v)))),
{
    let len: i64 = vec2_length(*v);
    proof {
        lemma_sq_pos_2(*v);
        assert(v.x * v.x >= 0 && v.y * v.y >= 0) by (nonlinear_arith);
        lemma_norm_div_fits(v.x as int, len as int, vec2_sq_s(*v));
        lemma_norm_div_fits(v.y as int, len as int, vec2_sq_s(*v));
    }
    v.x = fp_div(v.x, len);
    v.y = fp_div(v.y, len);
}

// ===============================================================================
// Vector 3D functions
// ===============================================================================
pub open spec fn vec3_sq_s(v: Vec3) -> int {
    v.x * v.x + v.y * v.y + v.z * v.z
}

pub fn vec3_length(v: Vec3) -> (r: i64)
    requires
        len_arg_ok(v.x as int),
        len_arg_ok(v.y as int),
        len_arg_ok(v.z as int),
    ensures
        r as int == isqrt_s(vec3_sq_s(v)),
        is_isqrt(r as int, vec3_sq_s(v)),
{
    proof {
        lemma_square_bounds(v.x as int, 0x8000_0000_0000);
        lemma_square_bounds(v.y as int, 0x8000_0000_0000);
        lemma_square_bounds(v.z as int, 0x8000_0000_0000);
    }
    let xx: u128 = ((v.x as i128) * (v.x as i128)) as u128;
    let yy: u128 = ((v.y as i128) * (v.y as i128)) as u128;
    let zz: u128 = ((v.z as i128) * (v.z as i128)) as u128;
    let r: u128 = isqrt_u128(xx + yy + zz);
    proof {
        lemma_isqrt_le_square_bound(vec3_sq_s(v), r as int, 0x2_0000_0000_0000);
    }
    r as i64
}

pub fn vec3_add(a: Vec3, b: Vec3) -> (r: Vec3)
    requires
        i64::MIN <= a.x + b.x <= i64::MAX,
        i64::MIN <= a.y + b.y <= i64::MAX,
        i64::MIN <= a.z + b.z <= i64::MAX,
    ensures
        r.x == a.x + b.x,
        r.y == a.y + b.y,
        r.z == a.z + b.z,
{
    Vec3 { x: a.x + b.x, y: a.y + b.y, z: a.z + b.z }
}

pub fn vec3_sub(a: Vec3, b: Vec3) -> (r: Vec3)
    requires
        i64::MIN <= a.x - b.x <= i64::MAX,
        i64::MIN <= a.y - b.y <= i64::MAX,
        i64::MIN <= a.z - b.z <= i64::MAX,
    ensures
        r.x == a.x - b.x,
        r.y == a.y - b.y,
        r.z == a.z - b.z,
{
    Vec3 { x: a.x - b.x, y: a.y - b.y, z: a.z - b.z }
}

pub fn vec3_mul(v: Vec3, factor: i64) -> (r: Vec3)
    requires
        i64::MIN <= fp_mul_s(v.x as int, factor as int) <= i64::MAX,
        i64::MIN <= fp_mul_s(v.y as int, factor as int) <= i64::MAX,
        i64::MIN <= fp_mul_s(v.z as int, factor as int) <= i64::MAX,
    ensures
        r.x == fp_mul_s(v.x as int, factor as int),
        r.y == fp_mul_s(v.y as int, factor as int),
        r.z == fp_mul_s(v.z as int, factor as int),
{
    Vec3 { x: fp_mul(v.x, factor), y: fp_mul(v.y, factor), z: fp_mul(v.z, factor) }
}

pub fn vec3_div(v: Vec3, factor: i64) -> (r: Vec3)
    requires
        factor != 0,
        i64::MIN <= fp_div_s(v.x as int, factor as int) <= i64::MAX,
        i64::MIN <= fp_div_s(v.y as int, factor as int) <= i64::MAX,
        i64::MIN <= fp_div_s(v.z as int, factor as int) <= i64::MAX,
    ensures
        r.x == fp_div_s(v.x as int, factor as int),
        r.y == fp_div_s(v.y as int, factor as int),
        r.z == fp_div_s(v.z as int, factor as int),
{
    Vec3 { x: fp_div(v.x, factor), y: fp_div(v.y, factor), z: fp_div(v.z, factor) }
}

/// Right-handed cross product, componentwise in the fixed-point domain.
pub open spec fn cross_x_s(a: Vec3, b: Vec3) -> int {
    fp_mul_s(a.y as int, b.z as int) - fp_mul_s(a.z as int, b.y as int)
}

pub open spec fn cross_y_s(a: Vec3, b: Vec3) -> int {
    fp_mul_s(a.z as int, b.x as int) - fp_mul_s(a.x as int, b.z as int)
}

pub open spec fn cross_z_s(a: Vec3, b: Vec3) -> int {
    fp_mul_s(a.x as int, b.y as int) - fp_mul_s(a.y as int, b.x as int)
}

pub fn vec3_cross(a: Vec3, b: Vec3) -> (r: Vec3)
    requires
        i64::MIN <= fp_mul_s(a.y as int, b.z as int) <= i64::MAX,
        i64::MIN <= fp_mul_s(a.z as int, b.y as int) <= i64::MAX,
        i64::MIN <= fp_mul_s(a.z as int, b.x as int) <= i64::MAX,
        i64::MIN <= fp_mul_s(a.x as int, b.z as int) <= i64::MAX,
        i64::MIN <= fp_mul_s(a.x as int, b.y as int) <= i64::MAX,
        i64::MIN <= fp_mul_s(a.y as int, b.x as int) <= i64::MAX,
        i64::MIN <= cross_x_s(a, b) <= i64::MAX,
        i64::MIN <= cross_y_s(a, b) <= i64::MAX,
        i64::MIN <= cross_z_s(a, b) <= i64::MAX,
    ensures
        r.x == cross_x_s(a, b),
        r.y == cross_y_s(a, b),
        r.z == cross_z_s(a, b),
{
    Vec3 {
        x: fp_mul(a.y, b.z) - fp_mul(a.z, b.y),
        y: fp_mul(a.z, b.x) - fp_mul(a.x, b.z),
        z: fp_mul(a.x, b.y) - fp_mul(a.y, b.x),
    }
}

pub open spec fn vec3_dot_s(a: Vec3, b: Vec3) -> int {
    fp_mul_s(a.x as int, b.x as int) + fp_mul_s(a.y as int, b.y as int) + fp_mul_s(
        a.z as int,
        b.z as int,
    )
}

pub fn vec3_dot(a: Vec3, b: Vec3) -> (r: i64)
    requires
        i64::MIN <= fp_mul_s(a.x as int, b.x as int) <= i64::MAX,
        i64::MIN <= fp_mul_s(a.y as int, b.y as int) <= i64::MAX,
        i64::MIN <= fp_mul_s(a.z as int, b.z as int) <= i64::MAX,
        i64::MIN <= fp_mul_s(a.x as int, b.x as int) + fp_mul_s(a.y as int, b.y as int)
            <= i64::MAX,
        i64::MIN <= vec3_dot_s(a, b) <= i64::MAX,
    ensures
        r as int == vec3_dot_s(a, b),
{
    fp_mul(a.x, b.x) + fp_mul(a.y, b.y) + fp_mul(a.z, b.z)
}

pub fn vec3_normalize(v: &mut Vec3)
    requires
        len_arg_ok(old(v).x as int),
        len_arg_ok(old(v).y as int),
        len_arg_ok(old(v).z as int),
        !(old(v).x == 0 && old(v).y == 0 && old(v).z == 0),
    ensures
        final(v).x == sdiv(old(v).x * FP_ONE, isqrt_s(vec3_sq_s(*old(v)))),
        final(v).y == sdiv(old(v).y * FP_ONE, isqrt_s(vec3_sq_s(*old(v)))),
        final(v).z == sdiv(old(v).z * FP_ONE, isqrt_s(vec3_sq_s(*old(v)))),
{
    let len: i64 = vec3_length(*v);
    proof {
        lemma_sq_pos_3(*v);
        assert(v.x * v.x >= 0 && v.y * v.y >= 0 && v.z * v.z >= 0) by (nonlinear_arith);
        lemma_norm_div_fits(v.x as int, len as int, vec3_sq_s(*v));
        lemma_norm_div_fits(v.y as int, len as int, vec3_sq_s(*v));
        lemma_norm_div_fits(v.z as int, len as int, vec3_sq_s(*v));
    }
    v.x = fp_div(v.x, len);
    v.y = fp_div(v.y, len);
    v.z = fp_div(v.z, len);
}

// ===============================================================================
// Axis rotations, parametrized by the angle's cosine and sine
// ===============================================================================

/// A cosine/sine pair is admissible when both lie in `[-1, 1]` fixed-point.
pub open spec fn trig_ok(c: int, s: int) -> bool {
    abs(c) <= FP_ONE as int && abs(s) <= FP_ONE as int
}

pub open spec fn rot_x_s(x: int, y: int, z: int, c: int, s: int) -> (int, int, int) {
    (x, fp_mul_s(y, c) - fp_mul_s(z, s), fp_mul_s(y, s) + fp_mul_s(z, c))
}

pub open spec fn rot_y_s(x: int, y: int, z: int, c: int, s: int) -> (int, int, int) {
    (fp_mul_s(x, c) - fp_mul_s(z, s), y, fp_mul_s(x, s) + fp_mul_s(z, c))
}

pub open spec fn rot_z_s(x: int, y: int, z: int, c: int, s: int) -> (int, int, int) {
    (fp_mul_s(x, c) - fp_mul_s(y, s), fp_mul_s(x, s) + fp_mul_s(y, c), z)
}

/// The magnitude of a fixed-point product with a factor no larger than one
/// never exceeds the other factor's magnitude.
pub proof fn lemma_fp_mul_le_one(a: int, c: int)
    requires
        abs(c) <= FP_ONE as int,
    ensures
        abs(fp_mul_s(a, c)) <= abs(a),
{
    lemma_sdiv_abs(a * c, FP_ONE as int);
    assert(abs(a * c) <= abs(a) * (FP_ONE as int)) by (nonlinear_arith)
        requires abs(c) <= FP_ONE as int;
    lemma_div_is_ordered(abs(a * c) as int, abs(a) * (FP_ONE as int), FP_ONE as int);
    lemma_sdiv_multiple(abs(a) as int, FP_ONE as int);
    lemma_sdiv_abs(abs(a) * (FP_ONE as int), FP_ONE as int);
}

/// Requires of a rotation: admissible trig pair, and the two rotated
/// components small enough that the rotated sums cannot overflow.
pub open spec fn rot_arg_ok(p: int, q: int) -> bool {
    abs(p) + abs(q) <= i64::MAX
}

pub fn vec3_rotate_x(v: Vec3, c: i64, s: i64) -> (r: Vec3)
    requires
        trig_ok(c as int, s as int),
        rot_arg_ok(v.y as int, v.z as int),
    ensures
        (r.x as int, r.y as int, r.z as int) == rot_x_s(v.x as int, v.y as int, v.z as int, c as int, s as int),
{
    proof {
        lemma_rot_fits(v.y as int, v.z as int, c as int, s as int);
    }
    Vec3 {
        x: v.x,
        y: fp_mul(v.y, c) - fp_mul(v.z, s),
        z: fp_mul(v.y, s) + fp_mul(v.z, c),
    }
}

pub fn vec3_rotate_y(v: Vec3, c: i64, s: i64) -> (r: Vec3)
    requires
        trig_ok(c as int, s as int),
        rot_arg_ok(v.x as int, v.z as int),
    ensures
        (r.x as int, r.y as int, r.z as int) == rot_y_s(v.x as int, v.y as int, v.z as int, c as int, s as int),
{
    proof {
        lemma_rot_fits(v.x as int, v.z as int, c as int, s as int);
    }
    Vec3 {
        x: fp_mul(v.x, c) - fp_mul(v.z, s),
        y: v.y,
        z: fp_mul(v.x, s) + fp_mul(v.z, c),
    }
}

pub fn vec3_rotate_z(v: Vec3, c: i64, s: i64) -> (r: Vec3)
    requires
        trig_ok(c as int, s as int),
        rot_arg_ok(v.x as int, v.y as int),
    ensures
        (r.x as int, r.y as int, r.z as int) == rot_z_s(v.x as int, v.y as int, v.z as int, c as int, s as int),
{
    proof {
        lemma_rot_fits(v.x as int, v.y as int, c as int, s as int);
    }
    Vec3 {
        x: fp_mul(v.x, c) - fp_mul(v.y, s),
        y: fp_mul(v.x, s) + fp_mul(v.y, c),
        z: v.z,
    }
}

// ===============================================================================
// Laws
// ===============================================================================

/// The cross product is antisymmetric: `cross(a, b) == -cross(b, a)`,
/// componentwise and exactly, truncation included.
pub proof fn lemma_cross_antisymmetric(a: Vec3, b: Vec3)
    ensures
        cross_x_s(a, b) == -cross_x_s(b, a),
        cross_y_s(a, b) == -cross_y_s(b, a),
        cross_z_s(a, b) == -cross_z_s(b, a),
{
    lemma_fp_mul_comm(a.y as int, b.z as int);
    lemma_fp_mul_comm(a.z as int, b.y as int);
    lemma_fp_mul_comm(a.z as int, b.x as int);
    lemma_fp_mul_comm(a.x as int, b.z as int);
    lemma_fp_mul_comm(a.x as int, b.y as int);
    lemma_fp_mul_comm(a.y as int, b.x as int);
}

/// The dot product is symmetric: `dot(a, b) == dot(b, a)` exactly.
pub proof fn lemma_dot_symmetric(a: Vec3, b: Vec3)
    ensures
        vec3_dot_s(a, b) == vec3_dot_s(b, a),
{
    lemma_fp_mul_comm(a.x as int, b.x as int);
    lemma_fp_mul_comm(a.y as int, b.y as int);
    lemma_fp_mul_comm(a.z as int, b.z as int);
}

/// Rotating by zero radians (cosine one, sine zero) about any axis returns
/// the vector unchanged, exactly.
pub proof fn lemma_rotate_zero_identity(v: Vec3)
    ensures
        rot_x_s(v.x as int, v.y as int, v.z as int, FP_ONE as int, 0) == (
            v.x as int,
            v.y as int,
            v.z as int,
        ),
        rot_y_s(v.x as int, v.y as int, v.z as int, FP_ONE as int, 0) == (
            v.x as int,
            v.y as int,
            v.z as int,
        ),
        rot_z_s(v.x as int, v.y as int, v.z as int, FP_ONE as int, 0) == (
            v.x as int,
            v.y as int,
            v.z as int,
        ),
{
    lemma_fp_mul_one(v.x as int);
    lemma_fp_mul_one(v.y as int);
    lemma_fp_mul_one(v.z as int);
    lemma_fp_mul_zero(v.x as int);
    lemma_fp_mul_zero(v.y as int);
    lemma_fp_mul_zero(v.z as int);
}

// ===============================================================================
// Internal arithmetic lemmas
// ===============================================================================
proof fn lemma_square_bounds(x: int, b: int)
    requires
        abs(x) <= b,
        0 <= b,
    ensures
        0 <= x * x <= b * b,
{
    assert(0 <= x * x && x * x <= b * b) by (nonlinear_arith)
        requires abs(x) <= b && 0 <= b;
}

/// If the radicand is at most `b * b`, the root is at most `b`.
proof fn lemma_isqrt_le_square_bound(n: int, r: int, b: int)
    requires
        is_isqrt(r, n),
        r == isqrt_s(n),
        0 <= n,
        0 <= b,
        n <= b * b,
    ensures
        r <= b,
{
    assert(r <= b) by (nonlinear_arith)
        requires
            0 <= r && r * r <= n && n < (r + 1) * (r + 1),
            n <= b * b,
            0 <= b;
}

proof fn lemma_sq_pos_2(v: Vec2)
    requires
        !(v.x == 0 && v.y == 0),
    ensures
        vec2_sq_s(v) >= 1,
{
    assert(vec2_sq_s(v) >= 1) by (nonlinear_arith)
        requires !(v.x == 0 && v.y == 0) && vec2_sq_s(v) == v.x * v.x + v.y * v.y;
}

proof fn lemma_sq_pos_3(v: Vec3)
    requires
        !(v.x == 0 && v.y == 0 && v.z == 0),
    ensures
        vec3_sq_s(v) >= 1,
{
    assert(vec3_sq_s(v) >= 1) by (nonlinear_arith)
        requires
            !(v.x == 0 && v.y == 0 && v.z == 0) && vec3_sq_s(v) == v.x * v.x + v.y * v.y + v.z
                * v.z;
}

/// Each normalized component `sdiv(x * FP_ONE, len)` fits an `i64`, because
/// the length of a vector is at least the magnitude of each component.
proof fn lemma_norm_div_fits(x: int, len: int, sq: int)
    requires
        is_isqrt(len, sq),
        sq >= 1,
        sq >= x * x,
    ensures
        len >= 1,
        len != 0,
        i64::MIN <= fp_div_s(x, len) <= i64::MAX,
{
    assert(len >= 1) by (nonlinear_arith)
        requires 0 <= len && sq < (len + 1) * (len + 1) && sq >= 1;
    assert(abs(x) <= len) by (nonlinear_arith)
        requires sq >= x * x && sq < (len + 1) * (len + 1) && len >= 0;
    lemma_sdiv_abs(x * FP_ONE, len);
    assert(abs(x * FP_ONE) == abs(x) * (FP_ONE as int)) by (nonlinear_arith);
    lemma_div_is_ordered(abs(x) * (FP_ONE as int), len * (FP_ONE as int), len);
    lemma_sdiv_multiple(FP_ONE as int, len);
    assert(len * (FP_ONE as int) == (FP_ONE as int) * len) by (nonlinear_arith);
    lemma_sdiv_abs(len * (FP_ONE as int), len);
    assert((FP_ONE as int) * len == len * (FP_ONE as int)) by (nonlinear_arith);
}

/// Both rotated components fit: each product shrinks below its vector factor.
proof fn lemma_rot_fits(p: int, q: int, c: int, s: int)
    requires
        trig_ok(c, s),
        abs(p) + abs(q) <= i64::MAX,
    ensures
        i64::MIN <= fp_mul_s(p, c) <= i64::MAX,
        i64::MIN <= fp_mul_s(p, s) <= i64::MAX,
        i64::MIN <= fp_mul_s(q, c) <= i64::MAX,
        i64::MIN <= fp_mul_s(q, s) <= i64::MAX,
        i64::MIN <= fp_mul_s(p, c) - fp_mul_s(q, s) <= i64::MAX,
        i64::MIN <= fp_mul_s(p, s) + fp_mul_s(q, c) <= i64::MAX,
{
    lemma_fp_mul_le_one(p, c);
    lemma_fp_mul_le_one(p, s);
    lemma_fp_mul_le_one(q, c);
    lemma_fp_mul_le_one(q, s);
}

} // verus!

verus! {

/// One normalized component `n = sdiv(x * FP_ONE, l)` squares to nearly
/// `x^2 * FP_ONE^2 / l^2`: bounded above exactly and below up to the
/// truncation term `2 * |x| * FP_ONE * l`.
proof fn lemma_norm_comp_sq(x: int, l: int)
    requires
        l >= 1,
        abs(x) <= l,
    ensures
        ({
            let n = sdiv(x * FP_ONE, l);
            let a = abs(x) as int * FP_ONE;
            n * n * (l * l) <= (x * x) * (FP_ONE * FP_ONE) && n * n * (l * l) >= (x * x) * (
            FP_ONE * FP_ONE) - 2 * a * l
        }),
{
    let n = sdiv(x * FP_ONE, l);
    let a = (abs(x) as int) * FP_ONE;
    lemma_sdiv_abs(x * FP_ONE, l);
    if x >= 0 {
        assert(x * FP_ONE >= 0) by (nonlinear_arith)
            requires x >= 0 && FP_ONE > 0;
        assert(abs(x * FP_ONE) as int == a);
    } else {
        assert(x * FP_ONE < 0) by (nonlinear_arith)
            requires x < 0 && FP_ONE > 0;
        assert(-(x * FP_ONE) == (-x) * FP_ONE) by (nonlinear_arith);
        assert(abs(x * FP_ONE) as int == a);
    }
    let m = abs(n) as int;
    assert(m == a / l);
    vstd::arithmetic::div_mod::lemma_fundamental_div_mod(a, l);
    assert(m * l <= a && a < (m + 1) * l) by (nonlinear_arith)
        requires a == l * (a / l) + a % l && 0 <= a % l && a % l < l && m == a / l;
    assert(n * n == m * m) by {
        if n >= 0 {
            assert(m == n);
        } else {
            assert(m == -n);
            assert((-n) * (-n) == n * n) by (nonlinear_arith);
        }
    }
    assert((abs(x) as int) * (abs(x) as int) == x * x) by (nonlinear_arith)
        requires (abs(x) as int) == if x >= 0 { x } else { -x };
    assert(a * a == (x * x) * (FP_ONE * FP_ONE)) by (nonlinear_arith)
        requires
            a == (abs(x) as int) * FP_ONE,
            (abs(x) as int) * (abs(x) as int) == x * x;
    assert(m * m * (l * l) <= a * a) by (nonlinear_arith)
        requires 0 <= m * l && m * l <= a;
    assert(n * n * (l * l) <= (x * x) * (FP_ONE * FP_ONE));
    if a >= l {
        assert(m * l >= a - l) by (nonlinear_arith)
            requires a < (m + 1) * l;
        assert(m * m * (l * l) >= (a - l) * (a - l)) by (nonlinear_arith)
            requires m * l >= a - l && a - l >= 0;
        assert((a - l) * (a - l) >= a * a - 2 * a * l) by (nonlinear_arith);
        assert(n * n * (l * l) >= (x * x) * (FP_ONE * FP_ONE) - 2 * a * l);
    } else {
        assert(a * a - 2 * a * l <= 0) by (nonlinear_arith)
            requires 0 <= a && a < l;
        assert(m == 0) by {
            vstd::arithmetic::div_mod::lemma_basic_div(a, l);
        }
        assert(n * n * (l * l) == 0) by (nonlinear_arith)
            requires n * n == m * m && m == 0;
        assert(n * n * (l * l) >= (x * x) * (FP_ONE * FP_ONE) - 2 * a * l);
    }
}
/// The planar counterpart of the law below: for every 2D vector of length
/// at least one, the normalized vector's length lies within 4 fixed-point
/// units of one.
pub proof fn lemma_normalize2_length_near_one(v: Vec2)
    requires
        len_arg_ok(v.x as int),
        len_arg_ok(v.y as int),
        vec2_sq_s(v) >= FP_ONE * FP_ONE,
    ensures
        ({
            let l = isqrt_s(vec2_sq_s(v));
            let nx = sdiv(v.x * FP_ONE, l);
            let ny = sdiv(v.y * FP_ONE, l);
            let nl = isqrt_s(nx * nx + ny * ny);
            FP_ONE - 4 <= nl <= FP_ONE + 4
        }),
{
    let x = v.x as int;
    let y = v.y as int;
    let sq = vec2_sq_s(v);
    crate::fixed::lemma_isqrt_exists(sq);
    let l = isqrt_s(sq);
    assert(l >= FP_ONE) by (nonlinear_arith)
        requires 0 <= l && sq < (l + 1) * (l + 1) && sq >= FP_ONE * FP_ONE;
    assert(abs(x) as int <= l && abs(y) as int <= l) by (nonlinear_arith)
        requires
            sq == x * x + y * y,
            sq < (l + 1) * (l + 1),
            l >= 0;
    lemma_norm_comp_sq(x, l);
    lemma_norm_comp_sq(y, l);
    let nx = sdiv(x * FP_ONE, l);
    let ny = sdiv(y * FP_ONE, l);
    let cap = nx * nx + ny * ny;
    assert(cap * (l * l) == nx * nx * (l * l) + ny * ny * (l * l)) by (nonlinear_arith)
        requires cap == nx * nx + ny * ny;
    assert(cap * (l * l) <= sq * (FP_ONE * FP_ONE)) by (nonlinear_arith)
        requires
            cap * (l * l) == nx * nx * (l * l) + ny * ny * (l * l),
            nx * nx * (l * l) <= (x * x) * (FP_ONE * FP_ONE),
            ny * ny * (l * l) <= (y * y) * (FP_ONE * FP_ONE),
            sq == x * x + y * y;
    assert(cap <= FP_ONE * FP_ONE + 131072) by {
        if cap > FP_ONE * FP_ONE + 131072 {
            assert(cap * (l * l) > (l * l + 2 * l) * (FP_ONE * FP_ONE)) by (nonlinear_arith)
                requires
                    cap >= FP_ONE * FP_ONE + 131073,
                    l >= FP_ONE,
                    FP_ONE == 65536;
            assert(sq * (FP_ONE * FP_ONE) <= (l * l + 2 * l) * (FP_ONE * FP_ONE))
                by (nonlinear_arith)
                requires
                    sq < (l + 1) * (l + 1),
                    FP_ONE == 65536;
            assert(false);
        }
    }
    assert(cap * (l * l) >= sq * (FP_ONE * FP_ONE) - 2 * FP_ONE * l * ((abs(x) as int) + (abs(
    y) as int))) by (nonlinear_arith)
        requires
            cap * (l * l) == nx * nx * (l * l) + ny * ny * (l * l),
            nx * nx * (l * l) >= (x * x) * (FP_ONE * FP_ONE) - 2 * ((abs(x) as int) * FP_ONE) * l,
            ny * ny * (l * l) >= (y * y) * (FP_ONE * FP_ONE) - 2 * ((abs(y) as int) * FP_ONE) * l,
            sq == x * x + y * y;
    assert(cap >= FP_ONE * FP_ONE - 4 * FP_ONE) by (nonlinear_arith)
        requires
            cap * (l * l) >= sq * (FP_ONE * FP_ONE) - 2 * FP_ONE * l * ((abs(x) as int) + (abs(
            y) as int)),
            (abs(x) as int) <= l && (abs(y) as int) <= l,
            (abs(x) as int) >= 0 && (abs(y) as int) >= 0,
            sq >= l * l,
            l >= 1,
            FP_ONE == 65536;
    crate::fixed::lemma_isqrt_exists(cap);
    let nl = isqrt_s(cap);
    assert(nl <= FP_ONE + 4) by {
        assert(cap < (FP_ONE + 5) * (FP_ONE + 5)) by (nonlinear_arith)
            requires cap <= FP_ONE * FP_ONE + 131072 && FP_ONE == 65536;
        crate::fixed::lemma_isqrt_bounds(cap, FP_ONE + 4);
    }
    assert(nl >= FP_ONE - 4) by (nonlinear_arith)
        requires
            0 <= nl && cap < (nl + 1) * (nl + 1),
            cap >= FP_ONE * FP_ONE - 4 * FP_ONE,
            FP_ONE == 65536;
}

/// For every vector of length at least one, the length of the normalized
/// vector lies within 4 fixed-point units of one. (A vector shorter than
/// one, such as `(1, 1, 0)` in raw units, loses too much to truncation and
/// is excluded.)
pub proof fn lemma_normalize_length_near_one(v: Vec3)
    requires
        len_arg_ok(v.x as int),
        len_arg_ok(v.y as int),
        len_arg_ok(v.z as int),
        vec3_sq_s(v) >= FP_ONE * FP_ONE,
    ensures
        ({
            let l = isqrt_s(vec3_sq_s(v));
            let nx = sdiv(v.x * FP_ONE, l);
            let ny = sdiv(v.y * FP_ONE, l);
            let nz = sdiv(v.z * FP_ONE, l);
            let nl = isqrt_s(nx * nx + ny * ny + nz * nz);
            FP_ONE - 4 <= nl <= FP_ONE + 4
        }),
{
    let x = v.x as int;
    let y = v.y as int;
    let z = v.z as int;
    let sq = vec3_sq_s(v);
    crate::fixed::lemma_isqrt_exists(sq);
    let l = isqrt_s(sq);
    assert(l >= FP_ONE) by (nonlinear_arith)
        requires 0 <= l && sq < (l + 1) * (l + 1) && sq >= FP_ONE * FP_ONE;
    assert(abs(x) as int <= l && abs(y) as int <= l && abs(z) as int <= l) by (nonlinear_arith)
        requires
            sq == x * x + y * y + z * z,
            sq < (l + 1) * (l + 1),
            l >= 0;
    lemma_norm_comp_sq(x, l);
    lemma_norm_comp_sq(y, l);
    lemma_norm_comp_sq(z, l);
    let nx = sdiv(x * FP_ONE, l);
    let ny = sdiv(y * FP_ONE, l);
    let nz = sdiv(z * FP_ONE, l);
    let cap = nx * nx + ny * ny + nz * nz;
    assert(cap * (l * l) == nx * nx * (l * l) + ny * ny * (l * l) + nz * nz * (l * l))
        by (nonlinear_arith)
        requires cap == nx * nx + ny * ny + nz * nz;
    // Upper bound: cap * l^2 <= sq * FP_ONE^2, and sq < (l + 1)^2.
    assert(cap * (l * l) <= sq * (FP_ONE * FP_ONE)) by (nonlinear_arith)
        requires
            cap * (l * l) == nx * nx * (l * l) + ny * ny * (l * l) + nz * nz * (l * l),
            nx * nx * (l * l) <= (x * x) * (FP_ONE * FP_ONE),
            ny * ny * (l * l) <= (y * y) * (FP_ONE * FP_ONE),
            nz * nz * (l * l) <= (z * z) * (FP_ONE * FP_ONE),
            sq == x * x + y * y + z * z;
    assert(cap <= FP_ONE * FP_ONE + 131072) by {
        if cap > FP_ONE * FP_ONE + 131072 {
            assert(cap * (l * l) > (l * l + 2 * l) * (FP_ONE * FP_ONE)) by (nonlinear_arith)
                requires
                    cap >= FP_ONE * FP_ONE + 131073,
                    l >= FP_ONE,
                    FP_ONE == 65536;
            assert(sq * (FP_ONE * FP_ONE) <= (l * l + 2 * l) * (FP_ONE * FP_ONE))
                by (nonlinear_arith)
                requires
                    sq < (l + 1) * (l + 1),
                    FP_ONE == 65536;
            assert(false);
        }
    }
    // Lower bound: cap * l^2 >= sq * FP_ONE^2 - 6 * FP_ONE * l^2.
    assert(cap * (l * l) >= sq * (FP_ONE * FP_ONE) - 2 * FP_ONE * l * ((abs(x) as int) + (abs(
    y) as int) + (abs(z) as int))) by (nonlinear_arith)
        requires
            cap * (l * l) == nx * nx * (l * l) + ny * ny * (l * l) + nz * nz * (l * l),
            nx * nx * (l * l) >= (x * x) * (FP_ONE * FP_ONE) - 2 * ((abs(x) as int) * FP_ONE) * l,
            ny * ny * (l * l) >= (y * y) * (FP_ONE * FP_ONE) - 2 * ((abs(y) as int) * FP_ONE) * l,
            nz * nz * (l * l) >= (z * z) * (FP_ONE * FP_ONE) - 2 * ((abs(z) as int) * FP_ONE) * l,
            sq == x * x + y * y + z * z;
    assert(cap >= FP_ONE * FP_ONE - 6 * FP_ONE) by (nonlinear_arith)
        requires
            cap * (l * l) >= sq * (FP_ONE * FP_ONE) - 2 * FP_ONE * l * ((abs(x) as int) + (abs(
            y) as int) + (abs(z) as int)),
            (abs(x) as int) <= l && (abs(y) as int) <= l && (abs(z) as int) <= l,
            (abs(x) as int) >= 0 && (abs(y) as int) >= 0 && (abs(z) as int) >= 0,
            sq >= l * l,
            l >= 1,
            FP_ONE == 65536;
    crate::fixed::lemma_isqrt_exists(cap);
    let nl = isqrt_s(cap);
    assert(nl <= FP_ONE + 4) by {
        assert(cap < (FP_ONE + 5) * (FP_ONE + 5)) by (nonlinear_arith)
            requires cap <= FP_ONE * FP_ONE + 131072 && FP_ONE == 65536;
        crate::fixed::lemma_isqrt_bounds(cap, FP_ONE + 4);
    }
    assert(nl >= FP_ONE - 4) by (nonlinear_arith)
        requires
            0 <= nl && cap < (nl + 1) * (nl + 1),
            cap >= FP_ONE * FP_ONE - 6 * FP_ONE,
            FP_ONE == 65536;
}

} // verus!

verus! {

/// The shared core of the rotation round-trip law, on one rotated pair
/// `(p, q)`: rotating by `(c, s)` and back by `(c, -s)` returns each
/// component to within `|component| * d / FP_ONE^2 + 6` of its start, where
/// `d` bounds how far `c^2 + s^2` strays from the circle identity.
proof fn lemma_rot_pair_round_trip(p: int, q: int, c: int, s: int, d: int)
    requires
        trig_ok(c, s),
        0 <= d,
        abs(c * c + s * s - FP_ONE * FP_ONE) <= d,
    ensures
        ({
            let p1 = fp_mul_s(p, c) - fp_mul_s(q, s);
            let q1 = fp_mul_s(p, s) + fp_mul_s(q, c);
            let p2 = fp_mul_s(p1, c) + fp_mul_s(q1, s);
            let q2 = fp_mul_s(q1, c) - fp_mul_s(p1, s);
            abs(p2 - p) <= ((abs(p) as int) * d) / (FP_ONE * FP_ONE) + 6 && abs(q2 - q) <= ((abs(
            q) as int) * d) / (FP_ONE * FP_ONE) + 6
        }),
{
    let f = FP_ONE as int;
    let p1 = fp_mul_s(p, c) - fp_mul_s(q, s);
    let q1 = fp_mul_s(p, s) + fp_mul_s(q, c);
    let p2 = fp_mul_s(p1, c) + fp_mul_s(q1, s);
    let q2 = fp_mul_s(q1, c) - fp_mul_s(p1, s);
    crate::fixed::lemma_sdiv_err(p * c, f);
    crate::fixed::lemma_sdiv_err(q * s, f);
    crate::fixed::lemma_sdiv_err(p * s, f);
    crate::fixed::lemma_sdiv_err(q * c, f);
    crate::fixed::lemma_sdiv_err(p1 * c, f);
    crate::fixed::lemma_sdiv_err(q1 * s, f);
    crate::fixed::lemma_sdiv_err(q1 * c, f);
    crate::fixed::lemma_sdiv_err(p1 * s, f);
    let al = f * p1 - (p * c - q * s);
    let be = f * q1 - (p * s + q * c);
    let ga = f * p2 - (p1 * c + q1 * s);
    let de = f * q2 - (q1 * c - p1 * s);
    assert(abs(al) < 2 * f) by (nonlinear_arith)
        requires
            al == (f * sdiv(p * c, f) - p * c) - (f * sdiv(q * s, f) - q * s),
            abs(f * sdiv(p * c, f) - p * c) < f,
            abs(f * sdiv(q * s, f) - q * s) < f;
    assert(abs(be) < 2 * f) by (nonlinear_arith)
        requires
            be == (f * sdiv(p * s, f) - p * s) + (f * sdiv(q * c, f) - q * c),
            abs(f * sdiv(p * s, f) - p * s) < f,
            abs(f * sdiv(q * c, f) - q * c) < f;
    assert(abs(ga) < 2 * f) by (nonlinear_arith)
        requires
            ga == (f * sdiv(p1 * c, f) - p1 * c) + (f * sdiv(q1 * s, f) - q1 * s),
            abs(f * sdiv(p1 * c, f) - p1 * c) < f,
            abs(f * sdiv(q1 * s, f) - q1 * s) < f;
    assert(abs(de) < 2 * f) by (nonlinear_arith)
        requires
            de == (f * sdiv(q1 * c, f) - q1 * c) - (f * sdiv(p1 * s, f) - p1 * s),
            abs(f * sdiv(q1 * c, f) - q1 * c) < f,
            abs(f * sdiv(p1 * s, f) - p1 * s) < f;
    // Expand f^2 * p2 over the first-rotation identities, step by step.
    assert(f * (f * p2) == f * (p1 * c) + f * (q1 * s) + f * ga) by (nonlinear_arith)
        requires f * p2 == p1 * c + q1 * s + ga;
    assert(f * (f * q2) == f * (q1 * c) - f * (p1 * s) + f * de) by (nonlinear_arith)
        requires f * q2 == q1 * c - p1 * s + de;
    assert(f * (p1 * c) == (f * p1) * c) by (nonlinear_arith);
    assert(f * (q1 * s) == (f * q1) * s) by (nonlinear_arith);
    assert(f * (q1 * c) == (f * q1) * c) by (nonlinear_arith);
    assert(f * (p1 * s) == (f * p1) * s) by (nonlinear_arith);
    assert((p * c - q * s + al) * c == (p * c) * c - (q * s) * c + al * c) by (nonlinear_arith);
    assert((p * s + q * c + be) * s == (p * s) * s + (q * c) * s + be * s) by (nonlinear_arith);
    assert((p * s + q * c + be) * c == (p * s) * c + (q * c) * c + be * c) by (nonlinear_arith);
    assert((p * c - q * s + al) * s == (p * c) * s - (q * s) * s + al * s) by (nonlinear_arith);
    assert((p * c) * c + (p * s) * s == p * (c * c + s * s)) by (nonlinear_arith);
    assert((q * s) * c == (q * c) * s) by (nonlinear_arith);
    assert((q * c) * c + (q * s) * s == q * (c * c + s * s)) by (nonlinear_arith);
    assert((p * s) * c == (p * c) * s) by (nonlinear_arith);
    assert((f * p1) * c == (p * c - q * s + al) * c);
    assert((f * q1) * s == (p * s + q * c + be) * s);
    assert((f * q1) * c == (p * s + q * c + be) * c);
    assert((f * p1) * s == (p * c - q * s + al) * s);
    assert(f * (f * p2) == p * (c * c + s * s) + al * c + be * s + f * ga);
    assert(f * (f * q2) == q * (c * c + s * s) - al * s + be * c + f * de);
    assert(f * (f * p2) == (f * f) * p2) by (nonlinear_arith);
    assert(f * (f * q2) == (f * f) * q2) by (nonlinear_arith);
    assert((f * f) * (p2 - p) == (f * f) * p2 - (f * f) * p) by (nonlinear_arith);
    assert((f * f) * (q2 - q) == (f * f) * q2 - (f * f) * q) by (nonlinear_arith);
    assert(p * (c * c + s * s) - (f * f) * p == p * (c * c + s * s - f * f)) by (nonlinear_arith);
    assert(q * (c * c + s * s) - (f * f) * q == q * (c * c + s * s - f * f)) by (nonlinear_arith);
    assert((f * f) * (p2 - p) == p * (c * c + s * s - f * f) + al * c + be * s + f * ga);
    assert((f * f) * (q2 - q) == q * (c * c + s * s - f * f) - al * s + be * c + f * de);
    lemma_round_trip_bound(p2 - p, p, c, s, d, al, be, ga);
    lemma_round_trip_bound(q2 - q, q, c, s, d, al, be, de);
}

/// From `f^2 * e == v * (c^2 + s^2 - f^2) + u1 * t1 + u2 * t2 + f * u3` with
/// each `|u_i| < 2f` and `|t_i| <= f`, conclude `|e| <= |v| * d / f^2 + 6`.
proof fn lemma_round_trip_bound(e: int, v: int, c: int, s: int, d: int, u1: int, u2: int, u3: int)
    requires
        trig_ok(c, s),
        0 <= d,
        abs(c * c + s * s - FP_ONE * FP_ONE) <= d,
        abs(u1) < 2 * FP_ONE,
        abs(u2) < 2 * FP_ONE,
        abs(u3) < 2 * FP_ONE,
        ({
            let f = FP_ONE as int;
            (f * f) * e == v * (c * c + s * s - f * f) + u1 * c + u2 * s + f * u3 || (f * f) * e
                == v * (c * c + s * s - f * f) - u1 * s + u2 * c + f * u3
        }),
    ensures
        abs(e) <= ((abs(v) as int) * d) / (FP_ONE * FP_ONE) + 6,
{
    let f = FP_ONE as int;
    let big = c * c + s * s - f * f;
    assert(abs(v * big) <= (abs(v) as int) * d) by (nonlinear_arith)
        requires abs(big) <= d && 0 <= d;
    assert(abs(u1 * c) < 2 * (f * f) && abs(u2 * s) < 2 * (f * f) && abs(u2 * c) < 2 * (f * f)
        && abs(u1 * s) < 2 * (f * f)) by (nonlinear_arith)
        requires
            abs(u1) < 2 * f,
            abs(u2) < 2 * f,
            abs(c) <= f,
            abs(s) <= f,
            f > 0;
    assert(abs(f * u3) < 2 * (f * f)) by (nonlinear_arith)
        requires abs(u3) < 2 * f && f > 0;
    assert(abs((f * f) * e) <= (abs(v) as int) * d + 6 * (f * f));
    let m = (abs(v) as int) * d;
    assert(m >= 0) by (nonlinear_arith)
        requires m == (abs(v) as int) * d && d >= 0 && (abs(v) as int) >= 0;
    if abs(e) > m / (f * f) + 6 {
        assert(abs((f * f) * e) == (f * f) * (abs(e) as int)) by (nonlinear_arith);
        assert((f * f) * (abs(e) as int) >= (f * f) * (m / (f * f) + 7)) by (nonlinear_arith)
            requires (abs(e) as int) >= m / (f * f) + 7 && f > 0;
        vstd::arithmetic::div_mod::lemma_fundamental_div_mod(m, f * f);
        assert(m < (f * f) * (m / (f * f)) + f * f) by (nonlinear_arith)
            requires m == (f * f) * (m / (f * f)) + m % (f * f) && m % (f * f) < f * f;
        assert((f * f) * (m / (f * f) + 7) > m + 6 * (f * f)) by (nonlinear_arith)
            requires m < (f * f) * (m / (f * f)) + f * f;
        assert(false);
    }
}
/// Rotating by an angle and then by its negation about the same axis
/// returns each component to within `|component| * d / FP_ONE^2 + 6` of its
/// start, where `d` bounds how far the supplied cosine/sine pair strays from
/// the circle identity `c^2 + s^2 == FP_ONE^2`.
pub proof fn lemma_rotate_round_trip(v: Vec3, c: int, s: int, d: int)
    requires
        trig_ok(c, s),
        0 <= d,
        abs(c * c + s * s - FP_ONE * FP_ONE) <= d,
    ensures
        ({
            let r1 = rot_x_s(v.x as int, v.y as int, v.z as int, c, s);
            let r2 = rot_x_s(r1.0, r1.1, r1.2, c, -s);
            r2.0 == v.x as int && abs(r2.1 - v.y as int) <= ((abs(v.y as int) as int) * d) / (
            FP_ONE * FP_ONE) + 6 && abs(r2.2 - v.z as int) <= ((abs(v.z as int) as int) * d) / (
            FP_ONE * FP_ONE) + 6
        }),
        ({
            let r1 = rot_y_s(v.x as int, v.y as int, v.z as int, c, s);
            let r2 = rot_y_s(r1.0, r1.1, r1.2, c, -s);
            r2.1 == v.y as int && abs(r2.0 - v.x as int) <= ((abs(v.x as int) as int) * d) / (
            FP_ONE * FP_ONE) + 6 && abs(r2.2 - v.z as int) <= ((abs(v.z as int) as int) * d) / (
            FP_ONE * FP_ONE) + 6
        }),
        ({
            let r1 = rot_z_s(v.x as int, v.y as int, v.z as int, c, s);
            let r2 = rot_z_s(r1.0, r1.1, r1.2, c, -s);
            r2.2 == v.z as int && abs(r2.0 - v.x as int) <= ((abs(v.x as int) as int) * d) / (
            FP_ONE * FP_ONE) + 6 && abs(r2.1 - v.y as int) <= ((abs(v.y as int) as int) * d) / (
            FP_ONE * FP_ONE) + 6
        }),
{
    let x = v.x as int;
    let y = v.y as int;
    let z = v.z as int;
    lemma_rot_pair_round_trip(y, z, c, s, d);
    lemma_rot_pair_round_trip(x, z, c, s, d);
    lemma_rot_pair_round_trip(x, y, c, s, d);
    let p1x = fp_mul_s(y, c) - fp_mul_s(z, s);
    let q1x = fp_mul_s(y, s) + fp_mul_s(z, c);
    lemma_fp_mul_neg(p1x, s);
    lemma_fp_mul_neg(q1x, s);
    let p1y = fp_mul_s(x, c) - fp_mul_s(z, s);
    let q1y = fp_mul_s(x, s) + fp_mul_s(z, c);
    lemma_fp_mul_neg(p1y, s);
    lemma_fp_mul_neg(q1y, s);
    let p1z = fp_mul_s(x, c) - fp_mul_s(y, s);
    let q1z = fp_mul_s(x, s) + fp_mul_s(y, c);
    lemma_fp_mul_neg(p1z, s);
    lemma_fp_mul_neg(q1z, s);
}

} // verus!
