//! 4x4 row-major matrices over Q16.16 fixed-point scalars: builders for the
//! affine transforms and the perspective matrix, and the matrix products.
//!
//! Rotation builders take the angle's cosine and sine as fixed-point scalars;
//! the perspective builder likewise takes `1 / tan(fov / 2)` precomputed.

use vstd::prelude::*;
use vstd::math::abs;
use crate::fixed::{
    fp_div, fp_div_s, fp_mul, fp_mul_s, lemma_fp_mul_one, lemma_fp_mul_zero,
    lemma_sdiv_strict_bound, FP_ONE,
};
use crate::vector::Vec4;

verus! {

#[derive(Clone, Copy, Debug)]
pub struct Mat4 {
    pub m: [[i64; 4]; 4],
}

/// Entry `(i, j)` of a matrix, as a mathematical integer.
pub open spec fn mat_at(mx: Mat4, i: int, j: int) -> int {
    mx.m[i][j] as int
}

/// Magnitude bound on matrix entries and vector components under which the
/// products cannot overflow: with entries below `2^38`, each fixed-point
/// product stays below `2^60` and a row sum below `2^62`.
pub open spec fn mat_entry_ok(c: int) -> bool {
    abs(c) < 0x40_0000_0000
}

pub open spec fn mat_row_bounded(mx: Mat4, i: int) -> bool {
    mat_entry_ok(mat_at(mx, i, 0)) && mat_entry_ok(mat_at(mx, i, 1)) && mat_entry_ok(
        mat_at(mx, i, 2),
    ) && mat_entry_ok(mat_at(mx, i, 3))
}

pub open spec fn mat_bounded(mx: Mat4) -> bool {
    mat_row_bounded(mx, 0) && mat_row_bounded(mx, 1) && mat_row_bounded(mx, 2) && mat_row_bounded(
        mx,
        3,
    )
}

pub open spec fn vec4_bounded(v: Vec4) -> bool {
    mat_entry_ok(v.x as int) && mat_entry_ok(v.y as int) && mat_entry_ok(v.z as int)
        && mat_entry_ok(v.w as int)
}

pub open spec fn is_identity_s(r: Mat4) -> bool {
    forall|i: int, j: int|
        0 <= i < 4 && 0 <= j < 4 ==> #[trigger] mat_at(r, i, j) == if i == j {
            FP_ONE as int
        } else {
            0
        }
}

/// | 1 0 0 0 |
/// | 0 1 0 0 |
/// | 0 0 1 0 |
/// | 0 0 0 1 |
pub fn mat4_identity() -> (r: Mat4)
    ensures
        is_identity_s(r),
{
    Mat4 {
        m: [
            [FP_ONE, 0, 0, 0],
            [0, FP_ONE, 0, 0],
            [0, 0, FP_ONE, 0],
            [0, 0, 0, FP_ONE],
        ],
    }
}

impl Default for Mat4 {
    /// Identity is the default value.
    fn default() -> (r: Self)
        ensures
            is_identity_s(r),
    {
        mat4_identity()
    }
}

pub open spec fn is_scale_s(r: Mat4, sx: int, sy: int, sz: int) -> bool {
    forall|i: int, j: int|
        0 <= i < 4 && 0 <= j < 4 ==> #[trigger] mat_at(r, i, j) == if i == 0 && j == 0 {
            sx
        } else if i == 1 && j == 1 {
            sy
        } else if i == 2 && j == 2 {
            sz
        } else if i == 3 && j == 3 {
            FP_ONE as int
        } else {
            0
        }
}

/// | sx 0 0 0 |
/// | 0 sy 0 0 |
/// | 0 0 sz 0 |
/// | 0 0  0 1 |
pub fn mat4_make_scale(sx: i64, sy: i64, sz: i64) -> (r: Mat4)
    ensures
        is_scale_s(r, sx as int, sy as int, sz as int),
{
    Mat4 {
        m: [
            [sx, 0, 0, 0],
            [0, sy, 0, 0],
            [0, 0, sz, 0],
            [0, 0, 0, FP_ONE],
        ],
    }
}

pub open spec fn is_translation_s(r: Mat4, tx: int, ty: int, tz: int) -> bool {
    forall|i: int, j: int|
        0 <= i < 4 && 0 <= j < 4 ==> #[trigger] mat_at(r, i, j) == if i == 0 && j == 3 {
            tx
        } else if i == 1 && j == 3 {
            ty
        } else if i == 2 && j == 3 {
            tz
        } else if i == j {
            FP_ONE as int
        } else {
            0
        }
}

/// | 1 0 0 tx |
/// | 0 1 0 ty |
/// | 0 0 1 tz |
/// | 0 0 0 1  |
pub fn mat4_make_translation(tx: i64, ty: i64, tz: i64) -> (r: Mat4)
    ensures
        is_translation_s(r, tx as int, ty as int, tz as int),
{
    Mat4 {
        m: [
            [FP_ONE, 0, 0, tx],
            [0, FP_ONE, 0, ty],
            [0, 0, FP_ONE, tz],
            [0, 0, 0, FP_ONE],
        ],
    }
}

pub open spec fn is_rotation_x_s(r: Mat4, c: int, s: int) -> bool {
    forall|i: int, j: int|
        0 <= i < 4 && 0 <= j < 4 ==> #[trigger] mat_at(r, i, j) == if i == 1 && j == 1 {
            c
        } else if i == 1 && j == 2 {
            -s
        } else if i == 2 && j == 1 {
            s
        } else if i == 2 && j == 2 {
            c
        } else if i == j && (i == 0 || i == 3) {
            FP_ONE as int
        } else {
            0
        }
}

/// | 1 0  0 0 |
/// | 0 c -s 0 |
/// | 0 s  c 0 |
/// | 0 0  0 1 |
pub fn mat4_make_rotation_x(c: i64, s: i64) -> (r: Mat4)
    requires
        s != i64::MIN,
    ensures
        is_rotation_x_s(r, c as int, s as int),
{
    Mat4 {
        m: [
            [FP_ONE, 0, 0, 0],
            [0, c, -s, 0],
            [0, s, c, 0],
            [0, 0, 0, FP_ONE],
        ],
    }
}

pub open spec fn is_rotation_y_s(r: Mat4, c: int, s: int) -> bool {
    forall|i: int, j: int|
        0 <= i < 4 && 0 <= j < 4 ==> #[trigger] mat_at(r, i, j) == if i == 0 && j == 0 {
            c
        } else if i == 0 && j == 2 {
            s
        } else if i == 2 && j == 0 {
            -s
        } else if i == 2 && j == 2 {
            c
        } else if i == j && (i == 1 || i == 3) {
            FP_ONE as int
        } else {
            0
        }
}

/// |  c 0 s 0 |
/// |  0 1 0 0 |
/// | -s 0 c 0 |
/// |  0 0 0 1 |
pub fn mat4_make_rotation_y(c: i64, s: i64) -> (r: Mat4)
    requires
        s != i64::MIN,
    ensures
        is_rotation_y_s(r, c as int, s as int),
{
    Mat4 {
        m: [
            [c, 0, s, 0],
            [0, FP_ONE, 0, 0],
            [-s, 0, c, 0],
            [0, 0, 0, FP_ONE],
        ],
    }
}

pub open spec fn is_rotation_z_s(r: Mat4, c: int, s: int) -> bool {
    forall|i: int, j: int|
        0 <= i < 4 && 0 <= j < 4 ==> #[trigger] mat_at(r, i, j) == if i == 0 && j == 0 {
            c
        } else if i == 0 && j == 1 {
            -s
        } else if i == 1 && j == 0 {
            s
        } else if i == 1 && j == 1 {
            c
        } else if i == j && (i == 2 || i == 3) {
            FP_ONE as int
        } else {
            0
        }
}

/// | c -s 0 0 |
/// | s  c 0 0 |
/// | 0  0 1 0 |
/// | 0  0 0 1 |
pub fn mat4_make_rotation_z(c: i64, s: i64) -> (r: Mat4)
    requires
        s != i64::MIN,
    ensures
        is_rotation_z_s(r, c as int, s as int),
{
    Mat4 {
        m: [
            [c, -s, 0, 0],
            [s, c, 0, 0],
            [0, 0, FP_ONE, 0],
            [0, 0, 0, FP_ONE],
        ],
    }
}

/// | (h/w)*1/tan(fov/2)        0               0               0           |
/// |         0            1/tan(fov/2)         0               0           |
/// |         0                 0           zf/(zf-zn)  (-zf*zn)/(zf-zn)    |
/// |         0                 0               1               0           |
///
/// `inv_tan_half_fov` is `1 / tan(fov / 2)` in fixed point, supplied by the
/// caller since the tangent is not representable here.
pub fn mat4_make_perspective(inv_tan_half_fov: i64, aspect: i64, znear: i64, zfar: i64) -> (r:
    Mat4)
    requires
        znear != zfar,
        i64::MIN < zfar - znear <= i64::MAX,
        i64::MIN <= fp_mul_s(aspect as int, inv_tan_half_fov as int) <= i64::MAX,
        i64::MIN <= fp_div_s(zfar as int, zfar - znear) <= i64::MAX,
        i64::MIN < fp_mul_s(zfar as int, znear as int) <= i64::MAX,
        i64::MIN <= fp_div_s(-fp_mul_s(zfar as int, znear as int), zfar - znear) <= i64::MAX,
    ensures
        mat_at(r, 0, 0) == fp_mul_s(aspect as int, inv_tan_half_fov as int),
        mat_at(r, 1, 1) == inv_tan_half_fov as int,
        mat_at(r, 2, 2) == fp_div_s(zfar as int, zfar - znear),
        mat_at(r, 2, 3) == fp_div_s(-fp_mul_s(zfar as int, znear as int), zfar - znear),
        mat_at(r, 3, 2) == FP_ONE as int,
        mat_at(r, 0, 1) == 0 && mat_at(r, 0, 2) == 0 && mat_at(r, 0, 3) == 0,
        mat_at(r, 1, 0) == 0 && mat_at(r, 1, 2) == 0 && mat_at(r, 1, 3) == 0,
        mat_at(r, 2, 0) == 0 && mat_at(r, 2, 1) == 0,
        mat_at(r, 3, 0) == 0 && mat_at(r, 3, 1) == 0 && mat_at(r, 3, 3) == 0,
{
    let m00: i64 = fp_mul(aspect, inv_tan_half_fov);
    let depth: i64 = zfar - znear;
    let m22: i64 = fp_div(zfar, depth);
    let zprod: i64 = fp_mul(zfar, znear);
    proof {
        crate::fixed::lemma_fp_mul_neg(zfar as int, znear as int);
    }
    let m23: i64 = fp_div(-zprod, depth);
    Mat4 {
        m: [
            [m00, 0, 0, 0],
            [0, inv_tan_half_fov, 0, 0],
            [0, 0, m22, m23],
            [0, 0, FP_ONE, 0],
        ],
    }
}

/// The fixed-point dot product of a matrix row with a column of four scalars.
pub open spec fn mul4_s(a0: int, a1: int, a2: int, a3: int, b0: int, b1: int, b2: int, b3: int)
    -> int {
    fp_mul_s(a0, b0) + fp_mul_s(a1, b1) + fp_mul_s(a2, b2) + fp_mul_s(a3, b3)
}

/// Row `i` of `m` times the vector `v`.
pub open spec fn row_dot_s(mx: Mat4, v: Vec4, i: int) -> int {
    mul4_s(
        mat_at(mx, i, 0),
        mat_at(mx, i, 1),
        mat_at(mx, i, 2),
        mat_at(mx, i, 3),
        v.x as int,
        v.y as int,
        v.z as int,
        v.w as int,
    )
}

/// Entry `(i, j)` of the product `a * b`.
pub open spec fn mul_entry_s(a: Mat4, b: Mat4, i: int, j: int) -> int {
    mul4_s(
        mat_at(a, i, 0),
        mat_at(a, i, 1),
        mat_at(a, i, 2),
        mat_at(a, i, 3),
        mat_at(b, 0, j),
        mat_at(b, 1, j),
        mat_at(b, 2, j),
        mat_at(b, 3, j),
    )
}

/// Each fixed-point product of two in-bound scalars stays below `2^60`, so a
/// row sum of four stays below `2^62`.
proof fn lemma_mul4_fits(a0: int, a1: int, a2: int, a3: int, b0: int, b1: int, b2: int, b3: int)
    requires
        mat_entry_ok(a0) && mat_entry_ok(a1) && mat_entry_ok(a2) && mat_entry_ok(a3),
        mat_entry_ok(b0) && mat_entry_ok(b1) && mat_entry_ok(b2) && mat_entry_ok(b3),
    ensures
        abs(fp_mul_s(a0, b0)) < 0x1000_0000_0000_0000,
        abs(fp_mul_s(a1, b1)) < 0x1000_0000_0000_0000,
        abs(fp_mul_s(a2, b2)) < 0x1000_0000_0000_0000,
        abs(fp_mul_s(a3, b3)) < 0x1000_0000_0000_0000,
        i64::MIN <= mul4_s(a0, a1, a2, a3, b0, b1, b2, b3) <= i64::MAX,
{
    lemma_fp_prod_bound(a0, b0);
    lemma_fp_prod_bound(a1, b1);
    lemma_fp_prod_bound(a2, b2);
    lemma_fp_prod_bound(a3, b3);
}

/// `|a| < 2^38` and `|b| < 2^38` give `|fp_mul_s(a, b)| < 2^60`.
proof fn lemma_fp_prod_bound(a: int, b: int)
    requires
        mat_entry_ok(a),
        mat_entry_ok(b),
    ensures
        abs(fp_mul_s(a, b)) < 0x1000_0000_0000_0000,
{
    assert(abs(a * b) < 0x1000_0000_0000_0000 * (FP_ONE as int)) by (nonlinear_arith)
        requires abs(a) < 0x40_0000_0000 && abs(b) < 0x40_0000_0000;
    lemma_sdiv_strict_bound(a * b, FP_ONE as int, 0x1000_0000_0000_0000);
}

/// One row-column fixed-point dot product.
fn mul4(a0: i64, a1: i64, a2: i64, a3: i64, b0: i64, b1: i64, b2: i64, b3: i64) -> (r: i64)
    requires
        mat_entry_ok(a0 as int) && mat_entry_ok(a1 as int) && mat_entry_ok(a2 as int)
            && mat_entry_ok(a3 as int),
        mat_entry_ok(b0 as int) && mat_entry_ok(b1 as int) && mat_entry_ok(b2 as int)
            && mat_entry_ok(b3 as int),
    ensures
        r as int == mul4_s(
            a0 as int,
            a1 as int,
            a2 as int,
            a3 as int,
            b0 as int,
            b1 as int,
            b2 as int,
            b3 as int,
        ),
{
    proof {
        lemma_mul4_fits(
            a0 as int,
            a1 as int,
            a2 as int,
            a3 as int,
            b0 as int,
            b1 as int,
            b2 as int,
            b3 as int,
        );
    }
    fp_mul(a0, b0) + fp_mul(a1, b1) + fp_mul(a2, b2) + fp_mul(a3, b3)
}

/// Multiplies a matrix (4d) with a Vec4, returning a Vec4.
pub fn mat4_mul_vec4(mx: &Mat4, v: &Vec4) -> (r: Vec4)
    requires
        mat_bounded(*mx),
        vec4_bounded(*v),
    ensures
        r.x as int == row_dot_s(*mx, *v, 0),
        r.y as int == row_dot_s(*mx, *v, 1),
        r.z as int == row_dot_s(*mx, *v, 2),
        r.w as int == row_dot_s(*mx, *v, 3),
{
    Vec4 {
        x: mul4(mx.m[0][0], mx.m[0][1], mx.m[0][2], mx.m[0][3], v.x, v.y, v.z, v.w),
        y: mul4(mx.m[1][0], mx.m[1][1], mx.m[1][2], mx.m[1][3], v.x, v.y, v.z, v.w),
        z: mul4(mx.m[2][0], mx.m[2][1], mx.m[2][2], mx.m[2][3], v.x, v.y, v.z, v.w),
        w: mul4(mx.m[3][0], mx.m[3][1], mx.m[3][2], mx.m[3][3], v.x, v.y, v.z, v.w),
    }
}

/// The result of `mat4_mul_vec4_project`: the transformed vector, with `x`,
/// `y`, `z` divided by `w` when `w` is nonzero.
pub open spec fn project_vec4_s(mx: Mat4, v: Vec4) -> (int, int, int, int) {
    let tx = row_dot_s(mx, v, 0);
    let ty = row_dot_s(mx, v, 1);
    let tz = row_dot_s(mx, v, 2);
    let tw = row_dot_s(mx, v, 3);
    if tw != 0 {
        (fp_div_s(tx, tw), fp_div_s(ty, tw), fp_div_s(tz, tw), tw)
    } else {
        (tx, ty, tz, tw)
    }
}

/// Multiplies by the projection matrix, then performs the perspective divide
/// with the pre-projection depth stored in `w`; an exactly-zero `w` skips
/// the divide.
pub fn mat4_mul_vec4_project(mat_proj: &Mat4, v: &Vec4) -> (r: Vec4)
    requires
        mat_bounded(*mat_proj),
        vec4_bounded(*v),
        ({
            let tw = row_dot_s(*mat_proj, *v, 3);
            tw != 0 ==> {
                &&& i64::MIN <= fp_div_s(row_dot_s(*mat_proj, *v, 0), tw) <= i64::MAX
                &&& i64::MIN <= fp_div_s(row_dot_s(*mat_proj, *v, 1), tw) <= i64::MAX
                &&& i64::MIN <= fp_div_s(row_dot_s(*mat_proj, *v, 2), tw) <= i64::MAX
            }
        }),
    ensures
        (r.x as int, r.y as int, r.z as int, r.w as int) == project_vec4_s(*mat_proj, *v),
{
    let t: Vec4 = mat4_mul_vec4(mat_proj, v);
    if t.w != 0 {
        Vec4 { x: fp_div(t.x, t.w), y: fp_div(t.y, t.w), z: fp_div(t.z, t.w), w: t.w }
    } else {
        t
    }
}

/// Multiplies a matrix (4d) with a matrix (4d), returning a Mat4.
pub fn mat4_mul_mat4(a: &Mat4, b: &Mat4) -> (r: Mat4)
    requires
        mat_bounded(*a),
        mat_bounded(*b),
    ensures
        forall|i: int, j: int|
            0 <= i < 4 && 0 <= j < 4 ==> #[trigger] mat_at(r, i, j) == mul_entry_s(*a, *b, i, j),
{
    let r = Mat4 {
        m: [
            [
                mul4(a.m[0][0], a.m[0][1], a.m[0][2], a.m[0][3], b.m[0][0], b.m[1][0], b.m[2][0],
                    b.m[3][0]),
                mul4(a.m[0][0], a.m[0][1], a.m[0][2], a.m[0][3], b.m[0][1], b.m[1][1], b.m[2][1],
                    b.m[3][1]),
                mul4(a.m[0][0], a.m[0][1], a.m[0][2], a.m[0][3], b.m[0][2], b.m[1][2], b.m[2][2],
                    b.m[3][2]),
                mul4(a.m[0][0], a.m[0][1], a.m[0][2], a.m[0][3], b.m[0][3], b.m[1][3], b.m[2][3],
                    b.m[3][3]),
            ],
            [
                mul4(a.m[1][0], a.m[1][1], a.m[1][2], a.m[1][3], b.m[0][0], b.m[1][0], b.m[2][0],
                    b.m[3][0]),
                mul4(a.m[1][0], a.m[1][1], a.m[1][2], a.m[1][3], b.m[0][1], b.m[1][1], b.m[2][1],
                    b.m[3][1]),
                mul4(a.m[1][0], a.m[1][1], a.m[1][2], a.m[1][3], b.m[0][2], b.m[1][2], b.m[2][2],
                    b.m[3][2]),
                mul4(a.m[1][0], a.m[1][1], a.m[1][2], a.m[1][3], b.m[0][3], b.m[1][3], b.m[2][3],
                    b.m[3][3]),
            ],
            [
                mul4(a.m[2][0], a.m[2][1], a.m[2][2], a.m[2][3], b.m[0][0], b.m[1][0], b.m[2][0],
                    b.m[3][0]),
                mul4(a.m[2][0], a.m[2][1], a.m[2][2], a.m[2][3], b.m[0][1], b.m[1][1], b.m[2][1],
                    b.m[3][1]),
                mul4(a.m[2][0], a.m[2][1], a.m[2][2], a.m[2][3], b.m[0][2], b.m[1][2], b.m[2][2],
                    b.m[3][2]),
                mul4(a.m[2][0], a.m[2][1], a.m[2][2], a.m[2][3], b.m[0][3], b.m[1][3], b.m[2][3],
                    b.m[3][3]),
            ],
            [
                mul4(a.m[3][0], a.m[3][1], a.m[3][2], a.m[3][3], b.m[0][0], b.m[1][0], b.m[2][0],
                    b.m[3][0]),
                mul4(a.m[3][0], a.m[3][1], a.m[3][2], a.m[3][3], b.m[0][1], b.m[1][1], b.m[2][1],
                    b.m[3][1]),
                mul4(a.m[3][0], a.m[3][1], a.m[3][2], a.m[3][3], b.m[0][2], b.m[1][2], b.m[2][2],
                    b.m[3][2]),
                mul4(a.m[3][0], a.m[3][1], a.m[3][2], a.m[3][3], b.m[0][3], b.m[1][3], b.m[2][3],
                    b.m[3][3]),
            ],
        ],
    };
    r
}

// ===============================================================================
// Laws
// ===============================================================================

/// Multiplying by the identity on either side leaves any matrix unchanged,
/// entry by entry and exactly.
pub proof fn lemma_mul_identity(id: Mat4, mx: Mat4)
    requires
        is_identity_s(id),
    ensures
        forall|i: int, j: int|
            0 <= i < 4 && 0 <= j < 4 ==> #[trigger] mul_entry_s(id, mx, i, j) == mat_at(mx, i, j),
        forall|i: int, j: int|
            0 <= i < 4 && 0 <= j < 4 ==> #[trigger] mul_entry_s(mx, id, i, j) == mat_at(mx, i, j),
{
    assert forall|i: int, j: int| 0 <= i < 4 && 0 <= j < 4 implies #[trigger] mul_entry_s(
        id,
        mx,
        i,
        j,
    ) == mat_at(mx, i, j) by {
        lemma_fp_mul_one(mat_at(mx, i, j));
        lemma_fp_mul_zero(mat_at(mx, 0, j));
        lemma_fp_mul_zero(mat_at(mx, 1, j));
        lemma_fp_mul_zero(mat_at(mx, 2, j));
        lemma_fp_mul_zero(mat_at(mx, 3, j));
    }
    assert forall|i: int, j: int| 0 <= i < 4 && 0 <= j < 4 implies #[trigger] mul_entry_s(
        mx,
        id,
        i,
        j,
    ) == mat_at(mx, i, j) by {
        lemma_fp_mul_one(mat_at(mx, i, j));
        lemma_fp_mul_zero(mat_at(mx, i, 0));
        lemma_fp_mul_zero(mat_at(mx, i, 1));
        lemma_fp_mul_zero(mat_at(mx, i, 2));
        lemma_fp_mul_zero(mat_at(mx, i, 3));
    }
}

} // verus!
