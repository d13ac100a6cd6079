//! The per-frame rendering pipeline: model transform, backface culling,
//! pinhole projection, painter's-algorithm depth ordering, and drawing.
//!
//! `update` rebuilds the list of projected triangles from the mesh and the
//! frame's pose; `draw` clears the frame and paints the list back to front.
//! The pose's rotation enters as precomputed cosine/sine pairs, since the
//! trigonometric evaluation itself is not representable in fixed point.

use vstd::prelude::*;
use vstd::math::abs;
use crate::consts::{BACKGROUND_COLOR, C_GREEN, HEIGHT, WIDTH};
use crate::display::{
    clear_color_buffer, draw_triangle, filled_covered, frame_ok, outline_covered, pix,
    pix_in_frame,
};
use crate::fixed::{
    fp_div, fp_div_s, fp_mul, fp_mul_s, lemma_sdiv_abs, lemma_sdiv_strict_bound, sdiv,
    trunc_div_i128, FP_ONE,
};
use crate::mesh::Mesh;
use crate::triangle::{Face, Triangle};
use crate::vector::{
    lemma_fp_mul_le_one, rot_x_s, rot_y_s, rot_z_s, trig_ok, vec3_rotate_x, vec3_rotate_y,
    vec3_rotate_z, Vec2, Vec3,
};

verus! {

broadcast use vstd::array::group_array_axioms;

/// The cosine and sine of the pose's rotation about each axis, in Q16.16.
#[derive(Clone, Copy, Debug)]
pub struct RotationTrig {
    pub cx: i64,
    pub sx: i64,
    pub cy: i64,
    pub sy: i64,
    pub cz: i64,
    pub sz: i64,
}

pub open spec fn trig_all_ok(t: RotationTrig) -> bool {
    trig_ok(t.cx as int, t.sx as int) && trig_ok(t.cy as int, t.sy as int) && trig_ok(
        t.cz as int,
        t.sz as int,
    )
}

/// World coordinates (vertices, translation, camera) stay below `2^28`
/// in Q16.16, that is below 4096 in real units.
pub open spec fn coord_ok(c: int) -> bool {
    abs(c) < 0x1000_0000
}

/// Scale factors stay below `2^20` in Q16.16, that is below 16 real.
pub open spec fn scale_ok(c: int) -> bool {
    abs(c) < 0x10_0000
}

/// The field-of-view factor stays below `2^26` in Q16.16 (1024 real).
pub open spec fn fov_ok(f: int) -> bool {
    0 <= f < 0x400_0000
}

/// A transformed vertex component stays below `2^36`.
pub open spec fn tvert_ok(c: int) -> bool {
    abs(c) < 0x10_0000_0000
}

pub open spec fn vec3_in_world(v: Vec3) -> bool {
    coord_ok(v.x as int) && coord_ok(v.y as int) && coord_ok(v.z as int)
}

pub open spec fn vec3_scale_ok(v: Vec3) -> bool {
    scale_ok(v.x as int) && scale_ok(v.y as int) && scale_ok(v.z as int)
}

/// A face's 1-based indices all point into a vertex list of length `n`.
pub open spec fn face_ok(f: Face, n: int) -> bool {
    1 <= f.a as int <= n && 1 <= f.b as int <= n && 1 <= f.c as int <= n
}

/// A well-formed mesh: every face index valid, every vertex and the pose
/// within the world bounds.
pub open spec fn mesh_wf(m: Mesh) -> bool {
    &&& forall|i: int|
        0 <= i < m.vertices@.len() ==> vec3_in_world(#[trigger] m.vertices@[i])
    &&& forall|i: int|
        0 <= i < m.faces@.len() ==> face_ok(#[trigger] m.faces@[i], m.vertices@.len() as int)
    &&& vec3_scale_ok(m.scale)
    &&& vec3_in_world(m.translation)
}

// ======================================================================
//  Transform stage
// ======================================================================

/// The net model transform of one vertex: scale, then the three axis
/// rotations x, y, z, then the translation.
pub open spec fn transform_vertex_s(v: Vec3, t: RotationTrig, sc: Vec3, tr: Vec3) -> (
    int,
    int,
    int,
) {
    let sx = fp_mul_s(v.x as int, sc.x as int);
    let sy = fp_mul_s(v.y as int, sc.y as int);
    let sz = fp_mul_s(v.z as int, sc.z as int);
    let rx = rot_x_s(sx, sy, sz, t.cx as int, t.sx as int);
    let ry = rot_y_s(rx.0, rx.1, rx.2, t.cy as int, t.sy as int);
    let rz = rot_z_s(ry.0, ry.1, ry.2, t.cz as int, t.sz as int);
    (rz.0 + tr.x as int, rz.1 + tr.y as int, rz.2 + tr.z as int)
}

fn transform_vertex(v: Vec3, t: &RotationTrig, sc: Vec3, tr: Vec3) -> (r: Vec3)
    requires
        vec3_in_world(v),
        vec3_scale_ok(sc),
        vec3_in_world(tr),
        trig_all_ok(*t),
    ensures
        (r.x as int, r.y as int, r.z as int) == transform_vertex_s(v, *t, sc, tr),
        tvert_ok(r.x as int) && tvert_ok(r.y as int) && tvert_ok(r.z as int),
{
    proof {
        lemma_scale_fits(v.x as int, sc.x as int);
        lemma_scale_fits(v.y as int, sc.y as int);
        lemma_scale_fits(v.z as int, sc.z as int);
    }
    let s = Vec3 { x: fp_mul(v.x, sc.x), y: fp_mul(v.y, sc.y), z: fp_mul(v.z, sc.z) };
    proof {
        lemma_rot_grow(s.x as int, s.y as int, s.z as int, t.cx as int, t.sx as int,
            0x1_0000_0000);
    }
    let r1 = vec3_rotate_x(s, t.cx, t.sx);
    proof {
        lemma_rot_grow(r1.x as int, r1.y as int, r1.z as int, t.cy as int, t.sy as int,
            0x2_0000_0000);
    }
    let r2 = vec3_rotate_y(r1, t.cy, t.sy);
    proof {
        lemma_rot_grow(r2.x as int, r2.y as int, r2.z as int, t.cz as int, t.sz as int,
            0x4_0000_0000);
    }
    let r3 = vec3_rotate_z(r2, t.cz, t.sz);
    Vec3 { x: r3.x + tr.x, y: r3.y + tr.y, z: r3.z + tr.z }
}

/// A scaled component stays below `2^32`.
proof fn lemma_scale_fits(x: int, s: int)
    requires
        coord_ok(x),
        scale_ok(s),
    ensures
        i64::MIN <= fp_mul_s(x, s) <= i64::MAX,
        abs(fp_mul_s(x, s)) < 0x1_0000_0000,
{
    assert(abs(x * s) < 0x1_0000_0000 * (FP_ONE as int)) by (nonlinear_arith)
        requires abs(x) < 0x1000_0000 && abs(s) < 0x10_0000;
    lemma_sdiv_strict_bound(x * s, FP_ONE as int, 0x1_0000_0000);
}

/// One rotation at most doubles the magnitude bound `b` of the rotated
/// components (and the in-range side conditions of the rotation hold).
proof fn lemma_rot_grow(x: int, y: int, z: int, c: int, s: int, b: int)
    requires
        trig_ok(c, s),
        0 < b <= 0x4_0000_0000,
        abs(x) < b,
        abs(y) < b,
        abs(z) < b,
    ensures
        abs(x) + abs(y) <= i64::MAX,
        abs(x) + abs(z) <= i64::MAX,
        abs(y) + abs(z) <= i64::MAX,
        abs(fp_mul_s(x, c) - fp_mul_s(y, s)) < 2 * b,
        abs(fp_mul_s(x, s) + fp_mul_s(y, c)) < 2 * b,
        abs(fp_mul_s(x, c) - fp_mul_s(z, s)) < 2 * b,
        abs(fp_mul_s(x, s) + fp_mul_s(z, c)) < 2 * b,
        abs(fp_mul_s(y, c) - fp_mul_s(z, s)) < 2 * b,
        abs(fp_mul_s(y, s) + fp_mul_s(z, c)) < 2 * b,
{
    lemma_fp_mul_le_one(x, c);
    lemma_fp_mul_le_one(x, s);
    lemma_fp_mul_le_one(y, c);
    lemma_fp_mul_le_one(y, s);
    lemma_fp_mul_le_one(z, c);
    lemma_fp_mul_le_one(z, s);
}

// ======================================================================
//  Backface culling
// ======================================================================

/// The backface test on the exact integers: the face is kept when the dot
/// product of its normal `cross(B - A, C - A)` with the ray from `A` to the
/// camera is nonnegative. Normalizing the edge vectors and the normal, as
/// renderers often do, scales them by positive factors only, so it cannot
/// change the sign of this dot product and is skipped here.
pub open spec fn face_visible_s(
    a: (int, int, int),
    b: (int, int, int),
    c: (int, int, int),
    cam: Vec3,
) -> bool {
    let abx = b.0 - a.0;
    let aby = b.1 - a.1;
    let abz = b.2 - a.2;
    let acx = c.0 - a.0;
    let acy = c.1 - a.1;
    let acz = c.2 - a.2;
    let nx = aby * acz - abz * acy;
    let ny = abz * acx - abx * acz;
    let nz = abx * acy - aby * acx;
    let rx = cam.x as int - a.0;
    let ry = cam.y as int - a.1;
    let rz = cam.z as int - a.2;
    nx * rx + ny * ry + nz * rz >= 0
}

pub fn face_visible(a: &Vec3, b: &Vec3, c: &Vec3, cam: &Vec3) -> (r: bool)
    requires
        tvert_ok(a.x as int) && tvert_ok(a.y as int) && tvert_ok(a.z as int),
        tvert_ok(b.x as int) && tvert_ok(b.y as int) && tvert_ok(b.z as int),
        tvert_ok(c.x as int) && tvert_ok(c.y as int) && tvert_ok(c.z as int),
        vec3_in_world(*cam),
    ensures
        r == face_visible_s(
            (a.x as int, a.y as int, a.z as int),
            (b.x as int, b.y as int, b.z as int),
            (c.x as int, c.y as int, c.z as int),
            *cam,
        ),
{
    let abx: i128 = b.x as i128 - a.x as i128;
    let aby: i128 = b.y as i128 - a.y as i128;
    let abz: i128 = b.z as i128 - a.z as i128;
    let acx: i128 = c.x as i128 - a.x as i128;
    let acy: i128 = c.y as i128 - a.y as i128;
    let acz: i128 = c.z as i128 - a.z as i128;
    proof {
        lemma_cull_products(abx as int, aby as int, abz as int, acx as int, acy as int, acz as int);
    }
    let nx: i128 = aby * acz - abz * acy;
    let ny: i128 = abz * acx - abx * acz;
    let nz: i128 = abx * acy - aby * acx;
    let rx: i128 = cam.x as i128 - a.x as i128;
    let ry: i128 = cam.y as i128 - a.y as i128;
    let rz: i128 = cam.z as i128 - a.z as i128;
    proof {
        lemma_cull_dot(nx as int, ny as int, nz as int, rx as int, ry as int, rz as int);
    }
    let d: i128 = nx * rx + ny * ry + nz * rz;
    d >= 0
}

/// The edge-vector products of the cull test stay far inside `i128`.
proof fn lemma_cull_products(abx: int, aby: int, abz: int, acx: int, acy: int, acz: int)
    requires
        abs(abx) < 0x20_0000_0000,
        abs(aby) < 0x20_0000_0000,
        abs(abz) < 0x20_0000_0000,
        abs(acx) < 0x20_0000_0000,
        abs(acy) < 0x20_0000_0000,
        abs(acz) < 0x20_0000_0000,
    ensures
        abs(aby * acz) < 0x4_0000_0000_0000_0000_0000,
        abs(abz * acy) < 0x4_0000_0000_0000_0000_0000,
        abs(abz * acx) < 0x4_0000_0000_0000_0000_0000,
        abs(abx * acz) < 0x4_0000_0000_0000_0000_0000,
        abs(abx * acy) < 0x4_0000_0000_0000_0000_0000,
        abs(aby * acx) < 0x4_0000_0000_0000_0000_0000,
        abs(aby * acz - abz * acy) < 0x8_0000_0000_0000_0000_0000,
        abs(abz * acx - abx * acz) < 0x8_0000_0000_0000_0000_0000,
        abs(abx * acy - aby * acx) < 0x8_0000_0000_0000_0000_0000,
{
    assert(abs(aby * acz) < 0x4_0000_0000_0000_0000_0000 && abs(abz * acy)
        < 0x4_0000_0000_0000_0000_0000 && abs(abz * acx) < 0x4_0000_0000_0000_0000_0000 && abs(
        abx * acz,
    ) < 0x4_0000_0000_0000_0000_0000 && abs(abx * acy) < 0x4_0000_0000_0000_0000_0000 && abs(
        aby * acx,
    ) < 0x4_0000_0000_0000_0000_0000) by (nonlinear_arith)
        requires
            abs(abx) < 0x20_0000_0000,
            abs(aby) < 0x20_0000_0000,
            abs(abz) < 0x20_0000_0000,
            abs(acx) < 0x20_0000_0000,
            abs(acy) < 0x20_0000_0000,
            abs(acz) < 0x20_0000_0000;
}

/// The dot product of the cull test stays far inside `i128`.
proof fn lemma_cull_dot(nx: int, ny: int, nz: int, rx: int, ry: int, rz: int)
    requires
        abs(nx) < 0x8_0000_0000_0000_0000_0000,
        abs(ny) < 0x8_0000_0000_0000_0000_0000,
        abs(nz) < 0x8_0000_0000_0000_0000_0000,
        abs(rx) < 0x20_0000_0000,
        abs(ry) < 0x20_0000_0000,
        abs(rz) < 0x20_0000_0000,
    ensures
        abs(nx * rx) < 0x100_0000_0000_0000_0000_0000_0000_0000,
        abs(ny * ry) < 0x100_0000_0000_0000_0000_0000_0000_0000,
        abs(nz * rz) < 0x100_0000_0000_0000_0000_0000_0000_0000,
{
    assert(abs(nx * rx) < 0x100_0000_0000_0000_0000_0000_0000_0000 && abs(ny * ry)
        < 0x100_0000_0000_0000_0000_0000_0000_0000 && abs(nz * rz)
        < 0x100_0000_0000_0000_0000_0000_0000_0000) by (nonlinear_arith)
        requires
            abs(nx) < 0x8_0000_0000_0000_0000_0000,
            abs(ny) < 0x8_0000_0000_0000_0000_0000,
            abs(nz) < 0x8_0000_0000_0000_0000_0000,
            abs(rx) < 0x20_0000_0000,
            abs(ry) < 0x20_0000_0000,
            abs(rz) < 0x20_0000_0000;
}

// ======================================================================
//  Projection stage
// ======================================================================

/// Pinhole projection of one camera-space coordinate: `p * fov / z` in the
/// fixed-point domain.
pub open spec fn project_coord_s(p: int, z: int, fov: int) -> int {
    fp_div_s(fp_mul_s(p, fov), z)
}

/// Projects a transformed vertex to screen space; the caller has excluded
/// `z == 0`, the documented division-by-zero edge case.
fn project(point: &Vec3, fov_factor: i64) -> (r: Vec2)
    requires
        point.z != 0,
        tvert_ok(point.x as int) && tvert_ok(point.y as int),
        fov_ok(fov_factor as int),
    ensures
        r.x as int == project_coord_s(point.x as int, point.z as int, fov_factor as int),
        r.y as int == project_coord_s(point.y as int, point.z as int, fov_factor as int),
        abs(r.x as int) < 0x4000_0000_0000_0000,
        abs(r.y as int) < 0x4000_0000_0000_0000,
{
    proof {
        lemma_project_fits(point.x as int, point.z as int, fov_factor as int);
        lemma_project_fits(point.y as int, point.z as int, fov_factor as int);
    }
    let px: i64 = fp_mul(point.x, fov_factor);
    let py: i64 = fp_mul(point.y, fov_factor);
    Vec2 { x: fp_div(px, point.z), y: fp_div(py, point.z) }
}

/// `|p| < 2^36` and `fov < 2^26` keep the projected coordinate below `2^62`.
proof fn lemma_project_fits(p: int, z: int, fov: int)
    requires
        tvert_ok(p),
        fov_ok(fov),
        z != 0,
    ensures
        i64::MIN <= fp_mul_s(p, fov) <= i64::MAX,
        abs(fp_mul_s(p, fov)) < 0x4000_0000_0000,
        i64::MIN <= fp_div_s(fp_mul_s(p, fov), z) <= i64::MAX,
        abs(fp_div_s(fp_mul_s(p, fov), z)) < 0x4000_0000_0000_0000,
{
    assert(abs(p * fov) < 0x4000_0000_0000 * (FP_ONE as int)) by (nonlinear_arith)
        requires abs(p) < 0x10_0000_0000 && 0 <= fov < 0x400_0000;
    lemma_sdiv_strict_bound(p * fov, FP_ONE as int, 0x4000_0000_0000);
    let t = fp_mul_s(p, fov);
    lemma_sdiv_abs(t * FP_ONE, z);
    assert(abs(t * FP_ONE) < 0x4000_0000_0000_0000) by (nonlinear_arith)
        requires abs(t) < 0x4000_0000_0000;
}

} // verus!

verus! {

// ======================================================================
//  Per-face pipeline
// ======================================================================

/// Screen-centering offsets in Q16.16.
pub open spec fn half_w_fp() -> int {
    (WIDTH as int / 2) * (FP_ONE as int)
}

pub open spec fn half_h_fp() -> int {
    (HEIGHT as int / 2) * (FP_ONE as int)
}

/// The three transformed vertices of a face.
pub open spec fn face_tverts(mesh: Mesh, t: RotationTrig, f: Face) -> (
    (int, int, int),
    (int, int, int),
    (int, int, int),
) {
    (
        transform_vertex_s(mesh.vertices@[f.a as int - 1], t, mesh.scale, mesh.translation),
        transform_vertex_s(mesh.vertices@[f.b as int - 1], t, mesh.scale, mesh.translation),
        transform_vertex_s(mesh.vertices@[f.c as int - 1], t, mesh.scale, mesh.translation),
    )
}

/// Whether a face survives the frame: it passes the backface test and none
/// of its transformed vertices lies exactly on the camera plane (`z == 0`,
/// the unprojectable case, treated as invisible).
pub open spec fn spec_face_kept(mesh: Mesh, t: RotationTrig, cam: Vec3, f: Face) -> bool {
    let (ta, tb, tc) = face_tverts(mesh, t, f);
    face_visible_s(ta, tb, tc, cam) && ta.2 != 0 && tb.2 != 0 && tc.2 != 0
}

/// The projected triangle a kept face becomes: each vertex projected and
/// centered on screen, the mean of the three camera-space depths, and the
/// face's color.
pub open spec fn spec_projected_triangle(mesh: Mesh, t: RotationTrig, fov: int, f: Face)
    -> Triangle {
    let (ta, tb, tc) = face_tverts(mesh, t, f);
    Triangle {
        points: [
            (Vec2 {
                x: (project_coord_s(ta.0, ta.2, fov) + half_w_fp()) as i64,
                y: (project_coord_s(ta.1, ta.2, fov) + half_h_fp()) as i64,
            }),
            (Vec2 {
                x: (project_coord_s(tb.0, tb.2, fov) + half_w_fp()) as i64,
                y: (project_coord_s(tb.1, tb.2, fov) + half_h_fp()) as i64,
            }),
            (Vec2 {
                x: (project_coord_s(tc.0, tc.2, fov) + half_w_fp()) as i64,
                y: (project_coord_s(tc.1, tc.2, fov) + half_h_fp()) as i64,
            }),
        ],
        avg_depth: sdiv(ta.2 + tb.2 + tc.2, 3) as i64,
        rgba: f.rgba,
    }
}

/// The triangles the first `n` faces contribute, in face order.
pub open spec fn spec_visible_triangles(
    mesh: Mesh,
    t: RotationTrig,
    cam: Vec3,
    fov: int,
    n: int,
) -> Seq<Triangle>
    decreases n,
{
    if n <= 0 {
        Seq::empty()
    } else {
        let pre = spec_visible_triangles(mesh, t, cam, fov, n - 1);
        let f = mesh.faces@[n - 1];
        if spec_face_kept(mesh, t, cam, f) {
            pre.push(spec_projected_triangle(mesh, t, fov, f))
        } else {
            pre
        }
    }
}

/// Descending by average depth: farther triangles come first.
pub open spec fn sorted_by_depth_desc(s: Seq<Triangle>) -> bool {
    forall|i: int, j: int|
        #![trigger s[i].avg_depth, s[j].avg_depth]
        0 <= i < j < s.len() ==> s[i].avg_depth >= s[j].avg_depth
}

// ======================================================================
//  Depth ordering (painter's algorithm)
// ======================================================================

/// Swapping two elements of a sequence keeps its multiset of elements.
proof fn lemma_swap_multiset(s: Seq<Triangle>, i: int, j: int)
    requires
        0 <= i < s.len(),
        0 <= j < s.len(),
        i != j,
    ensures
        s.update(i, s[j]).update(j, s[i]).to_multiset() == s.to_multiset(),
{
    broadcast use vstd::seq_lib::to_multiset_update;
    broadcast use vstd::seq_lib::group_to_multiset_ensures;
    broadcast use vstd::multiset::group_multiset_axioms;

    let s1 = s.update(i, s[j]);
    let s2 = s1.update(j, s[i]);
    assert(s1[j] == s[j]);
    assert(s.contains(s[i]));
    assert(s.to_multiset().count(s[i]) > 0);
    assert(s1.contains(s1[j]));
    assert(s1.to_multiset().count(s[j]) > 0);
    assert forall|x: Triangle| s2.to_multiset().count(x) == s.to_multiset().count(x) by {
        assert(s2.to_multiset() == s1.to_multiset().insert(s[i]).remove(s[j]));
        assert(s1.to_multiset() == s.to_multiset().insert(s[j]).remove(s[i]));
    }
    assert(s2.to_multiset() =~= s.to_multiset());
}

/// Sorts the triangle list by descending average depth, so that farther
/// triangles are drawn first. The result is a permutation of the input.
pub fn sort_triangles_by_depth(list: &mut Vec<Triangle>)
    ensures
        final(list)@.len() == old(list)@.len(),
        sorted_by_depth_desc(final(list)@),
        final(list)@.to_multiset() == old(list)@.to_multiset(),
{
    let ghost orig = list@;
    let n: usize = list.len();
    if n == 0 {
        return ;
    }
    let mut i: usize = 1;
    while i < n
        invariant
            n == list@.len(),
            1 <= i <= n,
            list@.to_multiset() == orig.to_multiset(),
            forall|a: int, b: int|
                #![trigger list@[a].avg_depth, list@[b].avg_depth]
                0 <= a < b < i as int ==> list@[a].avg_depth >= list@[b].avg_depth,
        decreases n - i,
    {
        let mut j: usize = i;
        while j > 0 && list[j - 1].avg_depth < list[j].avg_depth
            invariant
                n == list@.len(),
                0 <= j <= i < n,
                list@.to_multiset() == orig.to_multiset(),
                forall|a: int, b: int|
                    #![trigger list@[a].avg_depth, list@[b].avg_depth]
                    0 <= a < b <= i as int && a != j as int && b != j as int ==> list@[a].avg_depth
                        >= list@[b].avg_depth,
                forall|b: int|
                    #![trigger list@[b].avg_depth]
                    (j as int) < b && b <= i as int ==> list@[j as int].avg_depth
                        >= list@[b].avg_depth,
            decreases j,
        {
            let vj: Triangle = list[j];
            let vp: Triangle = list[j - 1];
            proof {
                lemma_swap_multiset(list@, j as int - 1, j as int);
            }
            list[j - 1] = vj;
            list[j] = vp;
            j = j - 1;
        }
        i = i + 1;
    }
}

// ======================================================================
//  The renderer
// ======================================================================

/// The rendering state for one mesh: the camera, the field-of-view factor,
/// the mesh with its pose, and the frame-scoped list of projected triangles.
pub struct Renderer {
    pub camera_pos: Vec3,
    pub fov_factor: i64,
    pub mesh: Mesh,
    pub triangles_to_render: Vec<Triangle>,
}

/// The renderer's standing well-formedness: camera, field of view and mesh
/// within the world bounds.
pub open spec fn renderer_wf(r: Renderer) -> bool {
    mesh_wf(r.mesh) && vec3_in_world(r.camera_pos) && fov_ok(r.fov_factor as int)
}

impl Renderer {
    /// A renderer for the given mesh: camera at the origin, field-of-view
    /// factor 640, no triangles pending.
    pub fn new(mesh: Mesh) -> (r: Renderer)
        ensures
            r.camera_pos.x == 0 && r.camera_pos.y == 0 && r.camera_pos.z == 0,
            r.fov_factor == 640 * FP_ONE,
            r.mesh == mesh,
            r.triangles_to_render@.len() == 0,
    {
        Renderer {
            camera_pos: Vec3 { x: 0, y: 0, z: 0 },
            fov_factor: 640 * FP_ONE,
            mesh,
            triangles_to_render: Vec::new(),
        }
    }

    /// The per-frame pose mutation that opens an update: each rotation angle
    /// advances by the given step and the mesh is held at the given depth.
    /// Vertices, faces, scale, the planar translation and everything else of
    /// the renderer stay untouched. The trigonometry of the new angles is
    /// evaluated by the caller; `update` then takes its cosine/sine pairs.
    pub fn advance_pose(&mut self, rot_step: Vec3, translation_z: i64)
        requires
            i64::MIN <= old(self).mesh.rotation.x + rot_step.x <= i64::MAX,
            i64::MIN <= old(self).mesh.rotation.y + rot_step.y <= i64::MAX,
            i64::MIN <= old(self).mesh.rotation.z + rot_step.z <= i64::MAX,
        ensures
            final(self).mesh.rotation.x == old(self).mesh.rotation.x + rot_step.x,
            final(self).mesh.rotation.y == old(self).mesh.rotation.y + rot_step.y,
            final(self).mesh.rotation.z == old(self).mesh.rotation.z + rot_step.z,
            final(self).mesh.translation.x == old(self).mesh.translation.x,
            final(self).mesh.translation.y == old(self).mesh.translation.y,
            final(self).mesh.translation.z == translation_z,
            final(self).mesh.vertices == old(self).mesh.vertices,
            final(self).mesh.faces == old(self).mesh.faces,
            final(self).mesh.scale == old(self).mesh.scale,
            final(self).camera_pos == old(self).camera_pos,
            final(self).fov_factor == old(self).fov_factor,
            final(self).triangles_to_render == old(self).triangles_to_render,
    {
        self.mesh.rotation.x = self.mesh.rotation.x + rot_step.x;
        self.mesh.rotation.y = self.mesh.rotation.y + rot_step.y;
        self.mesh.rotation.z = self.mesh.rotation.z + rot_step.z;
        self.mesh.translation.z = translation_z;
    }

    /// Rebuilds the frame's triangle list: transforms every face, drops the
    /// back-facing ones, projects the rest, and orders them farthest first.
    /// The mesh and camera are left untouched.
    pub fn update(&mut self, trig: &RotationTrig)
        requires
            renderer_wf(*old(self)),
            trig_all_ok(*trig),
        ensures
            final(self).mesh == old(self).mesh,
            final(self).camera_pos == old(self).camera_pos,
            final(self).fov_factor == old(self).fov_factor,
            sorted_by_depth_desc(final(self).triangles_to_render@),
            final(self).triangles_to_render@.to_multiset() == spec_visible_triangles(
                old(self).mesh,
                *trig,
                old(self).camera_pos,
                old(self).fov_factor as int,
                old(self).mesh.faces@.len() as int,
            ).to_multiset(),
    {
        self.triangles_to_render.clear();
        let n: usize = self.mesh.faces.len();
        let half_w: i64 = ((WIDTH / 2) as i64) * FP_ONE;
        let half_h: i64 = ((HEIGHT / 2) as i64) * FP_ONE;
        let mut i: usize = 0;
        while i < n
            invariant
                renderer_wf(*self),
                trig_all_ok(*trig),
                n == self.mesh.faces@.len(),
                0 <= i <= n,
                self.mesh == old(self).mesh,
                self.camera_pos == old(self).camera_pos,
                self.fov_factor == old(self).fov_factor,
                half_w == half_w_fp(),
                half_h == half_h_fp(),
                self.triangles_to_render@ == spec_visible_triangles(
                    self.mesh,
                    *trig,
                    self.camera_pos,
                    self.fov_factor as int,
                    i as int,
                ),
            decreases n - i,
        {
            let f: Face = self.mesh.faces[i];
            let va: Vec3 = self.mesh.vertices[(f.a - 1) as usize];
            let vb: Vec3 = self.mesh.vertices[(f.b - 1) as usize];
            let vc: Vec3 = self.mesh.vertices[(f.c - 1) as usize];
            let ta: Vec3 = transform_vertex(va, trig, self.mesh.scale, self.mesh.translation);
            let tb: Vec3 = transform_vertex(vb, trig, self.mesh.scale, self.mesh.translation);
            let tc: Vec3 = transform_vertex(vc, trig, self.mesh.scale, self.mesh.translation);
            let visible: bool = face_visible(&ta, &tb, &tc, &self.camera_pos);
            if visible && ta.z != 0 && tb.z != 0 && tc.z != 0 {
                let pa: Vec2 = project(&ta, self.fov_factor);
                let pb: Vec2 = project(&tb, self.fov_factor);
                let pc: Vec2 = project(&tc, self.fov_factor);
                let sum: i128 = ta.z as i128 + tb.z as i128 + tc.z as i128;
                let avg: i128 = trunc_div_i128(sum, 3);
                let tri = Triangle {
                    points: [
                        Vec2 { x: pa.x + half_w, y: pa.y + half_h },
                        Vec2 { x: pb.x + half_w, y: pb.y + half_h },
                        Vec2 { x: pc.x + half_w, y: pc.y + half_h },
                    ],
                    avg_depth: avg as i64,
                    rgba: f.rgba,
                };
                proof {
                    let spec_tri = spec_projected_triangle(
                        self.mesh,
                        *trig,
                        self.fov_factor as int,
                        f,
                    );
                    assert(tri.points =~= spec_tri.points);
                    assert(tri == spec_tri);
                }
                self.triangles_to_render.push(tri);
            }
            proof {
                assert(self.triangles_to_render@ == spec_visible_triangles(
                    self.mesh,
                    *trig,
                    self.camera_pos,
                    self.fov_factor as int,
                    i as int + 1,
                ));
            }
            i = i + 1;
        }
        sort_triangles_by_depth(&mut self.triangles_to_render);
    }
}

} // verus!

verus! {

// ======================================================================
//  Drawing
// ======================================================================

/// Saturating conversion of a value to the `i32` range, as a float-to-int
/// cast saturates.
pub open spec fn clamp_i32_s(v: int) -> int {
    if v < i32::MIN as int {
        i32::MIN as int
    } else if v > i32::MAX as int {
        i32::MAX as int
    } else {
        v
    }
}

/// A projected point's screen column: the Q16.16 coordinate truncated to an
/// integer pixel and saturated to the `i32` range.
pub open spec fn tri_sx(t: Triangle, k: int) -> int {
    clamp_i32_s(sdiv(t.points[k].x as int, FP_ONE as int))
}

pub open spec fn tri_sy(t: Triangle, k: int) -> int {
    clamp_i32_s(sdiv(t.points[k].y as int, FP_ONE as int))
}

/// Truncates a Q16.16 coordinate to a pixel coordinate, saturating.
fn fp_to_screen(v: i64) -> (r: i32)
    ensures
        r as int == clamp_i32_s(sdiv(v as int, FP_ONE as int)),
{
    let q: i128 = trunc_div_i128(v as i128, 65536);
    if q < i32::MIN as i128 {
        i32::MIN
    } else if q > i32::MAX as i128 {
        i32::MAX
    } else {
        q as i32
    }
}

/// What one frame leaves at a pixel: scanning the triangle list from the
/// last (nearest, drawn last) to the first, the first triangle touching the
/// pixel decides its color; its wireframe edges are drawn over its fill.
/// A pixel no triangle touches keeps the background color.
pub open spec fn drawn_pix(ts: Seq<Triangle>, px: int, py: int, c: int) -> u8
    decreases ts.len(),
{
    if ts.len() == 0 {
        BACKGROUND_COLOR[c]
    } else {
        let t = ts.last();
        if outline_covered(
            tri_sx(t, 0),
            tri_sy(t, 0),
            tri_sx(t, 1),
            tri_sy(t, 1),
            tri_sx(t, 2),
            tri_sy(t, 2),
            px,
            py,
        ) {
            C_GREEN[c]
        } else if filled_covered(
            tri_sx(t, 0),
            tri_sy(t, 0),
            tri_sx(t, 1),
            tri_sy(t, 1),
            tri_sx(t, 2),
            tri_sy(t, 2),
            px,
            py,
        ) {
            t.rgba[c]
        } else {
            drawn_pix(ts.drop_last(), px, py, c)
        }
    }
}

impl Renderer {
    /// Draws the frame: clears to the background color, then paints every
    /// pending triangle in order, filled and outlined; the pending list is
    /// consumed.
    pub fn draw(&mut self, frame: &mut Vec<u8>)
        requires
            frame_ok(old(frame)@),
        ensures
            frame_ok(final(frame)@),
            forall|px: int, py: int, c: int|
                pix_in_frame(px, py, c) ==> #[trigger] pix(final(frame)@, px, py, c) == drawn_pix(
                    old(self).triangles_to_render@,
                    px,
                    py,
                    c,
                ),
            final(self).triangles_to_render@.len() == 0,
            final(self).mesh == old(self).mesh,
            final(self).camera_pos == old(self).camera_pos,
            final(self).fov_factor == old(self).fov_factor,
    {
        let ghost ts = self.triangles_to_render@;
        // Clear screen.
        clear_color_buffer(frame, BACKGROUND_COLOR);
        let n: usize = self.triangles_to_render.len();
        let mut m: usize = 0;
        while m < n
            invariant
                frame_ok(frame@),
                n == self.triangles_to_render@.len(),
                0 <= m <= n,
                ts == self.triangles_to_render@,
                self.mesh == old(self).mesh,
                self.camera_pos == old(self).camera_pos,
                self.fov_factor == old(self).fov_factor,
                self.triangles_to_render@ == old(self).triangles_to_render@,
                forall|px: int, py: int, c: int|
                    pix_in_frame(px, py, c) ==> #[trigger] pix(frame@, px, py, c) == drawn_pix(
                        ts.take(m as int),
                        px,
                        py,
                        c,
                    ),
            decreases n - m,
        {
            let t: Triangle = self.triangles_to_render[m];
            let x0: i32 = fp_to_screen(t.points[0].x);
            let y0: i32 = fp_to_screen(t.points[0].y);
            let x1: i32 = fp_to_screen(t.points[1].x);
            let y1: i32 = fp_to_screen(t.points[1].y);
            let x2: i32 = fp_to_screen(t.points[2].x);
            let y2: i32 = fp_to_screen(t.points[2].y);
            // Filled face, then the wireframe edges over it.
            draw_triangle(frame, t.rgba, true, x0, y0, x1, y1, x2, y2);
            draw_triangle(frame, C_GREEN, false, x0, y0, x1, y1, x2, y2);
            proof {
                assert(ts.take(m as int + 1).last() == ts[m as int]);
                assert(ts.take(m as int + 1).drop_last() =~= ts.take(m as int));
            }
            m = m + 1;
        }
        proof {
            assert(ts.take(n as int) =~= ts);
        }
        // The triangle list is frame-scoped: consumed by drawing.
        self.triangles_to_render.clear();
    }
}

} // verus!
