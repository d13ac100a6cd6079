use rasterizer::fixed::FP_ONE;
use rasterizer::light::light_apply_intensity;
use rasterizer::matrix::{
    mat4_identity, mat4_make_perspective, mat4_make_rotation_z, mat4_make_scale,
    mat4_make_translation, mat4_mul_mat4, mat4_mul_vec4, mat4_mul_vec4_project, Mat4,
};
use rasterizer::vector::{
    vec2_add, vec2_div, vec2_dot, vec2_length, vec2_mul, vec2_normalize, vec2_sub, vec3_add,
    vec3_cross, vec3_div, vec3_dot, vec3_length, vec3_mul, vec3_normalize, vec3_rotate_x,
    vec3_rotate_y, vec3_rotate_z, vec3_sub, vec4_from_vec3, vec3_from_vec4, Vec2, Vec3, Vec4,
};

fn fp(v: f64) -> i64 {
    (v * 65536.0).round() as i64
}

fn v3(x: i64, y: i64, z: i64) -> Vec3 {
    Vec3 { x, y, z }
}

#[test]
fn componentwise_vector_arithmetic() {
    let a = v3(FP_ONE, 2 * FP_ONE, -3 * FP_ONE);
    let b = v3(4 * FP_ONE, -5 * FP_ONE, 6 * FP_ONE);
    let s = vec3_add(a, b);
    assert_eq!((s.x, s.y, s.z), (5 * FP_ONE, -3 * FP_ONE, 3 * FP_ONE));
    let d = vec3_sub(a, b);
    assert_eq!((d.x, d.y, d.z), (-3 * FP_ONE, 7 * FP_ONE, -9 * FP_ONE));
    let m = vec3_mul(a, 2 * FP_ONE);
    assert_eq!((m.x, m.y, m.z), (2 * FP_ONE, 4 * FP_ONE, -6 * FP_ONE));
    let q = vec3_div(a, 2 * FP_ONE);
    assert_eq!((q.x, q.y, q.z), (FP_ONE / 2, FP_ONE, -3 * FP_ONE / 2));
}

#[test]
fn vec2_arithmetic_and_dot() {
    let a = Vec2 { x: 3 * FP_ONE, y: 4 * FP_ONE };
    let b = Vec2 { x: -FP_ONE, y: 2 * FP_ONE };
    let s = vec2_add(a, b);
    assert_eq!((s.x, s.y), (2 * FP_ONE, 6 * FP_ONE));
    let d = vec2_sub(a, b);
    assert_eq!((d.x, d.y), (4 * FP_ONE, 2 * FP_ONE));
    let m = vec2_mul(a, FP_ONE / 2);
    assert_eq!((m.x, m.y), (3 * FP_ONE / 2, 2 * FP_ONE));
    let q = vec2_div(a, FP_ONE * 2);
    assert_eq!((q.x, q.y), (3 * FP_ONE / 2, 2 * FP_ONE));
    assert_eq!(vec2_dot(a, b), -3 * FP_ONE + 8 * FP_ONE);
}

#[test]
fn cross_product_of_unit_axes() {
    let x = v3(FP_ONE, 0, 0);
    let y = v3(0, FP_ONE, 0);
    let c = vec3_cross(x, y);
    assert_eq!((c.x, c.y, c.z), (0, 0, FP_ONE));
}

#[test]
fn cross_is_antisymmetric() {
    let a = v3(fp(1.5), fp(-2.25), fp(3.0));
    let b = v3(fp(0.5), fp(4.0), fp(-1.75));
    let ab = vec3_cross(a, b);
    let ba = vec3_cross(b, a);
    assert_eq!((ab.x, ab.y, ab.z), (-ba.x, -ba.y, -ba.z));
}

#[test]
fn dot_is_symmetric() {
    let a = v3(fp(1.5), fp(-2.25), fp(3.0));
    let b = v3(fp(0.5), fp(4.0), fp(-1.75));
    assert_eq!(vec3_dot(a, b), vec3_dot(b, a));
}

#[test]
fn length_of_a_pythagorean_triple_is_exact() {
    assert_eq!(vec3_length(v3(3 * FP_ONE, 4 * FP_ONE, 0)), 5 * FP_ONE);
    let a = Vec2 { x: 3 * FP_ONE, y: 4 * FP_ONE };
    assert_eq!(vec2_length(a), 5 * FP_ONE);
}

#[test]
fn normalized_vector_has_length_near_one() {
    let mut v = v3(3 * FP_ONE, 4 * FP_ONE, 12 * FP_ONE);
    vec3_normalize(&mut v);
    let len = vec3_length(v);
    assert!((len - FP_ONE).abs() <= 8, "length {} too far from one", len);

    let mut w = v3(fp(0.9), fp(-7.3), fp(2.8));
    vec3_normalize(&mut w);
    let len = vec3_length(w);
    assert!((len - FP_ONE).abs() <= 8, "length {} too far from one", len);

    let mut u = Vec2 { x: fp(-5.0), y: fp(1.2) };
    vec2_normalize(&mut u);
    let len = vec2_length(u);
    assert!((len - FP_ONE).abs() <= 8, "length {} too far from one", len);
}

#[test]
fn rotating_by_zero_radians_returns_the_vector() {
    let v = v3(fp(1.25), fp(-2.5), fp(3.75));
    let rx = vec3_rotate_x(v, FP_ONE, 0);
    assert_eq!((rx.x, rx.y, rx.z), (v.x, v.y, v.z));
    let ry = vec3_rotate_y(v, FP_ONE, 0);
    assert_eq!((ry.x, ry.y, ry.z), (v.x, v.y, v.z));
    let rz = vec3_rotate_z(v, FP_ONE, 0);
    assert_eq!((rz.x, rz.y, rz.z), (v.x, v.y, v.z));
}

#[test]
fn rotating_there_and_back_returns_near_the_vector() {
    let v = v3(fp(1.0), fp(2.0), fp(3.0));
    let theta: f64 = 0.3;
    let c = fp(theta.cos());
    let s = fp(theta.sin());
    let fwd = vec3_rotate_x(v, c, s);
    let back = vec3_rotate_x(fwd, c, -s);
    assert!((back.x - v.x).abs() <= 16);
    assert!((back.y - v.y).abs() <= 16);
    assert!((back.z - v.z).abs() <= 16);
    let fwd = vec3_rotate_y(v, c, s);
    let back = vec3_rotate_y(fwd, c, -s);
    assert!((back.x - v.x).abs() <= 16);
    assert!((back.y - v.y).abs() <= 16);
    assert!((back.z - v.z).abs() <= 16);
    let fwd = vec3_rotate_z(v, c, s);
    let back = vec3_rotate_z(fwd, c, -s);
    assert!((back.x - v.x).abs() <= 16);
    assert!((back.y - v.y).abs() <= 16);
    assert!((back.z - v.z).abs() <= 16);
}

#[test]
fn quarter_turn_about_z_swaps_the_axes() {
    let v = v3(FP_ONE, 0, 0);
    let r = vec3_rotate_z(v, 0, FP_ONE);
    assert_eq!((r.x, r.y, r.z), (0, FP_ONE, 0));
}

#[test]
fn identity_is_neutral_for_matrix_multiplication() {
    let id = mat4_identity();
    let m = Mat4 {
        m: [
            [fp(1.5), fp(-2.0), fp(3.25), fp(4.0)],
            [fp(0.5), fp(6.0), fp(-7.5), fp(8.0)],
            [fp(9.0), fp(10.25), fp(11.0), fp(-12.0)],
            [fp(13.0), fp(-14.5), fp(15.0), fp(16.0)],
        ],
    };
    let left = mat4_mul_mat4(&id, &m);
    let right = mat4_mul_mat4(&m, &id);
    for i in 0..4 {
        for j in 0..4 {
            assert_eq!(left.m[i][j], m.m[i][j]);
            assert_eq!(right.m[i][j], m.m[i][j]);
        }
    }
}

#[test]
fn scale_translation_and_rotation_matrices_transform_points() {
    let p = Vec4 { x: FP_ONE, y: 2 * FP_ONE, z: 3 * FP_ONE, w: FP_ONE };
    let sc = mat4_make_scale(2 * FP_ONE, 3 * FP_ONE, 4 * FP_ONE);
    let sp = mat4_mul_vec4(&sc, &p);
    assert_eq!((sp.x, sp.y, sp.z, sp.w), (2 * FP_ONE, 6 * FP_ONE, 12 * FP_ONE, FP_ONE));
    let tr = mat4_make_translation(5 * FP_ONE, -6 * FP_ONE, 7 * FP_ONE);
    let tp = mat4_mul_vec4(&tr, &p);
    assert_eq!((tp.x, tp.y, tp.z, tp.w), (6 * FP_ONE, -4 * FP_ONE, 10 * FP_ONE, FP_ONE));
    // a quarter turn about z sends x to y
    let rz = mat4_make_rotation_z(0, FP_ONE);
    let rp = mat4_mul_vec4(&rz, &Vec4 { x: FP_ONE, y: 0, z: 0, w: FP_ONE });
    assert_eq!((rp.x, rp.y, rp.z, rp.w), (0, FP_ONE, 0, FP_ONE));
}

#[test]
fn perspective_matrix_divides_by_depth() {
    // inv_tan_half_fov = 1, aspect = 1, znear = 1, zfar = 9
    let proj = mat4_make_perspective(FP_ONE, FP_ONE, FP_ONE, 9 * FP_ONE);
    assert_eq!(proj.m[0][0], FP_ONE);
    assert_eq!(proj.m[1][1], FP_ONE);
    assert_eq!(proj.m[2][2], 9 * FP_ONE / 8);
    assert_eq!(proj.m[2][3], -9 * FP_ONE / 8);
    assert_eq!(proj.m[3][2], FP_ONE);
    // a point at z = 2: w becomes 2, x and y divide by 2
    let p = Vec4 { x: 4 * FP_ONE, y: 2 * FP_ONE, z: 2 * FP_ONE, w: FP_ONE };
    let q = mat4_mul_vec4_project(&proj, &p);
    assert_eq!(q.w, 2 * FP_ONE);
    assert_eq!(q.x, 2 * FP_ONE);
    assert_eq!(q.y, FP_ONE);
}

#[test]
fn homogeneous_round_trip_keeps_the_point() {
    let v = v3(fp(1.5), fp(2.5), fp(-3.5));
    let h = vec4_from_vec3(&v);
    assert_eq!(h.w, FP_ONE);
    let b = vec3_from_vec4(&h);
    assert_eq!((b.x, b.y, b.z), (v.x, v.y, v.z));
}

#[test]
fn light_intensity_scales_and_clamps() {
    let color = [200u8, 100, 50, 255];
    assert_eq!(light_apply_intensity(&color, FP_ONE / 2), [100, 50, 25, 255]);
    assert_eq!(light_apply_intensity(&color, FP_ONE), color);
    assert_eq!(light_apply_intensity(&color, 2 * FP_ONE), color);
    assert_eq!(light_apply_intensity(&color, -FP_ONE), [0, 0, 0, 255]);
}

#[test]
fn default_matrix_is_the_identity() {
    let d = Mat4::default();
    for i in 0..4 {
        for j in 0..4 {
            assert_eq!(d.m[i][j], if i == j { FP_ONE } else { 0 });
        }
    }
}
