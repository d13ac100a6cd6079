use rasterizer::consts::{C_BLACK, C_GREEN, C_WHITE, HEIGHT, WIDTH};
use rasterizer::fixed::FP_ONE;
use rasterizer::mesh::Mesh;
use rasterizer::render::{face_visible, sort_triangles_by_depth, Renderer, RotationTrig};
use rasterizer::triangle::{Face, Triangle};
use rasterizer::vector::{Vec2, Vec3};

fn identity_trig() -> RotationTrig {
    RotationTrig { cx: FP_ONE, sx: 0, cy: FP_ONE, sy: 0, cz: FP_ONE, sz: 0 }
}

fn v3(x: i64, y: i64, z: i64) -> Vec3 {
    Vec3 { x, y, z }
}

/// A mesh holding one triangle at depth 5 with the given winding.
fn one_face_mesh(a: i32, b: i32, c: i32) -> Mesh {
    Mesh {
        vertices: vec![
            v3(0, 0, 5 * FP_ONE),
            v3(FP_ONE, 0, 5 * FP_ONE),
            v3(0, FP_ONE, 5 * FP_ONE),
        ],
        faces: vec![Face { a, b, c, rgba: C_WHITE }],
        rotation: v3(0, 0, 0),
        scale: v3(FP_ONE, FP_ONE, FP_ONE),
        translation: v3(0, 0, 0),
    }
}

#[test]
fn backface_test_follows_the_dot_product_sign() {
    let a = v3(0, 0, 5 * FP_ONE);
    let b = v3(FP_ONE, 0, 5 * FP_ONE);
    let c = v3(0, FP_ONE, 5 * FP_ONE);
    let cam = v3(0, 0, 0);
    // normal cross(B-A, C-A) points along +z, the camera ray along -z
    assert!(!face_visible(&a, &b, &c, &cam));
    // the reversed winding flips the normal toward the camera
    assert!(face_visible(&a, &c, &b, &cam));
}

#[test]
fn face_looking_away_from_the_camera_is_dropped() {
    // normal = cross(B-A, C-A) points along +z, the camera ray along -z:
    // the dot product is negative, so the face is culled.
    let mut r = Renderer::new(one_face_mesh(1, 2, 3));
    r.update(&identity_trig());
    assert_eq!(r.triangles_to_render.len(), 0);
}

#[test]
fn face_looking_toward_the_camera_is_kept() {
    // the reversed winding flips the normal toward the camera: dot >= 0.
    let mut r = Renderer::new(one_face_mesh(1, 3, 2));
    r.update(&identity_trig());
    assert_eq!(r.triangles_to_render.len(), 1);
}

#[test]
fn kept_face_projects_to_the_screen_center_region() {
    let mut r = Renderer::new(one_face_mesh(1, 3, 2));
    r.update(&identity_trig());
    let t = &r.triangles_to_render[0];
    // A = (0,0,5): projects to the screen center (400, 250)
    assert_eq!((t.points[0].x, t.points[0].y), (400 * FP_ONE, 250 * FP_ONE));
    // C = (0,1,5): x stays centered, y is 640/5 = 128 below center
    assert_eq!((t.points[1].x, t.points[1].y), (400 * FP_ONE, 378 * FP_ONE));
    // B = (1,0,5): x is 128 right of center
    assert_eq!((t.points[2].x, t.points[2].y), (528 * FP_ONE, 250 * FP_ONE));
    assert_eq!(t.avg_depth, 5 * FP_ONE);
    assert_eq!(t.rgba, C_WHITE);
}

fn depth_triangle(d: i64) -> Triangle {
    Triangle {
        points: [Vec2 { x: 0, y: 0 }, Vec2 { x: 0, y: 0 }, Vec2 { x: 0, y: 0 }],
        avg_depth: d,
        rgba: C_WHITE,
    }
}

#[test]
fn depth_order_puts_the_farthest_triangle_first() {
    let mut list = vec![
        depth_triangle(FP_ONE),
        depth_triangle(5 * FP_ONE),
        depth_triangle(3 * FP_ONE),
    ];
    sort_triangles_by_depth(&mut list);
    let depths: Vec<i64> = list.iter().map(|t| t.avg_depth).collect();
    assert_eq!(depths, vec![5 * FP_ONE, 3 * FP_ONE, FP_ONE]);
}

#[test]
fn sorting_depths_keeps_every_triangle() {
    let mut list = vec![
        depth_triangle(2 * FP_ONE),
        depth_triangle(2 * FP_ONE),
        depth_triangle(-FP_ONE),
        depth_triangle(7 * FP_ONE),
    ];
    sort_triangles_by_depth(&mut list);
    let depths: Vec<i64> = list.iter().map(|t| t.avg_depth).collect();
    assert_eq!(depths, vec![7 * FP_ONE, 2 * FP_ONE, 2 * FP_ONE, -FP_ONE]);
}

#[test]
fn drawing_paints_the_triangle_and_consumes_the_list() {
    let mut r = Renderer::new(one_face_mesh(1, 3, 2));
    r.update(&identity_trig());
    assert_eq!(r.triangles_to_render.len(), 1);
    let mut frame = vec![0u8; (WIDTH as usize) * (HEIGHT as usize) * 4];
    r.draw(&mut frame);
    assert_eq!(r.triangles_to_render.len(), 0);
    let pixel = |x: usize, y: usize| -> [u8; 4] {
        let base = (y * WIDTH as usize + x) * 4;
        [frame[base], frame[base + 1], frame[base + 2], frame[base + 3]]
    };
    // a vertex lies on the wireframe edges drawn over the fill
    assert_eq!(pixel(400, 250), C_GREEN);
    // the interior is filled with the face color
    assert_eq!(pixel(430, 280), C_WHITE);
    // far corners keep the background
    assert_eq!(pixel(10, 10), C_BLACK);
    assert_eq!(pixel(790, 490), C_BLACK);
}

#[test]
fn update_leaves_the_mesh_untouched() {
    let mut r = Renderer::new(one_face_mesh(1, 3, 2));
    r.update(&identity_trig());
    assert_eq!(r.mesh.vertices.len(), 3);
    assert_eq!(r.mesh.faces.len(), 1);
    assert_eq!(r.mesh.scale.x, FP_ONE);
    assert_eq!(r.camera_pos.x, 0);
    assert_eq!(r.fov_factor, 640 * FP_ONE);
}

#[test]
fn translation_moves_the_mesh_before_projection() {
    let mut m = one_face_mesh(1, 3, 2);
    for v in m.vertices.iter_mut() {
        v.z = 0;
    }
    m.translation = v3(0, 0, 5 * FP_ONE);
    let mut r = Renderer::new(m);
    r.update(&identity_trig());
    assert_eq!(r.triangles_to_render.len(), 1);
    assert_eq!(r.triangles_to_render[0].avg_depth, 5 * FP_ONE);
}

#[test]
fn scale_doubles_the_projected_offset() {
    let mut m = one_face_mesh(1, 3, 2);
    m.scale = v3(2 * FP_ONE, 2 * FP_ONE, FP_ONE);
    let mut r = Renderer::new(m);
    r.update(&identity_trig());
    let t = &r.triangles_to_render[0];
    assert_eq!(t.points[2].x, 656 * FP_ONE);
}

#[test]
fn advance_pose_steps_the_rotation_and_sets_the_depth() {
    let mut r = Renderer::new(one_face_mesh(1, 3, 2));
    let step = v3(655, 655, 655);
    r.advance_pose(step, 5 * FP_ONE);
    assert_eq!(
        (r.mesh.rotation.x, r.mesh.rotation.y, r.mesh.rotation.z),
        (655, 655, 655)
    );
    assert_eq!(r.mesh.translation.z, 5 * FP_ONE);
    assert_eq!((r.mesh.translation.x, r.mesh.translation.y), (0, 0));
    r.advance_pose(step, 5 * FP_ONE);
    assert_eq!(r.mesh.rotation.x, 1310);
    // vertices, faces and scale are untouched
    assert_eq!(r.mesh.vertices.len(), 3);
    assert_eq!(r.mesh.faces.len(), 1);
    assert_eq!(r.mesh.scale.x, FP_ONE);
}
