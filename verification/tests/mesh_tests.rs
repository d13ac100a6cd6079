use rasterizer::consts::C_WHITE;
use rasterizer::fixed::FP_ONE;
use rasterizer::mesh::{load_obj_data, ObjError};
use rasterizer::render::{Renderer, RotationTrig};

fn load(text: &str) -> Result<rasterizer::mesh::Mesh, ObjError> {
    let data: Vec<u8> = text.as_bytes().to_vec();
    load_obj_data(&data)
}

fn cube_obj() -> String {
    let mut s = String::new();
    s.push_str("# a unit cube\n");
    s.push_str("v -1.000000 -1.000000 -1.000000\n");
    s.push_str("v -1.000000 1.000000 -1.000000\n");
    s.push_str("v 1.000000 1.000000 -1.000000\n");
    s.push_str("v 1.000000 -1.000000 -1.000000\n");
    s.push_str("v 1.000000 1.000000 1.000000\n");
    s.push_str("v 1.000000 -1.000000 1.000000\n");
    s.push_str("v -1.000000 1.000000 1.000000\n");
    s.push_str("v -1.000000 -1.000000 1.000000\n");
    s.push_str("f 1/1/1 2/2/1 3/3/1\n");
    s.push_str("f 1/1/1 3/3/1 4/4/1\n");
    s.push_str("f 4/4/2 3/3/2 5/5/2\n");
    s.push_str("f 4/4/2 5/5/2 6/6/2\n");
    s.push_str("f 6/6/3 5/5/3 7/7/3\n");
    s.push_str("f 6/6/3 7/7/3 8/8/3\n");
    s.push_str("f 8/8/4 7/7/4 2/2/4\n");
    s.push_str("f 8/8/4 2/2/4 1/1/4\n");
    s.push_str("f 2/2/5 7/7/5 5/5/5\n");
    s.push_str("f 2/2/5 5/5/5 3/3/5\n");
    s.push_str("f 8/8/6 1/1/6 4/4/6\n");
    s.push_str("f 8/8/6 4/4/6 6/6/6\n");
    s
}

#[test]
fn cube_round_trip_yields_8_vertices_and_12_faces() {
    let m = load(&cube_obj()).expect("cube must load");
    assert_eq!(m.vertices.len(), 8);
    assert_eq!(m.faces.len(), 12);
    for f in m.faces.iter() {
        assert!(1 <= f.a && f.a <= 8);
        assert!(1 <= f.b && f.b <= 8);
        assert!(1 <= f.c && f.c <= 8);
        assert_eq!(f.rgba, C_WHITE);
    }
    // coordinates are read exactly into fixed point
    assert_eq!(m.vertices[0].x, -FP_ONE);
    assert_eq!(m.vertices[0].y, -FP_ONE);
    assert_eq!(m.vertices[0].z, -FP_ONE);
    assert_eq!(m.vertices[4].x, FP_ONE);
    // the loaded mesh carries the neutral pose
    assert_eq!(m.scale.x, FP_ONE);
    assert_eq!(m.translation.z, 0);
    assert_eq!(m.rotation.y, 0);
}

#[test]
fn decimal_values_truncate_into_fixed_point() {
    let m = load("v 1.5 -0.25 3\nv 0.00001 2.75 -4.5\n").expect("must load");
    assert_eq!(m.vertices.len(), 2);
    assert_eq!(m.vertices[0].x, 98304);
    assert_eq!(m.vertices[0].y, -16384);
    assert_eq!(m.vertices[0].z, 3 * FP_ONE);
    assert_eq!(m.vertices[1].x, 0);
    assert_eq!(m.vertices[1].y, 180224);
    assert_eq!(m.vertices[1].z, -294912);
}

#[test]
fn unknown_lines_and_blank_lines_are_ignored() {
    let m = load("# comment\n\nvt 0.5 0.5\nvn 0 0 1\no cube\nv 1 2 3\n").expect("must load");
    assert_eq!(m.vertices.len(), 1);
    assert_eq!(m.faces.len(), 0);
}

#[test]
fn carriage_returns_are_stripped() {
    let m = load("v 1 2 3\r\nv 4 5 6\r\n").expect("must load");
    assert_eq!(m.vertices.len(), 2);
    assert_eq!(m.vertices[1].x, 4 * FP_ONE);
}

#[test]
fn a_file_without_a_trailing_newline_still_loads() {
    let m = load("v 1 2 3\nv 4 5 6").expect("must load");
    assert_eq!(m.vertices.len(), 2);
}

#[test]
fn vertex_line_with_two_fields_is_malformed() {
    assert!(matches!(load("v 1.0 2.0\n"), Err(ObjError::MalformedVertex)));
}

#[test]
fn vertex_line_with_letters_is_malformed() {
    assert!(matches!(load("v a b c\n"), Err(ObjError::MalformedVertex)));
}

#[test]
fn vertex_line_with_four_fields_is_malformed() {
    assert!(matches!(load("v 1 2 3 4\n"), Err(ObjError::MalformedVertex)));
}

#[test]
fn vertex_with_too_many_digits_is_malformed() {
    assert!(matches!(load("v 123456789012345 0 0\n"), Err(ObjError::MalformedVertex)));
}

#[test]
fn vertex_beyond_the_world_bounds_is_rejected() {
    assert!(matches!(load("v 100000 0 0\n"), Err(ObjError::VertexOutOfRange)));
}

#[test]
fn face_corner_missing_a_slash_is_malformed() {
    assert!(matches!(load("v 1 1 1\nf 1/1 1/1/1 1/1/1\n"), Err(ObjError::MalformedFace)));
}

#[test]
fn face_with_two_corners_is_malformed() {
    assert!(matches!(load("v 1 1 1\nf 1/1/1 1/1/1\n"), Err(ObjError::MalformedFace)));
}

#[test]
fn face_index_past_the_vertex_list_is_rejected() {
    assert!(matches!(load("v 0 0 0\nf 1/1/1 2/1/1 1/1/1\n"), Err(ObjError::InvalidFaceIndex)));
}

#[test]
fn face_index_zero_is_rejected() {
    assert!(matches!(load("v 0 0 0\nf 0/1/1 1/1/1 1/1/1\n"), Err(ObjError::InvalidFaceIndex)));
}

#[test]
fn the_first_bad_line_decides_the_error() {
    // the malformed vertex on line 1 wins over the bad face below it
    assert!(matches!(load("v x y z\nf 9/1/1 9/1/1 9/1/1\n"), Err(ObjError::MalformedVertex)));
}

#[test]
fn a_loaded_cube_renders() {
    let mut m = load(&cube_obj()).expect("cube must load");
    m.translation.z = 5 * FP_ONE;
    let mut r = Renderer::new(m);
    let trig = RotationTrig { cx: FP_ONE, sx: 0, cy: FP_ONE, sy: 0, cz: FP_ONE, sz: 0 };
    r.update(&trig);
    // some faces survive culling, none more than the cube has
    assert!(r.triangles_to_render.len() >= 1);
    assert!(r.triangles_to_render.len() <= 12);
    // farthest first
    let depths: Vec<i64> = r.triangles_to_render.iter().map(|t| t.avg_depth).collect();
    for w in depths.windows(2) {
        assert!(w[0] >= w[1]);
    }
}
