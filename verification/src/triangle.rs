//! Faces of a mesh and the per-frame projected triangles.

use vstd::prelude::*;
use crate::consts::C_MAGENTA;
use crate::vector::Vec2;

verus! {

/// Three 1-based vertex indices into the mesh's vertex list, plus the face's
/// fill color.
#[derive(Clone, Copy, Debug)]
pub struct Face {
    pub a: i32,
    pub b: i32,
    pub c: i32,
    pub rgba: [u8; 4],
}

/// A projected triangle: three screen-space points in Q16.16, the mean
/// camera-space depth of its vertices, and its fill color. Rebuilt from a
/// `Face` every frame and discarded after drawing.
#[derive(Clone, Copy, Debug)]
pub struct Triangle {
    pub points: [Vec2; 3],
    pub avg_depth: i64,
    pub rgba: [u8; 4],
}

impl Default for Triangle {
    fn default() -> (r: Self)
        ensures
            r.points[0].x == 0 && r.points[0].y == 0,
            r.points[1].x == 0 && r.points[1].y == 0,
            r.points[2].x == 0 && r.points[2].y == 0,
            r.avg_depth == 0,
            r.rgba == C_MAGENTA,
    {
        Triangle {
            points: [Vec2 { x: 0, y: 0 }, Vec2 { x: 0, y: 0 }, Vec2 { x: 0, y: 0 }],
            avg_depth: 0,
            rgba: C_MAGENTA,
        }
    }
}

} // verus!
