//! The in-memory mesh: vertex and face lists plus the per-frame pose, and
//! the OBJ-format loader that fills them from the bytes of a mesh file.

use vstd::prelude::*;
use crate::fixed::FP_ONE;
use crate::obj::find_byte;
use crate::triangle::Face;
use crate::vector::Vec3;

verus! {

/// A triangle mesh with its current pose. Vertices and faces are immutable
/// after loading; the pose vectors are advanced once per frame by the caller.
pub struct Mesh {
    pub vertices: Vec<Vec3>,
    pub faces: Vec<Face>,
    pub rotation: Vec3,
    pub scale: Vec3,
    pub translation: Vec3,
}

impl Default for Mesh {
    /// An empty mesh with the neutral pose (unit scale).
    fn default() -> (r: Self)
        ensures
            r.vertices@.len() == 0,
            r.faces@.len() == 0,
            r.rotation.x == 0 && r.rotation.y == 0 && r.rotation.z == 0,
            r.scale.x == FP_ONE && r.scale.y == FP_ONE && r.scale.z == FP_ONE,
            r.translation.x == 0 && r.translation.y == 0 && r.translation.z == 0,
    {
        Mesh {
            vertices: Vec::new(),
            faces: Vec::new(),
            rotation: Vec3 { x: 0, y: 0, z: 0 },
            scale: Vec3 { x: FP_ONE, y: FP_ONE, z: FP_ONE },
            translation: Vec3 { x: 0, y: 0, z: 0 },
        }
    }
}

} // verus!

verus! {

/// Why a mesh failed to load. Any failure is fatal: no partially loaded
/// mesh is returned.
#[derive(Clone, Copy, Debug, PartialEq, Eq, Structural)]
pub enum ObjError {
    /// A line starting with `"v "` does not match the vertex grammar.
    MalformedVertex,
    /// A line starting with `"f "` does not match the face grammar.
    MalformedFace,
    /// A vertex coordinate lies outside the world bounds.
    VertexOutOfRange,
    /// A face names a vertex index outside `[1, vertexCount]`.
    InvalidFaceIndex,
}

/// A line with its trailing carriage return removed, as a text-line reader
/// would hand it over.
pub open spec fn strip_cr(s: Seq<u8>) -> Seq<u8> {
    if s.len() > 0 && s.last() == 0x0d {
        s.drop_last()
    } else {
        s
    }
}

pub open spec fn is_vertex_line(s: Seq<u8>) -> bool {
    s.len() >= 2 && s[0] == 0x76 && s[1] == 0x20
}

pub open spec fn is_face_line(s: Seq<u8>) -> bool {
    s.len() >= 2 && s[0] == 0x66 && s[1] == 0x20
}

pub open spec fn vertex_in_range(p: (int, int, int)) -> bool {
    crate::render::coord_ok(p.0) && crate::render::coord_ok(p.1) && crate::render::coord_ok(p.2)
}

/// What one line contributes to the accumulated vertex and face lists.
pub open spec fn spec_parse_line(
    acc: (Seq<(int, int, int)>, Seq<(int, int, int)>),
    line: Seq<u8>,
) -> Result<(Seq<(int, int, int)>, Seq<(int, int, int)>), ObjError> {
    if is_vertex_line(line) {
        let body = line.skip(2);
        if !crate::obj::valid_vertex_body(body) {
            Err(ObjError::MalformedVertex)
        } else if !vertex_in_range(crate::obj::vertex_val(body)) {
            Err(ObjError::VertexOutOfRange)
        } else {
            Ok((acc.0.push(crate::obj::vertex_val(body)), acc.1))
        }
    } else if is_face_line(line) {
        let body = line.skip(2);
        if !crate::obj::valid_face_body(body) {
            Err(ObjError::MalformedFace)
        } else {
            Ok((acc.0, acc.1.push(crate::obj::face_val(body))))
        }
    } else {
        Ok(acc)
    }
}

/// The vertex and face lists that a sequence of lines yields, or the error
/// of the first line that fails.
pub open spec fn spec_parse_lines(lines: Seq<Seq<u8>>) -> Result<
    (Seq<(int, int, int)>, Seq<(int, int, int)>),
    ObjError,
>
    decreases lines.len(),
{
    if lines.len() == 0 {
        Ok((Seq::empty(), Seq::empty()))
    } else {
        match spec_parse_lines(lines.drop_last()) {
            Err(e) => Err(e),
            Ok(acc) => spec_parse_line(acc, strip_cr(lines.last())),
        }
    }
}

pub open spec fn faces_in_range(fs: Seq<(int, int, int)>, n: int) -> bool {
    forall|k: int|
        0 <= k < fs.len() ==> {
            let f = #[trigger] fs[k];
            1 <= f.0 <= n && 1 <= f.1 <= n && 1 <= f.2 <= n
        }
}

/// The full meaning of an OBJ file's bytes: the lists its lines yield, with
/// every face index checked against the final vertex count.
pub open spec fn spec_load_obj(data: Seq<u8>) -> Result<
    (Seq<(int, int, int)>, Seq<(int, int, int)>),
    ObjError,
> {
    match spec_parse_lines(crate::obj::split_on(data, 0x0a)) {
        Err(e) => Err(e),
        Ok((vs, fs)) => if faces_in_range(fs, vs.len() as int) {
            Ok((vs, fs))
        } else {
            Err(ObjError::InvalidFaceIndex)
        },
    }
}

/// An error of an earlier line decides the whole parse.
proof fn lemma_parse_lines_prefix_err(p: Seq<Seq<u8>>, q: Seq<Seq<u8>>)
    requires
        spec_parse_lines(p) is Err,
    ensures
        spec_parse_lines(p + q) == spec_parse_lines(p),
    decreases q.len(),
{
    if q.len() == 0 {
        assert(p + q =~= p);
    } else {
        lemma_parse_lines_prefix_err(p, q.drop_last());
        assert((p + q).drop_last() =~= p + q.drop_last());
        assert((p + q).len() > 0);
    }
}

} // verus!

verus! {

/// The vertex list as the triples of its coordinates.
pub open spec fn verts_repr(vs: Seq<Vec3>) -> Seq<(int, int, int)> {
    vs.map_values(|v: Vec3| (v.x as int, v.y as int, v.z as int))
}

/// The face list as the triples of its vertex indices.
pub open spec fn faces_repr(fs: Seq<Face>) -> Seq<(int, int, int)> {
    fs.map_values(|f: Face| (f.a as int, f.b as int, f.c as int))
}

/// Applies one already-stripped line `data[from..to]` to the accumulated
/// lists, exactly as `spec_parse_line` says.
fn process_line(
    data: &Vec<u8>,
    from: usize,
    to: usize,
    vertices: &mut Vec<Vec3>,
    faces: &mut Vec<Face>,
) -> (r: Result<(), ObjError>)
    requires
        from <= to <= data@.len(),
    ensures
        ({
            let line = data@.subrange(from as int, to as int);
            let acc0 = (verts_repr(old(vertices)@), faces_repr(old(faces)@));
            match r {
                Ok(u) => spec_parse_line(acc0, line) == Ok::<_, ObjError>(
                    (verts_repr(final(vertices)@), faces_repr(final(faces)@)),
                ),
                Err(e) => spec_parse_line(acc0, line) == Err::<(Seq<(int, int, int)>, Seq<(int, int, int)>), _>(e)
                    && final(vertices)@ == old(vertices)@ && final(faces)@ == old(faces)@,
            }
        }),
        forall|i: int|
            0 <= i < old(vertices)@.len() ==> final(vertices)@[i] == old(vertices)@[i],
        forall|i: int| 0 <= i < old(faces)@.len() ==> final(faces)@[i] == old(faces)@[i],
        final(vertices)@.len() >= old(vertices)@.len(),
        final(faces)@.len() >= old(faces)@.len(),
        forall|i: int|
            old(vertices)@.len() <= i < final(vertices)@.len() ==> crate::render::vec3_in_world(
                #[trigger] final(vertices)@[i],
            ),
        forall|i: int|
            old(faces)@.len() <= i < final(faces)@.len() ==> (#[trigger] final(faces)@[i]).rgba
                == crate::consts::C_WHITE,
{
    let ghost line = data@.subrange(from as int, to as int);
    let ghost acc0 = (verts_repr(vertices@), faces_repr(faces@));
    if to - from >= 2 && data[from] == 0x76 && data[from + 1] == 0x20 {
        proof {
            assert(is_vertex_line(line));
            assert(line.skip(2) =~= data@.subrange(from as int + 2, to as int));
        }
        match crate::obj::parse_vertex_body(data, from + 2, to) {
            Err(u) => Err(ObjError::MalformedVertex),
            Ok((x, y, z)) => {
                if x <= -0x1000_0000 || x >= 0x1000_0000 || y <= -0x1000_0000 || y >= 0x1000_0000
                    || z <= -0x1000_0000 || z >= 0x1000_0000 {
                    return Err(ObjError::VertexOutOfRange);
                }
                vertices.push(Vec3 { x, y, z });
                proof {
                    assert(verts_repr(vertices@) =~= acc0.0.push(
                        crate::obj::vertex_val(line.skip(2)),
                    ));
                }
                Ok(())
            },
        }
    } else if to - from >= 2 && data[from] == 0x66 && data[from + 1] == 0x20 {
        proof {
            assert(is_face_line(line));
            assert(line.skip(2) =~= data@.subrange(from as int + 2, to as int));
        }
        match crate::obj::parse_face_body(data, from + 2, to) {
            Err(u) => Err(ObjError::MalformedFace),
            Ok((a, b, c)) => {
                faces.push(Face { a, b, c, rgba: crate::consts::C_WHITE });
                proof {
                    assert(faces_repr(faces@) =~= acc0.1.push(crate::obj::face_val(line.skip(2))));
                }
                Ok(())
            },
        }
    } else {
        proof {
            assert(!is_vertex_line(line) && !is_face_line(line));
        }
        Ok(())
    }
}

/// Read the contents of an OBJ file and load them into mesh data. The whole
/// input is checked: a malformed `v` or `f` line, an unrepresentable
/// coordinate or a face index outside the vertex list is a fatal error, and
/// no partially loaded mesh is returned. A loaded mesh is well formed and
/// carries the neutral pose.
pub fn load_obj_data(data: &Vec<u8>) -> (r: Result<Mesh, ObjError>)
    ensures
        ({
            let spec_r = spec_load_obj(data@);
            match r {
                Ok(m) => {
                    &&& spec_r is Ok
                    &&& verts_repr(m.vertices@) == spec_r->Ok_0.0
                    &&& faces_repr(m.faces@) == spec_r->Ok_0.1
                    &&& forall|i: int|
                        0 <= i < m.faces@.len() ==> (#[trigger] m.faces@[i]).rgba
                            == crate::consts::C_WHITE
                    &&& m.rotation.x == 0 && m.rotation.y == 0 && m.rotation.z == 0
                    &&& m.scale.x == FP_ONE && m.scale.y == FP_ONE && m.scale.z == FP_ONE
                    &&& m.translation.x == 0 && m.translation.y == 0 && m.translation.z == 0
                    &&& crate::render::mesh_wf(m)
                },
                Err(e) => spec_r is Err && e == spec_r->Err_0,
            }
        }),
{
    let n: usize = data.len();
    let ghost all_lines = crate::obj::split_on(data@, 0x0a);
    let mut vertices: Vec<Vec3> = Vec::new();
    let mut faces: Vec<Face> = Vec::new();
    let ghost mut done: Seq<Seq<u8>> = Seq::empty();
    let mut p: usize = 0;
    let mut d: usize = find_byte(data, 0, n, 0x0a);
    proof {
        assert(data@.subrange(0, n as int) =~= data@);
        assert(done + crate::obj::split_on(data@.subrange(0, n as int), 0x0a) =~= all_lines);
        assert(verts_repr(vertices@) =~= Seq::<(int, int, int)>::empty());
        assert(faces_repr(faces@) =~= Seq::<(int, int, int)>::empty());
    }
    while d < n
        invariant
            p <= d <= n == data@.len(),
            d as int - p as int == crate::obj::first_byte(
                data@.subrange(p as int, n as int),
                0x0a,
            ),
            d < n ==> data@[d as int] == 0x0a,
            all_lines == crate::obj::split_on(data@, 0x0a),
            all_lines == done + crate::obj::split_on(data@.subrange(p as int, n as int), 0x0a),
            spec_parse_lines(done) == Ok::<_, ObjError>(
                (verts_repr(vertices@), faces_repr(faces@)),
            ),
            forall|i: int|
                0 <= i < vertices@.len() ==> crate::render::vec3_in_world(
                    #[trigger] vertices@[i],
                ),
            forall|i: int|
                0 <= i < faces@.len() ==> (#[trigger] faces@[i]).rgba == crate::consts::C_WHITE,
        decreases n - p,
    {
        let lend: usize = if d > p && data[d - 1] == 0x0d {
            d - 1
        } else {
            d
        };
        let ghost raw = data@.subrange(p as int, d as int);
        proof {
            assert(strip_cr(raw) =~= data@.subrange(p as int, lend as int));
        }
        let step = process_line(data, p, lend, &mut vertices, &mut faces);
        proof {
            let rem = data@.subrange(p as int, n as int);
            crate::obj::lemma_split_step(rem, 0x0a);
            assert(rem.subrange(0, d as int - p as int) =~= raw);
            assert(rem.subrange(d as int - p as int + 1, rem.len() as int) =~= data@.subrange(
                d as int + 1,
                n as int,
            ));
            assert((done.push(raw)).drop_last() =~= done);
            done = done.push(raw);
            assert(all_lines =~= done + crate::obj::split_on(
                data@.subrange(d as int + 1, n as int),
                0x0a,
            ));
        }
        match step {
            Err(e) => {
                proof {
                    assert(spec_parse_lines(done) == Err::<(Seq<(int, int, int)>, Seq<(int, int, int)>), _>(e));
                    lemma_parse_lines_prefix_err(
                        done,
                        crate::obj::split_on(data@.subrange(d as int + 1, n as int), 0x0a),
                    );
                    assert(spec_load_obj(data@) == Err::<(Seq<(int, int, int)>, Seq<(int, int, int)>), _>(e));
                }
                return Err(e);
            },
            Ok(u) => {},
        }
        p = d + 1;
        d = find_byte(data, p, n, 0x0a);
    }
    // The final, unterminated line.
    let lend: usize = if n > p && data[n - 1] == 0x0d {
        n - 1
    } else {
        n
    };
    let ghost raw = data@.subrange(p as int, n as int);
    proof {
        assert(strip_cr(raw) =~= data@.subrange(p as int, lend as int));
        crate::obj::lemma_split1(raw, 0x0a);
        assert((done.push(raw)).drop_last() =~= done);
        assert(all_lines =~= done.push(raw));
    }
    let step = process_line(data, p, lend, &mut vertices, &mut faces);
    proof {
        done = done.push(raw);
        assert(all_lines == done);
    }
    match step {
        Err(e) => {
            proof {
                assert(spec_parse_lines(done) == Err::<(Seq<(int, int, int)>, Seq<(int, int, int)>), _>(e));
            }
            return Err(e);
        },
        Ok(u) => {},
    }
    proof {
        assert(spec_parse_lines(done) == Ok::<_, ObjError>(
            (verts_repr(vertices@), faces_repr(faces@)),
        ));
    }
    // Validate every face index against the final vertex count.
    let nv: usize = vertices.len();
    let nf: usize = faces.len();
    let mut k: usize = 0;
    while k < nf
        invariant
            nf == faces@.len(),
            nv == vertices@.len(),
            0 <= k <= nf,
            spec_parse_lines(crate::obj::split_on(data@, 0x0a)) == Ok::<_, ObjError>(
                (verts_repr(vertices@), faces_repr(faces@)),
            ),
            forall|m: int|
                0 <= m < k as int ==> {
                    let f = #[trigger] faces_repr(faces@)[m];
                    1 <= f.0 <= nv as int && 1 <= f.1 <= nv as int && 1 <= f.2 <= nv as int
                },
        decreases nf - k,
    {
        let f: Face = faces[k];
        proof {
            assert(faces_repr(faces@)[k as int] == (f.a as int, f.b as int, f.c as int));
        }
        if f.a < 1 || f.b < 1 || f.c < 1 || f.a as usize > nv || f.b as usize > nv || f.c
            as usize > nv {
            proof {
                assert(faces_repr(faces@)[k as int] == (
                    faces@[k as int].a as int,
                    faces@[k as int].b as int,
                    faces@[k as int].c as int,
                ));
                assert(verts_repr(vertices@).len() == vertices@.len());
                assert(!faces_in_range(faces_repr(faces@), nv as int));
            }
            return Err(ObjError::InvalidFaceIndex);
        }
        k += 1;
    }
    let m = Mesh {
        vertices,
        faces,
        rotation: Vec3 { x: 0, y: 0, z: 0 },
        scale: Vec3 { x: FP_ONE, y: FP_ONE, z: FP_ONE },
        translation: Vec3 { x: 0, y: 0, z: 0 },
    };
    proof {
        assert(verts_repr(m.vertices@).len() == m.vertices@.len());
        assert(faces_in_range(faces_repr(m.faces@), m.vertices@.len() as int));
        assert forall|i: int| 0 <= i < m.faces@.len() implies crate::render::face_ok(
            #[trigger] m.faces@[i],
            m.vertices@.len() as int,
        ) by {
            assert(faces_repr(m.faces@)[i] == (
                m.faces@[i].a as int,
                m.faces@[i].b as int,
                m.faces@[i].c as int,
            ));
        }
    }
    Ok(m)
}

} // verus!
