//! Ready-made meshes.

use crate::mesh::{face_lists, Mesh, MeshModel};
use crate::rule::{Rule, RuleModel};
use crate::transform::Vertex;
use vstd::pervasive::unreached;
use vstd::prelude::*;

verus! {

/// The coordinate of the sides of the unit cube that face up the axes: half
/// of one whole.
pub const HIGH: i64 = 500_000;

/// The coordinate of the sides of the unit cube that face down the axes.
pub const LOW: i64 = -500_000;

/// The cube with sides of length one, centred on the origin: four corners
/// below, four above, and six square faces that are counter-clockwise when
/// seen from outside.
pub open spec fn cube_model() -> MeshModel {
    MeshModel {
        vertices: seq![
            Vertex { x: LOW, y: LOW, z: LOW },
            Vertex { x: HIGH, y: LOW, z: LOW },
            Vertex { x: HIGH, y: HIGH, z: LOW },
            Vertex { x: LOW, y: HIGH, z: LOW },
            Vertex { x: LOW, y: LOW, z: HIGH },
            Vertex { x: HIGH, y: LOW, z: HIGH },
            Vertex { x: HIGH, y: HIGH, z: HIGH },
            Vertex { x: LOW, y: HIGH, z: HIGH },
        ],
        faces: seq![
            seq![0usize, 3, 2, 1],
            seq![4usize, 5, 6, 7],
            seq![0usize, 1, 5, 4],
            seq![2usize, 3, 7, 6],
            seq![0usize, 4, 7, 3],
            seq![1usize, 2, 6, 5],
        ],
    }
}

/// The face with the corners `a`, `b`, `c` and `d`.
fn quad(a: usize, b: usize, c: usize, d: usize) -> (face: Vec<usize>)
    ensures
        face@ == seq![a, b, c, d],
{
    let mut face: Vec<usize> = Vec::new();
    face.push(a);
    face.push(b);
    face.push(c);
    face.push(d);
    assert(face@ =~= seq![a, b, c, d]);
    face
}

/// The unit cube as a mesh.
pub fn cube_mesh() -> (mesh: Mesh)
    ensures
        mesh@ == cube_model(),
{
    let mut vertices: Vec<Vertex> = Vec::new();
    vertices.push(Vertex { x: LOW, y: LOW, z: LOW });
    vertices.push(Vertex { x: HIGH, y: LOW, z: LOW });
    vertices.push(Vertex { x: HIGH, y: HIGH, z: LOW });
    vertices.push(Vertex { x: LOW, y: HIGH, z: LOW });
    vertices.push(Vertex { x: LOW, y: LOW, z: HIGH });
    vertices.push(Vertex { x: HIGH, y: LOW, z: HIGH });
    vertices.push(Vertex { x: HIGH, y: HIGH, z: HIGH });
    vertices.push(Vertex { x: LOW, y: HIGH, z: HIGH });
    let mut faces: Vec<Vec<usize>> = Vec::new();
    faces.push(quad(0, 3, 2, 1));
    faces.push(quad(4, 5, 6, 7));
    faces.push(quad(0, 1, 5, 4));
    faces.push(quad(2, 3, 7, 6));
    faces.push(quad(0, 4, 7, 3));
    faces.push(quad(1, 2, 6, 5));
    proof {
        assert(vertices@ =~= cube_model().vertices);
        assert(face_lists(faces@) =~= cube_model().faces);
        lemma_cube_valid();
    }
    match Mesh::new(vertices, faces) {
        Ok(mesh) => mesh,
        Err(_) => unreached(),
    }
}

/// The unit cube as a rule.
pub fn cube<D>() -> (rule: Rule<D>)
    ensures
        rule@ == RuleModel::<D>::leaf(cube_model()),
{
    Rule::leaf(cube_mesh())
}

/// The unit cube is a valid mesh.
pub proof fn lemma_cube_valid()
    ensures
        cube_model().valid(),
{
    let cube = cube_model();
    assert forall|f: int| 0 <= f < cube.faces.len() implies #[trigger] cube.face_ok(f) by {
        assert forall|c: int| 0 <= c < cube.faces[f].len() implies #[trigger] cube.corner_ok(f, c) by {
            assert(cube.faces[f][c] < 8);
        }
    }
}

} // verus!
