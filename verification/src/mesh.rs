//! Polygon meshes.
//!
//! A mesh is a list of vertices and a list of faces. A face lists its corners
//! as positions in the vertex list. Every `Mesh` value is valid: each face has
//! at least three corners and every corner names a vertex of the mesh.

use crate::error::Error;
use crate::transform::{image, Op, Transform, Vertex};
use vstd::prelude::*;

verus! {

/// The mathematical content of a mesh.
pub struct MeshModel {
    pub vertices: Seq<Vertex>,
    pub faces: Seq<Seq<usize>>,
}

impl MeshModel {
    /// Corner `c` of face `f` names a vertex of the mesh.
    pub open spec fn corner_ok(self, f: int, c: int) -> bool {
        self.faces[f][c] < self.vertices.len()
    }

    /// Face `f` has three corners or more, each naming a vertex of the mesh.
    pub open spec fn face_ok(self, f: int) -> bool {
        &&& self.faces[f].len() >= 3
        &&& forall|c: int| 0 <= c < self.faces[f].len() ==> #[trigger] self.corner_ok(f, c)
    }

    /// Every face is in order.
    pub open spec fn valid(self) -> bool {
        forall|f: int| 0 <= f < self.faces.len() ==> #[trigger] self.face_ok(f)
    }

    /// `e` reports the first thing wrong with the mesh: its face is the first
    /// one out of order, and is either too small or has `corner` as its first
    /// corner without a vertex.
    pub open spec fn first_defect(self, e: Error) -> bool {
        match e {
            Error::FaceTooSmall { face } => {
                &&& face < self.faces.len()
                &&& forall|g: int| 0 <= g < face ==> #[trigger] self.face_ok(g)
                &&& self.faces[face as int].len() < 3
            },
            Error::IndexOutOfRange { face, corner } => {
                &&& face < self.faces.len()
                &&& forall|g: int| 0 <= g < face ==> #[trigger] self.face_ok(g)
                &&& self.faces[face as int].len() >= 3
                &&& corner < self.faces[face as int].len()
                &&& forall|c: int| 0 <= c < corner ==> #[trigger] self.corner_ok(face as int, c)
                &&& !self.corner_ok(face as int, corner as int)
            },
        }
    }

    /// The mesh with every vertex moved by `ops` and the faces as they were.
    pub open spec fn transformed(self, ops: Seq<Op>) -> MeshModel {
        MeshModel { vertices: self.vertices.map_values(|v: Vertex| image(ops, v)), faces: self.faces }
    }
}

/// The corner lists of the faces `faces`.
pub open spec fn face_lists(faces: Seq<Vec<usize>>) -> Seq<Seq<usize>> {
    faces.map_values(|face: Vec<usize>| face@)
}

/// A valid polygon mesh.
#[derive(Debug)]
pub struct Mesh {
    vertices: Vec<Vertex>,
    faces: Vec<Vec<usize>>,
}

impl View for Mesh {
    type V = MeshModel;

    closed spec fn view(&self) -> MeshModel {
        MeshModel { vertices: self.vertices@, faces: face_lists(self.faces@) }
    }
}

/// The contents of the meshes `meshes`.
pub open spec fn models(meshes: Seq<Mesh>) -> Seq<MeshModel> {
    meshes.map_values(|mesh: Mesh| mesh@)
}

/// A copy of the face list `faces`.
fn copy_faces(faces: &Vec<Vec<usize>>) -> (copy: Vec<Vec<usize>>)
    ensures
        face_lists(copy@) == face_lists(faces@),
{
    let mut copy: Vec<Vec<usize>> = Vec::new();
    let mut f: usize = 0;
    while f < faces.len()
        invariant
            f <= faces.len(),
            copy.len() == f,
            forall|g: int| 0 <= g < f ==> (#[trigger] copy@[g])@ == faces@[g]@,
        decreases faces.len() - f,
    {
        let face = &faces[f];
        let mut corners: Vec<usize> = Vec::new();
        let mut c: usize = 0;
        while c < face.len()
            invariant
                c <= face.len(),
                corners@ == face@.take(c as int),
            decreases face.len() - c,
        {
            corners.push(face[c]);
            c += 1;
        }
        assert(face@.take(c as int) == face@);
        copy.push(corners);
        f += 1;
    }
    assert(face_lists(copy@) =~= face_lists(faces@));
    copy
}

impl Clone for Mesh {
    fn clone(&self) -> (copy: Self)
        ensures
            copy@ == self@,
    {
        proof {
            use_type_invariant(self);
        }
        let mut vertices: Vec<Vertex> = Vec::new();
        let mut i: usize = 0;
        while i < self.vertices.len()
            invariant
                i <= self.vertices.len(),
                vertices@ == self.vertices@.take(i as int),
            decreases self.vertices.len() - i,
        {
            vertices.push(self.vertices[i]);
            i += 1;
        }
        assert(self.vertices@.take(i as int) == self.vertices@);
        let faces = copy_faces(&self.faces);
        Mesh { vertices, faces }
    }
}

impl Mesh {
    /// What every mesh satisfies.
    #[verifier::type_invariant]
    pub open spec fn well_formed(self) -> bool {
        self@.valid()
    }

    /// Builds the mesh with the vertices `vertices` and the faces `faces`, or
    /// reports the first thing wrong with them. Faces are examined in order:
    /// first the size of a face, then its corners in order.
    pub fn new(vertices: Vec<Vertex>, faces: Vec<Vec<usize>>) -> (r: Result<Mesh, Error>)
        ensures
            r is Ok <==> (MeshModel { vertices: vertices@, faces: face_lists(faces@) }).valid(),
            match r {
                Ok(mesh) => mesh@ == (MeshModel { vertices: vertices@, faces: face_lists(faces@) }),
                Err(e) => (MeshModel { vertices: vertices@, faces: face_lists(faces@) }).first_defect(e),
            },
    {
        let ghost model = MeshModel { vertices: vertices@, faces: face_lists(faces@) };
        let mut f: usize = 0;
        while f < faces.len()
            invariant
                f <= faces.len(),
                model == (MeshModel { vertices: vertices@, faces: face_lists(faces@) }),
                forall|g: int| 0 <= g < f ==> #[trigger] model.face_ok(g),
            decreases faces.len() - f,
        {
            let face = &faces[f];
            assert(model.faces[f as int] == face@);
            if face.len() < 3 {
                assert(!model.face_ok(f as int));
                return Err(Error::FaceTooSmall { face: f });
            }
            let mut c: usize = 0;
            while c < face.len()
                invariant
                    c <= face.len(),
                    f < faces.len(),
                    face.len() >= 3,
                    model == (MeshModel { vertices: vertices@, faces: face_lists(faces@) }),
                    model.faces[f as int] == face@,
                    forall|g: int| 0 <= g < f ==> #[trigger] model.face_ok(g),
                    forall|j: int| 0 <= j < c ==> #[trigger] model.corner_ok(f as int, j),
                decreases face.len() - c,
            {
                if face[c] >= vertices.len() {
                    assert(!model.corner_ok(f as int, c as int));
                    assert(!model.face_ok(f as int));
                    return Err(Error::IndexOutOfRange { face: f, corner: c });
                }
                c += 1;
            }
            f += 1;
        }
        Ok(Mesh { vertices, faces })
    }

    /// The vertices, in the order that the faces refer to.
    pub fn vertices(&self) -> (vertices: &Vec<Vertex>)
        ensures
            vertices@ == self@.vertices,
    {
        &self.vertices
    }

    /// The faces, each a list of positions in the vertex list.
    pub fn faces(&self) -> (faces: &Vec<Vec<usize>>)
        ensures
            face_lists(faces@) == self@.faces,
    {
        &self.faces
    }

    /// The mesh with every vertex moved by `transform`; the faces stay as
    /// they are. The mesh itself does not change.
    pub fn transformed(&self, transform: &Transform) -> (moved: Mesh)
        ensures
            moved@ == self@.transformed(transform@),
    {
        proof {
            use_type_invariant(self);
        }
        let mut vertices: Vec<Vertex> = Vec::new();
        let mut i: usize = 0;
        while i < self.vertices.len()
            invariant
                i <= self.vertices.len(),
                vertices.len() == i,
                forall|j: int| 0 <= j < i ==> #[trigger] vertices@[j] == image(transform@, self.vertices@[j]),
            decreases self.vertices.len() - i,
        {
            vertices.push(transform.apply(self.vertices[i]));
            i += 1;
        }
        let faces = copy_faces(&self.faces);
        proof {
            assert(vertices@ =~= self@.transformed(transform@).vertices);
            lemma_transformed(self@, transform@, Seq::empty());
        }
        Mesh { vertices, faces }
    }
}

/// A mesh with something wrong is not valid, and only one report describes
/// the first thing wrong with it.
pub proof fn lemma_first_defect(model: MeshModel, e: Error, other: Error)
    requires
        model.first_defect(e),
    ensures
        !model.valid(),
        model.first_defect(other) ==> other == e,
{
    match e {
        Error::FaceTooSmall { face } => {
            assert(!model.face_ok(face as int));
        },
        Error::IndexOutOfRange { face, corner } => {
            assert(!model.corner_ok(face as int, corner as int));
            assert(!model.face_ok(face as int));
        },
    }
    if model.first_defect(other) {
        let f = match e {
            Error::FaceTooSmall { face } => face,
            Error::IndexOutOfRange { face, .. } => face,
        };
        let g = match other {
            Error::FaceTooSmall { face } => face,
            Error::IndexOutOfRange { face, .. } => face,
        };
        assert(!model.face_ok(f as int));
        assert(!model.face_ok(g as int)) by {
            match other {
                Error::FaceTooSmall { face } => {},
                Error::IndexOutOfRange { face, corner } => {
                    assert(!model.corner_ok(face as int, corner as int));
                },
            }
        }
        assert(f == g);
        match (e, other) {
            (Error::IndexOutOfRange { corner: c1, .. }, Error::IndexOutOfRange { corner: c2, .. }) => {
                assert(!model.corner_ok(f as int, c1 as int));
                assert(!model.corner_ok(f as int, c2 as int));
                assert(c1 == c2);
            },
            _ => {},
        }
    }
}

/// Moving a mesh keeps it valid, and moving it twice is moving it by the
/// composition.
pub proof fn lemma_transformed(model: MeshModel, first: Seq<Op>, second: Seq<Op>)
    ensures
        model.valid() ==> model.transformed(first).valid(),
        model.transformed(first).transformed(second) == model.transformed(
            crate::transform::composed(second, first),
        ),
        model.transformed(Seq::empty()) == model,
{
    if model.valid() {
        let moved = model.transformed(first);
        assert forall|f: int| 0 <= f < moved.faces.len() implies #[trigger] moved.face_ok(f) by {
            assert(model.face_ok(f));
            assert forall|c: int| 0 <= c < moved.faces[f].len() implies #[trigger] moved.corner_ok(f, c) by {
                assert(model.corner_ok(f, c));
            }
        }
    }
    assert forall|i: int| 0 <= i < model.vertices.len() implies image(second, image(first, model.vertices[i]))
        == image(crate::transform::composed(second, first), model.vertices[i]) by {
        crate::transform::lemma_image_composed(second, first, model.vertices[i]);
    }
    assert(model.transformed(first).transformed(second).vertices =~= model.transformed(
        crate::transform::composed(second, first),
    ).vertices);
    assert(model.transformed(Seq::empty()).vertices =~= model.vertices);
}

} // verus!
