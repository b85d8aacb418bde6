//! Wavefront OBJ text.
//!
//! A mesh is written as one `v` line for each vertex and then one `f` line
//! for each face. A face line names its corners by their place among all the
//! vertices written so far, counted from one, so a mesh that comes after
//! others has the number of their vertices added to each of its corners.

use crate::fixed::UNIT;
use crate::mesh::{models, Mesh, MeshModel};
use crate::transform::Vertex;
use vstd::prelude::*;

verus! {

/// The character for the digit `d`.
pub open spec fn digit(d: int) -> u8 {
    (48 + d) as u8
}

/// The number `n` in decimal, without leading zeros.
pub open spec fn decimal(n: nat) -> Seq<u8>
    decreases n,
{
    if n < 10 {
        seq![digit(n as int)]
    } else {
        decimal(n / 10).push(digit((n % 10) as int))
    }
}

/// The six decimals that stand for `n` millionths, for `n` below one whole.
pub open spec fn fraction(n: nat) -> Seq<u8> {
    seq![
        digit((n / 100_000 % 10) as int),
        digit((n / 10_000 % 10) as int),
        digit((n / 1_000 % 10) as int),
        digit((n / 100 % 10) as int),
        digit((n / 10 % 10) as int),
        digit((n % 10) as int),
    ]
}

/// The coordinate `c` as a decimal number: a minus sign if it is negative,
/// the whole part, a point and six decimals.
pub open spec fn coordinate_text(c: i64) -> Seq<u8> {
    let size: nat = if c < 0 {
        (-c) as nat
    } else {
        c as nat
    };
    let sign: Seq<u8> = if c < 0 {
        seq![45u8]
    } else {
        Seq::empty()
    };
    sign + decimal(size / (UNIT as nat)) + seq![46u8] + fraction(size % (UNIT as nat))
}

/// The line for the vertex `v`.
pub open spec fn vertex_line(v: Vertex) -> Seq<u8> {
    seq![118u8, 32u8] + coordinate_text(v.x) + seq![32u8] + coordinate_text(v.y) + seq![32u8]
        + coordinate_text(v.z) + seq![10u8]
}

/// The lines for the first `n` of the vertices `vertices`.
pub open spec fn vertex_lines(vertices: Seq<Vertex>, n: nat) -> Seq<u8>
    decreases n,
{
    if n == 0 || n > vertices.len() {
        Seq::empty()
    } else {
        vertex_lines(vertices, (n - 1) as nat) + vertex_line(vertices[n - 1])
    }
}

/// The first `n` corners of `face`, each after a space, numbered among all
/// vertices when `offset` vertices come before those of its mesh.
pub open spec fn corners_text(face: Seq<usize>, offset: nat, n: nat) -> Seq<u8>
    decreases n,
{
    if n == 0 || n > face.len() {
        Seq::empty()
    } else {
        corners_text(face, offset, (n - 1) as nat) + seq![32u8] + decimal(
            (offset + face[n - 1] + 1) as nat,
        )
    }
}

/// The line for the face `face`.
pub open spec fn face_line(face: Seq<usize>, offset: nat) -> Seq<u8> {
    seq![102u8] + corners_text(face, offset, face.len()) + seq![10u8]
}

/// The lines for the first `n` of the faces `faces`.
pub open spec fn face_lines(faces: Seq<Seq<usize>>, offset: nat, n: nat) -> Seq<u8>
    decreases n,
{
    if n == 0 || n > faces.len() {
        Seq::empty()
    } else {
        face_lines(faces, offset, (n - 1) as nat) + face_line(faces[n - 1], offset)
    }
}

/// The text of `mesh` when `offset` vertices were written before it.
pub open spec fn mesh_text(mesh: MeshModel, offset: nat) -> Seq<u8> {
    vertex_lines(mesh.vertices, mesh.vertices.len()) + face_lines(
        mesh.faces,
        offset,
        mesh.faces.len(),
    )
}

/// The number of vertices in the first `n` of `meshes`.
pub open spec fn vertex_total(meshes: Seq<MeshModel>, n: nat) -> nat
    decreases n,
{
    if n == 0 || n > meshes.len() {
        0
    } else {
        vertex_total(meshes, (n - 1) as nat) + meshes[n - 1].vertices.len()
    }
}

/// The text of the first `n` of `meshes`, one after the other, each with the
/// vertices of those before it as its offset.
pub open spec fn document(meshes: Seq<MeshModel>, n: nat) -> Seq<u8>
    decreases n,
{
    if n == 0 || n > meshes.len() {
        Seq::empty()
    } else {
        document(meshes, (n - 1) as nat) + mesh_text(
            meshes[n - 1],
            vertex_total(meshes, (n - 1) as nat),
        )
    }
}

/// Appends `n` in decimal to `out`.
fn push_decimal(out: &mut Vec<u8>, n: u64)
    ensures
        final(out)@ == old(out)@ + decimal(n as nat),
    decreases n,
{
    if n >= 10 {
        push_decimal(out, n / 10);
    }
    let last: u8 = (n % 10) as u8;
    out.push(48 + last);
    assert(out@ =~= old(out)@ + decimal(n as nat));
}

/// Appends the coordinate `c` to `out`.
fn push_coordinate(out: &mut Vec<u8>, c: i64)
    ensures
        final(out)@ == old(out)@ + coordinate_text(c),
{
    let size: u64 = if c < 0 {
        (-(c as i128)) as u64
    } else {
        c as u64
    };
    if c < 0 {
        out.push(45);
    }
    push_decimal(out, size / (UNIT as u64));
    out.push(46);
    let rest: u64 = size % (UNIT as u64);
    out.push(48 + (rest / 100_000 % 10) as u8);
    out.push(48 + (rest / 10_000 % 10) as u8);
    out.push(48 + (rest / 1_000 % 10) as u8);
    out.push(48 + (rest / 100 % 10) as u8);
    out.push(48 + (rest / 10 % 10) as u8);
    out.push(48 + (rest % 10) as u8);
    assert(out@ =~= old(out)@ + coordinate_text(c));
}

/// Appends the line for the vertex `v` to `out`.
fn push_vertex_line(out: &mut Vec<u8>, v: Vertex)
    ensures
        final(out)@ == old(out)@ + vertex_line(v),
{
    out.push(118);
    out.push(32);
    push_coordinate(out, v.x);
    out.push(32);
    push_coordinate(out, v.y);
    out.push(32);
    push_coordinate(out, v.z);
    out.push(10);
    assert(out@ =~= old(out)@ + vertex_line(v));
}

/// Appends the line for the face `face` to `out`.
fn push_face_line(out: &mut Vec<u8>, face: &Vec<usize>, vertex_offset: usize, vertex_count: usize)
    requires
        vertex_offset + vertex_count <= usize::MAX,
        forall|c: int| 0 <= c < face@.len() ==> face@[c] < vertex_count,
    ensures
        final(out)@ == old(out)@ + face_line(face@, vertex_offset as nat),
{
    out.push(102);
    let mut c: usize = 0;
    while c < face.len()
        invariant
            c <= face.len(),
            vertex_offset + vertex_count <= usize::MAX,
            forall|c: int| 0 <= c < face@.len() ==> face@[c] < vertex_count,
            out@ == old(out)@ + seq![102u8] + corners_text(face@, vertex_offset as nat, c as nat),
        decreases face.len() - c,
    {
        out.push(32);
        let global: usize = vertex_offset + face[c] + 1;
        push_decimal(out, global as u64);
        assert(out@ =~= old(out)@ + seq![102u8] + corners_text(
            face@,
            vertex_offset as nat,
            (c + 1) as nat,
        ));
        c += 1;
    }
    out.push(10);
    assert(out@ =~= old(out)@ + face_line(face@, vertex_offset as nat));
}

/// The text of `mesh` when `vertex_offset` vertices were written before it.
pub fn render_obj(mesh: &Mesh, vertex_offset: usize) -> (bytes: Vec<u8>)
    requires
        vertex_offset + mesh@.vertices.len() <= usize::MAX,
    ensures
        bytes@ == mesh_text(mesh@, vertex_offset as nat),
{
    proof {
        use_type_invariant(mesh);
    }
    let vertices = mesh.vertices();
    let faces = mesh.faces();
    let mut bytes: Vec<u8> = Vec::new();
    let mut i: usize = 0;
    while i < vertices.len()
        invariant
            i <= vertices.len(),
            bytes@ == vertex_lines(vertices@, i as nat),
        decreases vertices.len() - i,
    {
        push_vertex_line(&mut bytes, vertices[i]);
        i += 1;
    }
    let ghost head = bytes@;
    let mut f: usize = 0;
    while f < faces.len()
        invariant
            f <= faces.len(),
            mesh@.valid(),
            vertices@ == mesh@.vertices,
            crate::mesh::face_lists(faces@) == mesh@.faces,
            vertex_offset + vertices.len() <= usize::MAX,
            bytes@ == head + face_lines(mesh@.faces, vertex_offset as nat, f as nat),
        decreases faces.len() - f,
    {
        let face = &faces[f];
        assert(mesh@.faces[f as int] == face@);
        assert(mesh@.face_ok(f as int));
        assert forall|c: int| 0 <= c < face@.len() implies face@[c] < vertices.len() by {
            assert(mesh@.corner_ok(f as int, c));
        }
        push_face_line(&mut bytes, face, vertex_offset, vertices.len());
        assert(bytes@ =~= head + face_lines(mesh@.faces, vertex_offset as nat, (f + 1) as nat));
        f += 1;
    }
    bytes
}

/// The state of an export under way: how many vertices have been written.
pub struct Exporter {
    vertex_offset: usize,
}

impl Exporter {
    /// The number of vertices written so far.
    pub closed spec fn offset(self) -> nat {
        self.vertex_offset as nat
    }

    /// An export with nothing written yet.
    pub fn new() -> (exporter: Exporter)
        ensures
            exporter.offset() == 0,
    {
        Exporter { vertex_offset: 0 }
    }

    /// The number of vertices written so far.
    pub fn vertex_offset(&self) -> (n: usize)
        ensures
            n == self.offset(),
    {
        self.vertex_offset
    }

    /// Whether the vertices of `mesh` can still be numbered after those
    /// written so far.
    pub fn has_room(&self, mesh: &Mesh) -> (room: bool)
        ensures
            room == (self.offset() + mesh@.vertices.len() <= usize::MAX),
    {
        mesh.vertices().len() <= usize::MAX - self.vertex_offset
    }

    /// The text of `mesh` as the next mesh of the export. Its vertices count
    /// as written from here on.
    pub fn render_next(&mut self, mesh: &Mesh) -> (bytes: Vec<u8>)
        requires
            old(self).offset() + mesh@.vertices.len() <= usize::MAX,
        ensures
            bytes@ == mesh_text(mesh@, old(self).offset()),
            final(self).offset() == old(self).offset() + mesh@.vertices.len(),
    {
        let bytes = render_obj(mesh, self.vertex_offset);
        self.vertex_offset = self.vertex_offset + mesh.vertices().len();
        bytes
    }
}

/// The number of vertices in `meshes`, if it can be counted: the offset after
/// the last of them.
pub fn total_vertices(meshes: &Vec<Mesh>) -> (total: Option<usize>)
    ensures
        match total {
            Some(n) => n == vertex_total(models(meshes@), meshes@.len()),
            None => vertex_total(models(meshes@), meshes@.len()) > usize::MAX,
        },
{
    let mut total: usize = 0;
    let mut i: usize = 0;
    while i < meshes.len()
        invariant
            i <= meshes.len(),
            total == vertex_total(models(meshes@), i as nat),
        decreases meshes.len() - i,
    {
        let count: usize = meshes[i].vertices().len();
        if count > usize::MAX - total {
            proof {
                lemma_vertex_total_grows(models(meshes@), (i + 1) as nat, meshes@.len());
            }
            return None;
        }
        total = total + count;
        i += 1;
    }
    Some(total)
}

/// The vertex count only grows along a list of meshes.
pub proof fn lemma_vertex_total_grows(meshes: Seq<MeshModel>, i: nat, j: nat)
    requires
        i <= j <= meshes.len(),
    ensures
        vertex_total(meshes, i) <= vertex_total(meshes, j),
    decreases j,
{
    if i < j {
        lemma_vertex_total_grows(meshes, i, (j - 1) as nat);
    }
}

/// The number written for a corner of mesh number `k` lies among the numbers
/// of that mesh's own vertices: above the vertices of the meshes before it
/// and not above those up to and including it. So the corners of different
/// meshes never share a number.
pub proof fn lemma_corner_numbers(meshes: Seq<MeshModel>, k: int, f: int, c: int)
    requires
        0 <= k < meshes.len(),
        meshes[k].valid(),
        0 <= f < meshes[k].faces.len(),
        0 <= c < meshes[k].faces[f].len(),
    ensures
        vertex_total(meshes, k as nat) + 1 <= vertex_total(meshes, k as nat) + meshes[k].faces[f][c]
            + 1 <= vertex_total(meshes, (k + 1) as nat),
{
    assert(meshes[k].face_ok(f));
    assert(meshes[k].corner_ok(f, c));
}


/// The text of the first `n` of `meshes` when `start` vertices were written
/// before the first of them.
pub open spec fn document_from(meshes: Seq<MeshModel>, start: nat, n: nat) -> Seq<u8>
    decreases n,
{
    if n == 0 || n > meshes.len() {
        Seq::empty()
    } else {
        document_from(meshes, start, (n - 1) as nat) + mesh_text(
            meshes[n - 1],
            start + vertex_total(meshes, (n - 1) as nat),
        )
    }
}

/// A document is the text of its meshes with nothing written before them.
pub proof fn lemma_document_from_zero(meshes: Seq<MeshModel>, n: nat)
    ensures
        document(meshes, n) == document_from(meshes, 0, n),
    decreases n,
{
    if n > 0 && n <= meshes.len() {
        lemma_document_from_zero(meshes, (n - 1) as nat);
    }
}

/// The vertex count and the text of the first `n` meshes depend on those
/// meshes alone.
pub proof fn lemma_prefix_agrees(a: Seq<MeshModel>, b: Seq<MeshModel>, start: nat, n: nat)
    requires
        n <= a.len(),
        n <= b.len(),
        forall|i: int| 0 <= i < n ==> a[i] == b[i],
    ensures
        vertex_total(a, n) == vertex_total(b, n),
        document_from(a, start, n) == document_from(b, start, n),
    decreases n,
{
    if n > 0 {
        lemma_prefix_agrees(a, b, start, (n - 1) as nat);
    }
}

/// Mesh after mesh, never reordered: the text of a list cut in two is the
/// text of the front part, then the text of the back part with the vertices
/// of the front part counted as written before it. The same holds of the
/// vertex count.
pub proof fn lemma_document_concat(front: Seq<MeshModel>, back: Seq<MeshModel>, start: nat)
    ensures
        vertex_total(front + back, (front + back).len()) == vertex_total(front, front.len())
            + vertex_total(back, back.len()),
        document_from(front + back, start, (front + back).len()) == document_from(
            front,
            start,
            front.len(),
        ) + document_from(back, start + vertex_total(front, front.len()), back.len()),
    decreases back.len(),
{
    let all = front + back;
    let first = document_from(front, start, front.len());
    if back.len() == 0 {
        assert(all =~= front);
        assert(first + Seq::<u8>::empty() =~= first);
    } else {
        let shorter = back.drop_last();
        let n = (all.len() - 1) as nat;
        lemma_document_concat(front, shorter, start);
        lemma_prefix_agrees(all, front + shorter, start, n);
        lemma_prefix_agrees(
            back,
            shorter,
            start + vertex_total(front, front.len()),
            shorter.len(),
        );
        assert(all[all.len() - 1] == back.last());
        let middle = document_from(shorter, start + vertex_total(front, front.len()), shorter.len());
        let last = mesh_text(back.last(), start + vertex_total(all, n));
        assert(document_from(all, start, all.len()) =~= first + (middle + last));
    }
}

/// Each mesh of a document is written after those before it, with their
/// vertices as its offset: the running sum of their actual counts.
pub proof fn lemma_document_block(meshes: Seq<MeshModel>, k: int)
    requires
        0 <= k < meshes.len(),
    ensures
        document(meshes, (k + 1) as nat) == document(meshes, k as nat) + mesh_text(
            meshes[k],
            vertex_total(meshes, k as nat),
        ),
        vertex_total(meshes, (k + 1) as nat) == vertex_total(meshes, k as nat)
            + meshes[k].vertices.len(),
{
}

/// Four meshes are written as four blocks, each with its own vertices and
/// faces, the second after the vertices of the first, the third after those
/// of the first two, the fourth after those of the first three.
pub proof fn lemma_four_meshes(k0: MeshModel, k1: MeshModel, k2: MeshModel, k3: MeshModel)
    ensures
        document(seq![k0, k1, k2, k3], 4) == mesh_text(k0, 0) + mesh_text(k1, k0.vertices.len())
            + mesh_text(k2, k0.vertices.len() + k1.vertices.len()) + mesh_text(
            k3,
            k0.vertices.len() + k1.vertices.len() + k2.vertices.len(),
        ),
{
    let meshes = seq![k0, k1, k2, k3];
    lemma_document_block(meshes, 3);
    lemma_document_block(meshes, 2);
    lemma_document_block(meshes, 1);
    lemma_document_block(meshes, 0);
    assert(document(meshes, 0) =~= Seq::empty());
    assert(vertex_total(meshes, 0) == 0);
    assert(document(meshes, 1) =~= mesh_text(k0, 0));
}

/// The corners of two different meshes never share a number: every number
/// written for the earlier mesh is below every number written for the later
/// one.
pub proof fn lemma_corner_ranges_apart(
    meshes: Seq<MeshModel>,
    k: int,
    f: int,
    c: int,
    l: int,
    g: int,
    e: int,
)
    requires
        0 <= k < l < meshes.len(),
        meshes[k].valid(),
        0 <= f < meshes[k].faces.len(),
        0 <= c < meshes[k].faces[f].len(),
        0 <= g < meshes[l].faces.len(),
        0 <= e < meshes[l].faces[g].len(),
    ensures
        vertex_total(meshes, k as nat) + meshes[k].faces[f][c] + 1 < vertex_total(meshes, l as nat)
            + meshes[l].faces[g][e] + 1,
{
    lemma_corner_numbers(meshes, k, f, c);
    lemma_vertex_total_grows(meshes, (k + 1) as nat, l as nat);
}

/// The vertices of the first `n` of `meshes`, mesh after mesh.
pub open spec fn all_vertices(meshes: Seq<MeshModel>, n: nat) -> Seq<Vertex>
    decreases n,
{
    if n == 0 || n > meshes.len() {
        Seq::empty()
    } else {
        all_vertices(meshes, (n - 1) as nat) + meshes[n - 1].vertices
    }
}

/// The meshes `meshes` without their faces.
pub open spec fn without_faces(meshes: Seq<MeshModel>) -> Seq<MeshModel> {
    meshes.map_values(|mesh: MeshModel| MeshModel { vertices: mesh.vertices, faces: Seq::empty() })
}

/// The lines of a list of vertices cut in two are the lines of the front
/// part and then those of the back part.
pub proof fn lemma_vertex_lines_concat(front: Seq<Vertex>, back: Seq<Vertex>, n: nat)
    requires
        n <= back.len(),
    ensures
        vertex_lines(front + back, front.len() + n) == vertex_lines(front, front.len())
            + vertex_lines(back, n),
    decreases front.len() + n,
{
    let all = front + back;
    if n == 0 {
        lemma_vertex_lines_agree(all, front, front.len());
        assert(vertex_lines(front, front.len()) + vertex_lines(back, 0) =~= vertex_lines(
            front,
            front.len(),
        ));
    } else {
        lemma_vertex_lines_concat(front, back, (n - 1) as nat);
        assert(all[front.len() + n - 1] == back[n - 1]);
        assert(vertex_lines(all, front.len() + n) =~= vertex_lines(front, front.len()) + (
        vertex_lines(back, (n - 1) as nat) + vertex_line(back[n - 1])));
    }
}

/// The lines of the first `n` vertices depend on those vertices alone.
pub proof fn lemma_vertex_lines_agree(a: Seq<Vertex>, b: Seq<Vertex>, n: nat)
    requires
        n <= a.len(),
        n <= b.len(),
        forall|i: int| 0 <= i < n ==> a[i] == b[i],
    ensures
        vertex_lines(a, n) == vertex_lines(b, n),
    decreases n,
{
    if n > 0 {
        lemma_vertex_lines_agree(a, b, (n - 1) as nat);
    }
}

/// The vertex lines of a document, taken by themselves, are the lines of
/// `all_vertices` in order: leaving the faces out of every mesh leaves
/// exactly those lines, one for each vertex counted.
pub proof fn lemma_vertex_lines_of_document(meshes: Seq<MeshModel>, n: nat)
    requires
        n <= meshes.len(),
    ensures
        all_vertices(meshes, n).len() == vertex_total(meshes, n),
        document(without_faces(meshes), n) == vertex_lines(
            all_vertices(meshes, n),
            vertex_total(meshes, n),
        ),
    decreases n,
{
    let bare = without_faces(meshes);
    if n > 0 {
        lemma_vertex_lines_of_document(meshes, (n - 1) as nat);
        let before = all_vertices(meshes, (n - 1) as nat);
        let mesh = meshes[n - 1];
        lemma_vertex_lines_concat(before, mesh.vertices, mesh.vertices.len());
        assert(bare[n - 1].vertices == mesh.vertices);
        assert(face_lines(bare[n - 1].faces, vertex_total(bare, (n - 1) as nat), 0) =~= Seq::empty());
        assert(mesh_text(bare[n - 1], vertex_total(bare, (n - 1) as nat)) =~= vertex_lines(
            mesh.vertices,
            mesh.vertices.len(),
        ));
    }
}

/// The number written for a corner is the place, counted from one, of the
/// line of the vertex that the corner names within its mesh.
pub proof fn lemma_corner_names_vertex(meshes: Seq<MeshModel>, k: int, f: int, c: int)
    requires
        0 <= k < meshes.len(),
        meshes[k].valid(),
        0 <= f < meshes[k].faces.len(),
        0 <= c < meshes[k].faces[f].len(),
    ensures
        vertex_total(meshes, k as nat) + meshes[k].faces[f][c] < all_vertices(
            meshes,
            meshes.len(),
        ).len(),
        all_vertices(meshes, meshes.len())[vertex_total(meshes, k as nat)
            + meshes[k].faces[f][c]] == meshes[k].vertices[meshes[k].faces[f][c] as int],
{
    assert(meshes[k].face_ok(f));
    assert(meshes[k].corner_ok(f, c));
    lemma_vertex_lines_of_document(meshes, k as nat);
    lemma_all_vertices_keep(meshes, (k + 1) as nat, meshes.len(), meshes[k].faces[f][c] as int);
}

/// Later meshes add to the list of all vertices and leave the earlier ones
/// where they are.
proof fn lemma_all_vertices_keep(meshes: Seq<MeshModel>, k: nat, n: nat, i: int)
    requires
        1 <= k <= n <= meshes.len(),
        0 <= i < meshes[k - 1].vertices.len(),
    ensures
        all_vertices(meshes, (k - 1) as nat).len() + i < all_vertices(meshes, n).len(),
        all_vertices(meshes, n)[all_vertices(meshes, (k - 1) as nat).len() + i] == meshes[k
            - 1].vertices[i],
    decreases n,
{
    if k < n {
        lemma_all_vertices_keep(meshes, k, (n - 1) as nat, i);
    }
}

} // verus!
