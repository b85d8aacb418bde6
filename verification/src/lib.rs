//! Procedural generation of polygon meshes from composable rules, with export
//! to Wavefront OBJ text.
//!
//! A structure is described by a tree of rules: meshes, lists of child rules,
//! and deferred rules that are made only when the tree is walked. Transforms
//! attached along the way compose down every path of the tree. Evaluation
//! flattens the tree into a list of meshes, depth first, and export writes
//! the list as text, numbering the corners of each mesh after the vertices of
//! the meshes before it.
//!
//! Coordinates are fixed-point numbers with six decimals, so every operation
//! is exact integer arithmetic and has a precise contract.
//!
//! Conventions, each stated in the contracts:
//! - `outer.compose(&inner)` performs `inner` first;
//! - `rule.tf(t)` attaches `t` outside the transforms that the rule has, so
//!   the transform attached last acts last;
//! - a child is evaluated under what its parent inherits, then the parent's
//!   transform, then the child's own transform in the list, innermost last.

pub mod error;
pub mod evaluate;
pub mod export;
pub mod fixed;
pub mod mesh;
pub mod rule;
pub mod shapes;
pub mod transform;

use crate::export::{
    document, document_from, lemma_document_block, lemma_document_concat,
    lemma_document_from_zero, lemma_vertex_total_grows, mesh_text, vertex_total, Exporter,
};
use crate::fixed::saturate;
use crate::mesh::{models, Mesh, MeshModel};
use crate::rule::{lemma_replicated_leaf, lemma_three_children, BodyModel, RuleModel};
use crate::transform::{composed, lemma_power_translate, power, Op, Vertex};
use vstd::prelude::*;

verus! {

/// Appends to `sink` the OBJ text of `meshes`, in order. Each mesh is written
/// whole before the next is looked at, and its corners are numbered after the
/// vertices of all the meshes before it.
pub fn write_meshes(meshes: Vec<Mesh>, sink: &mut Vec<u8>)
    requires
        vertex_total(models(meshes@), meshes@.len()) <= usize::MAX,
    ensures
        final(sink)@ == old(sink)@ + document(models(meshes@), meshes@.len()),
{
    let ghost all = models(meshes@);
    let mut exporter = Exporter::new();
    let mut i: usize = 0;
    assert(sink@ =~= old(sink)@ + document(all, 0));
    while i < meshes.len()
        invariant
            i <= meshes.len(),
            all == models(meshes@),
            vertex_total(all, meshes@.len()) <= usize::MAX,
            exporter.offset() == vertex_total(all, i as nat),
            sink@ == old(sink)@ + document(all, i as nat),
        decreases meshes.len() - i,
    {
        let mesh = &meshes[i];
        proof {
            lemma_vertex_total_grows(all, (i + 1) as nat, meshes@.len());
        }
        let mut bytes = exporter.render_next(mesh);
        sink.append(&mut bytes);
        assert(sink@ =~= old(sink)@ + document(all, (i + 1) as nat));
        i += 1;
    }
}


/// The text of a rule with three children is the text of the first child's
/// meshes, then that of the second child's with every corner raised by the
/// vertices of the first, then that of the third child's with every corner
/// raised by the vertices of the first two: each child's meshes in their own
/// order, never mixed.
pub proof fn lemma_children_text<D>(
    transform: Seq<Op>,
    c0: (RuleModel<D>, Seq<Op>),
    c1: (RuleModel<D>, Seq<Op>),
    c2: (RuleModel<D>, Seq<Op>),
    inherited: Seq<Op>,
)
    ensures
        ({
            let effective = composed(inherited, transform);
            let m0 = c0.0.flatten(composed(effective, c0.1));
            let m1 = c1.0.flatten(composed(effective, c1.1));
            let m2 = c2.0.flatten(composed(effective, c2.1));
            let n0 = vertex_total(m0, m0.len());
            let n1 = vertex_total(m1, m1.len());
            let all = (RuleModel { transform, body: BodyModel::Children(seq![c0, c1, c2]) }).flatten(
                inherited,
            );
            &&& all == m0 + m1 + m2
            &&& document(all, all.len()) == document(m0, m0.len()) + document_from(
                m1,
                n0,
                m1.len(),
            ) + document_from(m2, n0 + n1, m2.len())
        }),
{
    let effective = composed(inherited, transform);
    let m0 = c0.0.flatten(composed(effective, c0.1));
    let m1 = c1.0.flatten(composed(effective, c1.1));
    let m2 = c2.0.flatten(composed(effective, c2.1));
    lemma_three_children(transform, c0, c1, c2, inherited);
    lemma_document_concat(m0 + m1, m2, 0);
    lemma_document_concat(m0, m1, 0);
    lemma_document_from_zero(m0 + m1 + m2, (m0 + m1 + m2).len());
    lemma_document_from_zero(m0, m0.len());
}

/// The copy number `k` of a mesh replicated along the second axis: the mesh
/// with that coordinate of every vertex moved by `k` times `d`, up to
/// saturation, and the other coordinates and the faces as they were.
pub open spec fn copy_along_y(mesh: MeshModel, k: int, d: i64) -> MeshModel {
    MeshModel {
        vertices: mesh.vertices.map_values(
            |v: Vertex| Vertex { x: v.x, y: saturate(v.y + k * d), z: v.z },
        ),
        faces: mesh.faces,
    }
}

/// A mesh replicated `count` times with a step of `d` along the second axis
/// gives `count` meshes, and is written copy by copy: copy number `k` is the
/// mesh moved by `k` times `d`, and its text is that of the moved mesh with
/// every corner raised by `k` times the number of its vertices.
pub proof fn lemma_replicated_text<D>(mesh: MeshModel, count: nat, d: i64, k: int)
    requires
        0 <= k < count,
    ensures
        ({
            let all = RuleModel::<D>::leaf(mesh).replicated(
                count,
                seq![Op::Translate { x: 0, y: d, z: 0 }],
            ).flatten(Seq::empty());
            &&& all.len() == count
            &&& all[k] == copy_along_y(mesh, k, d)
            &&& vertex_total(all, k as nat) == k * mesh.vertices.len()
            &&& document(all, (k + 1) as nat) == document(all, k as nat) + mesh_text(
                copy_along_y(mesh, k, d),
                (k * mesh.vertices.len()) as nat,
            )
        }),
{
    let step = seq![Op::Translate { x: 0, y: d, z: 0 }];
    let all = RuleModel::<D>::leaf(mesh).replicated(count, step).flatten(Seq::empty());
    lemma_replicated_leaf::<D>(mesh, count, step, Seq::empty());
    lemma_replicated_count::<D>(mesh, count, d, k as nat);
    lemma_document_block(all, k);
    let moves = composed(Seq::empty(), power(step, k as nat));
    assert(moves =~= power(step, k as nat));
    assert forall|i: int| 0 <= i < mesh.vertices.len() implies all[k].vertices[i] == copy_along_y(
        mesh,
        k,
        d,
    ).vertices[i] by {
        let v = mesh.vertices[i];
        lemma_power_translate(0, d, 0, k as nat, v);
        assert(k * 0 == 0) by (nonlinear_arith);
    }
    assert(all[k].vertices =~= copy_along_y(mesh, k, d).vertices);
}

/// The first `k` copies of a replicated mesh have `k` times its vertices.
proof fn lemma_replicated_count<D>(mesh: MeshModel, count: nat, d: i64, k: nat)
    requires
        k <= count,
    ensures
        vertex_total(
            RuleModel::<D>::leaf(mesh).replicated(
                count,
                seq![Op::Translate { x: 0, y: d, z: 0 }],
            ).flatten(Seq::empty()),
            k,
        ) == k * mesh.vertices.len(),
    decreases k,
{
    let step = seq![Op::Translate { x: 0, y: d, z: 0 }];
    lemma_replicated_leaf::<D>(mesh, count, step, Seq::empty());
    if k == 0 {
        assert(k * mesh.vertices.len() == 0) by (nonlinear_arith)
            requires
                k == 0,
        ;
    } else {
        lemma_replicated_count::<D>(mesh, count, d, (k - 1) as nat);
        assert(k * mesh.vertices.len() == (k - 1) * mesh.vertices.len() + mesh.vertices.len())
            by (nonlinear_arith);
    }
}

} // verus!
