//! Rules: the tree-shaped description of a structure.
//!
//! A rule is a mesh, a list of child rules, or a value from which a rule is
//! made only when the tree is evaluated. Every rule carries a transform that
//! acts on all that the rule produces, and every child has a transform of its
//! own besides.

use crate::mesh::{Mesh, MeshModel};
use crate::transform::{composed, power, Op, Transform, Vertex};
use vstd::prelude::*;

verus! {

/// A value that can produce a rule on demand. A deferred rule holds such a
/// value and asks it for a rule each time evaluation reaches it, so two
/// evaluations, or two copies of the deferred rule, may get different rules.
pub trait ToRule: Sized {
    /// The rule that takes this value's place now.
    fn to_rule(&self) -> Rule<Self>;
}

/// The type of deferred values for rules that defer nothing. Its one value
/// stands for the rule that produces nothing.
#[derive(Clone, Copy, Debug)]
pub struct NoDeferral;

impl ToRule for NoDeferral {
    fn to_rule(&self) -> (rule: Rule<Self>)
        ensures
            rule@ == RuleModel::<NoDeferral>::empty(),
    {
        Rule::new()
    }
}

/// A rule over deferred values of type `D`.
pub struct Rule<D> {
    /// Applied to everything that the rule produces, after the transforms
    /// further down the tree.
    pub transform: Transform,
    pub body: Body<D>,
}

/// What a rule is made of.
pub enum Body<D> {
    /// One mesh.
    Leaf(Mesh),
    /// Child rules, each with a transform, in the order of their output.
    Children(Vec<(Rule<D>, Transform)>),
    /// A rule yet to be made.
    Deferred(D),
}

/// The mathematical content of a rule.
pub struct RuleModel<D> {
    pub transform: Seq<Op>,
    pub body: BodyModel<D>,
}

/// The mathematical content of a rule's body.
pub enum BodyModel<D> {
    Leaf(MeshModel),
    Children(Seq<(RuleModel<D>, Seq<Op>)>),
    Deferred(D),
}

impl<D> Rule<D> {
    /// The content of this rule.
    pub open spec fn model(self) -> RuleModel<D>
        decreases self,
    {
        RuleModel {
            transform: self.transform@,
            body: match self.body {
                Body::Leaf(mesh) => BodyModel::Leaf(mesh@),
                Body::Children(children) => BodyModel::Children(
                    Seq::new(
                        children@.len(),
                        |i: int|
                            if 0 <= i < children@.len() {
                                (children@[i].0.model(), children@[i].1@)
                            } else {
                                arbitrary()
                            },
                    ),
                ),
                Body::Deferred(source) => BodyModel::Deferred(source),
            },
        }
    }
}

impl<D> View for Rule<D> {
    type V = RuleModel<D>;

    open spec fn view(&self) -> RuleModel<D> {
        self.model()
    }
}

impl<D> RuleModel<D> {
    /// No part of the rule is deferred.
    pub open spec fn is_static(self) -> bool
        decreases self,
    {
        match self.body {
            BodyModel::Leaf(_) => true,
            BodyModel::Children(children) => forall|i: int|
                0 <= i < children.len() ==> (#[trigger] children[i]).0.is_static(),
            BodyModel::Deferred(_) => false,
        }
    }

    /// The number of nodes of the tree: the rule itself and the nodes of its
    /// children.
    pub open spec fn nodes(self) -> nat
        decreases self, 0nat,
    {
        match self.body {
            BodyModel::Children(children) => 1 + nodes_of_children(children, children.len()),
            _ => 1,
        }
    }

    /// The meshes that the rule produces under the transform `inherited`, in
    /// order: depth first, children in the order of their list. A leaf gives
    /// its mesh, moved first by the transforms on the way up to the root of
    /// the rule and then by `inherited`. A deferred part gives nothing.
    pub open spec fn flatten(self, inherited: Seq<Op>) -> Seq<MeshModel>
        decreases self, 0nat,
    {
        let effective = composed(inherited, self.transform);
        match self.body {
            BodyModel::Leaf(mesh) => seq![mesh.transformed(effective)],
            BodyModel::Children(children) => flatten_children(
                children,
                effective,
                children.len(),
            ),
            BodyModel::Deferred(_) => Seq::empty(),
        }
    }
}

/// The number of nodes in the first `n` of `children`.
pub open spec fn nodes_of_children<D>(children: Seq<(RuleModel<D>, Seq<Op>)>, n: nat) -> nat
    decreases children, n,
{
    if n == 0 || n > children.len() {
        0
    } else {
        nodes_of_children(children, (n - 1) as nat) + children[n - 1].0.nodes()
    }
}

/// The meshes that the first `n` of `children` produce, one child after the
/// other, each under `effective` composed with the child's own transform.
pub open spec fn flatten_children<D>(
    children: Seq<(RuleModel<D>, Seq<Op>)>,
    effective: Seq<Op>,
    n: nat,
) -> Seq<MeshModel>
    decreases children, n,
{
    if n == 0 || n > children.len() {
        Seq::empty()
    } else {
        flatten_children(children, effective, (n - 1) as nat) + children[n - 1].0.flatten(
            composed(effective, children[n - 1].1),
        )
    }
}


impl<D> RuleModel<D> {
    /// The rule that produces nothing: no children, no transform.
    pub open spec fn empty() -> RuleModel<D> {
        RuleModel { transform: Seq::empty(), body: BodyModel::Children(Seq::empty()) }
    }

    /// The rule that produces `mesh` as it is.
    pub open spec fn leaf(mesh: MeshModel) -> RuleModel<D> {
        RuleModel { transform: Seq::empty(), body: BodyModel::Leaf(mesh) }
    }

    /// The rule to be made from `source` at evaluation time.
    pub open spec fn deferred(source: D) -> RuleModel<D> {
        RuleModel { transform: Seq::empty(), body: BodyModel::Deferred(source) }
    }

    /// The rule with `child` added after what it held. A list of children
    /// grows by one; a mesh or a deferred rule becomes the first of two
    /// children. Either way the rule's transform stays where it is and acts on
    /// the new child too.
    pub open spec fn pushed(self, child: RuleModel<D>) -> RuleModel<D> {
        match self.body {
            BodyModel::Children(children) => RuleModel {
                transform: self.transform,
                body: BodyModel::Children(children.push((child, Seq::empty()))),
            },
            _ => RuleModel {
                transform: self.transform,
                body: BodyModel::Children(
                    seq![
                        (RuleModel { transform: Seq::empty(), body: self.body }, Seq::empty()),
                        (child, Seq::empty()),
                    ],
                ),
            },
        }
    }

    /// The rule with `transform` attached: it acts after the transforms that
    /// the rule had, so the transform attached last is the outermost.
    pub open spec fn tf(self, transform: Seq<Op>) -> RuleModel<D> {
        RuleModel { transform: composed(transform, self.transform), body: self.body }
    }

    /// `count` copies of the rule as the children of a new rule, copy number
    /// `i`, counted from zero, under `step` composed with itself `i` times.
    pub open spec fn replicated(self, count: nat, step: Seq<Op>) -> RuleModel<D> {
        RuleModel {
            transform: Seq::empty(),
            body: BodyModel::Children(Seq::new(count, |i: int| (self, power(step, i as nat)))),
        }
    }
}

/// A request for copies of a rule, each one step further than the one before.
pub struct Replicate {
    pub count: usize,
    pub step: Transform,
}

impl Replicate {
    /// `count` copies, `step` apart.
    pub fn n(count: usize, step: Transform) -> (replicate: Replicate)
        ensures
            replicate.count == count,
            replicate.step == step,
    {
        Replicate { count, step }
    }
}

impl<D> Rule<D> {
    /// The rule that produces nothing.
    pub fn new() -> (rule: Rule<D>)
        ensures
            rule@ == RuleModel::<D>::empty(),
    {
        let rule = Rule { transform: Transform::identity(), body: Body::Children(Vec::new()) };
        assert(rule@.body->Children_0 =~= Seq::empty());
        rule
    }

    /// The rule that produces `mesh`.
    pub fn leaf(mesh: Mesh) -> (rule: Rule<D>)
        ensures
            rule@ == RuleModel::<D>::leaf(mesh@),
    {
        Rule { transform: Transform::identity(), body: Body::Leaf(mesh) }
    }

    /// The rule to be made from `source` whenever evaluation reaches it.
    pub fn defer(source: D) -> (rule: Rule<D>)
        ensures
            rule@ == RuleModel::deferred(source),
    {
        Rule { transform: Transform::identity(), body: Body::Deferred(source) }
    }

    /// Adds `child` after what the rule holds.
    pub fn push(self, child: Rule<D>) -> (rule: Rule<D>)
        ensures
            rule@ == self@.pushed(child@),
    {
        let ghost before = self@;
        let Rule { transform, body } = self;
        match body {
            Body::Children(children) => {
                let mut children = children;
                children.push((child, Transform::identity()));
                let rule = Rule { transform, body: Body::Children(children) };
                assert(rule@.body->Children_0 =~= before.pushed(child@).body->Children_0);
                rule
            },
            other => {
                let first = Rule { transform: Transform::identity(), body: other };
                assert(first@ == (RuleModel { transform: Seq::empty(), body: before.body }));
                let mut children: Vec<(Rule<D>, Transform)> = Vec::new();
                children.push((first, Transform::identity()));
                children.push((child, Transform::identity()));
                let rule = Rule { transform, body: Body::Children(children) };
                assert(rule@.body->Children_0 =~= before.pushed(child@).body->Children_0);
                rule
            },
        }
    }

    /// Attaches `transform` to the rule, outside the transforms that it has.
    pub fn tf(self, transform: Transform) -> (rule: Rule<D>)
        ensures
            rule@ == self@.tf(transform@),
    {
        let Rule { transform: inner, body } = self;
        Rule { transform: transform.compose(&inner), body }
    }

    /// Whether no part of the rule is deferred.
    #[verifier::loop_isolation(false)]
    pub fn is_static(&self) -> (b: bool)
        ensures
            b == self@.is_static(),
        decreases self,
    {
        match &self.body {
            Body::Leaf(_) => true,
            Body::Deferred(_) => false,
            Body::Children(children) => {
                let mut i: usize = 0;
                while i < children.len()
                    invariant
                        i <= children.len(),
                        forall|j: int| 0 <= j < i ==> (#[trigger] self@.body->Children_0[j]).0.is_static(),
                    decreases children.len() - i,
                {
                    if !children[i].0.is_static() {
                        assert(!self@.body->Children_0[i as int].0.is_static());
                        return false;
                    }
                    i += 1;
                }
                true
            },
        }
    }
}

impl<D: Copy> Rule<D> {
    /// A copy of the rule. A deferred part of the copy holds the same value
    /// as the part that it was copied from, and is made into a rule on its
    /// own.
    #[verifier::loop_isolation(false)]
    pub fn duplicate(&self) -> (copy: Rule<D>)
        ensures
            copy@ == self@,
        decreases self,
    {
        let transform = self.transform.clone();
        match &self.body {
            Body::Leaf(mesh) => Rule { transform, body: Body::Leaf(mesh.clone()) },
            Body::Deferred(source) => Rule { transform, body: Body::Deferred(*source) },
            Body::Children(children) => {
                let mut copies: Vec<(Rule<D>, Transform)> = Vec::new();
                let mut i: usize = 0;
                while i < children.len()
                    invariant
                        i <= children.len(),
                        copies.len() == i,
                        forall|j: int|
                            0 <= j < i ==> (#[trigger] copies@[j]).0@ == children@[j].0@
                                && copies@[j].1@ == children@[j].1@,
                    decreases children.len() - i,
                {
                    let child = &children[i];
                    copies.push((child.0.duplicate(), child.1.clone()));
                    i += 1;
                }
                let copy = Rule { transform, body: Body::Children(copies) };
                assert(copy@.body->Children_0 =~= self@.body->Children_0);
                copy
            },
        }
    }

    /// `replicate.count` copies of the rule as the children of a new rule,
    /// the first as it is and each next one a further `replicate.step` on.
    pub fn replicate(self, replicate: &Replicate) -> (rule: Rule<D>)
        ensures
            rule@ == self@.replicated(replicate.count as nat, replicate.step@),
    {
        let mut children: Vec<(Rule<D>, Transform)> = Vec::new();
        let mut reach = Transform::identity();
        let mut i: usize = 0;
        while i < replicate.count
            invariant
                i <= replicate.count,
                children.len() == i,
                reach@ == power(replicate.step@, i as nat),
                forall|j: int|
                    0 <= j < i ==> (#[trigger] children@[j]).0@ == self@ && children@[j].1@ == power(
                        replicate.step@,
                        j as nat,
                    ),
            decreases replicate.count - i,
        {
            let next = replicate.step.compose(&reach);
            children.push((self.duplicate(), reach));
            reach = next;
            i += 1;
        }
        let rule = Rule { transform: Transform::identity(), body: Body::Children(children) };
        assert(rule@.body->Children_0 =~= self@.replicated(
            replicate.count as nat,
            replicate.step@,
        ).body->Children_0);
        rule
    }
}


/// What the first `n` children produce depends on those children alone.
pub proof fn lemma_flatten_children_agree<D>(
    a: Seq<(RuleModel<D>, Seq<Op>)>,
    b: Seq<(RuleModel<D>, Seq<Op>)>,
    effective: Seq<Op>,
    n: nat,
)
    requires
        n <= a.len(),
        n <= b.len(),
        forall|i: int| 0 <= i < n ==> a[i] == b[i],
    ensures
        flatten_children(a, effective, n) == flatten_children(b, effective, n),
    decreases n,
{
    if n > 0 {
        lemma_flatten_children_agree(a, b, effective, (n - 1) as nat);
    }
}

/// Output keeps the order of the children: what a list of children produces
/// is what its front part produces followed by what its back part produces,
/// wherever the list is cut.
pub proof fn lemma_children_in_order<D>(
    front: Seq<(RuleModel<D>, Seq<Op>)>,
    back: Seq<(RuleModel<D>, Seq<Op>)>,
    effective: Seq<Op>,
)
    ensures
        flatten_children(front + back, effective, (front + back).len()) == flatten_children(
            front,
            effective,
            front.len(),
        ) + flatten_children(back, effective, back.len()),
    decreases back.len(),
{
    let all = front + back;
    if back.len() == 0 {
        assert(all =~= front);
        assert(flatten_children(back, effective, 0) =~= Seq::empty());
        assert(flatten_children(front, effective, front.len()) + Seq::<MeshModel>::empty()
            =~= flatten_children(front, effective, front.len()));
    } else {
        let shorter = back.drop_last();
        lemma_children_in_order(front, shorter, effective);
        lemma_flatten_children_agree(all, front + shorter, effective, (all.len() - 1) as nat);
        lemma_flatten_children_agree(back, shorter, effective, (back.len() - 1) as nat);
        let tail = back.last().0.flatten(composed(effective, back.last().1));
        assert(all[all.len() - 1] == back.last());
        assert(flatten_children(all, effective, all.len()) =~= flatten_children(
            front,
            effective,
            front.len(),
        ) + (flatten_children(shorter, effective, shorter.len()) + tail));
    }
}

/// A rule with the three children `c0`, `c1` and `c2` produces the meshes of
/// `c0`, in their order, then those of `c1`, then those of `c2`.
pub proof fn lemma_three_children<D>(
    transform: Seq<Op>,
    c0: (RuleModel<D>, Seq<Op>),
    c1: (RuleModel<D>, Seq<Op>),
    c2: (RuleModel<D>, Seq<Op>),
    inherited: Seq<Op>,
)
    ensures
        (RuleModel { transform, body: BodyModel::Children(seq![c0, c1, c2]) }).flatten(inherited)
            == c0.0.flatten(composed(composed(inherited, transform), c0.1)) + c1.0.flatten(
            composed(composed(inherited, transform), c1.1),
        ) + c2.0.flatten(composed(composed(inherited, transform), c2.1)),
{
    let effective = composed(inherited, transform);
    let children = seq![c0, c1, c2];
    assert(flatten_children(children, effective, 0) =~= Seq::empty());
    assert(flatten_children(children, effective, 1) =~= c0.0.flatten(composed(effective, c0.1)));
    assert(flatten_children(children, effective, 2) =~= c0.0.flatten(composed(effective, c0.1))
        + c1.0.flatten(composed(effective, c1.1)));
    assert(flatten_children(children, effective, 3) =~= c0.0.flatten(composed(effective, c0.1))
        + c1.0.flatten(composed(effective, c1.1)) + c2.0.flatten(composed(effective, c2.1)));
}

/// A rule with a child pushed produces what it produced before, followed by
/// what the child produces under the rule's transform.
pub proof fn lemma_pushed<D>(rule: RuleModel<D>, child: RuleModel<D>, inherited: Seq<Op>)
    ensures
        rule.pushed(child).flatten(inherited) == rule.flatten(inherited) + child.flatten(
            composed(inherited, rule.transform),
        ),
{
    let effective = composed(inherited, rule.transform);
    assert(composed(effective, Seq::empty()) =~= effective);
    match rule.body {
        BodyModel::Children(children) => {
            lemma_children_in_order(children, seq![(child, Seq::<Op>::empty())], effective);
            assert(children.push((child, Seq::empty())) =~= children + seq![
                (child, Seq::<Op>::empty()),
            ]);
            let one = seq![(child, Seq::<Op>::empty())];
            assert(flatten_children(one, effective, 0) =~= Seq::empty());
            assert(flatten_children(one, effective, 1) =~= child.flatten(effective));
        },
        _ => {
            let inner = RuleModel { transform: Seq::<Op>::empty(), body: rule.body };
            let two = seq![(inner, Seq::<Op>::empty()), (child, Seq::<Op>::empty())];
            assert(flatten_children(two, effective, 0) =~= Seq::empty());
            assert(flatten_children(two, effective, 1) =~= inner.flatten(effective));
            assert(flatten_children(two, effective, 2) =~= inner.flatten(effective) + child.flatten(
                effective,
            ));
            assert(inner.flatten(effective) == rule.flatten(inherited));
        },
    }
}

/// Attaching a transform to a rule is the same as evaluating the rule under
/// that transform: the one attached last acts last but for what is inherited.
pub proof fn lemma_tf<D>(rule: RuleModel<D>, transform: Seq<Op>, inherited: Seq<Op>)
    ensures
        rule.tf(transform).flatten(inherited) == rule.flatten(composed(inherited, transform)),
{
    assert(composed(inherited, composed(transform, rule.transform)) =~= composed(
        composed(inherited, transform),
        rule.transform,
    ));
}

/// The meshes `meshes`, each moved by `ops`.
pub open spec fn all_transformed(meshes: Seq<MeshModel>, ops: Seq<Op>) -> Seq<MeshModel> {
    meshes.map_values(|mesh: MeshModel| mesh.transformed(ops))
}

/// Transforms compose along every path of the tree: evaluating a rule under
/// `outer` composed with `inner` gives the meshes that it produces under
/// `inner`, each then moved by `outer`.
pub proof fn lemma_flatten_inherited<D>(rule: RuleModel<D>, outer: Seq<Op>, inner: Seq<Op>)
    ensures
        rule.flatten(composed(outer, inner)) == all_transformed(rule.flatten(inner), outer),
    decreases rule, 0nat,
{
    let effective = composed(inner, rule.transform);
    assert(composed(composed(outer, inner), rule.transform) =~= composed(outer, effective));
    match rule.body {
        BodyModel::Leaf(mesh) => {
            crate::mesh::lemma_transformed(mesh, effective, outer);
            assert(rule.flatten(composed(outer, inner)) =~= all_transformed(
                rule.flatten(inner),
                outer,
            ));
        },
        BodyModel::Children(children) => {
            lemma_flatten_children_inherited(children, outer, effective, children.len());
        },
        BodyModel::Deferred(_) => {
            assert(rule.flatten(composed(outer, inner)) =~= all_transformed(
                rule.flatten(inner),
                outer,
            ));
        },
    }
}

/// The same for the first `n` of a list of children.
pub proof fn lemma_flatten_children_inherited<D>(
    children: Seq<(RuleModel<D>, Seq<Op>)>,
    outer: Seq<Op>,
    effective: Seq<Op>,
    n: nat,
)
    requires
        n <= children.len(),
    ensures
        flatten_children(children, composed(outer, effective), n) == all_transformed(
            flatten_children(children, effective, n),
            outer,
        ),
    decreases children, n,
{
    if n == 0 {
        assert(flatten_children(children, composed(outer, effective), n) =~= all_transformed(
            flatten_children(children, effective, n),
            outer,
        ));
    } else {
        let child = children[n - 1];
        lemma_flatten_children_inherited(children, outer, effective, (n - 1) as nat);
        lemma_flatten_inherited(child.0, outer, composed(effective, child.1));
        assert(composed(composed(outer, effective), child.1) =~= composed(
            outer,
            composed(effective, child.1),
        ));
        assert(flatten_children(children, composed(outer, effective), n) =~= all_transformed(
            flatten_children(children, effective, n),
            outer,
        ));
    }
}

/// A mesh under a translation along the first axis comes out with that
/// coordinate of every vertex moved by the distance and the other two
/// coordinates, and the faces, as they were.
pub proof fn lemma_translated_leaf<D>(mesh: MeshModel, d: i64)
    ensures
        RuleModel::<D>::leaf(mesh).tf(seq![Op::Translate { x: d, y: 0, z: 0 }]).flatten(
            Seq::empty(),
        ) == seq![
            MeshModel {
                vertices: mesh.vertices.map_values(
                    |v: Vertex| Vertex { x: crate::fixed::shifted(v.x, d), y: v.y, z: v.z },
                ),
                faces: mesh.faces,
            },
        ],
{
    let op = Op::Translate { x: d, y: 0, z: 0 };
    let ops = composed(Seq::empty(), composed(seq![op], Seq::empty()));
    assert(ops =~= seq![op]);
    assert forall|i: int| 0 <= i < mesh.vertices.len() implies crate::transform::image(
        seq![op],
        mesh.vertices[i],
    ) == (Vertex {
        x: crate::fixed::shifted(mesh.vertices[i].x, d),
        y: mesh.vertices[i].y,
        z: mesh.vertices[i].z,
    }) by {
        crate::transform::lemma_image_single(op, mesh.vertices[i]);
    }
    assert(mesh.transformed(seq![op]).vertices =~= mesh.vertices.map_values(
        |v: Vertex| Vertex { x: crate::fixed::shifted(v.x, d), y: v.y, z: v.z },
    ));
}

/// Replicating a mesh gives one mesh for each copy, in order, copy number `i`
/// moved by `step` composed with itself `i` times and then by what is
/// inherited.
pub proof fn lemma_replicated_leaf<D>(
    mesh: MeshModel,
    count: nat,
    step: Seq<Op>,
    inherited: Seq<Op>,
)
    ensures
        RuleModel::<D>::leaf(mesh).replicated(count, step).flatten(inherited) == Seq::new(
            count,
            |i: int| mesh.transformed(composed(inherited, power(step, i as nat))),
        ),
{
    assert(composed(inherited, Seq::empty()) =~= inherited);
    lemma_replicated_leaf_prefix::<D>(mesh, count, step, inherited, count);
}

/// The same for the first `n` copies.
proof fn lemma_replicated_leaf_prefix<D>(
    mesh: MeshModel,
    count: nat,
    step: Seq<Op>,
    inherited: Seq<Op>,
    n: nat,
)
    requires
        n <= count,
    ensures
        flatten_children(
            RuleModel::<D>::leaf(mesh).replicated(count, step).body->Children_0,
            inherited,
            n,
        ) == Seq::new(n, |i: int| mesh.transformed(composed(inherited, power(step, i as nat)))),
    decreases n,
{
    let children = RuleModel::<D>::leaf(mesh).replicated(count, step).body->Children_0;
    let expected = Seq::new(
        n,
        |i: int| mesh.transformed(composed(inherited, power(step, i as nat))),
    );
    if n == 0 {
        assert(flatten_children(children, inherited, n) =~= expected);
    } else {
        lemma_replicated_leaf_prefix::<D>(mesh, count, step, inherited, (n - 1) as nat);
        let passed = composed(inherited, power(step, (n - 1) as nat));
        assert(children[n - 1] == (RuleModel::<D>::leaf(mesh), power(step, (n - 1) as nat)));
        assert(composed(passed, Seq::empty()) =~= passed);
        let leaf = RuleModel::<D>::leaf(mesh);
        assert(leaf.flatten(passed) =~= seq![mesh.transformed(passed)]);
        assert(flatten_children(children, inherited, n) == flatten_children(
            children,
            inherited,
            (n - 1) as nat,
        ) + leaf.flatten(passed));
        assert(flatten_children(children, inherited, n) =~= expected);
    }
}

} // verus!
