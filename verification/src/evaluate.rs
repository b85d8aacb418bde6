//! Evaluation: from a rule to the list of meshes that it describes.
//!
//! `evaluate` walks a rule without deferred parts in one go. `Evaluator`
//! walks any rule one node at a time and asks a deferred part for its rule
//! when it gets there, so the caller decides how long to go on.

use crate::mesh::{models, Mesh, MeshModel};
use crate::rule::{flatten_children, nodes_of_children, Body, BodyModel, Rule, RuleModel, ToRule};
use crate::transform::{composed, power, Op, Transform};
use vstd::prelude::*;

verus! {

/// Appends to `out` the meshes that `rule` produces under `inherited`.
#[verifier::loop_isolation(false)]
fn evaluate_into<D>(rule: &Rule<D>, inherited: &Transform, out: &mut Vec<Mesh>)
    requires
        rule@.is_static(),
    ensures
        models(final(out)@) == models(old(out)@) + rule@.flatten(inherited@),
    decreases rule,
{
    let effective = inherited.compose(&rule.transform);
    match &rule.body {
        Body::Leaf(mesh) => {
            out.push(mesh.transformed(&effective));
            assert(models(out@) =~= models(old(out)@) + rule@.flatten(inherited@));
        },
        Body::Children(children) => {
            let ghost listed = rule@.body->Children_0;
            let mut i: usize = 0;
            assert(models(out@) =~= models(old(out)@) + flatten_children(listed, effective@, 0));
            while i < children.len()
                invariant
                    i <= children.len(),
                    models(out@) == models(old(out)@) + flatten_children(
                        listed,
                        effective@,
                        i as nat,
                    ),
                decreases children.len() - i,
            {
                let child = &children[i];
                assert(listed[i as int].0.is_static());
                let passed = effective.compose(&child.1);
                evaluate_into(&child.0, &passed, out);
                assert(models(out@) =~= models(old(out)@) + flatten_children(
                    listed,
                    effective@,
                    (i + 1) as nat,
                ));
                i += 1;
            }
        },
        Body::Deferred(_) => {},
    }
}

/// The meshes that `rule` produces under the transform `inherited`: depth
/// first, the children of a node in the order in which they were added.
pub fn evaluate<D>(rule: Rule<D>, inherited: Transform) -> (meshes: Vec<Mesh>)
    requires
        rule@.is_static(),
    ensures
        models(meshes@) == rule@.flatten(inherited@),
{
    let mut meshes: Vec<Mesh> = Vec::new();
    evaluate_into(&rule, &inherited, &mut meshes);
    assert(models(meshes@) =~= rule@.flatten(inherited@));
    meshes
}

/// The meshes that `rule` produces under the transform `inherited`, if no
/// part of the rule is deferred; nothing if some part is.
pub fn try_evaluate<D>(rule: Rule<D>, inherited: Transform) -> (meshes: Option<Vec<Mesh>>)
    ensures
        meshes is Some <==> rule@.is_static(),
        meshes matches Some(found) ==> models(found@) == rule@.flatten(inherited@),
{
    if rule.is_static() {
        Some(evaluate(rule, inherited))
    } else {
        None
    }
}

/// What one step of an `Evaluator` did.
pub enum Step {
    /// A leaf was reached: here is its mesh, in place.
    Mesh(Mesh),
    /// A list of children was opened.
    Expanded,
    /// A deferred rule was made.
    Resolved,
    /// Nothing was left to do.
    Done,
}

/// A walk over a rule, one node at a time.
pub struct Evaluator<D> {
    /// The rules still to walk, each with the transform that it inherits;
    /// the next one is the last.
    stack: Vec<(Rule<D>, Transform)>,
}

/// The children `children` as work to do once their parent, under
/// `effective`, has been opened.
pub open spec fn opened<D>(children: Seq<(RuleModel<D>, Seq<Op>)>, effective: Seq<Op>) -> Seq<
    (RuleModel<D>, Seq<Op>),
> {
    Seq::new(children.len(), |i: int| (children[i].0, composed(effective, children[i].1)))
}

/// Whether a step that found the work `before` may give `step` and leave the
/// work `after`.
pub open spec fn steps<D>(
    before: Seq<(RuleModel<D>, Seq<Op>)>,
    step: Step,
    after: Seq<(RuleModel<D>, Seq<Op>)>,
) -> bool {
    if before.len() == 0 {
        step is Done && after == before
    } else {
        let rule = before[0].0;
        let effective = composed(before[0].1, rule.transform);
        let rest = before.drop_first();
        match rule.body {
            BodyModel::Leaf(mesh) => {
                &&& step matches Step::Mesh(moved)
                &&& moved@ == mesh.transformed(effective)
                &&& after == rest
            },
            BodyModel::Children(children) => {
                &&& step is Expanded
                &&& after == opened(children, effective) + rest
            },
            BodyModel::Deferred(_) => {
                &&& step is Resolved
                &&& after.len() == before.len()
                &&& after[0].1 == effective
                &&& after.drop_first() == rest
            },
        }
    }
}

impl<D> Evaluator<D> {
    /// The work left, in the order in which it will be done: rules, each with
    /// the transform that it inherits.
    pub closed spec fn pending(self) -> Seq<(RuleModel<D>, Seq<Op>)> {
        Seq::new(
            self.stack@.len(),
            |i: int| (self.stack@[self.stack@.len() - 1 - i].0@, self.stack@[self.stack@.len() - 1 - i].1@),
        )
    }

    /// A walk over `rule` under the transform `inherited`.
    pub fn new(rule: Rule<D>, inherited: Transform) -> (walk: Evaluator<D>)
        ensures
            walk.pending() == seq![(rule@, inherited@)],
    {
        let mut stack: Vec<(Rule<D>, Transform)> = Vec::new();
        stack.push((rule, inherited));
        let walk = Evaluator { stack };
        assert(walk.pending() =~= seq![(rule@, inherited@)]);
        walk
    }

    /// Puts `rule`, under the transform `inherited`, in front of the work
    /// left.
    pub fn schedule(&mut self, rule: Rule<D>, inherited: Transform)
        ensures
            final(self).pending() == seq![(rule@, inherited@)] + old(self).pending(),
    {
        self.stack.push((rule, inherited));
        assert(self.pending() =~= seq![(rule@, inherited@)] + old(self).pending());
    }

    /// Whether no work is left.
    pub fn is_done(&self) -> (done: bool)
        ensures
            done == (self.pending().len() == 0),
    {
        self.stack.len() == 0
    }
}

impl<D: ToRule> Evaluator<D> {
    /// Does the next piece of work. A leaf gives its mesh, moved by the
    /// rule's transform and then by what the rule inherits. A list of
    /// children is replaced by its members, in order, in front of the work
    /// left. A deferred rule is asked for its rule, once, and that rule takes
    /// its place under the same transforms.
    #[verifier::loop_isolation(false)]
    pub fn step(&mut self) -> (step: Step)
        ensures
            steps(old(self).pending(), step, final(self).pending()),
    {
        if self.stack.len() == 0 {
            return Step::Done;
        }
        let ghost base = self.stack@.drop_last();
        let ghost rest = old(self).pending().drop_first();
        let (rule, inherited) = self.stack.pop().unwrap();
        assert(self.pending() =~= rest);
        let ghost listed = rule@.body;
        let Rule { transform, body } = rule;
        let effective = inherited.compose(&transform);
        match body {
            Body::Leaf(mesh) => Step::Mesh(mesh.transformed(&effective)),
            Body::Children(children) => {
                let mut children = children;
                let ghost all = children@;
                while children.len() > 0
                    invariant
                        children@ == all.take(children.len() as int),
                        children.len() <= all.len(),
                        self.stack@.len() == base.len() + all.len() - children.len(),
                        forall|j: int| 0 <= j < base.len() ==> self.stack@[j] == base[j],
                        forall|j: int|
                            0 <= j < all.len() - children.len() ==> (#[trigger] self.stack@[base.len()
                                + j]).0@ == all[all.len() - 1 - j].0@ && self.stack@[base.len() + j].1@
                                == composed(effective@, all[all.len() - 1 - j].1@),
                    decreases children.len(),
                {
                    let ghost k = children.len() - 1;
                    let (child, own) = children.pop().unwrap();
                    assert(child == all[k].0 && own == all[k].1);
                    let passed = effective.compose(&own);
                    self.stack.push((child, passed));
                }
                let ghost target = opened(listed->Children_0, effective@) + rest;
                assert(listed->Children_0.len() == all.len());
                assert(rest.len() == base.len());
                assert(self.pending().len() == target.len());
                assert forall|i: int| 0 <= i < target.len() implies self.pending()[i] == target[i] by {
                    if i < all.len() {
                        let j = all.len() - 1 - i;
                        assert(self.stack@[base.len() + j].0@ == all[all.len() - 1 - j].0@);
                        assert(self.stack@.len() - 1 - i == base.len() + j);
                    } else {
                        let j = self.stack@.len() - 1 - i;
                        assert(self.stack@[j] == base[j]);
                        assert(rest[i - all.len()] == old(self).pending()[i - all.len() + 1]);
                    }
                }
                assert(self.pending() =~= target);
                Step::Expanded
            },
            Body::Deferred(source) => {
                let made = source.to_rule();
                self.schedule(made, effective);
                assert(self.pending().drop_first() =~= rest);
                Step::Resolved
            },
        }
    }
}


/// The meshes that the work `pending` produces when done in order.
pub open spec fn remaining<D>(pending: Seq<(RuleModel<D>, Seq<Op>)>) -> Seq<MeshModel>
    decreases pending.len(),
{
    if pending.len() == 0 {
        Seq::empty()
    } else {
        remaining(pending.drop_last()) + pending.last().0.flatten(pending.last().1)
    }
}

/// No rule of the work `pending` has a deferred part.
pub open spec fn all_static<D>(pending: Seq<(RuleModel<D>, Seq<Op>)>) -> bool {
    forall|i: int| 0 <= i < pending.len() ==> (#[trigger] pending[i]).0.is_static()
}

/// The meshes that a step handed out: one or none.
pub open spec fn produced(step: Step) -> Seq<MeshModel> {
    match step {
        Step::Mesh(mesh) => seq![mesh@],
        _ => Seq::empty(),
    }
}

/// The work left after a step over the work `pending`. A deferred rule, which
/// only the step itself can make, is left where it is.
pub open spec fn next_work<D>(pending: Seq<(RuleModel<D>, Seq<Op>)>) -> Seq<
    (RuleModel<D>, Seq<Op>),
> {
    if pending.len() == 0 {
        pending
    } else {
        let rule = pending[0].0;
        let effective = composed(pending[0].1, rule.transform);
        match rule.body {
            BodyModel::Leaf(_) => pending.drop_first(),
            BodyModel::Children(children) => opened(children, effective) + pending.drop_first(),
            BodyModel::Deferred(_) => pending,
        }
    }
}

/// The mesh that a step over the work `pending` hands out, if it does.
pub open spec fn next_mesh<D>(pending: Seq<(RuleModel<D>, Seq<Op>)>) -> Seq<MeshModel> {
    if pending.len() == 0 {
        Seq::empty()
    } else {
        let rule = pending[0].0;
        let effective = composed(pending[0].1, rule.transform);
        match rule.body {
            BodyModel::Leaf(mesh) => seq![mesh.transformed(effective)],
            _ => Seq::empty(),
        }
    }
}

/// The meshes that `n` steps over the work `pending` hand out, and the work
/// that they leave.
pub open spec fn walked<D>(pending: Seq<(RuleModel<D>, Seq<Op>)>, n: nat) -> (
    Seq<MeshModel>,
    Seq<(RuleModel<D>, Seq<Op>)>,
)
    decreases n,
{
    if n == 0 {
        (Seq::empty(), pending)
    } else {
        let before = walked(pending, (n - 1) as nat);
        (before.0 + next_mesh(before.1), next_work(before.1))
    }
}

/// Whether `n` steps in a row may lead from the work `before` to the work
/// `after` and hand out, between them, the meshes `given` in that order.
/// Every step is one that `steps` admits, so whatever a deferred rule is
/// made into, a leaf in front gives its mesh and a list in front is opened.
pub open spec fn reached<D>(
    before: Seq<(RuleModel<D>, Seq<Op>)>,
    n: nat,
    given: Seq<MeshModel>,
    after: Seq<(RuleModel<D>, Seq<Op>)>,
) -> bool
    decreases n,
{
    if n == 0 {
        given == Seq::<MeshModel>::empty() && after == before
    } else {
        exists|mid: Seq<(RuleModel<D>, Seq<Op>)>, step: Step|
            #![trigger steps(mid, step, after)]
            produced(step).len() <= given.len() && reached(
                before,
                (n - 1) as nat,
                given.take(given.len() - produced(step).len()),
                mid,
            ) && steps(mid, step, after) && given.skip(given.len() - produced(step).len())
                == produced(step)
    }
}

/// One more step after `n` steps makes `n + 1` steps, and adds what it hands
/// out to what was given before.
pub proof fn lemma_reached_step<D>(
    before: Seq<(RuleModel<D>, Seq<Op>)>,
    n: nat,
    given: Seq<MeshModel>,
    mid: Seq<(RuleModel<D>, Seq<Op>)>,
    step: Step,
    after: Seq<(RuleModel<D>, Seq<Op>)>,
)
    requires
        reached(before, n, given, mid),
        steps(mid, step, after),
    ensures
        reached(before, n + 1, given + produced(step), after),
{
    let all = given + produced(step);
    assert(all.take(all.len() - produced(step).len()) =~= given);
    assert(all.skip(all.len() - produced(step).len()) =~= produced(step));
}

impl<D: ToRule> Evaluator<D> {
    /// Takes `max_steps` steps, or as many as there is work for, and appends
    /// the meshes that they give to `out`. Returns whether the walk is over.
    /// Meshes already in `out` stay. The steps follow one another as `step`
    /// takes them, and stop short of `max_steps` only when no work is left.
    /// Where no rule of the work is deferred, the meshes appended and the work
    /// left are those of `max_steps` steps.
    pub fn advance(&mut self, max_steps: usize, out: &mut Vec<Mesh>) -> (done: bool)
        ensures
            done == (final(self).pending().len() == 0),
            old(out)@.len() <= final(out)@.len(),
            final(out)@.take(old(out)@.len() as int) == old(out)@,
            exists|n: nat, given: Seq<MeshModel>|
                #![trigger reached(old(self).pending(), n, given, final(self).pending())]
                n <= max_steps && reached(old(self).pending(), n, given, final(self).pending())
                    && models(final(out)@) == models(old(out)@) + given && (n == max_steps
                    || final(self).pending().len() == 0),
            all_static(old(self).pending()) ==> final(self).pending() == walked(
                old(self).pending(),
                max_steps as nat,
            ).1 && models(final(out)@) == models(old(out)@) + walked(
                old(self).pending(),
                max_steps as nat,
            ).0,
    {
        let mut taken: usize = 0;
        let ghost mut given: Seq<MeshModel> = Seq::empty();
        assert(models(out@) =~= models(old(out)@) + walked(old(self).pending(), 0).0);
        assert(models(out@) =~= models(old(out)@) + given);
        while taken < max_steps
            invariant
                taken <= max_steps,
                reached(old(self).pending(), taken as nat, given, self.pending()),
                models(out@) == models(old(out)@) + given,
                old(out)@.len() <= out@.len(),
                out@.take(old(out)@.len() as int) == old(out)@,
                all_static(old(self).pending()) ==> self.pending() == walked(
                    old(self).pending(),
                    taken as nat,
                ).1 && models(out@) == models(old(out)@) + walked(
                    old(self).pending(),
                    taken as nat,
                ).0,
            decreases max_steps - taken,
        {
            let ghost before = self.pending();
            let ghost had = out@;
            let step = self.step();
            proof {
                if all_static(old(self).pending()) {
                    lemma_walked_static(old(self).pending(), taken as nat);
                    if before.len() > 0 {
                        assert(before[0].0.is_static());
                    }
                }
                lemma_reached_step(
                    old(self).pending(),
                    taken as nat,
                    given,
                    before,
                    step,
                    self.pending(),
                );
                given = given + produced(step);
            }
            match step {
                Step::Mesh(mesh) => {
                    out.push(mesh);
                    assert(out@.take(old(out)@.len() as int) =~= had.take(old(out)@.len() as int));
                    assert(models(out@) =~= models(had) + produced(step));
                    assert(models(out@) =~= models(old(out)@) + given);
                    assert(all_static(old(self).pending()) ==> models(out@) =~= models(old(out)@)
                        + walked(old(self).pending(), (taken + 1) as nat).0);
                },
                Step::Done => {
                    proof {
                        assert(models(out@) =~= models(old(out)@) + given);
                        assert(reached(
                            old(self).pending(),
                            (taken + 1) as nat,
                            given,
                            self.pending(),
                        ));
                        if all_static(old(self).pending()) {
                            lemma_walked_done(
                                old(self).pending(),
                                taken as nat,
                                max_steps as nat,
                            );
                        }
                    }
                    return true;
                },
                _ => {
                    assert(models(out@) =~= models(old(out)@) + given);
                    assert(all_static(old(self).pending()) ==> models(out@) =~= models(old(out)@)
                        + walked(old(self).pending(), (taken + 1) as nat).0);
                },
            }
            taken += 1;
        }
        assert(reached(old(self).pending(), taken as nat, given, self.pending()));
        self.is_done()
    }
}

/// Once no work is left, further steps change nothing.
pub proof fn lemma_walked_done<D>(pending: Seq<(RuleModel<D>, Seq<Op>)>, k: nat, n: nat)
    requires
        k <= n,
        walked(pending, k).1.len() == 0,
    ensures
        walked(pending, n) == walked(pending, k),
    decreases n,
{
    if k < n {
        lemma_walked_done(pending, k, (n - 1) as nat);
        assert(walked(pending, k).0 + Seq::<MeshModel>::empty() =~= walked(pending, k).0);
    }
}

/// Steps over work without deferred parts lose and invent nothing: the
/// meshes handed out, followed by what the work left produces, are what the
/// work produced to begin with. The work left has no deferred parts either.
pub proof fn lemma_walked_static<D>(pending: Seq<(RuleModel<D>, Seq<Op>)>, n: nat)
    requires
        all_static(pending),
    ensures
        all_static(walked(pending, n).1),
        walked(pending, n).0 + remaining(walked(pending, n).1) == remaining(pending),
    decreases n,
{
    if n == 0 {
        assert(walked(pending, n).0 + remaining(walked(pending, n).1) =~= remaining(pending));
    } else {
        lemma_walked_static(pending, (n - 1) as nat);
        let before = walked(pending, (n - 1) as nat);
        if before.1.len() > 0 {
            assert(before.1[0].0.is_static());
        }
        lemma_next_keeps_output(before.1);
        assert(walked(pending, n).0 + remaining(walked(pending, n).1) =~= before.0 + (next_mesh(
            before.1,
        ) + remaining(next_work(before.1))));
    }
}

/// What a list of work produces is what its front part produces followed by
/// what its back part produces.
pub proof fn lemma_remaining_concat<D>(
    front: Seq<(RuleModel<D>, Seq<Op>)>,
    back: Seq<(RuleModel<D>, Seq<Op>)>,
)
    ensures
        remaining(front + back) == remaining(front) + remaining(back),
    decreases back.len(),
{
    if back.len() == 0 {
        assert(front + back =~= front);
        assert(remaining(front) + remaining(back) =~= remaining(front));
    } else {
        lemma_remaining_concat(front, back.drop_last());
        assert((front + back).drop_last() =~= front + back.drop_last());
        assert(remaining(front + back) =~= remaining(front) + remaining(back));
    }
}

/// The first `n` children of an opened list produce, as work, what they
/// produce as children.
pub proof fn lemma_remaining_opened<D>(
    children: Seq<(RuleModel<D>, Seq<Op>)>,
    effective: Seq<Op>,
    n: nat,
)
    requires
        n <= children.len(),
    ensures
        remaining(opened(children, effective).take(n as int)) == flatten_children(
            children,
            effective,
            n,
        ),
    decreases n,
{
    let work = opened(children, effective).take(n as int);
    if n > 0 {
        lemma_remaining_opened(children, effective, (n - 1) as nat);
        assert(work.drop_last() =~= opened(children, effective).take(n - 1));
    }
}

/// A step over work whose next rule is not deferred hands out the mesh and
/// leaves the work that `next_mesh` and `next_work` say.
pub proof fn lemma_steps_next<D>(
    before: Seq<(RuleModel<D>, Seq<Op>)>,
    step: Step,
    after: Seq<(RuleModel<D>, Seq<Op>)>,
)
    requires
        steps(before, step, after),
        before.len() > 0 ==> !(before[0].0.body is Deferred),
    ensures
        after == next_work(before),
        produced(step) == next_mesh(before),
{
}

/// A step over work whose next rule is not deferred loses and invents
/// nothing: the mesh that it hands out, if any, followed by what the work
/// left produces, is what the work found would have produced. Work without
/// deferred parts stays so.
pub proof fn lemma_next_keeps_output<D>(before: Seq<(RuleModel<D>, Seq<Op>)>)
    requires
        before.len() > 0 ==> !(before[0].0.body is Deferred),
    ensures
        next_mesh(before) + remaining(next_work(before)) == remaining(before),
        all_static(before) ==> all_static(next_work(before)),
{
    let after = next_work(before);
    if before.len() == 0 {
        assert(next_mesh(before) + remaining(after) =~= remaining(before));
    } else {
        let rule = before[0].0;
        let effective = composed(before[0].1, rule.transform);
        let rest = before.drop_first();
        let head = seq![before[0]];
        assert(before =~= head + rest);
        lemma_remaining_concat(head, rest);
        assert(head.drop_last() =~= Seq::empty());
        assert(remaining(head.drop_last()) =~= Seq::empty());
        assert(remaining(head) =~= rule.flatten(before[0].1));
        match rule.body {
            BodyModel::Leaf(mesh) => {
                assert(next_mesh(before) =~= rule.flatten(before[0].1));
                if all_static(before) {
                    assert forall|i: int| 0 <= i < after.len() implies (#[trigger] after[i]).0.is_static() by {
                        assert(after[i] == before[i + 1]);
                    }
                }
            },
            BodyModel::Children(children) => {
                let work = opened(children, effective);
                lemma_remaining_concat(work, rest);
                lemma_remaining_opened(children, effective, children.len());
                assert(work.take(children.len() as int) =~= work);
                assert(next_mesh(before) + remaining(after) =~= remaining(before));
                if all_static(before) {
                    assert(before[0].0.is_static());
                    assert forall|i: int| 0 <= i < after.len() implies (#[trigger] after[i]).0.is_static() by {
                        if i < work.len() {
                            assert(children[i].0.is_static());
                        } else {
                            assert(after[i] == before[i - work.len() + 1]);
                        }
                    }
                }
            },
            BodyModel::Deferred(_) => {},
        }
    }
}

/// A step over work whose next rule is not deferred can end in one way
/// only.
pub proof fn lemma_step_deterministic<D>(
    before: Seq<(RuleModel<D>, Seq<Op>)>,
    first: Step,
    after_first: Seq<(RuleModel<D>, Seq<Op>)>,
    second: Step,
    after_second: Seq<(RuleModel<D>, Seq<Op>)>,
)
    requires
        steps(before, first, after_first),
        steps(before, second, after_second),
        before.len() > 0 ==> !(before[0].0.body is Deferred),
    ensures
        after_first == after_second,
        produced(first) == produced(second),
{
}

/// Evaluating twice gives the same meshes in the same order: whatever
/// `evaluate` returns for two rules of equal content under equal transforms,
/// the contents of the two results are equal. `evaluate` takes only rules
/// without deferred parts, so this is a law of those.
pub proof fn lemma_evaluate_deterministic<D>(
    rule: Rule<D>,
    inherited: Transform,
    first: Vec<Mesh>,
    again: Rule<D>,
    inherited_again: Transform,
    second: Vec<Mesh>,
)
    requires
        again@ == rule@,
        inherited_again@ == inherited@,
        call_ensures(evaluate::<D>, (rule, inherited), first),
        call_ensures(evaluate::<D>, (again, inherited_again), second),
    ensures
        models(first@) == models(second@),
{
}

/// A fresh walk over a rule has exactly the rule's meshes to produce.
pub proof fn lemma_walk_produces_flatten<D>(rule: RuleModel<D>, inherited: Seq<Op>)
    ensures
        remaining(seq![(rule, inherited)]) == rule.flatten(inherited),
{
    let work = seq![(rule, inherited)];
    assert(remaining(work.drop_last()) =~= Seq::empty());
    assert(remaining(work) =~= rule.flatten(inherited));
}


/// The number of nodes in the rules of the work `pending`.
pub open spec fn work_size<D>(pending: Seq<(RuleModel<D>, Seq<Op>)>) -> nat
    decreases pending.len(),
{
    if pending.len() == 0 {
        0
    } else {
        work_size(pending.drop_last()) + pending.last().0.nodes()
    }
}

/// The size of a list of work is the size of its front part and of its back
/// part together.
pub proof fn lemma_work_size_concat<D>(
    front: Seq<(RuleModel<D>, Seq<Op>)>,
    back: Seq<(RuleModel<D>, Seq<Op>)>,
)
    ensures
        work_size(front + back) == work_size(front) + work_size(back),
    decreases back.len(),
{
    if back.len() == 0 {
        assert(front + back =~= front);
    } else {
        lemma_work_size_concat(front, back.drop_last());
        assert((front + back).drop_last() =~= front + back.drop_last());
    }
}

/// Opening a list of children keeps their nodes.
pub proof fn lemma_work_size_opened<D>(
    children: Seq<(RuleModel<D>, Seq<Op>)>,
    effective: Seq<Op>,
    n: nat,
)
    requires
        n <= children.len(),
    ensures
        work_size(opened(children, effective).take(n as int)) == nodes_of_children(children, n),
    decreases n,
{
    let work = opened(children, effective).take(n as int);
    if n > 0 {
        lemma_work_size_opened(children, effective, (n - 1) as nat);
        assert(work.drop_last() =~= opened(children, effective).take(n - 1));
    }
}

/// A step over work whose next rule is not deferred uses up one node.
pub proof fn lemma_next_shrinks<D>(before: Seq<(RuleModel<D>, Seq<Op>)>)
    requires
        before.len() > 0,
        !(before[0].0.body is Deferred),
    ensures
        work_size(next_work(before)) + 1 == work_size(before),
{
    let rule = before[0].0;
    let effective = composed(before[0].1, rule.transform);
    let rest = before.drop_first();
    let head = seq![before[0]];
    assert(before =~= head + rest);
    lemma_work_size_concat(head, rest);
    assert(head.drop_last() =~= Seq::empty());
    assert(work_size(head.drop_last()) == 0);
    assert(work_size(head) == rule.nodes());
    match rule.body {
        BodyModel::Children(children) => {
            let work = opened(children, effective);
            lemma_work_size_concat(work, rest);
            lemma_work_size_opened(children, effective, children.len());
            assert(work.take(children.len() as int) =~= work);
        },
        _ => {},
    }
}

/// Work of size zero is no work.
pub proof fn lemma_work_size_zero<D>(pending: Seq<(RuleModel<D>, Seq<Op>)>)
    ensures
        work_size(pending) == 0 <==> pending.len() == 0,
{
    if pending.len() > 0 {
        assert(pending.last().0.nodes() >= 1);
    }
}

/// Each step over work without deferred parts uses up one node until none
/// is left.
pub proof fn lemma_walked_size<D>(pending: Seq<(RuleModel<D>, Seq<Op>)>, n: nat)
    requires
        all_static(pending),
    ensures
        work_size(walked(pending, n).1) == if n >= work_size(pending) {
            0
        } else {
            work_size(pending) - n
        },
    decreases n,
{
    if n > 0 {
        lemma_walked_size(pending, (n - 1) as nat);
        lemma_walked_static(pending, (n - 1) as nat);
        let before = walked(pending, (n - 1) as nat).1;
        lemma_work_size_zero(before);
        if before.len() > 0 {
            assert(before[0].0.is_static());
            lemma_next_shrinks(before);
        }
    }
}

/// A walk over work without deferred parts ends: after as many steps as the
/// work has nodes, nothing is left, and the meshes handed out are exactly
/// those that the work produces. For a fresh walk over a rule they are the
/// meshes of `flatten`.
pub proof fn lemma_walk_ends<D>(pending: Seq<(RuleModel<D>, Seq<Op>)>, n: nat)
    requires
        all_static(pending),
        n >= work_size(pending),
    ensures
        walked(pending, n).1.len() == 0,
        walked(pending, n).0 == remaining(pending),
{
    lemma_walked_size(pending, n);
    lemma_work_size_zero(walked(pending, n).1);
    lemma_walked_static(pending, n);
    assert(walked(pending, n).0 + remaining(walked(pending, n).1) =~= walked(pending, n).0);
}

/// Replicating a deferred rule keeps the copies apart: once the list is
/// opened, each copy is a piece of work of its own, still deferred, and is
/// made into a rule by a step of its own when the walk gets there.
pub proof fn lemma_replicated_deferred<D>(
    source: D,
    count: nat,
    step: Seq<Op>,
    inherited: Seq<Op>,
)
    ensures
        next_work(seq![(RuleModel::deferred(source).replicated(count, step), inherited)])
            == Seq::new(
            count,
            |i: int| (RuleModel::deferred(source), composed(inherited, power(step, i as nat))),
        ),
{
    let rule = RuleModel::deferred(source).replicated(count, step);
    let work = seq![(rule, inherited)];
    assert(composed(inherited, Seq::empty()) =~= inherited);
    assert(work.drop_first() =~= Seq::empty());
    assert(next_work(work) =~= Seq::new(
        count,
        |i: int| (RuleModel::deferred(source), composed(inherited, power(step, i as nat))),
    ));
}

} // verus!
