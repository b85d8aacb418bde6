use immense::evaluate::{evaluate, try_evaluate, Evaluator, Step};
use immense::fixed::UNIT;
use immense::mesh::Mesh;
use immense::rule::{NoDeferral, Replicate, Rule, ToRule};
use immense::shapes::{cube, cube_mesh};
use immense::transform::{Scale, Transform, Translate, Vertex};
use std::cell::Cell;

type Plain = Rule<NoDeferral>;

fn point(x: i64) -> Plain {
    let v = Vertex { x, y: 0, z: 0 };
    Rule::leaf(Mesh::new(vec![v], Vec::new()).unwrap())
}

fn firsts(meshes: &[Mesh]) -> Vec<i64> {
    meshes.iter().map(|m| m.vertices()[0].x).collect()
}

fn run(rule: Plain) -> Vec<Mesh> {
    assert!(rule.is_static());
    evaluate(rule, Transform::identity())
}

fn tile(depth_budget: usize) -> Plain {
    let rule = Rule::new()
        .push(cube().tf(Translate::xyz(250_000, 250_000, 0)).tf(Scale::all(400_000)))
        .push(cube().tf(Translate::xyz(-250_000, -250_000, 0)).tf(Scale::all(400_000)))
        .push(cube().tf(Translate::xyz(-250_000, 250_000, 0)).tf(Scale::all(400_000)));
    if depth_budget > 0 {
        rule.push(
            tile(depth_budget - 1)
                .tf(Translate::xyz(250_000, -250_000, 0))
                .tf(Scale::all(500_000)),
        )
    } else {
        rule
    }
}

#[test]
fn empty_rule_gives_no_mesh() {
    assert!(run(Rule::new()).is_empty());
    assert!(run(Rule::new().push(Rule::new())).is_empty());
}

#[test]
fn leaf_gives_its_mesh() {
    let out = run(cube());
    assert_eq!(out.len(), 1);
    assert_eq!(out[0].vertices(), cube_mesh().vertices());
    assert_eq!(out[0].faces(), cube_mesh().faces());
}

#[test]
fn evaluation_is_deterministic() {
    let first = run(tile(3));
    let second = run(tile(3));
    assert_eq!(first.len(), 12);
    assert_eq!(first.len(), second.len());
    for (a, b) in first.iter().zip(second.iter()) {
        assert_eq!(a.vertices(), b.vertices());
        assert_eq!(a.faces(), b.faces());
    }
    let rule = tile(2);
    let copy = rule.duplicate();
    let a = run(rule);
    let b = run(copy);
    assert_eq!(a.len(), 9);
    for (a, b) in a.iter().zip(b.iter()) {
        assert_eq!(a.vertices(), b.vertices());
        assert_eq!(a.faces(), b.faces());
    }
}

#[test]
fn children_come_out_in_order() {
    let c0 = Rule::new().push(point(1)).push(point(2));
    let c1 = point(3);
    let c2 = Rule::new().push(Rule::new().push(point(4))).push(point(5)).push(point(6));
    let out = run(Rule::new().push(c0).push(c1).push(c2));
    assert_eq!(firsts(&out), vec![1, 2, 3, 4, 5, 6]);
}

#[test]
fn push_on_a_leaf_keeps_the_leaf_first() {
    let out = run(point(1).push(point(2)).push(point(3)));
    assert_eq!(firsts(&out), vec![1, 2, 3]);
}

#[test]
fn pushed_child_is_under_the_rule_transform() {
    let out = run(point(1).tf(Translate::x(100)).push(point(2)));
    assert_eq!(firsts(&out), vec![101, 102]);
    let out = run(Rule::new().push(point(1)).tf(Translate::x(100)).push(point(2)));
    assert_eq!(firsts(&out), vec![101, 102]);
}

#[test]
fn translate_x_moves_only_x() {
    let out = run(cube().tf(Translate::x(3 * UNIT)));
    assert_eq!(out.len(), 1);
    let cube = cube_mesh();
    assert_eq!(out[0].vertices().len(), 8);
    for (moved, v) in out[0].vertices().iter().zip(cube.vertices()) {
        assert_eq!(moved.x, v.x + 3 * UNIT);
        assert_eq!(moved.y, v.y);
        assert_eq!(moved.z, v.z);
    }
    assert_eq!(out[0].faces(), cube.faces());
}

#[test]
fn transform_attached_last_acts_last() {
    let out = run(point(0).tf(Translate::x(UNIT)).tf(Scale::all(2 * UNIT)));
    assert_eq!(firsts(&out), vec![2 * UNIT]);
    let out = run(point(0).tf(Scale::all(2 * UNIT)).tf(Translate::x(UNIT)));
    assert_eq!(firsts(&out), vec![UNIT]);
}

#[test]
fn inherited_transform_acts_after_the_tree() {
    let rule = Rule::new().push(point(1).tf(Scale::all(3 * UNIT))).tf(Translate::x(10));
    assert!(rule.is_static());
    let out = evaluate(rule, Scale::all(2 * UNIT));
    assert_eq!(firsts(&out), vec![26]);
}

#[test]
fn replicate_steps_along_y() {
    let out = run(cube().replicate(&Replicate::n(3, Translate::y(1_100_000))));
    assert_eq!(out.len(), 3);
    let cube = cube_mesh();
    let offsets = [0, 1_100_000, 2_200_000];
    for (mesh, offset) in out.iter().zip(offsets) {
        assert_eq!(mesh.faces(), cube.faces());
        for (moved, v) in mesh.vertices().iter().zip(cube.vertices()) {
            assert_eq!(moved.x, v.x);
            assert_eq!(moved.y, v.y + offset);
            assert_eq!(moved.z, v.z);
        }
    }
}

#[test]
fn replicate_zero_times_gives_nothing() {
    assert!(run(cube().replicate(&Replicate::n(0, Translate::y(1)))).is_empty());
}

#[test]
fn replicate_copies_a_whole_rule() {
    let pair = point(1).push(point(2)).tf(Translate::x(10));
    let out = run(pair.replicate(&Replicate::n(2, Translate::x(100))));
    assert_eq!(firsts(&out), vec![11, 12, 111, 112]);
}

#[test]
fn replicate_with_a_scale_step() {
    let out = run(point(8).replicate(&Replicate::n(3, Scale::all(500_000))));
    assert_eq!(firsts(&out), vec![8, 4, 2]);
}

#[test]
fn recursive_tile_has_three_cubes_per_level() {
    assert_eq!(run(tile(0)).len(), 3);
    let out = run(tile(1));
    assert_eq!(out.len(), 6);
    assert_eq!(out[0].vertices()[6], Vertex { x: 300_000, y: 300_000, z: 200_000 });
    assert_eq!(out[3].vertices()[6], Vertex { x: 275_000, y: 25_000, z: 100_000 });
}

#[derive(Clone, Copy)]
struct Counting<'a> {
    calls: &'a Cell<i64>,
}

impl<'a> ToRule for Counting<'a> {
    fn to_rule(&self) -> Rule<Self> {
        let n = self.calls.get();
        self.calls.set(n + 1);
        let v = Vertex { x: n, y: 0, z: 0 };
        Rule::leaf(Mesh::new(vec![v], Vec::new()).unwrap())
    }
}

#[test]
fn deferred_rule_is_not_static() {
    let calls = Cell::new(0);
    let rule = Rule::defer(Counting { calls: &calls });
    assert!(!rule.is_static());
    assert!(!Rule::new().push(point_of(&calls)).is_static());
    assert_eq!(calls.get(), 0);
}

fn point_of<'a>(calls: &'a Cell<i64>) -> Rule<Counting<'a>> {
    Rule::new().push(Rule::defer(Counting { calls }))
}

#[test]
fn deferred_rule_is_made_once_per_copy() {
    let calls = Cell::new(0);
    let rule = Rule::defer(Counting { calls: &calls }).replicate(&Replicate::n(4, Translate::y(UNIT)));
    assert_eq!(calls.get(), 0);
    let mut walk = Evaluator::new(rule, Transform::identity());
    let mut out = Vec::new();
    while !walk.advance(16, &mut out) {}
    assert_eq!(calls.get(), 4);
    assert_eq!(out.len(), 4);
    for (i, mesh) in out.iter().enumerate() {
        assert_eq!(mesh.vertices()[0], Vertex { x: i as i64, y: i as i64 * UNIT, z: 0 });
    }
}

#[test]
fn deferred_rule_is_made_again_on_each_evaluation() {
    let calls = Cell::new(0);
    let rule = Rule::defer(Counting { calls: &calls }).tf(Translate::x(100));
    let copy = rule.duplicate();
    let mut out = Vec::new();
    let mut walk = Evaluator::new(rule, Transform::identity());
    while !walk.advance(1, &mut out) {}
    let mut walk = Evaluator::new(copy, Transform::identity());
    while !walk.advance(1, &mut out) {}
    assert_eq!(calls.get(), 2);
    assert_eq!(out.len(), 2);
    assert_eq!(out[0].vertices()[0].x, 100);
    assert_eq!(out[1].vertices()[0].x, 101);
}

#[test]
fn steps_walk_depth_first() {
    let rule: Plain = Rule::new().push(point(1).tf(Translate::x(10))).push(point(2));
    let mut walk = Evaluator::new(rule, Translate::x(100));
    assert!(!walk.is_done());
    assert!(matches!(walk.step(), Step::Expanded));
    match walk.step() {
        Step::Mesh(mesh) => assert_eq!(mesh.vertices()[0].x, 111),
        _ => panic!("a mesh was due"),
    }
    assert!(!walk.is_done());
    match walk.step() {
        Step::Mesh(mesh) => assert_eq!(mesh.vertices()[0].x, 102),
        _ => panic!("a mesh was due"),
    }
    assert!(walk.is_done());
    assert!(matches!(walk.step(), Step::Done));
    assert!(matches!(walk.step(), Step::Done));
}

#[test]
fn step_resolves_a_deferred_rule_in_place() {
    let calls = Cell::new(5);
    let rule = Rule::defer(Counting { calls: &calls }).tf(Translate::x(10)).push(
        Rule::leaf(Mesh::new(vec![Vertex { x: 1, y: 1, z: 1 }], Vec::new()).unwrap()),
    );
    let mut walk = Evaluator::new(rule, Transform::identity());
    assert!(matches!(walk.step(), Step::Expanded));
    assert_eq!(calls.get(), 5);
    assert!(matches!(walk.step(), Step::Resolved));
    assert_eq!(calls.get(), 6);
    match walk.step() {
        Step::Mesh(mesh) => assert_eq!(mesh.vertices()[0].x, 15),
        _ => panic!("a mesh was due"),
    }
    match walk.step() {
        Step::Mesh(mesh) => assert_eq!(mesh.vertices()[0].x, 11),
        _ => panic!("a mesh was due"),
    }
    assert!(walk.is_done());
}

#[test]
fn schedule_puts_work_in_front() {
    let mut walk: Evaluator<NoDeferral> = Evaluator::new(point(1), Transform::identity());
    walk.schedule(point(2), Translate::x(10));
    let mut out = Vec::new();
    assert!(walk.advance(10, &mut out));
    assert_eq!(firsts(&out), vec![12, 1]);
}

#[test]
fn advance_stops_after_the_steps_allowed() {
    let rule: Plain = Rule::new().push(point(1)).push(point(2)).push(point(3));
    let mut walk = Evaluator::new(rule, Transform::identity());
    let mut out = Vec::new();
    assert!(!walk.advance(0, &mut out));
    assert!(out.is_empty());
    assert!(!walk.advance(2, &mut out));
    assert_eq!(firsts(&out), vec![1]);
    assert!(walk.advance(2, &mut out));
    assert_eq!(firsts(&out), vec![1, 2, 3]);
    assert!(walk.advance(2, &mut out));
    assert_eq!(out.len(), 3);
}

#[test]
fn walk_agrees_with_evaluate() {
    let whole = run(tile(2));
    let mut walk = Evaluator::new(tile(2), Transform::identity());
    let mut out = Vec::new();
    while !walk.advance(3, &mut out) {}
    assert_eq!(out.len(), whole.len());
    for (a, b) in out.iter().zip(whole.iter()) {
        assert_eq!(a.vertices(), b.vertices());
        assert_eq!(a.faces(), b.faces());
    }
}

#[test]
fn try_evaluate_gives_the_meshes_of_a_static_rule() {
    let rule: Plain = Rule::new().push(point(1)).push(point(2)).tf(Translate::x(10));
    let out = try_evaluate(rule, Translate::x(100)).unwrap();
    assert_eq!(firsts(&out), vec![111, 112]);
    let none: Option<Vec<Mesh>> = try_evaluate(Plain::new(), Transform::identity());
    assert_eq!(none.map(|meshes| meshes.len()), Some(0));
}

#[test]
fn try_evaluate_refuses_a_deferred_part() {
    let calls = Cell::new(0);
    let rule = Rule::new()
        .push(Rule::leaf(cube_mesh()))
        .push(Rule::new().push(Rule::defer(Counting { calls: &calls })));
    assert!(try_evaluate(rule, Transform::identity()).is_none());
    assert_eq!(calls.get(), 0);
}

#[test]
fn no_deferral_stands_for_the_empty_rule() {
    let rule = Rule::defer(NoDeferral).push(point(7));
    assert!(!rule.is_static());
    assert!(NoDeferral.to_rule().is_static());
    let mut walk = Evaluator::new(rule, Transform::identity());
    let mut out = Vec::new();
    while !walk.advance(4, &mut out) {}
    assert_eq!(firsts(&out), vec![7]);
}

#[test]
fn duplicate_is_independent_of_its_source() {
    let rule = point(1).push(point(2));
    let copy = rule.duplicate();
    let grown = rule.push(point(3));
    assert_eq!(firsts(&run(copy)), vec![1, 2]);
    assert_eq!(firsts(&run(grown)), vec![1, 2, 3]);
}

#[test]
fn advance_gives_the_meshes_in_front_of_a_deferred_rule() {
    let calls = Cell::new(0);
    let leaf = Rule::leaf(Mesh::new(vec![Vertex { x: 40, y: 0, z: 0 }], Vec::new()).unwrap());
    let rule = leaf.push(Rule::defer(Counting { calls: &calls }));
    let mut walk = Evaluator::new(rule, Transform::identity());
    let mut out = Vec::new();
    assert!(!walk.advance(2, &mut out));
    assert_eq!(calls.get(), 0);
    assert_eq!(out.len(), 1);
    assert_eq!(out[0].vertices()[0].x, 40);
    assert!(walk.advance(2, &mut out));
    assert_eq!(calls.get(), 1);
    assert_eq!(out.len(), 2);
    assert_eq!(out[1].vertices()[0].x, 0);
}

#[test]
fn advance_keeps_what_was_in_out() {
    let mut out = run(point(5));
    let mut walk: Evaluator<NoDeferral> = Evaluator::new(point(6), Transform::identity());
    assert!(walk.advance(1, &mut out));
    assert_eq!(firsts(&out), vec![5, 6]);
}
