//! Points and affine transforms.
//!
//! A transform is a finite list of elementary moves, applied to a point one
//! after the other. Composing two transforms joins their lists, so composition
//! is associative and agrees with application exactly, with no rounding of its
//! own.

use crate::fixed::{scale, scaled, shift, shifted};
use vstd::prelude::*;

verus! {

/// A point in space, in fixed-point coordinates.
#[derive(Clone, Copy, Debug, PartialEq, Eq, Structural)]
pub struct Vertex {
    pub x: i64,
    pub y: i64,
    pub z: i64,
}

/// An elementary move: a translation or a scaling about the origin, each with
/// one amount per axis.
#[derive(Clone, Copy, Debug, PartialEq, Eq, Structural)]
pub enum Op {
    Translate { x: i64, y: i64, z: i64 },
    Scale { x: i64, y: i64, z: i64 },
}

impl Op {
    /// Where this move takes the point `p`.
    pub open spec fn image(self, p: Vertex) -> Vertex {
        match self {
            Op::Translate { x, y, z } => Vertex {
                x: shifted(p.x, x),
                y: shifted(p.y, y),
                z: shifted(p.z, z),
            },
            Op::Scale { x, y, z } => Vertex {
                x: scaled(p.x, x),
                y: scaled(p.y, y),
                z: scaled(p.z, z),
            },
        }
    }

    /// Moves the point `p`.
    pub fn apply(&self, p: Vertex) -> (q: Vertex)
        ensures
            q == self.image(p),
    {
        match *self {
            Op::Translate { x, y, z } => Vertex {
                x: shift(p.x, x),
                y: shift(p.y, y),
                z: shift(p.z, z),
            },
            Op::Scale { x, y, z } => Vertex {
                x: scale(p.x, x),
                y: scale(p.y, y),
                z: scale(p.z, z),
            },
        }
    }
}

/// Where the moves `ops`, taken first to last, bring the point `p`.
pub open spec fn image(ops: Seq<Op>, p: Vertex) -> Vertex
    decreases ops.len(),
{
    if ops.len() == 0 {
        p
    } else {
        ops.last().image(image(ops.drop_last(), p))
    }
}

/// The transform that performs `inner` and then `outer`.
pub open spec fn composed(outer: Seq<Op>, inner: Seq<Op>) -> Seq<Op> {
    inner + outer
}

/// The transform `ops` composed with itself `n` times; the identity for zero.
pub open spec fn power(ops: Seq<Op>, n: nat) -> Seq<Op>
    decreases n,
{
    if n == 0 {
        Seq::empty()
    } else {
        composed(ops, power(ops, (n - 1) as nat))
    }
}

/// An affine transform of space. Its view is the list of its moves in the
/// order in which they act on a point.
#[derive(Debug)]
pub struct Transform {
    ops: Vec<Op>,
}

impl View for Transform {
    type V = Seq<Op>;

    closed spec fn view(&self) -> Seq<Op> {
        self.ops@
    }
}

impl Clone for Transform {
    fn clone(&self) -> (copy: Self)
        ensures
            copy@ == self@,
    {
        let mut ops: Vec<Op> = Vec::new();
        extend(&mut ops, &self.ops);
        Transform { ops }
    }
}

/// Appends the moves of `source` to `target`.
fn extend(target: &mut Vec<Op>, source: &Vec<Op>)
    ensures
        final(target)@ == old(target)@ + source@,
{
    let mut i: usize = 0;
    while i < source.len()
        invariant
            i <= source.len(),
            target@ == old(target)@ + source@.take(i as int),
        decreases source.len() - i,
    {
        target.push(source[i]);
        i += 1;
    }
}

impl Transform {
    /// The transform that leaves every point where it is.
    pub fn identity() -> (t: Transform)
        ensures
            t@ == Seq::<Op>::empty(),
    {
        Transform { ops: Vec::new() }
    }

    /// The transform that makes the single move `op`.
    pub fn of(op: Op) -> (t: Transform)
        ensures
            t@ == seq![op],
    {
        let mut ops: Vec<Op> = Vec::new();
        ops.push(op);
        Transform { ops }
    }

    /// The moves of this transform, in the order in which they act.
    pub fn ops(&self) -> (ops: &Vec<Op>)
        ensures
            ops@ == self@,
    {
        &self.ops
    }

    /// The transform that performs `inner` first and `self` after it. Neither
    /// operand changes.
    pub fn compose(&self, inner: &Transform) -> (t: Transform)
        ensures
            t@ == composed(self@, inner@),
    {
        let mut ops: Vec<Op> = Vec::new();
        extend(&mut ops, &inner.ops);
        extend(&mut ops, &self.ops);
        Transform { ops }
    }

    /// This transform composed with itself `n` times.
    pub fn pow(&self, n: usize) -> (t: Transform)
        ensures
            t@ == power(self@, n as nat),
    {
        let mut ops: Vec<Op> = Vec::new();
        let mut i: usize = 0;
        while i < n
            invariant
                i <= n,
                ops@ == power(self@, i as nat),
            decreases n - i,
        {
            extend(&mut ops, &self.ops);
            i += 1;
        }
        Transform { ops }
    }

    /// Moves the point `p`.
    pub fn apply(&self, p: Vertex) -> (q: Vertex)
        ensures
            q == image(self@, p),
    {
        let mut q: Vertex = p;
        let mut i: usize = 0;
        while i < self.ops.len()
            invariant
                i <= self.ops.len(),
                q == image(self.ops@.take(i as int), p),
            decreases self.ops.len() - i,
        {
            assert(self.ops@.take(i + 1).drop_last() == self.ops@.take(i as int));
            q = self.ops[i].apply(q);
            i += 1;
        }
        assert(self.ops@.take(i as int) == self.ops@);
        q
    }
}

/// Translations.
pub struct Translate;

impl Translate {
    /// The translation by `x`, `y` and `z` along the three axes.
    pub fn xyz(x: i64, y: i64, z: i64) -> (t: Transform)
        ensures
            t@ == seq![Op::Translate { x, y, z }],
    {
        Transform::of(Op::Translate { x, y, z })
    }

    /// The translation by `d` along the first axis.
    pub fn x(d: i64) -> (t: Transform)
        ensures
            t@ == seq![Op::Translate { x: d, y: 0, z: 0 }],
    {
        Transform::of(Op::Translate { x: d, y: 0, z: 0 })
    }

    /// The translation by `d` along the second axis.
    pub fn y(d: i64) -> (t: Transform)
        ensures
            t@ == seq![Op::Translate { x: 0, y: d, z: 0 }],
    {
        Transform::of(Op::Translate { x: 0, y: d, z: 0 })
    }

    /// The translation by `d` along the third axis.
    pub fn z(d: i64) -> (t: Transform)
        ensures
            t@ == seq![Op::Translate { x: 0, y: 0, z: d }],
    {
        Transform::of(Op::Translate { x: 0, y: 0, z: d })
    }
}

/// Scalings about the origin.
pub struct Scale;

impl Scale {
    /// The scaling by the factor `f` along every axis.
    pub fn all(f: i64) -> (t: Transform)
        ensures
            t@ == seq![Op::Scale { x: f, y: f, z: f }],
    {
        Transform::of(Op::Scale { x: f, y: f, z: f })
    }

    /// The scaling by the factors `x`, `y` and `z` along the three axes.
    pub fn xyz(x: i64, y: i64, z: i64) -> (t: Transform)
        ensures
            t@ == seq![Op::Scale { x, y, z }],
    {
        Transform::of(Op::Scale { x, y, z })
    }
}

/// Applying a composition is applying the inner transform and then the outer
/// one.
pub proof fn lemma_image_composed(outer: Seq<Op>, inner: Seq<Op>, p: Vertex)
    ensures
        image(composed(outer, inner), p) == image(outer, image(inner, p)),
    decreases outer.len(),
{
    if outer.len() == 0 {
        assert(inner + outer == inner);
    } else {
        lemma_image_composed(outer.drop_last(), inner, p);
        assert((inner + outer).drop_last() == inner + outer.drop_last());
    }
}

/// Composition is associative.
pub proof fn lemma_composed_associative(a: Seq<Op>, b: Seq<Op>, c: Seq<Op>)
    ensures
        composed(a, composed(b, c)) == composed(composed(a, b), c),
{
}

/// The identity is neutral for composition on either side, and moves no
/// point.
pub proof fn lemma_identity_neutral(t: Seq<Op>, p: Vertex)
    ensures
        composed(Seq::empty(), t) == t,
        composed(t, Seq::empty()) == t,
        image(Seq::empty(), p) == p,
{
}

/// A transform of one move takes a point where the move takes it.
pub proof fn lemma_image_single(op: Op, p: Vertex)
    ensures
        image(seq![op], p) == op.image(p),
{
    assert(seq![op].drop_last() == Seq::<Op>::empty());
    assert(image(Seq::empty(), p) == p);
}

/// A power of a translation is the translation by the multiple, up to
/// saturation: `n` steps of `(x, y, z)` move each coordinate by `n` times the
/// step.
pub proof fn lemma_power_translate(x: i64, y: i64, z: i64, n: nat, p: Vertex)
    ensures
        image(power(seq![Op::Translate { x, y, z }], n), p) == (Vertex {
            x: crate::fixed::saturate(p.x + n * x),
            y: crate::fixed::saturate(p.y + n * y),
            z: crate::fixed::saturate(p.z + n * z),
        }),
    decreases n,
{
    let step = seq![Op::Translate { x, y, z }];
    if n == 0 {
        assert(n * x == 0 && n * y == 0 && n * z == 0) by (nonlinear_arith)
            requires
                n == 0,
        ;
    } else {
        let m = (n - 1) as nat;
        lemma_power_translate(x, y, z, m, p);
        lemma_image_composed(step, power(step, m), p);
        lemma_image_single(Op::Translate { x, y, z }, image(power(step, m), p));
        lemma_repeated_shift(p.x, x, m);
        lemma_repeated_shift(p.y, y, m);
        lemma_repeated_shift(p.z, z, m);
    }
}

/// One more saturating step of `d` after `m` of them lands where `m + 1`
/// steps land.
proof fn lemma_repeated_shift(a: i64, d: i64, m: nat)
    ensures
        shifted(crate::fixed::saturate(a + m * d), d) == crate::fixed::saturate(a + (m + 1) * d),
{
    assert((m + 1) * d == m * d + d) by (nonlinear_arith);
    if d >= 0 {
        assert(m * d >= 0) by (nonlinear_arith)
            requires
                d >= 0,
        ;
    } else {
        assert(m * d <= 0) by (nonlinear_arith)
            requires
                d < 0,
        ;
    }
}

} // verus!
