use vstd::arithmetic::div_mod::{
    lemma_div_is_ordered, lemma_div_multiples_vanish, lemma_fundamental_div_mod,
    lemma_fundamental_div_mod_converse_div,
};
use vstd::math::{max, min};
use vstd::prelude::*;

use crate::geom::{NormalizedGeometry, PathCommand, Point};
use crate::node::DocumentNode;

verus! {

/// Degenerate bounding boxes are floored to this many units on each axis, so
/// that a document with no extent still has a valid, positive viewport.
pub const MIN_DIMENSION: i64 = 2;

/// An axis-aligned bounding box in untransformed local geometry space.
#[derive(Clone, Copy, Debug, PartialEq, Eq, Structural)]
pub struct Rect {
    pub min_x: i32,
    pub max_x: i32,
    pub min_y: i32,
    pub max_y: i32,
}

/// The computed visible region of the assembled document. A derived value:
/// recomputed fresh on each build, never mutated directly.
#[derive(Clone, Copy, Debug, PartialEq, Eq, Structural)]
pub struct Viewport {
    pub width: i64,
    pub height: i64,
    pub center_x: i64,
    pub center_y: i64,
}

/// The points a command contributes to its path's bounding box. Control
/// points count, as in the fast bounds of the original geometry store.
pub open spec fn cmd_points(c: PathCommand) -> Seq<Point> {
    match c {
        PathCommand::MoveTo(p) => seq![p],
        PathCommand::LineTo(p) => seq![p],
        PathCommand::QuadTo(ctrl, p) => seq![ctrl, p],
        PathCommand::CubicTo(ctrl1, ctrl2, p) => seq![ctrl1, ctrl2, p],
        PathCommand::Close => Seq::<Point>::empty(),
    }
}

/// All points of a command sequence, in drawing order.
pub open spec fn points_of(cmds: Seq<PathCommand>) -> Seq<Point>
    decreases cmds.len(),
{
    if cmds.len() == 0 {
        Seq::<Point>::empty()
    } else {
        points_of(cmds.drop_last()) + cmd_points(cmds.last())
    }
}

pub open spec fn pts_min_x(pts: Seq<Point>) -> int
    recommends
        pts.len() > 0,
    decreases pts.len(),
{
    if pts.len() <= 1 {
        pts[0].x as int
    } else {
        min(pts_min_x(pts.drop_last()), pts.last().x as int)
    }
}

pub open spec fn pts_max_x(pts: Seq<Point>) -> int
    recommends
        pts.len() > 0,
    decreases pts.len(),
{
    if pts.len() <= 1 {
        pts[0].x as int
    } else {
        max(pts_max_x(pts.drop_last()), pts.last().x as int)
    }
}

pub open spec fn pts_min_y(pts: Seq<Point>) -> int
    recommends
        pts.len() > 0,
    decreases pts.len(),
{
    if pts.len() <= 1 {
        pts[0].y as int
    } else {
        min(pts_min_y(pts.drop_last()), pts.last().y as int)
    }
}

pub open spec fn pts_max_y(pts: Seq<Point>) -> int
    recommends
        pts.len() > 0,
    decreases pts.len(),
{
    if pts.len() <= 1 {
        pts[0].y as int
    } else {
        max(pts_max_y(pts.drop_last()), pts.last().y as int)
    }
}

/// The bounding box of a command sequence, as exact integers.
pub open spec fn geom_rect(cmds: Seq<PathCommand>) -> (int, int, int, int) {
    let pts = points_of(cmds);
    (pts_min_x(pts), pts_max_x(pts), pts_min_y(pts), pts_max_y(pts))
}

/// A command sequence that begins with a move has at least one point.
proof fn lemma_points_of_nonempty(cmds: Seq<PathCommand>)
    requires
        cmds.len() > 0,
        cmds[0] is MoveTo,
    ensures
        points_of(cmds).len() > 0,
    decreases cmds.len(),
{
    if cmds.len() > 1 {
        lemma_points_of_nonempty(cmds.drop_last());
    }
}

/// Floor division by a positive divisor, exact in the sense of the
/// mathematical `/` of specifications.
fn div_floor(a: i128, b: i128) -> (q: i128)
    requires
        b > 0,
        a > i128::MIN,
    ensures
        q == a as int / b as int,
{
    if a >= 0 {
        let qq: u128 = (a as u128) / (b as u128);
        qq as i128
    } else {
        let m: u128 = (-a) as u128;
        let bu: u128 = b as u128;
        let qq: u128 = m / bu;
        let rr: u128 = m % bu;
        proof {
            lemma_fundamental_div_mod(m as int, bu as int);
            assert(m == bu * qq + rr);
            if rr == 0 {
                assert(a as int == (-(qq as int)) * (b as int) + 0) by (nonlinear_arith)
                    requires
                        m == bu * qq + rr,
                        rr == 0,
                        a == -(m as int),
                        bu == b,
                ;
                lemma_fundamental_div_mod_converse_div(a as int, b as int, -(qq as int), 0);
            } else {
                assert(a as int == (-(qq as int) - 1) * (b as int) + (b - rr)) by (nonlinear_arith)
                    requires
                        m == bu * qq + rr,
                        a == -(m as int),
                        bu == b,
                ;
                lemma_fundamental_div_mod_converse_div(
                    a as int,
                    b as int,
                    -(qq as int) - 1,
                    b - rr,
                );
            }
        }
        if rr == 0 {
            -(qq as i128)
        } else {
            -(qq as i128) - 1
        }
    }
}

/// The midpoint of a closed interval, rounded toward negative infinity.
pub open spec fn midpoint(lo: int, hi: int) -> int {
    (lo + hi) / 2
}

/// Componentwise union of a running bounding box with one more box, in the
/// tuple order (min x, max x, min y, max y).
pub open spec fn combined_box(
    acc: (int, int, int, int),
    r: (int, int, int, int),
) -> (int, int, int, int) {
    (min(acc.0, r.0), max(acc.1, r.1), min(acc.2, r.2), max(acc.3, r.3))
}

/// Folds one node's bounding box into the running box; text nodes have no
/// geometry yet and contribute nothing.
pub open spec fn node_box(n: DocumentNode) -> Option<(int, int, int, int)> {
    match n {
        DocumentNode::Shape(s) => Option::Some(geom_rect(s.geometry@)),
        DocumentNode::Text(_) => Option::None,
    }
}

/// The union bounding box of all shape nodes, folded from the degenerate
/// box at the origin.
pub open spec fn box_fold(nodes: Seq<DocumentNode>) -> (int, int, int, int)
    decreases nodes.len(),
{
    if nodes.len() == 0 {
        (0int, 0int, 0int, 0int)
    } else {
        match node_box(nodes.last()) {
            Option::Some(r) => combined_box(box_fold(nodes.drop_last()), r),
            Option::None => box_fold(nodes.drop_last()),
        }
    }
}

/// The sum of the bounding-box midpoints of all shape nodes, x axis.
pub open spec fn mid_sum_x(nodes: Seq<DocumentNode>) -> int
    decreases nodes.len(),
{
    if nodes.len() == 0 {
        0int
    } else {
        mid_sum_x(nodes.drop_last()) + match node_box(nodes.last()) {
            Option::Some(r) => midpoint(r.0, r.1),
            Option::None => 0int,
        }
    }
}

/// The sum of the bounding-box midpoints of all shape nodes, y axis.
pub open spec fn mid_sum_y(nodes: Seq<DocumentNode>) -> int
    decreases nodes.len(),
{
    if nodes.len() == 0 {
        0int
    } else {
        mid_sum_y(nodes.drop_last()) + match node_box(nodes.last()) {
            Option::Some(r) => midpoint(r.2, r.3),
            Option::None => 0int,
        }
    }
}

/// An axis extent, floored to [`MIN_DIMENSION`] when non-positive.
pub open spec fn dim_or_floor(lo: int, hi: int) -> int {
    if hi - lo > 0 {
        hi - lo
    } else {
        MIN_DIMENSION as int
    }
}

/// The viewport the node set determines, componentwise: width, height, and
/// the center as the mean of per-node box midpoints. The box ignores text
/// nodes, while the center's divisor counts every node; this asymmetry is a
/// deliberate carry-over of the assembler's design.
pub open spec fn viewport_width(nodes: Seq<DocumentNode>) -> int {
    dim_or_floor(box_fold(nodes).0, box_fold(nodes).1)
}

pub open spec fn viewport_height(nodes: Seq<DocumentNode>) -> int {
    dim_or_floor(box_fold(nodes).2, box_fold(nodes).3)
}

pub open spec fn viewport_center_x(nodes: Seq<DocumentNode>) -> int {
    mid_sum_x(nodes) / nodes.len() as int
}

pub open spec fn viewport_center_y(nodes: Seq<DocumentNode>) -> int {
    mid_sum_y(nodes) / nodes.len() as int
}

/// The bounding box of one path's geometry, over every stored point.
pub fn bounds(g: &NormalizedGeometry) -> (r: Rect)
    ensures
        (r.min_x as int, r.max_x as int, r.min_y as int, r.max_y as int) == geom_rect(g@),
{
    let cmds = g.commands();
    proof {
        lemma_points_of_nonempty(g@);
    }
    let mut pts: Vec<Point> = Vec::new();
    let n = cmds.len();
    let mut i: usize = 0;
    while i < n
        invariant
            n == cmds@.len(),
            cmds@ == g@,
            0 <= i <= n,
            pts@ == points_of(g@.take(i as int)),
        decreases n - i,
    {
        proof {
            assert(g@.take(i + 1).drop_last() =~= g@.take(i as int));
        }
        let ghost pre = pts@;
        match cmds[i] {
            PathCommand::MoveTo(p) => pts.push(p),
            PathCommand::LineTo(p) => pts.push(p),
            PathCommand::QuadTo(ctrl, p) => {
                pts.push(ctrl);
                pts.push(p);
            },
            PathCommand::CubicTo(ctrl1, ctrl2, p) => {
                pts.push(ctrl1);
                pts.push(ctrl2);
                pts.push(p);
            },
            PathCommand::Close => {},
        }
        assert(pts@ =~= pre + cmd_points(g@[i as int]));
        i = i + 1;
    }
    assert(g@.take(n as int) =~= g@);

    let first = pts[0];
    let mut r = Rect { min_x: first.x, max_x: first.x, min_y: first.y, max_y: first.y };
    let m = pts.len();
    let mut j: usize = 1;
    assert(points_of(g@).take(1) =~= seq![points_of(g@)[0]]);
    while j < m
        invariant
            m == pts@.len(),
            pts@ == points_of(g@),
            1 <= j <= m,
            r.min_x == pts_min_x(pts@.take(j as int)),
            r.max_x == pts_max_x(pts@.take(j as int)),
            r.min_y == pts_min_y(pts@.take(j as int)),
            r.max_y == pts_max_y(pts@.take(j as int)),
        decreases m - j,
    {
        proof {
            assert(pts@.take(j + 1).drop_last() =~= pts@.take(j as int));
        }
        let p = pts[j];
        if p.x < r.min_x {
            r.min_x = p.x;
        }
        if p.x > r.max_x {
            r.max_x = p.x;
        }
        if p.y < r.min_y {
            r.min_y = p.y;
        }
        if p.y > r.max_y {
            r.max_y = p.y;
        }
        j = j + 1;
    }
    assert(pts@.take(m as int) =~= pts@);
    r
}

/// Unions a running bounding box, in the tuple order (min x, max x, min y,
/// max y), with one more box.
pub fn min_an_max(acc: (i32, i32, i32, i32), bound: Rect) -> (r: (i32, i32, i32, i32))
    ensures
        (r.0 as int, r.1 as int, r.2 as int, r.3 as int) == combined_box(
            (acc.0 as int, acc.1 as int, acc.2 as int, acc.3 as int),
            (bound.min_x as int, bound.max_x as int, bound.min_y as int, bound.max_y as int),
        ),
{
    (
        if acc.0 <= bound.min_x {
            acc.0
        } else {
            bound.min_x
        },
        if acc.1 >= bound.max_x {
            acc.1
        } else {
            bound.max_x
        },
        if acc.2 <= bound.min_y {
            acc.2
        } else {
            bound.min_y
        },
        if acc.3 >= bound.max_y {
            acc.3
        } else {
            bound.max_y
        },
    )
}

/// The midpoint of a box axis: sums two coordinates exactly and divides,
/// rounding toward negative infinity.
fn mid_of(lo: i32, hi: i32) -> (m: i64)
    ensures
        m == midpoint(lo as int, hi as int),
        -0x8000_0000 <= m <= 0x7fff_ffff,
{
    let s: i128 = lo as i128 + hi as i128;
    let q = div_floor(s, 2);
    proof {
        lemma_div_is_ordered(-0x1_0000_0000, s as int, 2);
        lemma_div_is_ordered(s as int, 0xffff_fffe, 2);
        lemma_fundamental_div_mod_converse_div(-0x1_0000_0000, 2, -0x8000_0000, 0);
        lemma_fundamental_div_mod_converse_div(0xffff_fffe, 2, 0x7fff_ffff, 0);
    }
    q as i64
}

/// Computes the viewport of a non-empty node set: the union bounding box of
/// every shape node (folded from the degenerate origin box, with each axis
/// floored to [`MIN_DIMENSION`]) and the center as the arithmetic mean of
/// per-shape box midpoints over the count of all nodes, text included.
pub fn compute_viewport(nodes: &Vec<DocumentNode>) -> (vp: Viewport)
    requires
        nodes@.len() > 0,
    ensures
        vp.width == viewport_width(nodes@),
        vp.height == viewport_height(nodes@),
        vp.center_x == viewport_center_x(nodes@),
        vp.center_y == viewport_center_y(nodes@),
{
    let mut acc: (i32, i32, i32, i32) = (0, 0, 0, 0);
    let mut sum_x: i128 = 0;
    let mut sum_y: i128 = 0;
    let n = nodes.len();
    let mut i: usize = 0;
    while i < n
        invariant
            n == nodes@.len(),
            0 <= i <= n,
            (acc.0 as int, acc.1 as int, acc.2 as int, acc.3 as int) == box_fold(
                nodes@.take(i as int),
            ),
            sum_x == mid_sum_x(nodes@.take(i as int)),
            sum_y == mid_sum_y(nodes@.take(i as int)),
            -(i as int) * 0x8000_0000 <= sum_x <= (i as int) * 0x7fff_ffff,
            -(i as int) * 0x8000_0000 <= sum_y <= (i as int) * 0x7fff_ffff,
        decreases n - i,
    {
        proof {
            assert(nodes@.take(i + 1).drop_last() =~= nodes@.take(i as int));
        }
        match &nodes[i] {
            DocumentNode::Shape(s) => {
                let b = bounds(&s.geometry);
                acc = min_an_max(acc, b);
                sum_x = sum_x + mid_of(b.min_x, b.max_x) as i128;
                sum_y = sum_y + mid_of(b.min_y, b.max_y) as i128;
            },
            DocumentNode::Text(_) => {},
        }
        i = i + 1;
    }
    assert(nodes@.take(n as int) =~= nodes@);

    let width_raw: i64 = acc.1 as i64 - acc.0 as i64;
    let width: i64 = if width_raw > 0 {
        width_raw
    } else {
        MIN_DIMENSION
    };
    let height_raw: i64 = acc.3 as i64 - acc.2 as i64;
    let height: i64 = if height_raw > 0 {
        height_raw
    } else {
        MIN_DIMENSION
    };

    let count: i128 = n as i128;
    let cx = div_floor(sum_x, count);
    let cy = div_floor(sum_y, count);
    proof {
        lemma_center_bounds(sum_x as int, n as int);
        lemma_center_bounds(sum_y as int, n as int);
    }
    Viewport { width, height, center_x: cx as i64, center_y: cy as i64 }
}

/// A mean of values from the coordinate range stays in that range.
proof fn lemma_center_bounds(sum: int, count: int)
    requires
        count > 0,
        -count * 0x8000_0000 <= sum <= count * 0x7fff_ffff,
    ensures
        -0x8000_0000 <= sum / count <= 0x7fff_ffff,
{
    lemma_div_is_ordered(-count * 0x8000_0000, sum, count);
    lemma_div_is_ordered(sum, count * 0x7fff_ffff, count);
    lemma_div_multiples_vanish(-0x8000_0000, count);
    lemma_div_multiples_vanish(0x7fff_ffff, count);
    assert(-count * 0x8000_0000 == count * (-0x8000_0000)) by (nonlinear_arith);
}

} // verus!
