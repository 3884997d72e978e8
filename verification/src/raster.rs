//! Rasterization of shapes into pixel-space drawing operations.
//!
//! Every shape is first mapped to an ordered list of optional pixel
//! vertices — `None` marks a rejected sample — and the vertex list is then
//! turned into a list of drawing operations according to the shape kind.
//! A rejected sample breaks the polyline of a continuous or line shape:
//! no segment crosses it.

use crate::canvas::{hi, line_dots, lo};
use crate::scale::{affine_map, linear_map, px_of_milli, px_round, Scale};
use crate::shape::{Sample, Shape};
use vstd::arithmetic::div_mod::{lemma_div_is_ordered, lemma_div_pos_is_pos};
use vstd::prelude::*;

verus! {

/// One primitive drawing operation on the pixel canvas.
#[derive(Clone, Copy, PartialEq, Eq, Structural, Debug)]
pub enum DrawOp {
    /// Set the single pixel `(x, y)`.
    Dot(u32, u32),
    /// Draw a line segment between two pixels.
    Segment(u32, u32, u32, u32),
}

/// The vertex, when accepted, lies inside the viewport.
pub open spec fn vertex_in_viewport(v: Option<(u32, u32)>, w: u32, h: u32) -> bool {
    match v {
        Option::Some(p) => p.0 <= w && p.1 <= h,
        Option::None => true,
    }
}

/// The operation touches only pixels with `x <= w` and `y <= h`.
pub open spec fn op_in_viewport(op: DrawOp, w: u32, h: u32) -> bool {
    match op {
        DrawOp::Dot(x, y) => x <= w && y <= h,
        DrawOp::Segment(x1, y1, x2, y2) => x1 <= w && x2 <= w && y1 <= h && y2 <= h,
    }
}

/// All operations in the list stay inside the viewport.
pub open spec fn ops_in_viewport(ops: Seq<DrawOp>, w: u32, h: u32) -> bool {
    forall|k: int| 0 <= k < ops.len() ==> op_in_viewport(#[trigger] ops[k], w, h)
}

/// The pixel vertex of the continuous sample for column `i`: rejected
/// samples give `None`; an accepted value is mapped through the vertical
/// scale, rounded, and flipped, because pixel rows grow downward while
/// chart values grow upward.
pub open spec fn cont_vertex(s: Sample, i: int, ys: Scale, h: u32) -> Option<(u32, u32)> {
    match s.draw_value() {
        Option::None => Option::None,
        Option::Some(v) => {
            let j = px_round(linear_map(ys.d0(), ys.d1(), ys.r0(), ys.r1(), v));
            Option::Some((i as u32, (h - j) as u32))
        },
    }
}

/// The pixel vertices of a continuous shape, one per column; at most one
/// vertex per pixel column of the viewport.
pub open spec fn cont_vertices(s: Seq<Sample>, ys: Scale, w: u32, h: u32) -> Seq<
    Option<(u32, u32)>,
> {
    let n = if s.len() < w { s.len() } else { w as nat };
    Seq::new(n, |k: int| cont_vertex(s[k], k, ys, h))
}

/// The pixel vertex of one data point: both coordinates are mapped
/// through their scale without clamping and rounded to the nearest
/// pixel; a point whose pixel falls outside the viewport is dropped.
pub open spec fn data_vertex(p: (i64, i64), xs: Scale, ys: Scale, w: u32, h: u32) -> Option<
    (u32, u32),
> {
    let i = px_round(affine_map(xs.d0(), xs.d1(), xs.r0(), xs.r1(), p.0 as int));
    let j = px_round(affine_map(ys.d0(), ys.d1(), ys.r0(), ys.r1(), p.1 as int));
    if 0 <= i <= w && 0 <= j <= h {
        Option::Some((i as u32, (h - j) as u32))
    } else {
        Option::None
    }
}

/// The pixel vertices of a discrete shape, in sample order.
pub open spec fn data_vertices(d: Seq<(i64, i64)>, xs: Scale, ys: Scale, w: u32, h: u32) -> Seq<
    Option<(u32, u32)>,
> {
    Seq::new(d.len(), |k: int| data_vertex(d[k], xs, ys, w, h))
}

/// The segment connecting two accepted neighbouring vertices; a rejected
/// vertex on either side produces nothing, which breaks the polyline.
pub open spec fn pair_segment(a: Option<(u32, u32)>, b: Option<(u32, u32)>) -> Seq<DrawOp> {
    match (a, b) {
        (Option::Some(p), Option::Some(q)) => seq![DrawOp::Segment(p.0, p.1, q.0, q.1)],
        _ => Seq::empty(),
    }
}

/// The polyline of a vertex list: one segment for every pair of accepted
/// vertices that are adjacent in the list, so that no segment crosses a
/// rejected sample.
pub open spec fn polyline_ops(vs: Seq<Option<(u32, u32)>>) -> Seq<DrawOp>
    decreases vs.len(),
{
    if vs.len() < 2 {
        Seq::empty()
    } else {
        polyline_ops(vs.drop_last()) + pair_segment(vs[vs.len() - 2], vs[vs.len() - 1])
    }
}

/// One dot per accepted vertex; no connecting segments.
pub open spec fn points_ops(vs: Seq<Option<(u32, u32)>>) -> Seq<DrawOp>
    decreases vs.len(),
{
    if vs.len() == 0 {
        Seq::empty()
    } else {
        points_ops(vs.drop_last()) + (match vs.last() {
            Option::Some(p) => seq![DrawOp::Dot(p.0, p.1)],
            Option::None => Seq::empty(),
        })
    }
}

/// The accepted vertices of a list, in order.
pub open spec fn accepted(vs: Seq<Option<(u32, u32)>>) -> Seq<(u32, u32)>
    decreases vs.len(),
{
    if vs.len() == 0 {
        Seq::empty()
    } else {
        accepted(vs.drop_last()) + (match vs.last() {
            Option::Some(p) => seq![p],
            Option::None => Seq::empty(),
        })
    }
}

/// One step unit: a horizontal segment at the height of the left point
/// from its column to the right point's column, then a vertical segment
/// at the left point's column between the two heights — the step rises
/// or falls at the left edge of the interval.
pub open spec fn step_pair(a: (u32, u32), b: (u32, u32)) -> Seq<DrawOp> {
    seq![DrawOp::Segment(a.0, a.1, b.0, a.1), DrawOp::Segment(a.0, a.1, a.0, b.1)]
}

/// One bar unit: a step unit plus two vertical segments dropping from
/// either point down to the viewport floor.
pub open spec fn bar_pair(a: (u32, u32), b: (u32, u32), h: u32) -> Seq<DrawOp> {
    step_pair(a, b) + seq![DrawOp::Segment(a.0, a.1, a.0, h), DrawOp::Segment(b.0, b.1, b.0, h)]
}

/// The step units of consecutive accepted vertex pairs.
pub open spec fn steps_ops(ps: Seq<(u32, u32)>) -> Seq<DrawOp>
    decreases ps.len(),
{
    if ps.len() < 2 {
        Seq::empty()
    } else {
        steps_ops(ps.drop_last()) + step_pair(ps[ps.len() - 2], ps[ps.len() - 1])
    }
}

/// The bar units of consecutive accepted vertex pairs.
pub open spec fn bars_ops(ps: Seq<(u32, u32)>, h: u32) -> Seq<DrawOp>
    decreases ps.len(),
{
    if ps.len() < 2 {
        Seq::empty()
    } else {
        bars_ops(ps.drop_last(), h) + bar_pair(ps[ps.len() - 2], ps[ps.len() - 1], h)
    }
}

/// Every drawing operation of one shape, in drawing order.
pub open spec fn shape_ops_spec(shape: Shape, xs: Scale, ys: Scale, w: u32, h: u32) -> Seq<
    DrawOp,
> {
    match shape {
        Shape::Continuous(s) => polyline_ops(cont_vertices(s@, ys, w, h)),
        Shape::Points(d) => points_ops(data_vertices(d@, xs, ys, w, h)),
        Shape::Lines(d) => polyline_ops(data_vertices(d@, xs, ys, w, h)),
        Shape::Steps(d) => steps_ops(accepted(data_vertices(d@, xs, ys, w, h))),
        Shape::Bars(d) => bars_ops(accepted(data_vertices(d@, xs, ys, w, h)), h),
    }
}

/// The vertical scale maps into the pixel rows of a viewport of height
/// `h`: its outputs lie within `[0, 1000 * h]` milli-units.
pub open spec fn y_scale_fits(ys: Scale, h: u32) -> bool {
    &&& ys.wf()
    &&& 0 <= ys.r0()
    &&& ys.r1() <= 1000 * (h as int)
}

/// A rounded milli-unit value that lies within `[0, 1000 * h]` gives a
/// pixel row within `[0, h]`.
proof fn lemma_px_round_within(m: int, h: int)
    requires
        0 <= m <= 1000 * h,
        0 <= h,
    ensures
        0 <= px_round(m) <= h,
{
    lemma_div_pos_is_pos(m + 500, 1000);
    lemma_div_is_ordered(m + 500, 1000 * h + 500, 1000);
    assert((1000 * h + 500) == h * 1000 + 500) by (nonlinear_arith);
    assert(h * 1000 + 500 == 1000 * h + 500) by (nonlinear_arith);
    vstd::arithmetic::div_mod::lemma_fundamental_div_mod_converse(h * 1000 + 500, 1000, h, 500);
}

/// Computes the continuous-shape vertex list.
fn continuous_vertices(samples: &Vec<Sample>, y_scale: &Scale, width: u32, height: u32) -> (vs:
    Vec<Option<(u32, u32)>>)
    requires
        forall|k: int| 0 <= k < samples@.len() ==> (#[trigger] samples@[k]).wf(),
        y_scale_fits(*y_scale, height),
        height <= 1_000_000,
    ensures
        vs@ == cont_vertices(samples@, *y_scale, width, height),
        forall|k: int|
            0 <= k < vs@.len() ==> vertex_in_viewport(#[trigger] vs@[k], width, height),
{
    let n = if samples.len() < width as usize {
        samples.len()
    } else {
        width as usize
    };
    let mut vs: Vec<Option<(u32, u32)>> = Vec::new();
    let mut k: usize = 0;
    while k < n
        invariant
            n == if samples@.len() < width { samples@.len() } else { width as nat },
            k <= n,
            forall|t: int| 0 <= t < samples@.len() ==> (#[trigger] samples@[t]).wf(),
            y_scale_fits(*y_scale, height),
            height <= 1_000_000,
            vs@.len() == k,
            forall|t: int|
                0 <= t < k ==> vs@[t] == cont_vertex(samples@[t], t, *y_scale, height),
            forall|t: int|
                0 <= t < k ==> vertex_in_viewport(#[trigger] vs@[t], width, height),
        decreases n - k,
    {
        let value: Option<i64> = match samples[k] {
            Sample::Invalid => Option::None,
            Sample::Zero => Option::Some(0),
            Sample::Normal(v) => Option::Some(v),
        };
        let vertex: Option<(u32, u32)> = match value {
            Option::None => Option::None,
            Option::Some(v) => {
                let milli = y_scale.linear(v);
                proof {
                    lemma_px_round_within(milli as int, height as int);
                }
                let j = px_of_milli(milli);
                Option::Some((k as u32, height - j))
            },
        };
        vs.push(vertex);
        k = k + 1;
    }
    proof {
        assert(vs@ =~= cont_vertices(samples@, *y_scale, width, height));
    }
    vs
}

/// Computes the discrete-shape vertex list.
fn data_vertices_exec(data: &Vec<(i64, i64)>, x_scale: &Scale, y_scale: &Scale, width: u32, height: u32) -> (vs:
    Vec<Option<(u32, u32)>>)
    requires
        crate::shape::data_wf(data@),
        x_scale.wf(),
        y_scale.wf(),
    ensures
        vs@ == data_vertices(data@, *x_scale, *y_scale, width, height),
        forall|k: int|
            0 <= k < vs@.len() ==> vertex_in_viewport(#[trigger] vs@[k], width, height),
{
    let mut vs: Vec<Option<(u32, u32)>> = Vec::new();
    let mut k: usize = 0;
    while k < data.len()
        invariant
            k <= data@.len(),
            crate::shape::data_wf(data@),
            x_scale.wf(),
            y_scale.wf(),
            vs@.len() == k,
            forall|t: int|
                0 <= t < k ==> vs@[t] == data_vertex(data@[t], *x_scale, *y_scale, width, height),
            forall|t: int|
                0 <= t < k ==> vertex_in_viewport(#[trigger] vs@[t], width, height),
        decreases data@.len() - k,
    {
        let (x, y) = data[k];
        let vertex: Option<(u32, u32)> = match x_scale.affine_px(x, width) {
            Option::None => Option::None,
            Option::Some(i) => match y_scale.affine_px(y, height) {
                Option::None => Option::None,
                Option::Some(j) => Option::Some((i, height - j)),
            },
        };
        vs.push(vertex);
        k = k + 1;
    }
    proof {
        assert(vs@ =~= data_vertices(data@, *x_scale, *y_scale, width, height));
    }
    vs
}

/// Connects adjacent accepted vertices with segments.
fn polyline_segments(vs: &Vec<Option<(u32, u32)>>, width: u32, height: u32) -> (ops: Vec<DrawOp>)
    requires
        forall|k: int|
            0 <= k < vs@.len() ==> vertex_in_viewport(#[trigger] vs@[k], width, height),
    ensures
        ops@ == polyline_ops(vs@),
        ops_in_viewport(ops@, width, height),
{
    let mut ops: Vec<DrawOp> = Vec::new();
    if vs.len() < 2 {
        return ops;
    }
    let mut k: usize = 1;
    while k < vs.len()
        invariant
            1 <= k <= vs@.len(),
            vs@.len() >= 2,
            forall|t: int|
                0 <= t < vs@.len() ==> vertex_in_viewport(#[trigger] vs@[t], width, height),
            ops@ == polyline_ops(vs@.take(k as int)),
            ops_in_viewport(ops@, width, height),
        decreases vs@.len() - k,
    {
        let a = vs[k - 1];
        let b = vs[k];
        proof {
            assert(vs@.take(k as int + 1).drop_last() =~= vs@.take(k as int));
            assert(polyline_ops(vs@.take(k as int + 1)) == polyline_ops(vs@.take(k as int))
                + pair_segment(a, b));
        }
        match (a, b) {
            (Option::Some(p), Option::Some(q)) => {
                ops.push(DrawOp::Segment(p.0, p.1, q.0, q.1));
            },
            _ => {},
        }
        proof {
            assert(ops@ =~= polyline_ops(vs@.take(k as int + 1)));
        }
        k = k + 1;
    }
    proof {
        assert(vs@.take(vs@.len() as int) =~= vs@);
    }
    ops
}

/// Sets one dot per accepted vertex.
fn point_dots(vs: &Vec<Option<(u32, u32)>>, width: u32, height: u32) -> (ops: Vec<DrawOp>)
    requires
        forall|k: int|
            0 <= k < vs@.len() ==> vertex_in_viewport(#[trigger] vs@[k], width, height),
    ensures
        ops@ == points_ops(vs@),
        ops_in_viewport(ops@, width, height),
{
    let mut ops: Vec<DrawOp> = Vec::new();
    let mut k: usize = 0;
    while k < vs.len()
        invariant
            k <= vs@.len(),
            forall|t: int|
                0 <= t < vs@.len() ==> vertex_in_viewport(#[trigger] vs@[t], width, height),
            ops@ == points_ops(vs@.take(k as int)),
            ops_in_viewport(ops@, width, height),
        decreases vs@.len() - k,
    {
        proof {
            assert(vs@.take(k as int + 1).drop_last() =~= vs@.take(k as int));
        }
        match vs[k] {
            Option::Some(p) => {
                ops.push(DrawOp::Dot(p.0, p.1));
            },
            Option::None => {},
        }
        k = k + 1;
        proof {
            assert(ops@ =~= points_ops(vs@.take(k as int)));
        }
    }
    proof {
        assert(vs@.take(vs@.len() as int) =~= vs@);
    }
    ops
}

/// Keeps the accepted vertices, in order.
fn accepted_vertices(vs: &Vec<Option<(u32, u32)>>, width: u32, height: u32) -> (ps: Vec<
    (u32, u32),
>)
    requires
        forall|k: int|
            0 <= k < vs@.len() ==> vertex_in_viewport(#[trigger] vs@[k], width, height),
    ensures
        ps@ == accepted(vs@),
        forall|k: int|
            0 <= k < ps@.len() ==> (#[trigger] ps@[k]).0 <= width && ps@[k].1 <= height,
{
    let mut ps: Vec<(u32, u32)> = Vec::new();
    let mut k: usize = 0;
    while k < vs.len()
        invariant
            k <= vs@.len(),
            forall|t: int|
                0 <= t < vs@.len() ==> vertex_in_viewport(#[trigger] vs@[t], width, height),
            ps@ == accepted(vs@.take(k as int)),
            forall|t: int|
                0 <= t < ps@.len() ==> (#[trigger] ps@[t]).0 <= width && ps@[t].1 <= height,
        decreases vs@.len() - k,
    {
        proof {
            assert(vs@.take(k as int + 1).drop_last() =~= vs@.take(k as int));
        }
        match vs[k] {
            Option::Some(p) => {
                ps.push(p);
            },
            Option::None => {},
        }
        k = k + 1;
        proof {
            assert(ps@ =~= accepted(vs@.take(k as int)));
        }
    }
    proof {
        assert(vs@.take(vs@.len() as int) =~= vs@);
    }
    ps
}

/// Draws the step units of consecutive vertex pairs.
fn step_segments(ps: &Vec<(u32, u32)>, width: u32, height: u32) -> (ops: Vec<DrawOp>)
    requires
        forall|k: int|
            0 <= k < ps@.len() ==> (#[trigger] ps@[k]).0 <= width && ps@[k].1 <= height,
    ensures
        ops@ == steps_ops(ps@),
        ops_in_viewport(ops@, width, height),
{
    let mut ops: Vec<DrawOp> = Vec::new();
    if ps.len() < 2 {
        return ops;
    }
    let mut k: usize = 1;
    while k < ps.len()
        invariant
            1 <= k <= ps@.len(),
            ps@.len() >= 2,
            forall|t: int|
                0 <= t < ps@.len() ==> (#[trigger] ps@[t]).0 <= width && ps@[t].1 <= height,
            ops@ == steps_ops(ps@.take(k as int)),
            ops_in_viewport(ops@, width, height),
        decreases ps@.len() - k,
    {
        let a = ps[k - 1];
        let b = ps[k];
        proof {
            assert(ps@.take(k as int + 1).drop_last() =~= ps@.take(k as int));
            assert(steps_ops(ps@.take(k as int + 1)) == steps_ops(ps@.take(k as int))
                + step_pair(a, b));
        }
        ops.push(DrawOp::Segment(a.0, a.1, b.0, a.1));
        ops.push(DrawOp::Segment(a.0, a.1, a.0, b.1));
        proof {
            assert(ops@ =~= steps_ops(ps@.take(k as int + 1)));
        }
        k = k + 1;
    }
    proof {
        assert(ps@.take(ps@.len() as int) =~= ps@);
    }
    ops
}

/// Draws the bar units of consecutive vertex pairs.
fn bar_segments(ps: &Vec<(u32, u32)>, width: u32, height: u32) -> (ops: Vec<DrawOp>)
    requires
        forall|k: int|
            0 <= k < ps@.len() ==> (#[trigger] ps@[k]).0 <= width && ps@[k].1 <= height,
    ensures
        ops@ == bars_ops(ps@, height),
        ops_in_viewport(ops@, width, height),
{
    let mut ops: Vec<DrawOp> = Vec::new();
    if ps.len() < 2 {
        return ops;
    }
    let mut k: usize = 1;
    while k < ps.len()
        invariant
            1 <= k <= ps@.len(),
            ps@.len() >= 2,
            forall|t: int|
                0 <= t < ps@.len() ==> (#[trigger] ps@[t]).0 <= width && ps@[t].1 <= height,
            ops@ == bars_ops(ps@.take(k as int), height),
            ops_in_viewport(ops@, width, height),
        decreases ps@.len() - k,
    {
        let a = ps[k - 1];
        let b = ps[k];
        proof {
            assert(ps@.take(k as int + 1).drop_last() =~= ps@.take(k as int));
            assert(bars_ops(ps@.take(k as int + 1), height) == bars_ops(ps@.take(k as int), height)
                + bar_pair(a, b, height));
        }
        ops.push(DrawOp::Segment(a.0, a.1, b.0, a.1));
        ops.push(DrawOp::Segment(a.0, a.1, a.0, b.1));
        ops.push(DrawOp::Segment(a.0, a.1, a.0, height));
        ops.push(DrawOp::Segment(b.0, b.1, b.0, height));
        proof {
            assert(ops@ =~= bars_ops(ps@.take(k as int + 1), height));
        }
        k = k + 1;
    }
    proof {
        assert(ps@.take(ps@.len() as int) =~= ps@);
    }
    ops
}

/// Translates one shape into its list of drawing operations: vertices
/// are mapped through the two scales, then connected according to the
/// shape kind.
pub fn shape_ops(shape: &Shape, x_scale: &Scale, y_scale: &Scale, width: u32, height: u32) -> (ops:
    Vec<DrawOp>)
    requires
        shape.wf(),
        x_scale.wf(),
        y_scale_fits(*y_scale, height),
        height <= 1_000_000,
    ensures
        ops@ == shape_ops_spec(*shape, *x_scale, *y_scale, width, height),
        ops_in_viewport(ops@, width, height),
{
    match shape {
        Shape::Continuous(samples) => {
            let vs = continuous_vertices(samples, y_scale, width, height);
            polyline_segments(&vs, width, height)
        },
        Shape::Points(d) => {
            let vs = data_vertices_exec(d, x_scale, y_scale, width, height);
            point_dots(&vs, width, height)
        },
        Shape::Lines(d) => {
            let vs = data_vertices_exec(d, x_scale, y_scale, width, height);
            polyline_segments(&vs, width, height)
        },
        Shape::Steps(d) => {
            let vs = data_vertices_exec(d, x_scale, y_scale, width, height);
            let ps = accepted_vertices(&vs, width, height);
            step_segments(&ps, width, height)
        },
        Shape::Bars(d) => {
            let vs = data_vertices_exec(d, x_scale, y_scale, width, height);
            let ps = accepted_vertices(&vs, width, height);
            bar_segments(&ps, width, height)
        },
    }
}

/// The dots one drawing operation lights.
pub open spec fn op_dots(op: DrawOp) -> Set<(u32, u32)> {
    match op {
        DrawOp::Dot(x, y) => Set::empty().insert((x, y)),
        DrawOp::Segment(x1, y1, x2, y2) => line_dots(x1, y1, x2, y2),
    }
}

/// The dots a list of drawing operations lights.
pub open spec fn ops_dots(ops: Seq<DrawOp>) -> Set<(u32, u32)>
    decreases ops.len(),
{
    if ops.len() == 0 {
        Set::empty()
    } else {
        ops_dots(ops.drop_last()).union(op_dots(ops.last()))
    }
}

/// `p` lies within the footprint of the operation: exactly on a dot,
/// or within the bounding box of a segment's endpoints.
pub open spec fn op_covers(op: DrawOp, p: (u32, u32)) -> bool {
    match op {
        DrawOp::Dot(x, y) => p == (x, y),
        DrawOp::Segment(x1, y1, x2, y2) => lo(x1, x2) <= p.0 <= hi(x1, x2) && lo(y1, y2) <= p.1
            <= hi(y1, y2),
    }
}

/// Some operation of the list covers `p`.
pub open spec fn some_op_covers(ops: Seq<DrawOp>, p: (u32, u32)) -> bool {
    exists|k: int| 0 <= k < ops.len() && op_covers(#[trigger] ops[k], p)
}

/// The dots of a concatenation are the union of the dots of the parts.
pub proof fn lemma_ops_dots_concat(a: Seq<DrawOp>, b: Seq<DrawOp>)
    ensures
        ops_dots(a + b) == ops_dots(a).union(ops_dots(b)),
    decreases b.len(),
{
    if b.len() == 0 {
        assert(a + b =~= a);
        assert(ops_dots(a + b) =~= ops_dots(a).union(ops_dots(b)));
    } else {
        lemma_ops_dots_concat(a, b.drop_last());
        assert((a + b).drop_last() =~= a + b.drop_last());
        assert((a + b).last() == b.last());
        assert(ops_dots(a + b) =~= ops_dots(a).union(ops_dots(b)));
    }
}

/// An operation of a concatenation covering `p` is an operation of one
/// of the parts covering `p`, and back.
pub proof fn lemma_covers_concat(a: Seq<DrawOp>, b: Seq<DrawOp>, p: (u32, u32))
    ensures
        some_op_covers(a + b, p) <==> (some_op_covers(a, p) || some_op_covers(b, p)),
{
    if some_op_covers(a + b, p) {
        let k = choose|k: int| 0 <= k < (a + b).len() && op_covers(#[trigger] (a + b)[k], p);
        if k < a.len() {
            assert(op_covers(a[k], p));
        } else {
            assert(op_covers(b[k - a.len()], p));
        }
    }
    if some_op_covers(a, p) {
        let k = choose|k: int| 0 <= k < a.len() && op_covers(#[trigger] a[k], p);
        assert(op_covers((a + b)[k], p));
    }
    if some_op_covers(b, p) {
        let k = choose|k: int| 0 <= k < b.len() && op_covers(#[trigger] b[k], p);
        assert(op_covers((a + b)[k + a.len()], p));
    }
}


/// Each accepted vertex sits in the pixel column of its own index —
/// the shape of a continuous vertex list.
pub open spec fn vertex_at_col(v: Option<(u32, u32)>, t: int) -> bool {
    match v {
        Option::Some(p) => p.0 == t,
        Option::None => true,
    }
}

/// Every vertex of a continuous vertex list sits in its own column.
pub proof fn lemma_cont_vertices_at_col(samples: Seq<Sample>, ys: Scale, w: u32, h: u32)
    ensures
        forall|t: int|
            0 <= t < cont_vertices(samples, ys, w, h).len() ==> vertex_at_col(
                #[trigger] cont_vertices(samples, ys, w, h)[t],
                t,
            ),
{
}

/// Every polyline operation is a segment joining two accepted vertices
/// that are adjacent in the vertex list.
proof fn lemma_polyline_op_columns(vs: Seq<Option<(u32, u32)>>, k: int)
    requires
        0 <= k < polyline_ops(vs).len(),
        forall|t: int| 0 <= t < vs.len() ==> vertex_at_col(#[trigger] vs[t], t),
    ensures
        match polyline_ops(vs)[k] {
            DrawOp::Segment(x1, y1, x2, y2) => exists|t: int|
                0 <= t < vs.len() - 1 && (#[trigger] vs[t]) is Some && vs[t + 1] is Some && x1 == t
                    && x2 == t + 1,
            DrawOp::Dot(x, y) => false,
        },
    decreases vs.len(),
{
    if vs.len() < 2 {
    } else {
        let n = vs.len() as int;
        let front = polyline_ops(vs.drop_last());
        if k < front.len() {
            assert(forall|t: int|
                0 <= t < vs.drop_last().len() ==> vertex_at_col(#[trigger] vs.drop_last()[t], t));
            lemma_polyline_op_columns(vs.drop_last(), k);
            match polyline_ops(vs)[k] {
                DrawOp::Segment(x1, y1, x2, y2) => {
                    let t = choose|t: int|
                        0 <= t < vs.drop_last().len() - 1 && (#[trigger] vs.drop_last()[t]) is Some
                            && vs.drop_last()[t + 1] is Some && x1 == t && x2 == t + 1;
                    assert(vs[t] is Some && vs[t + 1] is Some);
                },
                DrawOp::Dot(x, y) => {},
            }
        } else {
            match (vs[n - 2], vs[n - 1]) {
                (Option::Some(p), Option::Some(q)) => {
                    assert(vertex_at_col(vs[n - 2], n - 2));
                    assert(vertex_at_col(vs[n - 1], n - 1));
                    assert(polyline_ops(vs)[k] == DrawOp::Segment(p.0, p.1, q.0, q.1));
                    assert(vs[n - 2] is Some && vs[n - 2 + 1] is Some && p.0 == n - 2 && q.0 == n
                        - 2 + 1);
                },
                _ => {},
            }
        }
    }
}

/// A continuous shape with a rejected sample draws nothing in that
/// sample's pixel column: every segment joins accepted samples in two
/// adjacent columns, so no drawing operation covers any point of the
/// rejected column.
pub proof fn lemma_rejected_column_untouched(
    samples: Seq<Sample>,
    ys: Scale,
    w: u32,
    h: u32,
    col: int,
    p: (u32, u32),
)
    requires
        0 <= col < samples.len(),
        samples[col] is Invalid,
        some_op_covers(polyline_ops(cont_vertices(samples, ys, w, h)), p),
    ensures
        p.0 != col,
{
    let vs = cont_vertices(samples, ys, w, h);
    lemma_cont_vertices_at_col(samples, ys, w, h);
    let ops = polyline_ops(vs);
    let k = choose|k: int| 0 <= k < ops.len() && op_covers(#[trigger] ops[k], p);
    lemma_polyline_op_columns(vs, k);
    match ops[k] {
        DrawOp::Segment(x1, y1, x2, y2) => {
            let t = choose|t: int|
                0 <= t < vs.len() - 1 && (#[trigger] vs[t]) is Some && vs[t + 1] is Some && x1 == t
                    && x2 == t + 1;
            if col < vs.len() {
                assert(vs[col] is None);
                assert(t != col && t + 1 != col);
                assert(x1 <= p.0 <= x2);
            } else {
                assert(p.0 <= vs.len() - 1);
            }
        },
        DrawOp::Dot(x, y) => {},
    }
}

/// Step and bar shapes draw one unit per consecutive pair of accepted
/// vertices: `n` accepted points make exactly `n - 1` step units of
/// two segments each, and no standalone dot, so the final point never
/// appears as a vertex of its own.
pub proof fn lemma_steps_units(ps: Seq<(u32, u32)>)
    ensures
        steps_ops(ps).len() == if ps.len() < 2 {
            0int
        } else {
            2 * (ps.len() - 1)
        },
        forall|k: int| 0 <= k < steps_ops(ps).len() ==> !((#[trigger] steps_ops(ps)[k]) is Dot),
    decreases ps.len(),
{
    if ps.len() >= 2 {
        lemma_steps_units(ps.drop_last());
    }
}

/// `n` accepted points make exactly `n - 1` bar units of four
/// segments each, and no standalone dot.
pub proof fn lemma_bars_units(ps: Seq<(u32, u32)>, h: u32)
    ensures
        bars_ops(ps, h).len() == if ps.len() < 2 {
            0int
        } else {
            4 * (ps.len() - 1)
        },
        forall|k: int|
            0 <= k < bars_ops(ps, h).len() ==> !((#[trigger] bars_ops(ps, h)[k]) is Dot),
    decreases ps.len(),
{
    if ps.len() >= 2 {
        lemma_bars_units(ps.drop_last(), h);
    }
}

} // verus!
