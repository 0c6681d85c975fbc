//! Path accumulation: contours of quadratic Bezier segments.
//!
//! A [`PathBuilder`] records a flat list of points together with contour
//! ranges. Every two recorded points after a contour's first point encode one
//! quadratic segment (control point, then endpoint); a straight edge is a
//! degenerate quadratic whose control point equals its endpoint, so
//! downstream consumers evaluate a single curve formula uniformly.

use vstd::prelude::*;

use crate::flatten::{
    cube, cubic_emit, err_sq, eval_segment, lemma_bez3_full, lemma_err_sq_bound,
    lemma_max_dim_props, lemma_seg_count_props, max_dim, meets_tol_exec, seg_count,
    seg_count_from, seg_ctrl, seg_point, ERR_SQ_MAX, SEG_CAP,
};
use crate::geom::{lemma_mul_bound, vec_max, vec_min, Vec2, COORD_MAX, POINT_MAX};
use crate::num::{
    lemma_round_div_bound, lemma_round_div_close, lemma_round_div_exact, round_div,
    spec_round_div,
};

verus! {

/// One closed sub-path: a half-open range `[start, end)` into the point list.
pub struct Component {
    start: usize,
    end: usize,
}

/// Mathematical state of a path builder: the recorded points and the contour
/// ranges, the latter as `(start, end)` index pairs.
#[verifier::ext_equal]
pub ghost struct BuilderModel {
    pub points: Seq<Vec2>,
    pub components: Seq<(int, int)>,
}

/// Appending one point: the point list grows by the point and the last
/// contour (if any) is extended to cover it.
pub open spec fn model_add_point(m: BuilderModel, p: Vec2) -> BuilderModel {
    BuilderModel {
        points: m.points.push(p),
        components: if m.components.len() == 0 {
            m.components
        } else {
            let k = m.components.len() - 1;
            m.components.update(k as int, (m.components[k as int].0, m.points.len() + 1 as int))
        },
    }
}

/// Starting a new contour at the given point.
pub open spec fn model_move_to(m: BuilderModel, p: Vec2) -> BuilderModel {
    model_add_point(
        BuilderModel {
            points: m.points,
            components: m.components.push((m.points.len() as int, m.points.len() as int)),
        },
        p,
    )
}

/// A straight edge: the endpoint recorded twice (degenerate quadratic).
pub open spec fn model_line_to(m: BuilderModel, p: Vec2) -> BuilderModel {
    model_add_point(model_add_point(m, p), p)
}

/// One quadratic segment: control point, then endpoint.
pub open spec fn model_quadratic_to(m: BuilderModel, control: Vec2, p: Vec2) -> BuilderModel {
    model_add_point(model_add_point(m, control), p)
}

/// Closing the last contour: if its first and last points differ, the first
/// point is recorded twice (a closing straight edge).
pub open spec fn model_close(m: BuilderModel) -> BuilderModel {
    if m.components.len() == 0 {
        m
    } else {
        let k = m.components.len() - 1;
        let first = m.points[m.components[k as int].0];
        let last = m.points[m.components[k as int].1 - 1];
        if first == last {
            m
        } else {
            model_add_point(model_add_point(m, first), first)
        }
    }
}

/// Appending a whole point sequence, one point at a time.
pub open spec fn model_add_seq(m: BuilderModel, s: Seq<Vec2>) -> BuilderModel
    decreases s.len(),
{
    if s.len() == 0 {
        m
    } else {
        model_add_seq(model_add_point(m, s[0]), s.drop_first())
    }
}

/// Flattening a cubic: the emitted quadratics' points are appended to the
/// current contour. The cubic starts at the last recorded point (or the
/// origin for an empty builder) and runs through the two control points to
/// the endpoint.
pub open spec fn model_cubic_to(m: BuilderModel, c1: Vec2, c2: Vec2, p: Vec2) -> BuilderModel {
    let p1 = if m.points.len() == 0 {
        Vec2 { x: 0, y: 0 }
    } else {
        m.points.last()
    };
    model_add_seq(m, cubic_emit(p1, c1, c2, p))
}

/// Appending a sequence then one more point is appending the extended
/// sequence.
pub proof fn lemma_model_add_seq_push(m: BuilderModel, s: Seq<Vec2>, x: Vec2)
    ensures
        model_add_seq(m, s.push(x)) == model_add_point(model_add_seq(m, s), x),
    decreases s.len(),
{
    let s1 = s.push(x);
    if s.len() == 0 {
        assert(s1.drop_first() =~= Seq::<Vec2>::empty());
        assert(s1[0] == x);
        assert(model_add_seq(m, s1) == model_add_seq(model_add_point(m, x), s1.drop_first()));
        assert(model_add_seq(model_add_point(m, x), s1.drop_first()) == model_add_point(m, x));
        assert(model_add_seq(m, s) == m);
    } else {
        assert(s1.drop_first() =~= s.drop_first().push(x));
        assert(s1[0] == s[0]);
        assert(model_add_seq(m, s1) == model_add_seq(model_add_point(m, s[0]), s1.drop_first()));
        lemma_model_add_seq_push(model_add_point(m, s[0]), s.drop_first(), x);
        assert(model_add_seq(m, s) == model_add_seq(model_add_point(m, s[0]), s.drop_first()));
    }
}

/// Appending a sequence appends exactly those points to the point list.
pub proof fn lemma_model_add_seq_points(m: BuilderModel, s: Seq<Vec2>)
    ensures
        model_add_seq(m, s).points == m.points + s,
    decreases s.len(),
{
    if s.len() == 0 {
        assert(m.points + s =~= m.points);
    } else {
        lemma_model_add_seq_points(model_add_point(m, s[0]), s.drop_first());
        assert(m.points.push(s[0]) + s.drop_first() =~= m.points + s);
    }
}

/// Well-formedness of a builder state.
///
/// Points stay within [`POINT_MAX`]; contour ranges are non-empty,
/// non-overlapping and listed in creation order; the last contour always ends
/// at the current point count; each contour's first point is an input point,
/// so it stays within [`COORD_MAX`].
pub open spec fn builder_wf(m: BuilderModel) -> bool {
    &&& forall|i: int| 0 <= i < m.points.len() ==> (#[trigger] m.points[i]).in_range(POINT_MAX)
    &&& forall|i: int|
        0 <= i < m.components.len() ==> 0 <= (#[trigger] m.components[i]).0
            < m.components[i].1 <= m.points.len()
    &&& forall|i: int|
        0 <= i < m.components.len() - 1 ==> (#[trigger] m.components[i]).1
            <= m.components[i + 1].0
    &&& m.components.len() > 0 ==> m.components.last().1 == m.points.len()
    &&& forall|i: int|
        0 <= i < m.components.len() ==> m.points[(#[trigger] m.components[i]).0].in_range(
            COORD_MAX,
        )
}

/// The most recently recorded point, if any, is within the input range.
/// Every builder operation leaves the builder in this state; the cubic
/// flattening loop relies on it.
pub open spec fn last_point_in_range(m: BuilderModel) -> bool {
    m.points.len() > 0 ==> m.points.last().in_range(COORD_MAX)
}

/// One outline command, as handed over by the font's outline decoder.
#[derive(Copy, Clone, Debug, PartialEq, Eq, Structural)]
pub enum PathCommand {
    MoveTo(Vec2),
    LineTo(Vec2),
    QuadraticTo(Vec2, Vec2),
    CubicTo(Vec2, Vec2, Vec2),
    Close,
}

/// Every coordinate of the command is within the input range.
pub open spec fn cmd_in_range(c: PathCommand) -> bool {
    match c {
        PathCommand::MoveTo(p) => p.in_range(COORD_MAX),
        PathCommand::LineTo(p) => p.in_range(COORD_MAX),
        PathCommand::QuadraticTo(q, p) => q.in_range(COORD_MAX) && p.in_range(COORD_MAX),
        PathCommand::CubicTo(c1, c2, p) => c1.in_range(COORD_MAX) && c2.in_range(COORD_MAX)
            && p.in_range(COORD_MAX),
        PathCommand::Close => true,
    }
}

/// The empty builder state.
pub open spec fn model_empty() -> BuilderModel {
    BuilderModel { points: Seq::empty(), components: Seq::empty() }
}

/// The builder state after one command.
pub open spec fn model_apply(m: BuilderModel, c: PathCommand) -> BuilderModel {
    match c {
        PathCommand::MoveTo(p) => model_move_to(m, p),
        PathCommand::LineTo(p) => model_line_to(m, p),
        PathCommand::QuadraticTo(q, p) => model_quadratic_to(m, q, p),
        PathCommand::CubicTo(c1, c2, p) => model_cubic_to(m, c1, c2, p),
        PathCommand::Close => model_close(m),
    }
}

/// The builder state after the first `n` commands of an outline, starting
/// from an empty builder.
pub open spec fn model_run(cmds: Seq<PathCommand>, n: int) -> BuilderModel
    decreases n,
{
    if n <= 0 {
        model_empty()
    } else {
        model_apply(model_run(cmds, n - 1), cmds[n - 1])
    }
}

/// Accumulates move/line/quadratic/cubic commands into a flat point sequence
/// plus contour ranges; flattens cubics adaptively.
pub struct PathBuilder {
    components: Vec<Component>,
    points: Vec<Vec2>,
}

impl View for PathBuilder {
    type V = BuilderModel;

    closed spec fn view(&self) -> BuilderModel {
        BuilderModel {
            points: self.points@,
            components: self.components@.map(|i: int, c: Component| (c.start as int, c.end as int)),
        }
    }
}

impl PathBuilder {
    /// Creates an empty builder.
    pub fn new() -> (r: PathBuilder)
        ensures
            r@.points.len() == 0,
            r@.components.len() == 0,
            builder_wf(r@),
            last_point_in_range(r@),
    {
        PathBuilder { components: Vec::new(), points: Vec::new() }
    }

    /// Number of points recorded so far.
    pub fn len(&self) -> (r: usize)
        ensures
            r == self@.points.len(),
    {
        self.points.len()
    }

    /// The recorded point at index `i`.
    pub fn point_at(&self, i: usize) -> (r: Vec2)
        requires
            i < self@.points.len(),
        ensures
            r == self@.points[i as int],
    {
        self.points[i]
    }

    /// Number of contours started so far.
    pub fn contour_count(&self) -> (r: usize)
        ensures
            r == self@.components.len(),
    {
        self.components.len()
    }

    /// Records `a` then `b`, extending the last contour over both.
    fn push_pair(&mut self, a: Vec2, b: Vec2)
        requires
            builder_wf(old(self)@),
            a.in_range(POINT_MAX),
            b.in_range(POINT_MAX),
        ensures
            final(self)@ == model_add_point(model_add_point(old(self)@, a), b),
            builder_wf(final(self)@),
    {
        let ghost m0 = self@;
        self.points.push(a);
        self.points.push(b);
        let e = self.points.len();
        if self.components.len() > 0 {
            let mut c = self.components.pop().unwrap();
            c.end = e;
            self.components.push(c);
        }
        proof {
            let m2 = model_add_point(model_add_point(m0, a), b);
            assert(self@.points =~= m2.points);
            assert(self@.components =~= m2.components);
            assert(self@ =~= m2);
        }
    }

    /// Appends one point to the current contour.
    pub fn add_point(&mut self, point: Vec2)
        requires
            builder_wf(old(self)@),
            point.in_range(COORD_MAX),
        ensures
            final(self)@ == model_add_point(old(self)@, point),
            builder_wf(final(self)@),
            last_point_in_range(final(self)@),
    {
        let ghost m0 = self@;
        self.points.push(point);
        let e = self.points.len();
        if self.components.len() > 0 {
            let mut c = self.components.pop().unwrap();
            c.end = e;
            self.components.push(c);
        }
        proof {
            let m1 = model_add_point(m0, point);
            assert(self@.points =~= m1.points);
            assert(self@.components =~= m1.components);
            assert(self@ =~= m1);
        }
    }

    /// Starts a new contour with a zero-length range at the current point
    /// count, then records the point.
    pub fn move_to(&mut self, point: Vec2)
        requires
            builder_wf(old(self)@),
            point.in_range(COORD_MAX),
        ensures
            final(self)@ == model_move_to(old(self)@, point),
            builder_wf(final(self)@),
            last_point_in_range(final(self)@),
    {
        let ghost m0 = self@;
        self.points.push(point);
        let e = self.points.len();
        let s = e - 1;
        self.components.push(Component { start: s, end: e });
        proof {
            let m1 = model_move_to(m0, point);
            assert(self@.points =~= m1.points);
            assert(self@.components =~= m1.components);
            assert(self@ =~= m1);
        }
    }

    /// Records a straight edge to `point` as a degenerate quadratic
    /// (control point equal to the endpoint).
    pub fn line_to(&mut self, point: Vec2)
        requires
            builder_wf(old(self)@),
            point.in_range(COORD_MAX),
        ensures
            final(self)@ == model_line_to(old(self)@, point),
            builder_wf(final(self)@),
            last_point_in_range(final(self)@),
    {
        self.push_pair(point, point);
    }

    /// Records one quadratic segment: control point, then endpoint.
    pub fn quadratic_to(&mut self, control: Vec2, point: Vec2)
        requires
            builder_wf(old(self)@),
            control.in_range(POINT_MAX),
            point.in_range(COORD_MAX),
        ensures
            final(self)@ == model_quadratic_to(old(self)@, control, point),
            builder_wf(final(self)@),
            last_point_in_range(final(self)@),
    {
        self.push_pair(control, point);
    }

    /// Approximates a cubic Bezier segment with one or more quadratic
    /// segments, chosen so every emitted segment stays within the
    /// scale-relative flattening tolerance (see [`crate::flatten`]).
    #[verifier::rlimit(100)]
    pub fn cubic_to(&mut self, control1: Vec2, control2: Vec2, point: Vec2)
        requires
            builder_wf(old(self)@),
            last_point_in_range(old(self)@),
            control1.in_range(COORD_MAX),
            control2.in_range(COORD_MAX),
            point.in_range(COORD_MAX),
        ensures
            final(self)@ == model_cubic_to(old(self)@, control1, control2, point),
            builder_wf(final(self)@),
            last_point_in_range(final(self)@),
    {
        let ghost m0 = self@;
        let p1 = if self.points.len() > 0 {
            self.points[self.points.len() - 1]
        } else {
            Vec2::new(0, 0)
        };
        let p2 = control1;
        let p3 = control2;
        let p4 = point;

        let ex = 3 * p2.x - 3 * p3.x - p1.x + p4.x;
        let ey = 3 * p2.y - 3 * p3.y - p1.y + p4.y;
        proof {
            lemma_err_sq_bound(p1, p2, p3, p4);
            lemma_mul_bound(ex as int, ex as int, 2097152);
            lemma_mul_bound(ey as int, ey as int, 2097152);
        }
        let esq = ex * ex + ey * ey;

        let wx = if p1.x >= p2.x { p1.x } else { p2.x };
        let wx = if wx >= p3.x { wx } else { p3.x };
        let wx = if wx >= p4.x { wx } else { p4.x };
        let vx = if p1.x <= p2.x { p1.x } else { p2.x };
        let vx = if vx <= p3.x { vx } else { p3.x };
        let vx = if vx <= p4.x { vx } else { p4.x };
        let wy = if p1.y >= p2.y { p1.y } else { p2.y };
        let wy = if wy >= p3.y { wy } else { p3.y };
        let wy = if wy >= p4.y { wy } else { p4.y };
        let vy = if p1.y <= p2.y { p1.y } else { p2.y };
        let vy = if vy <= p3.y { vy } else { p3.y };
        let vy = if vy <= p4.y { vy } else { p4.y };
        let dx = wx - vx;
        let dy = wy - vy;
        let md = if dx >= dy { dx } else { dy };
        proof {
            assert(md == max_dim(p1, p2, p3, p4));
            lemma_max_dim_props(p1, p2, p3, p4);
            lemma_seg_count_props(esq as int, md as int);
        }
        let ghost gn = seg_count(esq as int, md as int);

        let mut k: u64 = 1;
        while k < SEG_CAP && !meets_tol_exec(k, esq, md)
            invariant
                1 <= k <= SEG_CAP,
                0 <= esq <= ERR_SQ_MAX,
                0 <= md <= 2 * COORD_MAX,
                gn == seg_count(esq as int, md as int),
                gn == seg_count_from(k as int, esq as int, md as int),
            decreases SEG_CAP - k,
        {
            k = k + 1;
        }
        let n = k;
        proof {
            assert(gn == n);
        }

        proof {
            assert(1 <= n * n <= 1048576 && 1 <= n * n * n <= 1073741824 && n * n * n == cube(
            n as int)) by (nonlinear_arith)
                requires
                    1 <= n <= 1024;
        }
        let ncube: i64 = (n * n * n) as i64;
        let ghost emit = cubic_emit(p1, p2, p3, p4);
        proof {
            assert(emit.len() == 2 * gn);
            assert(self@ == model_add_seq(m0, emit.subrange(0, 0))) by {
                assert(emit.subrange(0, 0) =~= Seq::<Vec2>::empty());
            }
        }

        let mut i: u64 = 0;
        while i < n
            invariant
                0 <= i <= n,
                n == gn,
                1 <= n <= 1024,
                ncube == cube(n as int),
                1 <= ncube <= 1073741824,
                p1.in_range(COORD_MAX),
                p2.in_range(COORD_MAX),
                p3.in_range(COORD_MAX),
                p4.in_range(COORD_MAX),
                emit == cubic_emit(p1, p2, p3, p4),
                emit.len() == 2 * n,
                n as int == seg_count(err_sq(p1, p2, p3, p4), max_dim(p1, p2, p3, p4)),
                builder_wf(self@),
                self@ == model_add_seq(m0, emit.subrange(0, 2 * i as int)),
            decreases n - i,
        {
            let (ctrl, pt) = eval_segment(p1, p2, p3, p4, i, n, ncube);
            proof {
                assert((2 * i as int) % 2 == 0 && (2 * i as int) / 2 == i as int) by (
                nonlinear_arith);
                assert((2 * i as int + 1) % 2 == 1 && (2 * i as int + 1) / 2 == i as int) by (
                nonlinear_arith);
                assert(cubic_emit(p1, p2, p3, p4)[2 * i as int] == seg_ctrl(
                    p1,
                    p2,
                    p3,
                    p4,
                    i as int,
                    n as int,
                ));
                assert(cubic_emit(p1, p2, p3, p4)[2 * i as int + 1] == seg_point(
                    p1,
                    p2,
                    p3,
                    p4,
                    i as int,
                    n as int,
                ));
                assert(emit[2 * i as int] == ctrl);
                assert(emit[2 * i as int + 1] == pt);
            }
            self.quadratic_to(ctrl, pt);
            proof {
                lemma_model_add_seq_push(m0, emit.subrange(0, 2 * i as int), ctrl);
                lemma_model_add_seq_push(m0, emit.subrange(0, 2 * i as int).push(ctrl), pt);
                assert(emit.subrange(0, 2 * (i + 1) as int) =~= emit.subrange(
                    0,
                    2 * i as int,
                ).push(ctrl).push(pt));
            }
            i = i + 1;
        }

        proof {
            assert(emit.subrange(0, 2 * gn) =~= emit);
            lemma_model_add_seq_points(m0, emit);
            let lx = p4.x as int;
            let ly = p4.y as int;
            lemma_bez3_full(p1.x as int, p2.x as int, p3.x as int, p4.x as int, gn);
            lemma_bez3_full(p1.y as int, p2.y as int, p3.y as int, p4.y as int, gn);
            assert(cube(gn) * lx == lx * cube(gn) && cube(gn) * ly == ly * cube(gn)) by (
            nonlinear_arith);
            lemma_round_div_exact(lx, cube(gn));
            lemma_round_div_exact(ly, cube(gn));
            assert(emit.last() == seg_point(p1, p2, p3, p4, gn - 1, gn));
            assert(emit.last() == p4);
            assert(self@.points.last() == p4);
        }
    }

    /// Closes the last contour: if its first and last recorded points differ,
    /// records the first point twice so that the contour ends where it began.
    pub fn close(&mut self)
        requires
            builder_wf(old(self)@),
            last_point_in_range(old(self)@),
        ensures
            final(self)@ == model_close(old(self)@),
            builder_wf(final(self)@),
            last_point_in_range(final(self)@),
            final(self)@.components.len() > 0 ==> {
                let c = final(self)@.components.last();
                final(self)@.points[c.0] == final(self)@.points[c.1 - 1]
            },
    {
        let ghost m0 = self@;
        if self.components.len() > 0 {
            let c = &self.components[self.components.len() - 1];
            let first = self.points[c.start];
            let last = self.points[c.end - 1];
            if first.x != last.x || first.y != last.y {
                self.push_pair(first, first);
            }
        }
        proof {
            assert(self@ =~= model_close(m0));
        }
    }

    /// Applies one outline command.
    pub fn apply(&mut self, cmd: &PathCommand)
        requires
            builder_wf(old(self)@),
            last_point_in_range(old(self)@),
            cmd_in_range(*cmd),
        ensures
            final(self)@ == model_apply(old(self)@, *cmd),
            builder_wf(final(self)@),
            last_point_in_range(final(self)@),
    {
        match cmd {
            PathCommand::MoveTo(p) => self.move_to(*p),
            PathCommand::LineTo(p) => self.line_to(*p),
            PathCommand::QuadraticTo(q, p) => self.quadratic_to(*q, *p),
            PathCommand::CubicTo(c1, c2, p) => self.cubic_to(*c1, *c2, *p),
            PathCommand::Close => self.close(),
        }
    }

    /// Computes the bounding box over all recorded points, quantizes every
    /// coordinate to an unsigned 16-bit fraction of its axis range, and emits
    /// the quantized contour ranges, yielding an immutable [`Path`].
    ///
    /// An empty builder yields a path with a zero bounding box and no data.
    pub fn build(&self) -> (r: Path)
        requires
            builder_wf(self@),
            self@.points.len() <= 65535,
        ensures
            path_matches(r, self@),
            path_wf(&r),
    {
        let n = self.points.len();
        proof {
            lemma_bbox_bounds(self@.points, n as int);
        }
        let mut mn = Vec2::new(0, 0);
        let mut mx = Vec2::new(0, 0);
        if n > 0 {
            mn = self.points[0];
            mx = self.points[0];
            let mut i: usize = 1;
            while i < n
                invariant
                    1 <= i <= n,
                    n == self@.points.len(),
                    builder_wf(self@),
                    mn == bbox_of(self@.points, i as int).0,
                    mx == bbox_of(self@.points, i as int).1,
                decreases n - i,
            {
                mn = mn.min(self.points[i]);
                mx = mx.max(self.points[i]);
                i = i + 1;
            }
        }

        let mut components: Vec<u16> = Vec::new();
        let mut i: usize = 0;
        let nc = self.components.len();
        while i < nc
            invariant
                0 <= i <= nc,
                nc == self@.components.len(),
                builder_wf(self@),
                self@.points.len() <= 65535,
                components@.len() == 2 * i,
                forall|k: int|
                    0 <= k < 2 * i ==> components@[k] == quant_components(self@.components)[k],
            decreases nc - i,
        {
            let c = &self.components[i];
            components.push(c.start as u16);
            components.push(c.end as u16);
            i = i + 1;
        }

        let sx = mx.x - mn.x;
        let sx = if sx <= 0 { 1 } else { sx };
        let sy = mx.y - mn.y;
        let sy = if sy <= 0 { 1 } else { sy };
        let mut points: Vec<u16> = Vec::new();
        let mut i: usize = 0;
        while i < n
            invariant
                0 <= i <= n,
                n == self@.points.len(),
                builder_wf(self@),
                mn == bbox_of(self@.points, n as int).0,
                mx == bbox_of(self@.points, n as int).1,
                mn.in_range(POINT_MAX),
                mx.in_range(POINT_MAX),
                forall|j: int|
                    0 <= j < n ==> mn.x <= (#[trigger] self@.points[j]).x <= mx.x && mn.y
                        <= self@.points[j].y <= mx.y,
                sx == clamp_span(mx.x - mn.x),
                sy == clamp_span(mx.y - mn.y),
                points@.len() == 2 * i,
                forall|k: int|
                    0 <= k < 2 * i ==> points@[k] == quant_points(self@.points, mn, mx)[k],
            decreases n - i,
        {
            let p = self.points[i];
            proof {
                lemma_quant_range(p.x as int, mn.x as int, mx.x as int);
                lemma_quant_range(p.y as int, mn.y as int, mx.y as int);
            }
            let qx = round_div(65535 * (p.x - mn.x), sx);
            let qy = round_div(65535 * (p.y - mn.y), sy);
            points.push(qx as u16);
            points.push(qy as u16);
            i = i + 1;
        }

        let r = Path { min: mn, max: mx, components, points };
        proof {
            assert(r.components@ =~= quant_components(self@.components));
            assert(r.points@ =~= quant_points(self@.points, mn, mx));
            lemma_components_bounded(self@);
        }
        r
    }
}

/// Immutable result of a builder: bounding box, quantized point list, and
/// quantized contour-range list.
#[derive(Debug)]
pub struct Path {
    pub min: Vec2,
    pub max: Vec2,
    pub components: Vec<u16>,
    pub points: Vec<u16>,
}

impl Path {
    /// A bit-identical copy of the path.
    pub fn duplicate(&self) -> (r: Path)
        ensures
            r.min == self.min,
            r.max == self.max,
            r.components@ == self.components@,
            r.points@ == self.points@,
    {
        Path {
            min: self.min,
            max: self.max,
            components: copy_scalars(&self.components),
            points: copy_scalars(&self.points),
        }
    }
}

fn copy_scalars(v: &Vec<u16>) -> (r: Vec<u16>)
    ensures
        r@ == v@,
{
    let n = v.len();
    let mut r: Vec<u16> = Vec::new();
    let mut i: usize = 0;
    while i < n
        invariant
            0 <= i <= n,
            n == v@.len(),
            r@ == v@.subrange(0, i as int),
        decreases n - i,
    {
        proof {
            assert(v@.subrange(0, i as int + 1) =~= v@.subrange(0, i as int).push(v@[i as int]));
        }
        r.push(v[i]);
        i = i + 1;
    }
    proof {
        assert(v@.subrange(0, n as int) =~= v@);
    }
    r
}

/// In a well-formed builder there are never more contours than points:
/// contour `i` starts at index `i` or later.
pub proof fn lemma_component_start_lb(m: BuilderModel, i: int)
    requires
        builder_wf(m),
        0 <= i < m.components.len(),
    ensures
        m.components[i].0 >= i,
    decreases i,
{
    if i > 0 {
        lemma_component_start_lb(m, i - 1);
    }
}

/// A well-formed builder has at most as many contours as points.
pub proof fn lemma_components_bounded(m: BuilderModel)
    requires
        builder_wf(m),
    ensures
        m.components.len() <= m.points.len(),
{
    if m.components.len() > 0 {
        lemma_component_start_lb(m, m.components.len() - 1);
    }
}

/// Shape constraints every built path satisfies.
pub open spec fn path_wf(p: &Path) -> bool {
    &&& p.min.in_range(POINT_MAX)
    &&& p.max.in_range(POINT_MAX)
    &&& p.min.x <= p.max.x
    &&& p.min.y <= p.max.y
    &&& p.points@.len() % 2 == 0
    &&& p.components@.len() % 2 == 0
    &&& p.points@.len() <= 131070
    &&& p.components@.len() <= 131070
}

/// The bounding box of the first `n` points, as `(min, max)`.
/// An empty range yields the zero box.
pub open spec fn bbox_of(pts: Seq<Vec2>, n: int) -> (Vec2, Vec2)
    decreases n,
{
    if n <= 0 {
        (Vec2 { x: 0, y: 0 }, Vec2 { x: 0, y: 0 })
    } else if n == 1 {
        (pts[0], pts[0])
    } else {
        let prev = bbox_of(pts, n - 1);
        (vec_min(prev.0, pts[n - 1]), vec_max(prev.1, pts[n - 1]))
    }
}

/// Denominator used for quantization: the axis extent, clamped so a
/// zero-extent axis does not divide by zero.
pub open spec fn clamp_span(span: int) -> int {
    if span <= 0 {
        1
    } else {
        span
    }
}

/// A coordinate quantized to an unsigned 16-bit fraction of `[lo, hi]`:
/// `round(65535 * (v - lo) / (hi - lo))`.
pub open spec fn quant(v: int, lo: int, hi: int) -> int {
    spec_round_div(65535 * (v - lo), clamp_span(hi - lo))
}

/// The quantized point list: two packed scalars per point, x then y.
pub open spec fn quant_points(pts: Seq<Vec2>, mn: Vec2, mx: Vec2) -> Seq<u16> {
    Seq::new(
        (2 * pts.len()) as nat,
        |k: int|
            if k % 2 == 0 {
                quant(pts[k / 2].x as int, mn.x as int, mx.x as int) as u16
            } else {
                quant(pts[k / 2].y as int, mn.y as int, mx.y as int) as u16
            },
    )
}

/// The quantized contour-range list: start and end index of each contour.
pub open spec fn quant_components(comps: Seq<(int, int)>) -> Seq<u16> {
    Seq::new(
        (2 * comps.len()) as nat,
        |k: int|
            if k % 2 == 0 {
                comps[k / 2].0 as u16
            } else {
                comps[k / 2].1 as u16
            },
    )
}

/// What `build` returns for a builder in state `m`.
pub open spec fn path_matches(p: Path, m: BuilderModel) -> bool {
    let bb = bbox_of(m.points, m.points.len() as int);
    &&& p.min == bb.0
    &&& p.max == bb.1
    &&& p.components@ == quant_components(m.components)
    &&& p.points@ == quant_points(m.points, bb.0, bb.1)
}

/// The bounding box of a prefix bounds every point of that prefix, is
/// ordered, and stays within the range of the points themselves.
pub proof fn lemma_bbox_bounds(pts: Seq<Vec2>, n: int)
    requires
        n <= pts.len(),
        forall|i: int| 0 <= i < pts.len() ==> (#[trigger] pts[i]).in_range(POINT_MAX),
    ensures
        bbox_of(pts, n).0.x <= bbox_of(pts, n).1.x,
        bbox_of(pts, n).0.y <= bbox_of(pts, n).1.y,
        bbox_of(pts, n).0.in_range(POINT_MAX),
        bbox_of(pts, n).1.in_range(POINT_MAX),
        forall|j: int|
            0 <= j < n ==> bbox_of(pts, n).0.x <= (#[trigger] pts[j]).x <= bbox_of(pts, n).1.x
                && bbox_of(pts, n).0.y <= pts[j].y <= bbox_of(pts, n).1.y,
    decreases n,
{
    if n > 1 {
        lemma_bbox_bounds(pts, n - 1);
    }
}

/// Contour `i` begins and ends on the same point.
pub open spec fn contour_closed(m: BuilderModel, i: int) -> bool {
    m.points[m.components[i].0] == m.points[m.components[i].1 - 1]
}

/// Closure invariant, first half: after `close`, the last contour's first
/// and last recorded points are equal.
pub proof fn lemma_close_closes(m: BuilderModel)
    requires
        builder_wf(m),
        m.components.len() > 0,
    ensures
        contour_closed(model_close(m), m.components.len() - 1),
{
    let k = m.components.len() - 1;
    let first = m.points[m.components[k as int].0];
    let last = m.points[m.components[k as int].1 - 1];
    if first != last {
        let m1 = model_add_point(m, first);
        let m2 = model_add_point(m1, first);
        assert(m2.components[k as int].1 == m.points.len() + 2);
        assert(m2.points[m2.components[k as int].0] == first);
        assert(m2.points[m2.components[k as int].1 - 1] == first);
    }
}

/// Closure invariant, second half: the builder is append-only and only the
/// last contour ever grows, so any earlier contour survives every further
/// command unchanged — in particular, once closed it stays closed.
pub proof fn lemma_command_preserves_closed(m: BuilderModel, c: PathCommand, i: int)
    requires
        builder_wf(m),
        0 <= i < m.components.len() - 1,
        contour_closed(m, i),
    ensures
        contour_closed(model_apply(m, c), i),
{
    lemma_apply_preserves_prefix(m, c, i);
}

/// Every command leaves the points and the non-last contours of the prior
/// state untouched.
pub proof fn lemma_apply_preserves_prefix(m: BuilderModel, c: PathCommand, i: int)
    requires
        builder_wf(m),
        0 <= i < m.components.len() - 1,
    ensures
        model_apply(m, c).components.len() >= m.components.len(),
        model_apply(m, c).components[i] == m.components[i],
        model_apply(m, c).points.len() >= m.points.len(),
        forall|j: int|
            0 <= j < m.points.len() ==> model_apply(m, c).points[j] == (#[trigger] m.points[j]),
{
    match c {
        PathCommand::MoveTo(_) => {
        },
        PathCommand::LineTo(_) => {
        },
        PathCommand::QuadraticTo(_, _) => {
        },
        PathCommand::CubicTo(c1, c2, p) => {
            let p1 = if m.points.len() == 0 {
                Vec2 { x: 0, y: 0 }
            } else {
                m.points.last()
            };
            let emit = cubic_emit(p1, c1, c2, p);
            lemma_model_add_seq_points(m, emit);
            lemma_add_seq_comps(m, emit, i);
            assert(forall|j: int|
                0 <= j < m.points.len() ==> (m.points + emit)[j] == (#[trigger] m.points[j]));
        },
        PathCommand::Close => {
        },
    }
}

proof fn lemma_add_seq_comps(m: BuilderModel, s: Seq<Vec2>, i: int)
    requires
        0 <= i < m.components.len() - 1,
    ensures
        model_add_seq(m, s).components.len() == m.components.len(),
        model_add_seq(m, s).components[i] == m.components[i],
    decreases s.len(),
{
    if s.len() > 0 {
        let m1 = model_add_point(m, s[0]);
        assert(m1.components.len() == m.components.len());
        assert(m1.components[i] == m.components[i]);
        lemma_add_seq_comps(m1, s.drop_first(), i);
    }
}

/// Quantization round trip: the dequantized value
/// `lo + q * (hi - lo) / 65535` lies within half a quantization step
/// (`(hi - lo) / (2 * 65535)`) of the original coordinate. Stated exactly,
/// scaled through by `2 * 65535` to stay in integers; a degenerate axis
/// (`hi == lo`) quantizes to zero and dequantizes exactly.
pub proof fn lemma_quant_round_trip(v: int, lo: int, hi: int)
    requires
        lo <= v <= hi,
        -POINT_MAX <= lo <= POINT_MAX,
        -POINT_MAX <= hi <= POINT_MAX,
    ensures
        hi > lo ==> -(hi - lo) <= 2 * (65535 * (v - lo) - quant(v, lo, hi) * (hi - lo)) <= hi
            - lo,
        hi == lo ==> quant(v, lo, hi) == 0 && v == lo,
{
    if hi > lo {
        lemma_round_div_close(65535 * (v - lo), hi - lo);
    } else {
        assert(65535 * (v - lo) == 0);
        assert(quant(v, lo, hi) == (0 + 1int) / 2);
    }
}

/// A quantized coordinate lies in `[0, 65535]`.
pub proof fn lemma_quant_range(v: int, lo: int, hi: int)
    requires
        lo <= v <= hi,
        -POINT_MAX <= lo <= POINT_MAX,
        -POINT_MAX <= hi <= POINT_MAX,
    ensures
        0 <= quant(v, lo, hi) <= 65535,
{
    let den = clamp_span(hi - lo);
    let num = 65535 * (v - lo);
    let q = spec_round_div(num, den);
    if hi == lo {
        assert(num == 0);
        assert(q == (0 + 1int) / 2);
    } else {
        assert(num <= 65535 * den);
        lemma_round_div_bound(num, den, 65535);
        lemma_round_div_close(num, den);
        assert(q >= 0) by (nonlinear_arith)
            requires
                den > 0,
                num >= 0,
                -den <= 2 * (num - q * den) <= den;
    }
}

} // verus!
