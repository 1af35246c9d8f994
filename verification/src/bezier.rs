//! The editor of a composite cubic Bezier curve.
//!
//! The curve is a row of points in groups of three. The points at the
//! indices 0, 3, 6, ... are anchors, through which the curve goes. The two
//! points between two anchors are the controls of the segment between them:
//! the first belongs to the anchor before it, the second to the anchor after
//! it. A curve holds no point, or one anchor more than it has segments.

use vstd::prelude::*;
use crate::geometry::all_on_plane;
use crate::geometry::Line;
use crate::geometry::Point;
use crate::geometry::Rgb;
use crate::geometry::POSITION_MAX;
use crate::number::div_floor;
use crate::number::UNIT;

verus! {

/// The number of lines that one segment of the curve is drawn with.
pub const STEPS: i64 = 50;

/// The width of the curve's lines, in thousandths.
pub const CURVE_WIDTH: i64 = 2000;

/// How far a control may lie from its anchor along each axis.
pub const REACH: i64 = 0x1_0000_0000;

/// The square of the distance between two points.
pub open spec fn distance_sq(a: Point, b: Point) -> int {
    (a.x - b.x) * (a.x - b.x) + (a.y - b.y) * (a.y - b.y)
}

/// Whether `b` lies within `reach` of `a` along each axis.
pub open spec fn near(a: Point, b: Point, reach: int) -> bool {
    -reach <= a.x - b.x <= reach && -reach <= a.y - b.y <= reach
}

/// Whether the index names an anchor.
pub open spec fn is_anchor(i: int) -> bool {
    i % 3 == 0
}

/// The index of the anchor that the point at `i` belongs to: itself for an
/// anchor, its neighbour for a control.
pub open spec fn anchor_of(i: int) -> int {
    if i % 3 == 1 {
        i - 1
    } else if i % 3 == 2 {
        i + 1
    } else {
        i
    }
}

/// Whether `points` can be the points of a curve.
pub open spec fn well_shaped(points: Seq<Point>) -> bool {
    &&& points.len() == 0 || points.len() % 3 == 1
    &&& forall|i: int|
        0 <= i < points.len() && is_anchor(i) ==> (#[trigger] points[i]).is_position()
    &&& forall|i: int|
        0 <= i < points.len() ==> near(#[trigger] points[i], points[anchor_of(i)], REACH as int)
}

/// The anchors of `points`, in order.
pub open spec fn anchors_of(points: Seq<Point>) -> Seq<Point> {
    Seq::new(((points.len() + 2) / 3) as nat, |k: int| points[3 * k])
}

/// Three tenths of the way from `a` to `b` along one axis, rounded down.
pub open spec fn three_tenths(a: int, b: int) -> int {
    (b - a) * 3 / 10
}

/// A quarter of the way from `a` to `b` along one axis, rounded down.
pub open spec fn quarter(a: int, b: int) -> int {
    (b - a) / 4
}

/// The point at index `i` of the smooth curve through `anchors`, of which
/// there are at least two.
///
/// An anchor stands at every third index. The control behind the first
/// anchor lies three tenths of the way to the second, and the control before
/// the last anchor three tenths of the way back to the one before it. The
/// two controls of an anchor in between lie to both sides of it, a quarter
/// of the way from its left neighbour to its right neighbour apart from it.
pub open spec fn smooth_point(anchors: Seq<Point>, i: int) -> Point {
    let last = 3 * (anchors.len() - 1);
    let k = i / 3;
    if i % 3 == 0 {
        anchors[k]
    } else if i == 1 {
        Point {
            x: (anchors[0].x + three_tenths(anchors[0].x as int, anchors[1].x as int)) as i64,
            y: (anchors[0].y + three_tenths(anchors[0].y as int, anchors[1].y as int)) as i64,
        }
    } else if i == last - 1 {
        Point {
            x: (anchors[k + 1].x - three_tenths(anchors[k].x as int, anchors[k + 1].x as int))
                as i64,
            y: (anchors[k + 1].y - three_tenths(anchors[k].y as int, anchors[k + 1].y as int))
                as i64,
        }
    } else if i % 3 == 1 {
        Point {
            x: (anchors[k].x + quarter(anchors[k - 1].x as int, anchors[k + 1].x as int)) as i64,
            y: (anchors[k].y + quarter(anchors[k - 1].y as int, anchors[k + 1].y as int)) as i64,
        }
    } else {
        Point {
            x: (anchors[k + 1].x - quarter(anchors[k].x as int, anchors[k + 2].x as int)) as i64,
            y: (anchors[k + 1].y - quarter(anchors[k].y as int, anchors[k + 2].y as int)) as i64,
        }
    }
}

/// The points of the smooth curve through `anchors`: a lone anchor for one,
/// nothing for none.
pub open spec fn smooth(anchors: Seq<Point>) -> Seq<Point> {
    if anchors.len() < 2 {
        anchors
    } else {
        Seq::new((3 * anchors.len() - 2) as nat, |i: int| smooth_point(anchors, i))
    }
}

/// The weighted sum of the cubic Bezier formula at the parameter `k / 50`
/// along one axis, all weights multiplied by `50 * 50 * 50`.
pub open spec fn weighted(p0: int, p1: int, p2: int, p3: int, k: int) -> int {
    let u = 50 - k;
    u * u * u * p0 + 3 * (u * u * k) * p1 + 3 * (u * k * k) * p2 + k * k * k * p3
}

/// The point of the cubic Bezier curve with the ends `p0`, `p3` and the
/// controls `p1`, `p2` at the parameter `k / 50`, rounded down.
pub open spec fn curve_point(p0: Point, p1: Point, p2: Point, p3: Point, k: int) -> Point {
    Point {
        x: (weighted(p0.x as int, p1.x as int, p2.x as int, p3.x as int, k) / 125000) as i64,
        y: (weighted(p0.y as int, p1.y as int, p2.y as int, p3.y as int, k) / 125000) as i64,
    }
}

/// The number of whole segments of `points`.
pub open spec fn segment_count(points: Seq<Point>) -> int {
    if points.len() < 4 {
        0
    } else {
        (points.len() - 1) / 3
    }
}

/// The point of segment `s` at the parameter `k / 50`.
pub open spec fn sample(points: Seq<Point>, s: int, k: int) -> Point {
    curve_point(points[3 * s], points[3 * s + 1], points[3 * s + 2], points[3 * s + 3], k)
}

/// The line at index `i` of the drawn curve: segment `i / 50`, from the
/// parameter `(i % 50) / 50` to the next.
pub open spec fn sampled_line(points: Seq<Point>, i: int) -> Line {
    Line {
        begin: sample(points, i / 50, i % 50),
        end: sample(points, i / 50, i % 50 + 1),
        width: CURVE_WIDTH,
        color: Rgb::black(),
    }
}

/// The drawn curve: fifty lines for each whole segment, in order.
pub open spec fn sampled(points: Seq<Point>) -> Seq<Line> {
    Seq::new((50 * segment_count(points)) as nat, |i: int| sampled_line(points, i))
}

/// A filled circle that marks a point of the curve.
#[derive(Clone, Copy, Debug, PartialEq, Eq, Structural)]
pub struct Marker {
    pub center: Point,
    /// The radius, in thousandths.
    pub radius: i64,
    pub color: Rgb,
}

/// The marker of the point at index `i`: light green for an anchor, light
/// red for a control.
pub open spec fn marker_of(points: Seq<Point>, i: int) -> Marker {
    Marker {
        center: points[i],
        radius: 4000,
        color: if is_anchor(i) {
            Rgb { r: 0x90, g: 0xEE, b: 0x90 }
        } else {
            Rgb { r: 255, g: 128, b: 128 }
        },
    }
}

/// The line of the control polygon from the point at `j` to the next: one
/// unit wide and light grey.
pub open spec fn polygon_line(points: Seq<Point>, j: int) -> Line {
    Line {
        begin: points[j],
        end: points[j + 1],
        width: UNIT,
        color: Rgb { r: 220, g: 220, b: 220 },
    }
}

/// The control polygon: a line from each point to the next.
pub open spec fn polygon(points: Seq<Point>) -> Seq<Line> {
    Seq::new(
        if points.len() == 0 {
            0nat
        } else {
            (points.len() - 1) as nat
        },
        |j: int| polygon_line(points, j),
    )
}

/// The index of the first of the three points that go when the anchor at
/// `index` is deleted from a curve of `len` points.
pub open spec fn removal_start(index: int, len: int) -> int {
    if index == 0 {
        0
    } else if index + 1 == len {
        index - 2
    } else {
        index - 1
    }
}

/// Whether `found` is the anchor of `points` nearest to `pos` among those
/// nearer than `r`, the first of them where several are equally near; or
/// `None` where no anchor is nearer than `r`.
pub open spec fn is_nearest(points: Seq<Point>, pos: Point, r: int, found: Option<usize>) -> bool {
    match found {
        Some(i) => {
            &&& i < points.len()
            &&& is_anchor(i as int)
            &&& distance_sq(points[i as int], pos) < r * r
            &&& forall|j: int|
                0 <= j < points.len() && is_anchor(j) ==> distance_sq(points[i as int], pos)
                    <= distance_sq(#[trigger] points[j], pos)
            &&& forall|j: int|
                0 <= j < i && is_anchor(j) ==> distance_sq(points[i as int], pos) < distance_sq(
                    #[trigger] points[j],
                    pos,
                )
        },
        None => forall|j: int|
            0 <= j < points.len() && is_anchor(j) ==> distance_sq(#[trigger] points[j], pos) >= r
                * r,
    }
}

/// `points` without the three points from `start` on.
pub open spec fn without(points: Seq<Point>, start: int) -> Seq<Point> {
    points.take(start) + points.skip(start + 3)
}

/// The anchor of `points` nearest to `pos` among those nearer than `r`, the
/// first of them where several are equally near.
pub open spec fn nearest(points: Seq<Point>, pos: Point, r: int) -> Option<usize> {
    choose|found: Option<usize>| is_nearest(points, pos, r, found)
}

/// The points after the deletion at `pos` within `r`: none where there were
/// fewer than four; else the points without the nearest anchor and the two
/// controls that go with it, or unchanged where no anchor is that near.
pub open spec fn after_delete(points: Seq<Point>, pos: Point, r: int) -> Seq<Point> {
    if points.len() < 4 {
        Seq::empty()
    } else {
        match nearest(points, pos, r) {
            None => points,
            Some(index) => without(points, removal_start(index as int, points.len() as int)),
        }
    }
}

/// There is one nearest anchor at most: what `is_nearest` holds of is what
/// `nearest` names.
pub proof fn lemma_nearest_unique(points: Seq<Point>, pos: Point, r: int, found: Option<usize>)
    requires
        is_nearest(points, pos, r, found),
    ensures
        nearest(points, pos, r) == found,
{
    let other = nearest(points, pos, r);
    assert(is_nearest(points, pos, r, other));
    match (found, other) {
        (Some(i), Some(j)) => {
            if i < j {
                assert(distance_sq(points[j as int], pos) < distance_sq(points[i as int], pos));
                assert(distance_sq(points[i as int], pos) <= distance_sq(points[j as int], pos));
            }
            if j < i {
                assert(distance_sq(points[i as int], pos) < distance_sq(points[j as int], pos));
                assert(distance_sq(points[j as int], pos) <= distance_sq(points[i as int], pos));
            }
        },
        (Some(i), None) => {
            assert(distance_sq(points[i as int], pos) >= r * r);
        },
        (None, Some(j)) => {
            assert(distance_sq(points[j as int], pos) >= r * r);
        },
        (None, None) => {},
    }
}

/// A well-shaped curve of four points or more stays well shaped when an
/// anchor goes with its two controls, and is three points shorter.
pub proof fn lemma_removal_shaped(points: Seq<Point>, index: int)
    requires
        well_shaped(points),
        points.len() >= 4,
        0 <= index < points.len(),
        is_anchor(index),
    ensures
        well_shaped(without(points, removal_start(index, points.len() as int))),
        without(points, removal_start(index, points.len() as int)).len() == points.len() - 3,
{
    let start = removal_start(index, points.len() as int);
    let after = without(points, start);
    assert(0 <= start && start + 3 <= points.len());
    assert(after.len() == points.len() - 3);
    assert forall|i: int| 0 <= i < after.len() implies near(
        #[trigger] after[i],
        after[anchor_of(i)],
        REACH as int,
    ) && (is_anchor(i) ==> after[i].is_position()) by {
        let a = anchor_of(i);
        let src = if i < start {
            i
        } else {
            i + 3
        };
        let asrc = if a < start {
            a
        } else {
            a + 3
        };
        assert(0 <= a < after.len());
        assert(after[i] == points[src]);
        assert(after[a] == points[asrc]);
        assert(asrc == anchor_of(src));
        assert(near(points[src], points[anchor_of(src)], REACH as int));
        if is_anchor(i) {
            assert(is_anchor(src));
            assert(points[src].is_position());
        }
    }
}

/// The points after the point at `index` was moved to `to`: an anchor takes
/// its two controls along by the same step, a control moves alone.
pub open spec fn moved(points: Seq<Point>, index: int, to: Point) -> Seq<Point> {
    Seq::new(
        points.len(),
        |i: int|
            if i == index {
                to
            } else if is_anchor(index) && (i == index - 1 || i == index + 1) {
                Point {
                    x: (points[i].x + (to.x - points[index].x)) as i64,
                    y: (points[i].y + (to.y - points[index].y)) as i64,
                }
            } else {
                points[i]
            },
    )
}

proof fn lemma_weights(k: int)
    requires
        0 <= k <= 50,
    ensures
        0 <= (50 - k) * (50 - k) * (50 - k) <= 125000,
        0 <= (50 - k) * (50 - k) * k <= 125000,
        0 <= (50 - k) * k * k <= 125000,
        0 <= k * k * k <= 125000,
        (50 - k) * (50 - k) * (50 - k) + 3 * ((50 - k) * (50 - k) * k) + 3 * ((50 - k) * k * k) + k
            * k * k == 125000,
{
    let u = 50 - k;
    assert(0 <= u * u <= 2500 && 0 <= k * k <= 2500 && 0 <= u * k <= 2500) by (nonlinear_arith)
        requires
            0 <= k <= 50,
            u == 50 - k,
    ;
    assert(0 <= u * u * u <= 125000) by (nonlinear_arith)
        requires
            0 <= u <= 50,
            0 <= u * u <= 2500,
    ;
    assert(0 <= u * u * k <= 125000) by (nonlinear_arith)
        requires
            0 <= k <= 50,
            0 <= u * u <= 2500,
    ;
    assert(0 <= u * k * k <= 125000) by (nonlinear_arith)
        requires
            0 <= k <= 50,
            0 <= u * k <= 2500,
            u * k * k == (u * k) * k,
    ;
    assert(0 <= k * k * k <= 125000) by (nonlinear_arith)
        requires
            0 <= k <= 50,
            0 <= k * k <= 2500,
    ;
    assert(u * u * u + 3 * (u * u * k) + 3 * (u * k * k) + k * k * k == 125000)
        by (nonlinear_arith)
        requires
            u + k == 50,
    ;
}

proof fn lemma_term(w: int, p: int, bound: int, most: int)
    requires
        0 <= w <= most,
        -bound <= p <= bound,
    ensures
        -(w * bound) <= w * p <= w * bound,
        -(most * bound) <= w * p <= most * bound,
{
    assert(-(w * bound) <= w * p <= w * bound) by (nonlinear_arith)
        requires
            0 <= w,
            -bound <= p <= bound,
    ;
    assert(w * bound <= most * bound) by (nonlinear_arith)
        requires
            0 <= w <= most,
            0 <= bound,
    ;
}

/// A point of the curve lies no further from the origin than the farthest
/// of its four points.
pub proof fn lemma_weighted_bound(p0: int, p1: int, p2: int, p3: int, k: int, bound: int)
    requires
        0 <= k <= 50,
        -bound <= p0 <= bound,
        -bound <= p1 <= bound,
        -bound <= p2 <= bound,
        -bound <= p3 <= bound,
    ensures
        -125000 * bound <= weighted(p0, p1, p2, p3, k) <= 125000 * bound,
        -bound <= weighted(p0, p1, p2, p3, k) / 125000 <= bound,
        k == 0 ==> weighted(p0, p1, p2, p3, k) / 125000 == p0,
        k == 50 ==> weighted(p0, p1, p2, p3, k) / 125000 == p3,
{
    lemma_weights(k);
    let u = 50 - k;
    let w0 = u * u * u;
    let w1 = 3 * (u * u * k);
    let w2 = 3 * (u * k * k);
    let w3 = k * k * k;
    lemma_term(w0, p0, bound, 125000);
    lemma_term(w1, p1, bound, 375000);
    lemma_term(w2, p2, bound, 375000);
    lemma_term(w3, p3, bound, 125000);
    assert(w0 * bound + w1 * bound + w2 * bound + w3 * bound == 125000 * bound)
        by (nonlinear_arith)
        requires
            w0 + w1 + w2 + w3 == 125000,
    ;
    assert(weighted(p0, p1, p2, p3, k) == w0 * p0 + w1 * p1 + w2 * p2 + w3 * p3);
    if k == 0 {
        assert(w0 == 125000 && w1 == 0 && w2 == 0 && w3 == 0);
        assert(weighted(p0, p1, p2, p3, k) == 125000 * p0);
    }
    if k == 50 {
        assert(w0 == 0 && w1 == 0 && w2 == 0 && w3 == 125000);
        assert(weighted(p0, p1, p2, p3, k) == 125000 * p3);
    }
}

/// The points of a well-shaped curve lie within three times `POSITION_MAX`.
pub proof fn lemma_points_bounded(points: Seq<Point>, i: int)
    requires
        well_shaped(points),
        0 <= i < points.len(),
    ensures
        points[i].within(3 * POSITION_MAX),
        0 <= anchor_of(i) < points.len(),
        is_anchor(anchor_of(i)),
{
    let a = anchor_of(i);
    assert(points[a].is_position());
    assert(near(points[i], points[a], REACH as int));
}

fn blend(p0: i64, p1: i64, p2: i64, p3: i64, k: i64) -> (r: i64)
    requires
        0 <= k <= 50,
        -3 * POSITION_MAX <= p0 <= 3 * POSITION_MAX,
        -3 * POSITION_MAX <= p1 <= 3 * POSITION_MAX,
        -3 * POSITION_MAX <= p2 <= 3 * POSITION_MAX,
        -3 * POSITION_MAX <= p3 <= 3 * POSITION_MAX,
    ensures
        r == weighted(p0 as int, p1 as int, p2 as int, p3 as int, k as int) / 125000,
        -3 * POSITION_MAX <= r <= 3 * POSITION_MAX,
{
    let u: i64 = 50 - k;
    proof {
        lemma_weights(k as int);
        lemma_weighted_bound(
            p0 as int,
            p1 as int,
            p2 as int,
            p3 as int,
            k as int,
            3 * POSITION_MAX,
        );
    }
    assert(0 <= u * u <= 2500 && 0 <= k * k <= 2500 && 0 <= u * k <= 2500) by (nonlinear_arith)
        requires
            0 <= k <= 50,
            u == 50 - k,
    ;
    assert(u * k * k == (u * k) * k) by (nonlinear_arith);
    let w0: i64 = u * u * u;
    let w1: i64 = 3 * (u * u * k);
    let w2: i64 = 3 * (u * k * k);
    let w3: i64 = k * k * k;
    proof {
        lemma_term(w0 as int, p0 as int, 3 * POSITION_MAX, 125000);
        lemma_term(w1 as int, p1 as int, 3 * POSITION_MAX, 375000);
        lemma_term(w2 as int, p2 as int, 3 * POSITION_MAX, 375000);
        lemma_term(w3 as int, p3 as int, 3 * POSITION_MAX, 125000);
        assert(weighted(p0 as int, p1 as int, p2 as int, p3 as int, k as int) == w0 * p0 + w1 * p1
            + w2 * p2 + w3 * p3);
    }
    let t0: i128 = (w0 as i128) * (p0 as i128);
    let t1: i128 = (w1 as i128) * (p1 as i128);
    let t2: i128 = (w2 as i128) * (p2 as i128);
    let t3: i128 = (w3 as i128) * (p3 as i128);
    let sum: i128 = t0 + t1 + t2 + t3;
    div_floor(sum, 125000) as i64
}

fn bezier_point(p0: Point, p1: Point, p2: Point, p3: Point, k: i64) -> (r: Point)
    requires
        0 <= k <= 50,
        p0.within(3 * POSITION_MAX),
        p1.within(3 * POSITION_MAX),
        p2.within(3 * POSITION_MAX),
        p3.within(3 * POSITION_MAX),
    ensures
        r == curve_point(p0, p1, p2, p3, k as int),
        r.within(3 * POSITION_MAX),
{
    Point { x: blend(p0.x, p1.x, p2.x, p3.x, k), y: blend(p0.y, p1.y, p2.y, p3.y, k) }
}

fn scaled_step(a: i64, b: i64) -> (r: i64)
    requires
        -POSITION_MAX <= a <= POSITION_MAX,
        -POSITION_MAX <= b <= POSITION_MAX,
    ensures
        r == three_tenths(a as int, b as int),
        -REACH <= r <= REACH,
{
    div_floor(((b - a) * 3) as i128, 10) as i64
}

fn quarter_step(a: i64, b: i64) -> (r: i64)
    requires
        -POSITION_MAX <= a <= POSITION_MAX,
        -POSITION_MAX <= b <= POSITION_MAX,
    ensures
        r == quarter(a as int, b as int),
        -REACH <= r <= REACH,
{
    div_floor((b - a) as i128, 4) as i64
}

/// Takes the three points from `start` on out of `points`.
fn remove_three(points: &mut Vec<Point>, start: usize)
    requires
        start + 3 <= old(points).len(),
    ensures
        final(points)@ == without(old(points)@, start as int),
{
    points.remove(start);
    points.remove(start);
    points.remove(start);
    assert(points@ =~= without(old(points)@, start as int));
}

/// A composite cubic Bezier curve under editing, with the lines that draw
/// it.
pub struct BezierCurve {
    points: Vec<Point>,
    lines: Vec<Line>,
}

impl BezierCurve {
    /// The points of the curve, anchors and controls.
    pub closed spec fn points_view(&self) -> Seq<Point> {
        self.points@
    }

    /// The lines that draw the curve.
    pub closed spec fn lines_view(&self) -> Seq<Line> {
        self.lines@
    }

    /// The points are well shaped, and the lines draw the curve as it is.
    pub open spec fn wf(&self) -> bool {
        &&& well_shaped(self.points_view())
        &&& self.lines_view() == sampled(self.points_view())
    }

    /// The curve without a point.
    pub fn new() -> (c: BezierCurve)
        ensures
            c.wf(),
            c.points_view().len() == 0,
            c.lines_view().len() == 0,
    {
        let c = BezierCurve { points: Vec::new(), lines: Vec::new() };
        assert(c.lines@ == sampled(c.points@));
        c
    }

    /// The points of the curve.
    pub fn points(&self) -> (p: &Vec<Point>)
        ensures
            p@ == self.points_view(),
    {
        &self.points
    }

    /// The lines that draw the curve.
    pub fn lines(&self) -> (l: &Vec<Line>)
        ensures
            l@ == self.lines_view(),
    {
        &self.lines
    }

    /// The marks to draw on the points, in the order of the points.
    pub fn draw_points(&self) -> (r: Vec<Marker>)
        ensures
            r.len() == self.points_view().len(),
            forall|i: int| 0 <= i < r.len() ==> #[trigger] r[i] == marker_of(self.points_view(), i),
    {
        let mut r: Vec<Marker> = Vec::new();
        let mut i: usize = 0;
        while i < self.points.len()
            invariant
                i <= self.points.len(),
                r.len() == i,
                forall|j: int| 0 <= j < i ==> #[trigger] r[j] == marker_of(self.points@, j),
            decreases self.points.len() - i,
        {
            let color = if i % 3 == 0 {
                Rgb { r: 0x90, g: 0xEE, b: 0x90 }
            } else {
                Rgb { r: 255, g: 128, b: 128 }
            };
            r.push(Marker { center: self.points[i], radius: 4000, color });
            i += 1;
        }
        r
    }

    /// The lines to draw: the control polygon, then the curve.
    pub fn draw(&self) -> (r: Vec<Line>)
        ensures
            r@ == polygon(self.points_view()) + self.lines_view(),
    {
        let mut r: Vec<Line> = Vec::new();
        let mut j: usize = 0;
        while j + 1 < self.points.len()
            invariant
                j < self.points.len() || self.points.len() == 0 && j == 0,
                r.len() == j,
                forall|k: int| 0 <= k < j ==> #[trigger] r[k] == polygon_line(self.points@, k),
            decreases self.points.len() - j,
        {
            r.push(
                Line {
                    begin: self.points[j],
                    end: self.points[j + 1],
                    width: UNIT,
                    color: Rgb { r: 220, g: 220, b: 220 },
                },
            );
            j += 1;
        }
        assert(r@ =~= polygon(self.points@));
        let ghost first = r@;
        let mut i: usize = 0;
        while i < self.lines.len()
            invariant
                i <= self.lines.len(),
                r@ == first + self.lines@.take(i as int),
            decreases self.lines.len() - i,
        {
            r.push(self.lines[i]);
            assert(self.lines@.take(i + 1) == self.lines@.take(i as int).push(self.lines@[i as int]));
            i += 1;
        }
        assert(self.lines@.take(self.lines.len() as int) == self.lines@);
        r
    }

    /// The anchor nearest to `pos` among those nearer than `r`, the first of
    /// them where several are equally near.
    pub fn nearest_anchor_index(&self, pos: Point, r: i64) -> (found: Option<usize>)
        requires
            self.wf(),
            pos.is_position(),
        ensures
            is_nearest(self.points_view(), pos, r as int, found),
    {
        let mut best: Option<usize> = None;
        assert(-0x4000_0000_0000_0000_0000_0000_0000_0000 <= (r as int) * (r as int)
            <= 0x4000_0000_0000_0000_0000_0000_0000_0000) by (nonlinear_arith)
            requires
                -0x8000_0000_0000_0000 <= r <= 0x8000_0000_0000_0000,
        ;
        let mut best_d2: i128 = (r as i128) * (r as i128);
        let mut i: usize = 0;
        while i < self.points.len()
            invariant
                i <= self.points.len() + 2,
                i % 3 == 0,
                self.wf(),
                pos.is_position(),
                best_d2 <= r * r,
                match best {
                    Some(b) => {
                        &&& b < i
                        &&& b < self.points.len()
                        &&& is_anchor(b as int)
                        &&& best_d2 == distance_sq(self.points@[b as int], pos)
                        &&& best_d2 < r * r
                        &&& forall|j: int|
                            0 <= j < b && is_anchor(j) ==> best_d2 < distance_sq(
                                #[trigger] self.points@[j],
                                pos,
                            )
                    },
                    None => best_d2 == r * r,
                },
                forall|j: int|
                    0 <= j < i && j < self.points.len() && is_anchor(j) ==> best_d2 <= distance_sq(
                        #[trigger] self.points@[j],
                        pos,
                    ),
            decreases self.points.len() + 2 - i,
        {
            let p = self.points[i];
            assert(p.is_position());
            let dx: i128 = p.x as i128 - pos.x as i128;
            let dy: i128 = p.y as i128 - pos.y as i128;
            assert(0 <= dx * dx <= 0x1_0000_0000_0000_0000_0000 && 0 <= dy * dy
                <= 0x1_0000_0000_0000_0000_0000) by (nonlinear_arith)
                requires
                    -0x2_0000_0000 <= dx <= 0x2_0000_0000,
                    -0x2_0000_0000 <= dy <= 0x2_0000_0000,
            ;
            let d2: i128 = dx * dx + dy * dy;
            if d2 < best_d2 {
                best_d2 = d2;
                best = Some(i);
            }
            i += 3;
        }
        best
    }

    /// Draws the curve anew from its points: fifty lines for each whole
    /// segment. Every change of the points does this by itself.
    pub fn update(&mut self)
        requires
            well_shaped(old(self).points_view()),
        ensures
            final(self).points_view() == old(self).points_view(),
            final(self).lines_view() == sampled(final(self).points_view()),
    {
        let mut lines: Vec<Line> = Vec::new();
        if self.points.len() >= 4 {
            let count: usize = (self.points.len() - 1) / 3;
            let mut s: usize = 0;
            while s < count
                invariant
                    s <= count,
                    count == segment_count(self.points@),
                    self.points.len() >= 4,
                    well_shaped(self.points@),
                    lines.len() == 50 * s,
                    forall|i: int|
                        0 <= i < lines.len() ==> #[trigger] lines[i] == sampled_line(
                            self.points@,
                            i,
                        ),
                decreases count - s,
            {
                let p0 = self.points[3 * s];
                let p1 = self.points[3 * s + 1];
                let p2 = self.points[3 * s + 2];
                let p3 = self.points[3 * s + 3];
                proof {
                    lemma_points_bounded(self.points@, 3 * s);
                    lemma_points_bounded(self.points@, 3 * s + 1);
                    lemma_points_bounded(self.points@, 3 * s + 2);
                    lemma_points_bounded(self.points@, 3 * s + 3);
                }
                let mut prev = bezier_point(p0, p1, p2, p3, 0);
                let mut k: i64 = 0;
                while k < 50
                    invariant
                        0 <= k <= 50,
                        s < count,
                        count == segment_count(self.points@),
                        self.points.len() >= 4,
                        p0 == self.points@[3 * s],
                        p1 == self.points@[3 * s + 1],
                        p2 == self.points@[3 * s + 2],
                        p3 == self.points@[3 * s + 3],
                        p0.within(3 * POSITION_MAX),
                        p1.within(3 * POSITION_MAX),
                        p2.within(3 * POSITION_MAX),
                        p3.within(3 * POSITION_MAX),
                        prev == sample(self.points@, s as int, k as int),
                        lines.len() == 50 * s + k,
                        forall|i: int|
                            0 <= i < lines.len() ==> #[trigger] lines[i] == sampled_line(
                                self.points@,
                                i,
                            ),
                    decreases 50 - k,
                {
                    let cur = bezier_point(p0, p1, p2, p3, k + 1);
                    let ghost i = lines.len() as int;
                    assert(i / 50 == s && i % 50 == k);
                    lines.push(
                        Line {
                            begin: prev,
                            end: cur,
                            width: CURVE_WIDTH,
                            color: Rgb { r: 0, g: 0, b: 0 },
                        },
                    );
                    prev = cur;
                    k += 1;
                }
                s += 1;
            }
        }
        assert(lines@ =~= sampled(self.points@));
        self.lines = lines;
    }

    /// Sets every control anew from the anchors, so that the curve goes
    /// smoothly through them.
    fn calculate_control_points(&mut self)
        requires
            old(self).points.len() >= 4,
            old(self).points.len() % 3 == 1,
            forall|i: int|
                0 <= i < old(self).points.len() && is_anchor(i) ==> (#[trigger] old(
                    self,
                ).points@[i]).is_position(),
        ensures
            final(self).points@ == smooth(anchors_of(old(self).points@)),
            final(self).lines@ == old(self).lines@,
            well_shaped(final(self).points@),
    {
        let ghost anchors = anchors_of(self.points@);
        let ghost before = self.points@;
        let n: usize = self.points.len();
        let mut i: usize = 3;
        while i < n - 3
            invariant
                3 <= i <= n - 1,
                i % 3 == 0,
                n == self.points.len(),
                n >= 4,
                n % 3 == 1,
                self.lines@ == old(self).lines@,
                anchors == anchors_of(before),
                before.len() == n,
                forall|j: int| 0 <= j < n && is_anchor(j) ==> (#[trigger] before[j]).is_position(),
                forall|j: int|
                    0 <= j < n && is_anchor(j) ==> #[trigger] self.points@[j] == before[j],
                forall|j: int|
                    2 <= j < i - 1 && !is_anchor(j) ==> #[trigger] self.points@[j] == smooth_point(
                        anchors,
                        j,
                    ),
            decreases n - i,
        {
            assert(is_anchor(i - 3) && is_anchor(i as int) && is_anchor(i + 3));
            assert(before[i - 3].is_position() && before[i as int].is_position() && before[i
                + 3].is_position());
            let prev_anchor = self.points[i - 3];
            let curr_anchor = self.points[i];
            let next_anchor = self.points[i + 3];
            assert(prev_anchor == before[i - 3] && curr_anchor == before[i as int] && next_anchor
                == before[i + 3]);
            let tx = quarter_step(prev_anchor.x, next_anchor.x);
            let ty = quarter_step(prev_anchor.y, next_anchor.y);
            proof {
                let k = i as int / 3;
                assert(anchors[k - 1] == before[3 * (k - 1)]);
                assert(anchors[k] == before[3 * k]);
                assert(anchors[k + 1] == before[3 * (k + 1)]);
                assert((i - 1) / 3 == k - 1 && (i + 1) / 3 == k);
            }
            self.points.set(i - 1, Point { x: curr_anchor.x - tx, y: curr_anchor.y - ty });
            self.points.set(i + 1, Point { x: curr_anchor.x + tx, y: curr_anchor.y + ty });
            i += 3;
        }
        assert(is_anchor(0) && is_anchor(3) && is_anchor(n - 1) && is_anchor(n - 4));
        assert(before[0].is_position() && before[3].is_position() && before[n - 1].is_position()
            && before[n - 4].is_position());
        let first_anchor = self.points[0];
        let second_anchor = self.points[3];
        let last_anchor = self.points[n - 1];
        let prev_anchor = self.points[n - 4];
        assert(first_anchor == before[0] && second_anchor == before[3] && last_anchor == before[n
            - 1] && prev_anchor == before[n - 4]);
        proof {
            let m = anchors.len() as int - 1;
            assert(3 * m == n - 1);
            assert(anchors[0] == before[0]);
            assert(anchors[1] == before[3]);
            assert(anchors[m] == before[3 * m]);
            assert(anchors[m - 1] == before[3 * (m - 1)]);
            assert((n - 2) / 3 == m - 1);
        }
        let fx = scaled_step(first_anchor.x, second_anchor.x);
        let fy = scaled_step(first_anchor.y, second_anchor.y);
        self.points.set(1, Point { x: first_anchor.x + fx, y: first_anchor.y + fy });
        let lx = scaled_step(prev_anchor.x, last_anchor.x);
        let ly = scaled_step(prev_anchor.y, last_anchor.y);
        self.points.set(n - 2, Point { x: last_anchor.x - lx, y: last_anchor.y - ly });
        proof {
            let target = smooth(anchors);
            assert(target.len() == n);
            assert forall|j: int| 0 <= j < n implies self.points@[j] == target[j] by {
                if is_anchor(j) {
                    assert(anchors[j / 3] == before[3 * (j / 3)]);
                } else if j == 1 || j == n - 2 {
                } else {
                    assert(2 <= j < n - 2);
                }
            }
            assert(self.points@ =~= target);
            lemma_smooth_shaped(anchors);
        }
    }

    /// Appends an anchor at `click_pos`.
    ///
    /// The first point of a curve stands alone. Every further point adds a
    /// segment, after which all controls are set anew from the anchors.
    pub fn add_point(&mut self, click_pos: Point)
        requires
            old(self).wf(),
            click_pos.is_position(),
        ensures
            final(self).wf(),
            final(self).points_view() == smooth(
                anchors_of(old(self).points_view()).push(click_pos),
            ),
            final(self).points_view().len() == if old(self).points_view().len() == 0 {
                1
            } else {
                old(self).points_view().len() + 3
            },
    {
        let ghost before = self.points@;
        let n = self.points.len();
        if n == 0 {
            self.points.push(click_pos);
            assert(anchors_of(before).push(click_pos) =~= seq![click_pos]);
            assert(self.points@ =~= seq![click_pos]);
            assert(near(click_pos, click_pos, REACH as int));
        } else {
            let last_anchor = self.points[n - 1];
            assert(before[n - 1].is_position());
            let ox = scaled_step(last_anchor.x, click_pos.x);
            let oy = scaled_step(last_anchor.y, click_pos.y);
            self.points.push(Point { x: last_anchor.x + ox, y: last_anchor.y + oy });
            self.points.push(Point { x: click_pos.x - ox, y: click_pos.y - oy });
            self.points.push(click_pos);
            assert forall|i: int| 0 <= i < self.points.len() && is_anchor(i) implies (
            #[trigger] self.points@[i]).is_position() by {
                if i < n {
                    assert(self.points@[i] == before[i]);
                }
            }
            assert(anchors_of(self.points@) =~= anchors_of(before).push(click_pos)) by {
                let a = anchors_of(self.points@);
                let b = anchors_of(before).push(click_pos);
                assert(a.len() == b.len());
                assert forall|k: int| 0 <= k < a.len() implies a[k] == b[k] by {
                    if 3 * k < n {
                        assert(self.points@[3 * k] == before[3 * k]);
                    }
                }
            }
            self.calculate_control_points();
        }
        self.update();
    }

    /// Deletes the anchor nearest to `pos` among those nearer than `r`,
    /// together with the two controls beside it.
    ///
    /// A curve of fewer than four points is cleared instead. Where no anchor
    /// is that near, nothing changes. Of the first anchor the two controls
    /// behind it go with it, of the last the two before it, of an anchor in
    /// between the one before and the one behind.
    pub fn delete_point(&mut self, pos: Point, r: i64)
        requires
            old(self).wf(),
            pos.is_position(),
        ensures
            final(self).wf(),
            final(self).points_view() == after_delete(old(self).points_view(), pos, r as int),
            final(self).points_view().len() == if old(self).points_view().len() < 4 {
                0
            } else if nearest(old(self).points_view(), pos, r as int) is Some {
                old(self).points_view().len() - 3
            } else {
                old(self).points_view().len() as int
            },
    {
        if self.points.len() < 4 {
            self.clear();
            assert(self.points@ =~= Seq::<Point>::empty());
            return ;
        }
        let found = self.nearest_anchor_index(pos, r);
        proof {
            lemma_nearest_unique(self.points@, pos, r as int, found);
        }
        match found {
            None => {},
            Some(index) => {
                let ghost before = self.points@;
                let n = self.points.len();
                let start: usize = if index == 0 {
                    0
                } else if index + 1 == n {
                    index - 2
                } else {
                    index - 1
                };
                remove_three(&mut self.points, start);
                proof {
                    lemma_removal_shaped(before, index as int);
                }
                self.update();
            },
        }
    }

    /// Moves the point at `index` to `new_pos`. An anchor takes its two
    /// controls along by the same step; a control moves alone. An index
    /// beyond the points changes nothing.
    pub fn move_point(&mut self, index: usize, new_pos: Point)
        requires
            old(self).wf(),
            new_pos.is_position(),
        ensures
            final(self).wf(),
            index >= old(self).points_view().len() ==> final(self).points_view() == old(
                self,
            ).points_view(),
            index < old(self).points_view().len() ==> final(self).points_view() == moved(
                old(self).points_view(),
                index as int,
                new_pos,
            ),
    {
        if index >= self.points.len() {
            return ;
        }
        let ghost before = self.points@;
        let old_pos = self.points[index];
        proof {
            lemma_points_bounded(before, index as int);
        }
        let dx: i64 = new_pos.x - old_pos.x;
        let dy: i64 = new_pos.y - old_pos.y;
        self.points.set(index, new_pos);
        if index % 3 == 0 {
            if index > 0 {
                let c = self.points[index - 1];
                proof {
                    lemma_points_bounded(before, index - 1);
                    assert(near(before[index - 1], before[anchor_of(index - 1)], REACH as int));
                }
                self.points.set(index - 1, Point { x: c.x + dx, y: c.y + dy });
            }
            if index + 1 < self.points.len() {
                let c = self.points[index + 1];
                proof {
                    lemma_points_bounded(before, index + 1);
                    assert(near(before[index + 1], before[anchor_of(index + 1)], REACH as int));
                }
                self.points.set(index + 1, Point { x: c.x + dx, y: c.y + dy });
            }
        }
        assert(self.points@ =~= moved(before, index as int, new_pos));
        assert(well_shaped(self.points@)) by {
            let after = self.points@;
            assert forall|i: int| 0 <= i < after.len() implies near(
                #[trigger] after[i],
                after[anchor_of(i)],
                REACH as int,
            ) && (is_anchor(i) ==> after[i].is_position()) by {
                let a = anchor_of(i);
                assert(0 <= a < after.len());
                assert(near(before[i], before[a], REACH as int));
                assert(before[a].is_position());
            }
        }
        self.update();
    }

    /// Takes all points and lines away.
    pub fn clear(&mut self)
        ensures
            final(self).wf(),
            final(self).points_view().len() == 0,
            final(self).lines_view().len() == 0,
    {
        self.points.clear();
        self.lines.clear();
        assert(self.lines@ =~= sampled(self.points@));
    }
}

impl Default for BezierCurve {
    /// The curve without a point.
    fn default() -> (c: BezierCurve)
        ensures
            c.wf(),
            c.points_view().len() == 0,
            c.lines_view().len() == 0,
    {
        BezierCurve::new()
    }
}

/// The smooth curve through anchors goes through them: its anchors are the
/// given ones.
pub proof fn lemma_smooth_anchors(anchors: Seq<Point>)
    ensures
        anchors_of(smooth(anchors)) == anchors,
{
    let points = smooth(anchors);
    let back = anchors_of(points);
    assert(back.len() == anchors.len());
    assert forall|k: int| 0 <= k < anchors.len() implies back[k] == anchors[k] by {
        if anchors.len() >= 2 {
            assert(points[3 * k] == smooth_point(anchors, 3 * k));
            assert((3 * k) / 3 == k);
        }
    }
    assert(back =~= anchors);
}

/// The lines that draw a well-shaped curve lie on the plane, each within
/// three times `POSITION_MAX` of the origin.
pub proof fn lemma_sampled_on_plane(points: Seq<Point>)
    requires
        well_shaped(points),
    ensures
        all_on_plane(sampled(points)),
        all_on_plane(polygon(points)),
{
    let lines = sampled(points);
    assert forall|i: int| 0 <= i < lines.len() implies (#[trigger] lines[i]).on_plane() by {
        let s = i / 50;
        let k = i % 50;
        assert(points.len() >= 4);
        assert(0 <= s && 3 * s + 3 < points.len());
        lemma_points_bounded(points, 3 * s);
        lemma_points_bounded(points, 3 * s + 1);
        lemma_points_bounded(points, 3 * s + 2);
        lemma_points_bounded(points, 3 * s + 3);
        let p0 = points[3 * s];
        let p1 = points[3 * s + 1];
        let p2 = points[3 * s + 2];
        let p3 = points[3 * s + 3];
        lemma_weighted_bound(p0.x as int, p1.x as int, p2.x as int, p3.x as int, k, 3 * POSITION_MAX);
        lemma_weighted_bound(p0.y as int, p1.y as int, p2.y as int, p3.y as int, k, 3 * POSITION_MAX);
        lemma_weighted_bound(
            p0.x as int,
            p1.x as int,
            p2.x as int,
            p3.x as int,
            k + 1,
            3 * POSITION_MAX,
        );
        lemma_weighted_bound(
            p0.y as int,
            p1.y as int,
            p2.y as int,
            p3.y as int,
            k + 1,
            3 * POSITION_MAX,
        );
    }
    let sides = polygon(points);
    assert forall|j: int| 0 <= j < sides.len() implies (#[trigger] sides[j]).on_plane() by {
        lemma_points_bounded(points, j);
        lemma_points_bounded(points, j + 1);
    }
}

/// The smooth curve through anchors that are positions is well shaped.
pub proof fn lemma_smooth_shaped(anchors: Seq<Point>)
    requires
        anchors.len() >= 2,
        forall|k: int| 0 <= k < anchors.len() ==> (#[trigger] anchors[k]).is_position(),
    ensures
        well_shaped(smooth(anchors)),
{
    let points = smooth(anchors);
    let last = 3 * (anchors.len() - 1);
    assert forall|i: int| 0 <= i < points.len() implies near(
        #[trigger] points[i],
        points[anchor_of(i)],
        REACH as int,
    ) && (is_anchor(i) ==> points[i].is_position()) by {
        let k = i / 3;
        let a = anchor_of(i);
        assert(0 <= a < points.len());
        assert(points[a] == anchors[a / 3]);
        assert(anchors[k].is_position());
        if i % 3 != 0 {
            assert(anchors[k + 1].is_position());
            if i % 3 == 1 && i != 1 {
                assert(anchors[k - 1].is_position());
            }
            if i % 3 == 2 && i != last - 1 {
                assert(anchors[k + 2].is_position());
            }
        }
    }
}

} // verus!
