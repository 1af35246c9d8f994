//! Points, colours, line segments and rectangles on an integer plane.
//!
//! Coordinates count thousandths of a unit. Positions that come from outside
//! (a click, a viewport corner) lie within `POSITION_MAX` of the origin; what
//! the engines derive from them stays within `PLANE_MAX`.

use vstd::prelude::*;
use vstd::arithmetic::div_mod::lemma_div_is_ordered;
use vstd::arithmetic::div_mod::lemma_hoist_over_denominator;
use crate::number::div_floor;
use crate::number::UNIT;

verus! {

/// The largest magnitude of a coordinate handed to an engine.
pub const POSITION_MAX: i64 = 0x8000_0000;

/// The largest magnitude of a coordinate that an engine produces.
pub const PLANE_MAX: i64 = 0x1_0000_0000_0000;

/// A point of the plane, by its coordinates in thousandths.
#[derive(Clone, Copy, Debug, PartialEq, Eq, Structural)]
pub struct Point {
    pub x: i64,
    pub y: i64,
}

impl Point {
    /// Whether both coordinates lie within `bound` of zero.
    pub open spec fn within(self, bound: int) -> bool {
        &&& -bound <= self.x <= bound
        &&& -bound <= self.y <= bound
    }

    /// Whether the point may be handed to an engine.
    pub open spec fn is_position(self) -> bool {
        self.within(POSITION_MAX as int)
    }

    /// Whether the point lies on the plane that the engines draw on.
    pub open spec fn on_plane(self) -> bool {
        self.within(PLANE_MAX as int)
    }

    /// The point `(x, y)`.
    pub fn new(x: i64, y: i64) -> (p: Point)
        ensures
            p.x == x,
            p.y == y,
    {
        Point { x, y }
    }

    /// Tests `is_position`.
    pub fn check_position(&self) -> (ok: bool)
        ensures
            ok == self.is_position(),
    {
        -POSITION_MAX <= self.x && self.x <= POSITION_MAX && -POSITION_MAX <= self.y && self.y
            <= POSITION_MAX
    }
}

/// A colour by its red, green and blue channels.
#[derive(Clone, Copy, Debug, PartialEq, Eq, Structural)]
pub struct Rgb {
    pub r: u8,
    pub g: u8,
    pub b: u8,
}

impl Rgb {
    /// Black: no red, no green, no blue.
    pub open spec fn black() -> Rgb {
        Rgb { r: 0, g: 0, b: 0 }
    }
}

/// A line segment to draw.
#[derive(Clone, Copy, Debug, PartialEq, Eq, Structural)]
pub struct Line {
    pub begin: Point,
    pub end: Point,
    pub width: i64,
    pub color: Rgb,
}

impl Line {
    /// Whether both ends lie on the plane.
    pub open spec fn on_plane(self) -> bool {
        self.begin.on_plane() && self.end.on_plane()
    }
}

impl Default for Line {
    /// The line from the origin to the origin, without width, black.
    fn default() -> (l: Line)
        ensures
            l == (Line {
                begin: Point { x: 0, y: 0 },
                end: Point { x: 0, y: 0 },
                width: 0,
                color: Rgb::black(),
            }),
    {
        Line {
            begin: Point { x: 0, y: 0 },
            end: Point { x: 0, y: 0 },
            width: 0,
            color: Rgb { r: 0, g: 0, b: 0 },
        }
    }
}

/// Whether every line of `lines` lies on the plane.
pub open spec fn all_on_plane(lines: Seq<Line>) -> bool {
    forall|i: int| 0 <= i < lines.len() ==> (#[trigger] lines[i]).on_plane()
}

/// Tests `all_on_plane`.
pub fn check_on_plane(lines: &Vec<Line>) -> (ok: bool)
    ensures
        ok == all_on_plane(lines@),
{
    let mut i: usize = 0;
    while i < lines.len()
        invariant
            i <= lines.len(),
            forall|j: int| 0 <= j < i ==> (#[trigger] lines@[j]).on_plane(),
        decreases lines.len() - i,
    {
        let l = lines[i];
        if !(-PLANE_MAX <= l.begin.x && l.begin.x <= PLANE_MAX && -PLANE_MAX <= l.begin.y
            && l.begin.y <= PLANE_MAX && -PLANE_MAX <= l.end.x && l.end.x <= PLANE_MAX
            && -PLANE_MAX <= l.end.y && l.end.y <= PLANE_MAX) {
            assert(!lines@[i as int].on_plane());
            return false;
        }
        i += 1;
    }
    true
}

/// An axis-parallel rectangle by its corners of least and greatest coordinates.
#[derive(Clone, Copy, Debug, PartialEq, Eq, Structural)]
pub struct Rect {
    pub min: Point,
    pub max: Point,
}

impl Rect {
    /// Whether the rectangle can be a viewport: its corners are positions
    /// and the least corner is not beyond the greatest.
    pub open spec fn is_viewport(self) -> bool {
        &&& self.min.is_position()
        &&& self.max.is_position()
        &&& self.min.x <= self.max.x
        &&& self.min.y <= self.max.y
    }

    /// Whether the rectangle can bound a drawing: its corners lie on the
    /// plane, or beyond it by no more than a unit, and it has a width and a
    /// height.
    pub open spec fn is_box(self) -> bool {
        &&& self.min.within(PLANE_MAX + UNIT)
        &&& self.max.within(PLANE_MAX + UNIT)
        &&& self.min.x < self.max.x
        &&& self.min.y < self.max.y
    }

    /// Tests `is_viewport`.
    pub fn check_viewport(&self) -> (ok: bool)
        ensures
            ok == self.is_viewport(),
    {
        self.min.check_position() && self.max.check_position() && self.min.x <= self.max.x
            && self.min.y <= self.max.y
    }

    /// Tests `leaves_room`: whether `margin` is not negative and twice it is
    /// no more than the width and the height of this viewport.
    pub fn check_room(&self, margin: i64) -> (ok: bool)
        requires
            self.is_viewport(),
        ensures
            ok == leaves_room(*self, margin as int),
    {
        0 <= margin && margin <= POSITION_MAX && 2 * margin <= self.max.x - self.min.x && 2
            * margin <= self.max.y - self.min.y
    }

    /// Whether the point `(x, y)` lies in the rectangle, the border included.
    pub open spec fn holds(self, x: int, y: int) -> bool {
        self.min.x <= x <= self.max.x && self.min.y <= y <= self.max.y
    }

    /// Whether both ends of `line` lie in the rectangle.
    pub open spec fn encloses(self, line: Line) -> bool {
        self.holds(line.begin.x as int, line.begin.y as int) && self.holds(
            line.end.x as int,
            line.end.y as int,
        )
    }
}

/// The smaller of two numbers.
pub open spec fn least(a: int, b: int) -> int {
    if a <= b {
        a
    } else {
        b
    }
}

/// The greater of two numbers.
pub open spec fn greatest(a: int, b: int) -> int {
    if a >= b {
        a
    } else {
        b
    }
}

/// The smallest rectangle that holds both ends of `line`.
pub open spec fn span(line: Line) -> Rect {
    Rect {
        min: Point {
            x: least(line.begin.x as int, line.end.x as int) as i64,
            y: least(line.begin.y as int, line.end.y as int) as i64,
        },
        max: Point {
            x: greatest(line.begin.x as int, line.end.x as int) as i64,
            y: greatest(line.begin.y as int, line.end.y as int) as i64,
        },
    }
}

/// The smallest rectangle that holds both `a` and `b`.
pub open spec fn join(a: Rect, b: Rect) -> Rect {
    Rect {
        min: Point {
            x: least(a.min.x as int, b.min.x as int) as i64,
            y: least(a.min.y as int, b.min.y as int) as i64,
        },
        max: Point {
            x: greatest(a.max.x as int, b.max.x as int) as i64,
            y: greatest(a.max.y as int, b.max.y as int) as i64,
        },
    }
}

/// The smallest rectangle that holds every line of `lines`, which is not
/// empty.
pub open spec fn extent(lines: Seq<Line>) -> Rect
    decreases lines.len(),
{
    if lines.len() <= 1 {
        span(lines.last())
    } else {
        join(extent(lines.drop_last()), span(lines.last()))
    }
}

/// `r` with one unit added to its width where it has none, and to its height
/// where it has none.
pub open spec fn widened(r: Rect) -> Rect {
    Rect {
        min: r.min,
        max: Point {
            x: if r.min.x == r.max.x {
                (r.max.x + UNIT) as i64
            } else {
                r.max.x
            },
            y: if r.min.y == r.max.y {
                (r.max.y + UNIT) as i64
            } else {
                r.max.y
            },
        },
    }
}

/// The rectangle around a drawing: none for no lines, else the extent of the
/// lines, widened where it is flat.
pub open spec fn bounding_rect(lines: Seq<Line>) -> Option<Rect> {
    if lines.len() == 0 {
        None
    } else {
        Some(widened(extent(lines)))
    }
}

/// The extent of lines on the plane lies on the plane, is no smaller than
/// any of them, and is no larger than needed: each of its four sides goes
/// through an end of some line.
pub proof fn lemma_extent(lines: Seq<Line>)
    requires
        lines.len() > 0,
        all_on_plane(lines),
    ensures
        extent(lines).min.on_plane(),
        extent(lines).max.on_plane(),
        extent(lines).min.x <= extent(lines).max.x,
        extent(lines).min.y <= extent(lines).max.y,
        forall|i: int| 0 <= i < lines.len() ==> extent(lines).encloses(#[trigger] lines[i]),
        exists|i: int|
            0 <= i < lines.len() && span(#[trigger] lines[i]).min.x == extent(lines).min.x,
        exists|i: int|
            0 <= i < lines.len() && span(#[trigger] lines[i]).min.y == extent(lines).min.y,
        exists|i: int|
            0 <= i < lines.len() && span(#[trigger] lines[i]).max.x == extent(lines).max.x,
        exists|i: int|
            0 <= i < lines.len() && span(#[trigger] lines[i]).max.y == extent(lines).max.y,
    decreases lines.len(),
{
    let last = lines.last();
    assert(last.on_plane());
    if lines.len() <= 1 {
        assert(lines[0] == last);
    } else {
        let rest = lines.drop_last();
        assert(all_on_plane(rest)) by {
            assert forall|i: int| 0 <= i < rest.len() implies (#[trigger] rest[i]).on_plane() by {
                assert(rest[i] == lines[i]);
            }
        }
        lemma_extent(rest);
        let e = extent(lines);
        let er = extent(rest);
        assert forall|i: int| 0 <= i < lines.len() implies e.encloses(#[trigger] lines[i]) by {
            if i < rest.len() {
                assert(rest[i] == lines[i]);
                assert(er.encloses(rest[i]));
            }
        }
        let n = lines.len() - 1;
        let i0 = choose|i: int| 0 <= i < rest.len() && span(#[trigger] rest[i]).min.x == er.min.x;
        let i1 = choose|i: int| 0 <= i < rest.len() && span(#[trigger] rest[i]).min.y == er.min.y;
        let i2 = choose|i: int| 0 <= i < rest.len() && span(#[trigger] rest[i]).max.x == er.max.x;
        let i3 = choose|i: int| 0 <= i < rest.len() && span(#[trigger] rest[i]).max.y == er.max.y;
        assert(rest[i0] == lines[i0] && rest[i1] == lines[i1] && rest[i2] == lines[i2] && rest[i3]
            == lines[i3]);
        let k0 = if e.min.x == er.min.x {
            i0
        } else {
            n
        };
        let k1 = if e.min.y == er.min.y {
            i1
        } else {
            n
        };
        let k2 = if e.max.x == er.max.x {
            i2
        } else {
            n
        };
        let k3 = if e.max.y == er.max.y {
            i3
        } else {
            n
        };
        assert(span(lines[k0]).min.x == e.min.x);
        assert(span(lines[k1]).min.y == e.min.y);
        assert(span(lines[k2]).max.x == e.max.x);
        assert(span(lines[k3]).max.y == e.max.y);
    }
}

fn lesser(a: i64, b: i64) -> (r: i64)
    ensures
        r == least(a as int, b as int),
{
    if a <= b {
        a
    } else {
        b
    }
}

fn greater(a: i64, b: i64) -> (r: i64)
    ensures
        r == greatest(a as int, b as int),
{
    if a >= b {
        a
    } else {
        b
    }
}

/// The rectangle around `lines`.
///
/// `None` for no lines. Else the smallest rectangle that holds every line,
/// made one unit wide where all lines stand on one vertical, and one unit
/// high where all lie on one horizontal.
pub fn find_rect(lines: &Vec<Line>) -> (r: Option<Rect>)
    requires
        all_on_plane(lines@),
    ensures
        r == bounding_rect(lines@),
        r matches Some(b) ==> b.is_box() && forall|i: int|
            0 <= i < lines.len() ==> b.encloses(#[trigger] lines[i]),
{
    if lines.len() == 0 {
        return None;
    }
    let first = lines[0];
    let mut min = Point { x: lesser(first.begin.x, first.end.x), y: lesser(first.begin.y, first.end.y) };
    let mut max = Point {
        x: greater(first.begin.x, first.end.x),
        y: greater(first.begin.y, first.end.y),
    };
    let mut i: usize = 1;
    assert(lines@.take(1).last() == first);
    while i < lines.len()
        invariant
            1 <= i <= lines.len(),
            all_on_plane(lines@),
            (Rect { min, max }) == extent(lines@.take(i as int)),
        decreases lines.len() - i,
    {
        let line = lines[i];
        proof {
            let t = lines@.take(i + 1);
            assert(t.drop_last() == lines@.take(i as int));
            assert(t.last() == line);
        }
        min = Point {
                x: lesser(min.x, lesser(line.begin.x, line.end.x)),
                y: lesser(min.y, lesser(line.begin.y, line.end.y)),
            };
        max = Point {
                x: greater(max.x, greater(line.begin.x, line.end.x)),
                y: greater(max.y, greater(line.begin.y, line.end.y)),
            };
        i += 1;
    }
    proof {
        assert(lines@.take(lines.len() as int) == lines@);
        lemma_extent(lines@);
    }
    if min.x == max.x {
        max.x = max.x + UNIT;
    }
    if min.y == max.y {
        max.y = max.y + UNIT;
    }
    Some(Rect { min, max })
}

/// The largest magnitude of a shift that a transform may hold.
pub const OFFSET_MAX: i128 = 0x10_0000_0000_0000_0000_0000_0000;

/// A uniform scaling by a ratio followed by a shift. A coordinate is scaled
/// by multiplying with the ratio's numerator and dividing by its
/// denominator, rounding down.
#[derive(Clone, Copy, Debug)]
pub struct Transform2D {
    num: i64,
    den: i64,
    dx: i128,
    dy: i128,
}

impl Transform2D {
    /// The numerator of the scale.
    pub closed spec fn num(&self) -> int {
        self.num as int
    }

    /// The denominator of the scale.
    pub closed spec fn den(&self) -> int {
        self.den as int
    }

    /// The shift along x.
    pub closed spec fn dx(&self) -> int {
        self.dx as int
    }

    /// The shift along y.
    pub closed spec fn dy(&self) -> int {
        self.dy as int
    }

    /// The denominator is positive and the shift within `OFFSET_MAX`.
    pub open spec fn wf(&self) -> bool {
        &&& self.den() > 0
        &&& -OFFSET_MAX <= self.dx() <= OFFSET_MAX
        &&& -OFFSET_MAX <= self.dy() <= OFFSET_MAX
    }

    /// Where the transform takes the point `p`.
    pub open spec fn image(&self, p: (int, int)) -> (int, int) {
        (p.0 * self.num() / self.den() + self.dx(), p.1 * self.num() / self.den() + self.dy())
    }

    /// The scaling by `num / den`, the same along both axes.
    pub fn uniform_scaling(num: i64, den: i64) -> (t: Transform2D)
        requires
            den > 0,
        ensures
            t.wf(),
            t.num() == num,
            t.den() == den,
            t.dx() == 0,
            t.dy() == 0,
    {
        Transform2D { num, den, dx: 0, dy: 0 }
    }

    /// The shift by `(dx, dy)`.
    pub fn translation(dx: i128, dy: i128) -> (t: Transform2D)
        requires
            -OFFSET_MAX <= dx <= OFFSET_MAX,
            -OFFSET_MAX <= dy <= OFFSET_MAX,
        ensures
            t.wf(),
            t.num() == 1,
            t.den() == 1,
            t.dx() == dx,
            t.dy() == dy,
    {
        Transform2D { num: 1, den: 1, dx, dy }
    }

    fn apply_wide(&self, x: i64) -> (r: i128)
        requires
            self.wf(),
        ensures
            r == x * self.num() / self.den(),
            -0x4000_0000_0000_0000_0000_0000_0000_0000 <= r
                <= 0x4000_0000_0000_0000_0000_0000_0000_0000,
    {
        let n: i128 = self.num as i128;
        let wide: i128 = x as i128;
        assert(-0x4000_0000_0000_0000_0000_0000_0000_0000 <= wide * n
            <= 0x4000_0000_0000_0000_0000_0000_0000_0000) by (nonlinear_arith)
            requires
                -0x8000_0000_0000_0000 <= wide <= 0x8000_0000_0000_0000,
                -0x8000_0000_0000_0000 <= n <= 0x8000_0000_0000_0000,
        ;
        let product: i128 = wide * n;
        let d: i128 = self.den as i128;
        proof {
            lemma_div_is_ordered(product as int, 0x4000_0000_0000_0000_0000_0000_0000_0000, d as int);
            lemma_div_is_ordered(-0x4000_0000_0000_0000_0000_0000_0000_0000, product as int, d as int);
            lemma_quotient_small(0x4000_0000_0000_0000_0000_0000_0000_0000, d as int);
        }
        div_floor(product, d)
    }

    /// Where the transform takes `p`, or `None` where that is off the plane.
    pub fn apply_to_pos(&self, p: Point) -> (r: Option<Point>)
        requires
            self.wf(),
        ensures
            r is Some <==> -PLANE_MAX <= self.image((p.x as int, p.y as int)).0 <= PLANE_MAX
                && -PLANE_MAX <= self.image((p.x as int, p.y as int)).1 <= PLANE_MAX,
            r matches Some(q) ==> (q.x as int, q.y as int) == self.image((p.x as int, p.y as int)),
    {
        let x: i128 = self.apply_wide(p.x) + self.dx;
        let y: i128 = self.apply_wide(p.y) + self.dy;
        if x < -(PLANE_MAX as i128) || x > PLANE_MAX as i128 || y < -(PLANE_MAX as i128) || y
            > PLANE_MAX as i128 {
            None
        } else {
            Some(Point { x: x as i64, y: y as i64 })
        }
    }
}

proof fn lemma_quotient_small(x: int, d: int)
    requires
        x >= 0,
        d > 0,
    ensures
        0 <= x / d <= x,
        -x <= (-x) / d <= 0,
{
    assert(0 <= x / d <= x) by (nonlinear_arith)
        requires
            x >= 0,
            d > 0,
    ;
    assert(-x <= (-x) / d <= 0) by (nonlinear_arith)
        requires
            x >= 0,
            d > 0,
    ;
}

/// The scale that fits `draw` into `screen` with `margin` left free on every
/// side, as numerator and denominator: the smaller of the two ratios of free
/// width to drawn width and of free height to drawn height.
pub open spec fn fit_scale(screen: Rect, draw: Rect, margin: int) -> (int, int) {
    let a = screen.max.x - screen.min.x - 2 * margin;
    let b = screen.max.y - screen.min.y - 2 * margin;
    let w = draw.max.x - draw.min.x;
    let h = draw.max.y - draw.min.y;
    if a * h <= b * w {
        (a, w)
    } else {
        (b, h)
    }
}

/// The shift that brings the centre of the scaled `draw` to the centre of
/// `screen`.
pub open spec fn fit_shift(screen: Rect, draw: Rect, margin: int) -> (int, int) {
    let (n, d) = fit_scale(screen, draw, margin);
    (
        (screen.min.x + screen.max.x) / 2 - (draw.min.x * n / d + draw.max.x * n / d) / 2,
        (screen.min.y + screen.max.y) / 2 - (draw.min.y * n / d + draw.max.y * n / d) / 2,
    )
}

/// Where the fit of `draw` into `screen` takes the point `p`: scaled, then
/// shifted.
pub open spec fn fit_image(screen: Rect, draw: Rect, margin: int, p: (int, int)) -> (int, int) {
    let (n, d) = fit_scale(screen, draw, margin);
    let s = fit_shift(screen, draw, margin);
    (p.0 * n / d + s.0, p.1 * n / d + s.1)
}

proof fn lemma_scale_ordered(x: int, y: int, n: int, d: int)
    requires
        x <= y,
        n >= 0,
        d > 0,
    ensures
        x * n / d <= y * n / d,
{
    assert(x * n <= y * n) by (nonlinear_arith)
        requires
            x <= y,
            n >= 0,
    ;
    lemma_div_is_ordered(x * n, y * n, d);
}

proof fn lemma_scaled_span(lo: int, hi: int, n: int, d: int, cap: int)
    requires
        lo <= hi,
        n >= 0,
        d > 0,
        (hi - lo) * n <= cap * d,
    ensures
        0 <= hi * n / d - lo * n / d <= cap,
{
    lemma_scale_ordered(lo, hi, n, d);
    assert(hi * n == lo * n + (hi - lo) * n) by (nonlinear_arith);
    lemma_div_is_ordered(hi * n, lo * n + cap * d, d);
    lemma_hoist_over_denominator(lo * n, cap, d as nat);
}

/// A drawing fitted into a viewport lies within the viewport's margin.
///
/// Where the margin leaves room in the viewport, the fit takes every point
/// of the drawing's rectangle, its corners among them, to a point that keeps
/// at least the margin from every side of the viewport. Both axes are scaled
/// by the one ratio `fit_scale`.
pub proof fn lemma_fit_lands(screen: Rect, draw: Rect, margin: int, p: (int, int))
    requires
        screen.is_viewport(),
        draw.is_box(),
        0 <= margin,
        2 * margin <= screen.max.x - screen.min.x,
        2 * margin <= screen.max.y - screen.min.y,
        draw.holds(p.0, p.1),
    ensures
        screen.min.x + margin <= fit_image(screen, draw, margin, p).0 <= screen.max.x - margin,
        screen.min.y + margin <= fit_image(screen, draw, margin, p).1 <= screen.max.y - margin,
{
    let a = screen.max.x - screen.min.x - 2 * margin;
    let b = screen.max.y - screen.min.y - 2 * margin;
    let w = draw.max.x - draw.min.x;
    let h = draw.max.y - draw.min.y;
    let (n, d) = fit_scale(screen, draw, margin);
    assert(n >= 0 && d > 0);
    assert(w * n <= a * d && h * n <= b * d) by (nonlinear_arith)
        requires
            w > 0,
            h > 0,
            a >= 0,
            b >= 0,
            (n == a && d == w && a * h <= b * w) || (n == b && d == h && a * h > b * w),
    ;
    lemma_scaled_span(draw.min.x as int, draw.max.x as int, n, d, a);
    lemma_scaled_span(draw.min.y as int, draw.max.y as int, n, d, b);
    lemma_scale_ordered(draw.min.x as int, p.0, n, d);
    lemma_scale_ordered(p.0, draw.max.x as int, n, d);
    lemma_scale_ordered(draw.min.y as int, p.1, n, d);
    lemma_scale_ordered(p.1, draw.max.y as int, n, d);
}

/// The transforms that fit `draw_rect` into `screen_rect` with `margin` left
/// free on every side: first the scaling, then the shift.
pub fn get_transform_to_fullscreen(screen_rect: Rect, draw_rect: Rect, margin: i64) -> (r: (
    Transform2D,
    Transform2D,
))
    requires
        screen_rect.is_viewport(),
        draw_rect.is_box(),
        -POSITION_MAX <= margin <= POSITION_MAX,
    ensures
        r.0.wf(),
        r.1.wf(),
        (r.0.num(), r.0.den()) == fit_scale(screen_rect, draw_rect, margin as int),
        r.0.dx() == 0 && r.0.dy() == 0,
        r.1.num() == 1 && r.1.den() == 1,
        (r.1.dx(), r.1.dy()) == fit_shift(screen_rect, draw_rect, margin as int),
        forall|p: (int, int)|
            r.1.image(#[trigger] r.0.image(p)) == fit_image(
                screen_rect,
                draw_rect,
                margin as int,
                p,
            ),
{
    let a: i64 = screen_rect.max.x - screen_rect.min.x - 2 * margin;
    let b: i64 = screen_rect.max.y - screen_rect.min.y - 2 * margin;
    let w: i64 = draw_rect.max.x - draw_rect.min.x;
    let h: i64 = draw_rect.max.y - draw_rect.min.y;
    assert(-0x1_0000_0000_0000_0000_0000_0000 <= (a as int) * (h as int)
        <= 0x1_0000_0000_0000_0000_0000_0000) by (nonlinear_arith)
        requires
            -0x4_0000_0000 <= a <= 0x4_0000_0000,
            0 < h <= 0x4_0000_0000_0000,
    ;
    assert(-0x1_0000_0000_0000_0000_0000_0000 <= (b as int) * (w as int)
        <= 0x1_0000_0000_0000_0000_0000_0000) by (nonlinear_arith)
        requires
            -0x4_0000_0000 <= b <= 0x4_0000_0000,
            0 < w <= 0x4_0000_0000_0000,
    ;
    let (n, d) = if (a as i128) * (h as i128) <= (b as i128) * (w as i128) {
        (a, w)
    } else {
        (b, h)
    };
    let scale = Transform2D::uniform_scaling(n, d);
    let x0 = scale.apply_wide(draw_rect.min.x);
    let x1 = scale.apply_wide(draw_rect.max.x);
    let y0 = scale.apply_wide(draw_rect.min.y);
    let y1 = scale.apply_wide(draw_rect.max.y);
    proof {
        lemma_scaled_bound(draw_rect.min.x as int, n as int, d as int);
        lemma_scaled_bound(draw_rect.max.x as int, n as int, d as int);
        lemma_scaled_bound(draw_rect.min.y as int, n as int, d as int);
        lemma_scaled_bound(draw_rect.max.y as int, n as int, d as int);
    }
    let cx: i128 = div_floor(screen_rect.min.x as i128 + screen_rect.max.x as i128, 2);
    let cy: i128 = div_floor(screen_rect.min.y as i128 + screen_rect.max.y as i128, 2);
    let sx: i128 = div_floor(x0 + x1, 2);
    let sy: i128 = div_floor(y0 + y1, 2);
    let shift = Transform2D::translation(cx - sx, cy - sy);
    assert forall|p: (int, int)|
        shift.image(#[trigger] scale.image(p)) == fit_image(
            screen_rect,
            draw_rect,
            margin as int,
            p,
        ) by {
        let q = scale.image(p);
        assert(q.0 * 1 / 1 == q.0);
        assert(q.1 * 1 / 1 == q.1);
    }
    (scale, shift)
}

proof fn lemma_scaled_bound(x: int, n: int, d: int)
    requires
        -0x2_0000_0000_0000 <= x <= 0x2_0000_0000_0000,
        -0x4_0000_0000_0000 <= n <= 0x4_0000_0000_0000,
        d > 0,
    ensures
        -0x8_0000_0000_0000_0000_0000_0000 <= x * n / d <= 0x8_0000_0000_0000_0000_0000_0000,
{
    assert(-0x8_0000_0000_0000_0000_0000_0000 <= x * n <= 0x8_0000_0000_0000_0000_0000_0000)
        by (nonlinear_arith)
        requires
            -0x2_0000_0000_0000 <= x <= 0x2_0000_0000_0000,
            -0x4_0000_0000_0000 <= n <= 0x4_0000_0000_0000,
    ;
    lemma_div_is_ordered(x * n, 0x8_0000_0000_0000_0000_0000_0000, d);
    lemma_div_is_ordered(-0x8_0000_0000_0000_0000_0000_0000, x * n, d);
    lemma_quotient_small(0x8_0000_0000_0000_0000_0000_0000, d);
}

/// Whether `margin` leaves room in `area`: it is not negative and twice it
/// is no more than the width and the height.
pub open spec fn leaves_room(area: Rect, margin: int) -> bool {
    &&& 0 <= margin
    &&& 2 * margin <= area.max.x - area.min.x
    &&& 2 * margin <= area.max.y - area.min.y
}

/// `p` fitted from `draw` into `area`.
pub open spec fn fitted_point(area: Rect, draw: Rect, margin: int, p: Point) -> Point {
    Point {
        x: fit_image(area, draw, margin, (p.x as int, p.y as int)).0 as i64,
        y: fit_image(area, draw, margin, (p.x as int, p.y as int)).1 as i64,
    }
}

/// `line` fitted from `draw` into `area`: its ends moved, its width and
/// colour kept.
pub open spec fn fitted_line(area: Rect, draw: Rect, margin: int, line: Line) -> Line {
    Line {
        begin: fitted_point(area, draw, margin, line.begin),
        end: fitted_point(area, draw, margin, line.end),
        width: line.width,
        color: line.color,
    }
}

fn fit_point(scale: &Transform2D, shift: &Transform2D, p: Point, Ghost(area): Ghost<Rect>, Ghost(
    draw,
): Ghost<Rect>, Ghost(margin): Ghost<int>) -> (q: Point)
    requires
        scale.wf(),
        shift.wf(),
        area.is_viewport(),
        draw.is_box(),
        leaves_room(area, margin),
        draw.holds(p.x as int, p.y as int),
        (scale.num(), scale.den()) == fit_scale(area, draw, margin),
        (shift.dx(), shift.dy()) == fit_shift(area, draw, margin),
    ensures
        q == fitted_point(area, draw, margin, p),
        area.holds(q.x as int, q.y as int),
        area.min.x + margin <= q.x <= area.max.x - margin,
        area.min.y + margin <= q.y <= area.max.y - margin,
{
    proof {
        lemma_fit_lands(area, draw, margin, (p.x as int, p.y as int));
    }
    let x: i128 = scale.apply_wide(p.x) + shift.dx;
    let y: i128 = scale.apply_wide(p.y) + shift.dy;
    Point { x: x as i64, y: y as i64 }
}

/// Fits a drawing into `area` with `margin` left free on every side.
///
/// Returns the lines in their order, each scaled and shifted by the fit of
/// the drawing's rectangle into `area`; no lines for no lines. Every line
/// that comes back lies in `area` and keeps the margin.
pub fn draw_lines(lines: &Vec<Line>, area: Rect, margin: i64) -> (r: Vec<Line>)
    requires
        all_on_plane(lines@),
        area.is_viewport(),
        leaves_room(area, margin as int),
    ensures
        r.len() == lines.len(),
        forall|i: int|
            0 <= i < r.len() ==> #[trigger] r[i] == fitted_line(
                area,
                bounding_rect(lines@)->0,
                margin as int,
                lines[i],
            ),
        forall|i: int|
            0 <= i < r.len() ==> (Rect {
                min: Point { x: (area.min.x + margin) as i64, y: (area.min.y + margin) as i64 },
                max: Point { x: (area.max.x - margin) as i64, y: (area.max.y - margin) as i64 },
            }).encloses(#[trigger] r[i]),
{
    let mut r: Vec<Line> = Vec::new();
    let draw = match find_rect(lines) {
        None => {
            return r;
        },
        Some(d) => d,
    };
    proof {
        lemma_extent(lines@);
    }
    let (scale, shift) = get_transform_to_fullscreen(area, draw, margin);
    let mut i: usize = 0;
    while i < lines.len()
        invariant
            i <= lines.len(),
            r.len() == i,
            scale.wf(),
            shift.wf(),
            area.is_viewport(),
            draw.is_box(),
            leaves_room(area, margin as int),
            Some(draw) == bounding_rect(lines@),
            forall|j: int| 0 <= j < lines.len() ==> draw.encloses(#[trigger] lines[j]),
            (scale.num(), scale.den()) == fit_scale(area, draw, margin as int),
            (shift.dx(), shift.dy()) == fit_shift(area, draw, margin as int),
            forall|j: int|
                0 <= j < i ==> #[trigger] r[j] == fitted_line(area, draw, margin as int, lines[j]),
            forall|j: int|
                0 <= j < i ==> (Rect {
                    min: Point {
                        x: (area.min.x + margin) as i64,
                        y: (area.min.y + margin) as i64,
                    },
                    max: Point {
                        x: (area.max.x - margin) as i64,
                        y: (area.max.y - margin) as i64,
                    },
                }).encloses(#[trigger] r[j]),
        decreases lines.len() - i,
    {
        let line = lines[i];
        assert(draw.encloses(lines[i as int]));
        let begin = fit_point(&scale, &shift, line.begin, Ghost(area), Ghost(draw), Ghost(margin as int));
        let end = fit_point(&scale, &shift, line.end, Ghost(area), Ghost(draw), Ghost(margin as int));
        r.push(Line { begin, end, width: line.width, color: line.color });
        i += 1;
    }
    r
}

} // verus!
