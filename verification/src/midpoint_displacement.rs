//! The midpoint-displacement engine: a line that is split again and again at
//! its middle, the middle moved up or down at random.

use vstd::prelude::*;
use crate::geometry::all_on_plane;
use crate::geometry::bounding_rect;
use crate::geometry::draw_lines;
use crate::geometry::find_rect;
use crate::geometry::fitted_line;
use crate::geometry::leaves_room;
use crate::geometry::Line;
use crate::geometry::Point;
use crate::geometry::Rect;
use crate::geometry::Rgb;
use crate::geometry::POSITION_MAX;
use crate::number::div_floor;
use crate::number::UNIT;
use crate::random::draw_between;
use crate::random::seeded;

verus! {

/// The largest roughness, in thousandths.
pub const ROUGHNESS_MAX: i64 = 1_000_000;

/// The largest number of iterations.
pub const ITERATIONS_MAX: u32 = 20;

/// The most that one split can move a middle, in thousandths.
pub const OFFSET_LIMIT: i64 = 0x400_0000_0000;

/// Two to the power `n`.
pub open spec fn power_of_two(n: nat) -> nat
    decreases n,
{
    if n == 0 {
        1
    } else {
        2 * power_of_two((n - 1) as nat)
    }
}

/// The magnitude of `v`.
pub open spec fn magnitude(v: int) -> int {
    if v < 0 {
        -v
    } else {
        v
    }
}

/// The most that the split of `line` may move its middle at this roughness:
/// the roughness times the line's horizontal span.
pub open spec fn play(line: Line, roughness: int) -> int {
    roughness * magnitude(line.end.x - line.begin.x) / (UNIT as int)
}

/// Whether `left` and `right` are a split of `parent` at this roughness.
///
/// They meet at a middle point, begin and end where the parent does, and
/// have its width and colour. The middle lies halfway along x; along y it
/// lies no further from halfway than `play` allows.
pub open spec fn is_split(parent: Line, roughness: int, left: Line, right: Line) -> bool {
    let middle = left.end;
    &&& left.begin == parent.begin
    &&& right.begin == middle
    &&& right.end == parent.end
    &&& left.width == parent.width && right.width == parent.width
    &&& left.color == parent.color && right.color == parent.color
    &&& middle.x == (parent.begin.x + parent.end.x) / 2
    &&& magnitude(middle.y - (parent.begin.y + parent.end.y) / 2) <= play(parent, roughness)
}

/// Whether the lines `after` are the lines `before` with each split in two,
/// in order.
pub open spec fn splits(before: Seq<Line>, roughness: int, after: Seq<Line>) -> bool {
    &&& after.len() == 2 * before.len()
    &&& forall|i: int|
        0 <= i < before.len() ==> is_split(
            #[trigger] before[i],
            roughness,
            after[2 * i],
            after[2 * i + 1],
        )
}

/// Whether `lines` can come from the one line `base` by `n` rounds of
/// splitting every line.
pub open spec fn grown(base: Line, roughness: int, n: nat, lines: Seq<Line>) -> bool
    decreases n,
{
    if n == 0 {
        lines == seq![base]
    } else {
        exists|before: Seq<Line>|
            grown(base, roughness, (n - 1) as nat, before) && #[trigger] splits(
                before,
                roughness,
                lines,
            )
    }
}

/// After `n` rounds of splitting there are two to the power `n` lines.
pub proof fn lemma_grown_count(base: Line, roughness: int, n: nat, lines: Seq<Line>)
    requires
        grown(base, roughness, n, lines),
    ensures
        lines.len() == power_of_two(n),
    decreases n,
{
    if n > 0 {
        let before = choose|before: Seq<Line>|
            grown(base, roughness, (n - 1) as nat, before) && #[trigger] splits(
                before,
                roughness,
                lines,
            );
        lemma_grown_count(base, roughness, (n - 1) as nat, before);
    }
}

/// Without roughness the middle of a split lies exactly halfway between the
/// ends of the line, along both axes.
pub proof fn lemma_smooth_split(parent: Line, left: Line, right: Line)
    requires
        is_split(parent, 0, left, right),
    ensures
        left.end.x == (parent.begin.x + parent.end.x) / 2,
        left.end.y == (parent.begin.y + parent.end.y) / 2,
        right.begin == left.end,
{
}

/// The line that an engine starts from before it is given an area: one unit
/// long, half a unit up, one unit wide and black.
pub open spec fn unit_line() -> Line {
    Line {
        begin: Point { x: 0, y: 500 },
        end: Point { x: 1000, y: 500 },
        width: UNIT,
        color: Rgb::black(),
    }
}

/// The line that an engine starts from in `area`: from the left side to the
/// right side, halfway up.
pub open spec fn area_line(area: Rect) -> Line {
    Line {
        begin: Point {
            x: area.min.x,
            y: (area.min.y + 500 * (area.max.y - area.min.y) / 1000) as i64,
        },
        end: Point {
            x: area.max.x,
            y: (area.min.y + 500 * (area.max.y - area.min.y) / 1000) as i64,
        },
        width: UNIT,
        color: Rgb::black(),
    }
}

/// Whether `line` lies where a line of iteration `iter` can: within
/// `POSITION_MAX` along x, and along y beyond it by no more than
/// `OFFSET_LIMIT` for each iteration.
pub open spec fn in_range(line: Line, iter: int) -> bool {
    &&& -POSITION_MAX <= line.begin.x <= POSITION_MAX
    &&& -POSITION_MAX <= line.end.x <= POSITION_MAX
    &&& -POSITION_MAX - iter * OFFSET_LIMIT <= line.begin.y <= POSITION_MAX + iter * OFFSET_LIMIT
    &&& -POSITION_MAX - iter * OFFSET_LIMIT <= line.end.y <= POSITION_MAX + iter * OFFSET_LIMIT
}

/// Whether `line` can be split: it lies within `POSITION_MAX` along x and
/// where a line of some iteration can along y.
pub open spec fn splittable(line: Line) -> bool {
    in_range(line, ITERATIONS_MAX as int)
}

/// Splits `line` in two at its middle, which is moved up or down by an
/// amount drawn from `rng`: at most `play` allows, which is never more than
/// `OFFSET_LIMIT`.
pub fn split_line(line: &Line, roughness: i64, rng: &mut rand::rngs::StdRng) -> (r: (Line, Line))
    requires
        0 <= roughness <= ROUGHNESS_MAX,
        splittable(*line),
    ensures
        is_split(*line, roughness as int, r.0, r.1),
        0 <= play(*line, roughness as int) <= OFFSET_LIMIT,
{
    let begin = line.begin;
    let end = line.end;
    let x: i64 = div_floor((begin.x + end.x) as i128, 2) as i64;
    let average_height: i64 = div_floor((begin.y + end.y) as i128, 2) as i64;
    let span: i64 = if end.x >= begin.x {
        end.x - begin.x
    } else {
        begin.x - end.x
    };
    assert(0 <= roughness * span <= 1_000_000 * 0x1_0000_0000) by (nonlinear_arith)
        requires
            0 <= roughness <= 1_000_000,
            0 <= span <= 0x1_0000_0000,
    ;
    let random_range: i64 = (roughness * span) / UNIT;
    let random_offset = draw_between(rng, -random_range, random_range);
    let h: i64 = average_height + random_offset;
    let mid_point = Point { x, y: h };
    let left_line = Line { begin, end: mid_point, width: line.width, color: line.color };
    let right_line = Line { begin: mid_point, end, width: line.width, color: line.color };
    (left_line, right_line)
}

/// The midpoint-displacement engine.
pub struct MidDisplacement {
    roughness: i64,
    iter: u32,
    lines: Vec<Line>,
    initial_line: Line,
    rng: rand::rngs::StdRng,
}

impl MidDisplacement {
    /// The roughness, in thousandths.
    pub closed spec fn roughness(&self) -> int {
        self.roughness as int
    }

    /// The number of iterations made.
    pub closed spec fn iteration(&self) -> int {
        self.iter as int
    }

    /// The lines, from left to right.
    pub closed spec fn lines_view(&self) -> Seq<Line> {
        self.lines@
    }

    /// The line that the engine started from.
    pub closed spec fn base(&self) -> Line {
        self.initial_line
    }

    /// The lines come from the line at the start by as many rounds of
    /// splitting as iterations were made, so there are two to that power of
    /// them, and every line lies in the range of its iteration.
    pub open spec fn wf(&self) -> bool {
        &&& 0 <= self.roughness() <= ROUGHNESS_MAX
        &&& 0 <= self.iteration() <= ITERATIONS_MAX
        &&& grown(self.base(), self.roughness(), self.iteration() as nat, self.lines_view())
        &&& self.lines_view().len() == power_of_two(self.iteration() as nat)
        &&& forall|i: int|
            0 <= i < self.lines_view().len() ==> in_range(
                #[trigger] self.lines_view()[i],
                self.iteration(),
            )
    }

    /// The engine before its first iteration, with the unit line and a
    /// random source made from `seed`.
    pub fn new(roughness: i64, seed: u64) -> (m: MidDisplacement)
        requires
            0 <= roughness <= ROUGHNESS_MAX,
        ensures
            m.wf(),
            m.roughness() == roughness,
            m.iteration() == 0,
            m.base() == unit_line(),
            m.lines_view() == seq![unit_line()],
    {
        let initial_line = Line {
            begin: Point { x: 0, y: 500 },
            end: Point { x: 1000, y: 500 },
            width: UNIT,
            color: Rgb { r: 0, g: 0, b: 0 },
        };
        let mut lines: Vec<Line> = Vec::new();
        lines.push(initial_line);
        assert(lines@ =~= seq![unit_line()]);
        MidDisplacement { roughness, iter: 0, lines, initial_line, rng: seeded(seed) }
    }

    /// Starts over in `area`: one line from its left side to its right side,
    /// halfway up, and no iteration made.
    pub fn init_for_area(&mut self, area: Rect)
        requires
            old(self).wf(),
            area.is_viewport(),
        ensures
            final(self).wf(),
            final(self).roughness() == old(self).roughness(),
            final(self).iteration() == 0,
            final(self).base() == area_line(area),
            final(self).lines_view() == seq![area_line(area)],
    {
        let height: i64 = area.max.y - area.min.y;
        let y: i64 = area.min.y + (500 * height) / 1000;
        let initial_line = Line {
            begin: Point { x: area.min.x, y },
            end: Point { x: area.max.x, y },
            width: UNIT,
            color: Rgb { r: 0, g: 0, b: 0 },
        };
        let mut lines: Vec<Line> = Vec::new();
        lines.push(initial_line);
        assert(lines@ =~= seq![area_line(area)]);
        self.lines = lines;
        self.initial_line = initial_line;
        self.iter = 0;
    }

    /// Splits every line in two.
    ///
    /// Afterwards there are twice as many lines: the lines at `2 * i` and
    /// `2 * i + 1` are a split of what was line `i`, as `splits` says.
    pub fn iter_once(&mut self)
        requires
            old(self).wf(),
            old(self).iteration() < ITERATIONS_MAX,
        ensures
            final(self).wf(),
            final(self).roughness() == old(self).roughness(),
            final(self).iteration() == old(self).iteration() + 1,
            final(self).base() == old(self).base(),
            splits(old(self).lines_view(), old(self).roughness(), final(self).lines_view()),
    {
        let mut new_lines: Vec<Line> = Vec::new();
        let mut i: usize = 0;
        while i < self.lines.len()
            invariant
                i <= self.lines.len(),
                self.wf(),
                self.iter < ITERATIONS_MAX,
                self.lines@ == old(self).lines@,
                self.roughness == old(self).roughness,
                self.iter == old(self).iter,
                self.initial_line == old(self).initial_line,
                new_lines.len() == 2 * i,
                forall|j: int|
                    0 <= j < new_lines.len() ==> in_range(#[trigger] new_lines[j], self.iter + 1),
                forall|j: int|
                    0 <= j < i ==> is_split(
                        #[trigger] self.lines@[j],
                        self.roughness as int,
                        new_lines[2 * j],
                        new_lines[2 * j + 1],
                    ),
            decreases self.lines.len() - i,
        {
            let ghost parent = self.lines@[i as int];
            assert(in_range(parent, self.iter as int));
            assert(self.iter * OFFSET_LIMIT <= 19 * OFFSET_LIMIT) by (nonlinear_arith)
                requires
                    0 <= self.iter <= 19,
            ;
            assert((self.iter + 1) * OFFSET_LIMIT == self.iter * OFFSET_LIMIT + OFFSET_LIMIT)
                by (nonlinear_arith);
            let (left_line, right_line) = split_line(&self.lines[i], self.roughness, &mut self.rng);
            assert(in_range(left_line, self.iter + 1));
            assert(in_range(right_line, self.iter + 1));
            new_lines.push(left_line);
            new_lines.push(right_line);
            i += 1;
        }
        assert(splits(self.lines@, self.roughness as int, new_lines@));
        self.lines = new_lines;
        self.iter = self.iter + 1;
    }

    /// The number of iterations made.
    pub fn cur_iter_num(&self) -> (n: u32)
        ensures
            n == self.iteration(),
    {
        self.iter
    }

    /// The line that the engine started from.
    pub fn initial_line(&self) -> (l: Line)
        ensures
            l == self.base(),
    {
        self.initial_line
    }

    /// The lines, from left to right.
    pub fn lines(&self) -> (l: &Vec<Line>)
        ensures
            l@ == self.lines_view(),
    {
        &self.lines
    }

    /// The lines fitted into `area`, with no margin.
    pub fn draw(&self, area: Rect) -> (r: Vec<Line>)
        requires
            self.wf(),
            area.is_viewport(),
        ensures
            r.len() == self.lines_view().len(),
            forall|i: int|
                0 <= i < r.len() ==> #[trigger] r[i] == fitted_line(
                    area,
                    bounding_rect(self.lines_view())->0,
                    0,
                    self.lines_view()[i],
                ),
            forall|i: int| 0 <= i < r.len() ==> area.encloses(#[trigger] r[i]),
    {
        proof {
            self.lemma_on_plane();
        }
        draw_lines(&self.lines, area, 0)
    }

    /// Starts over with the unit line, and no iteration made.
    pub fn clear(&mut self)
        requires
            old(self).wf(),
        ensures
            final(self).wf(),
            final(self).roughness() == old(self).roughness(),
            final(self).iteration() == 0,
            final(self).base() == unit_line(),
            final(self).lines_view() == seq![unit_line()],
    {
        let initial_line = Line {
            begin: Point { x: 0, y: 500 },
            end: Point { x: 1000, y: 500 },
            width: UNIT,
            color: Rgb { r: 0, g: 0, b: 0 },
        };
        let mut lines: Vec<Line> = Vec::new();
        lines.push(initial_line);
        assert(lines@ =~= seq![unit_line()]);
        self.lines = lines;
        self.initial_line = initial_line;
        self.iter = 0;
    }

    /// The rectangle around the lines.
    pub fn get_bounding_rect(&self) -> (r: Option<Rect>)
        requires
            self.wf(),
        ensures
            r == bounding_rect(self.lines_view()),
            r is Some,
    {
        proof {
            self.lemma_on_plane();
            lemma_power_positive(self.iter as nat);
        }
        find_rect(&self.lines)
    }

    /// The lines of a well-formed engine lie on the plane.
    pub proof fn lemma_on_plane(&self)
        requires
            self.wf(),
        ensures
            all_on_plane(self.lines_view()),
    {
        assert forall|i: int| 0 <= i < self.lines_view().len() implies (
        #[trigger] self.lines_view()[i]).on_plane() by {
            assert(in_range(self.lines_view()[i], self.iteration()));
            assert(self.iteration() * OFFSET_LIMIT <= 20 * OFFSET_LIMIT) by (nonlinear_arith)
                requires
                    0 <= self.iteration() <= 20,
            ;
        }
    }
}

/// A power of two is positive.
pub proof fn lemma_power_positive(n: nat)
    ensures
        power_of_two(n) > 0,
    decreases n,
{
    if n > 0 {
        lemma_power_positive((n - 1) as nat);
    }
}

} // verus!
