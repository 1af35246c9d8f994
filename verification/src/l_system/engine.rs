//! The running L-system: its string, rewritten generation by generation, and
//! the strokes that the turtle draws when it reads the string.
//!
//! The turtle's path is held as a tree of strokes. Each stroke names the
//! stroke at whose end it begins, or none where it begins at the origin, and
//! the heading and length of its line. The turn from heading and length to a
//! step on the plane is left to the caller; `Lsystem::lines` then lays the
//! strokes out from the steps it is given.

use vstd::prelude::*;
use crate::geometry::all_on_plane;
use crate::geometry::bounding_rect;
use crate::geometry::draw_lines;
use crate::geometry::fitted_line;
use crate::geometry::leaves_room;
use crate::geometry::Line;
use crate::geometry::Rect;
use crate::geometry::Point;
use crate::geometry::Rgb;
use crate::geometry::PLANE_MAX;
use crate::l_system::config::Action;
use crate::l_system::config::LSystemConfig;
use crate::l_system::config::LSystemModel;
use crate::l_system::config::is_value;
use crate::number::FULL_TURN;
use crate::number::UNIT;
use crate::number::VALUE_MAX;
use crate::random::draw_between;
use crate::random::seeded;
use crate::text::string_of;
use crate::text::subvec;

verus! {

/// One line of the turtle's path.
#[derive(Clone, Copy, Debug, PartialEq, Eq, Structural)]
pub struct Stroke {
    /// The stroke at whose end this one begins; `None` for the origin.
    pub from: Option<usize>,
    /// The direction of the line, in thousandths of a degree from 0 up to a
    /// full turn.
    pub heading: i64,
    /// The length of the line, in thousandths.
    pub length: i64,
    /// The pen's width, in thousandths.
    pub width: i64,
    pub color: Rgb,
}

/// The turtle between two symbols.
#[derive(Clone, Copy, Debug, PartialEq, Eq, Structural)]
pub struct Turtle {
    /// The stroke at whose end the turtle stands; `None` for the origin.
    pub node: Option<usize>,
    pub heading: i64,
    pub width: i64,
    pub color: Rgb,
}

/// Everything the reading of a string has brought about so far.
pub struct Run {
    pub strokes: Seq<Stroke>,
    pub turtle: Turtle,
    pub stack: Seq<Turtle>,
}

/// What a symbol is rewritten to: its rule's replacement, or itself.
pub open spec fn expand(m: LSystemModel, c: char) -> Seq<char> {
    if m.rules.contains_key(c) {
        m.rules[c]
    } else {
        seq![c]
    }
}

/// `s` with every symbol rewritten, from left to right.
pub open spec fn rewrite(m: LSystemModel, s: Seq<char>) -> Seq<char>
    decreases s.len(),
{
    if s.len() == 0 {
        Seq::empty()
    } else {
        rewrite(m, s.drop_last()) + expand(m, s.last())
    }
}

/// The string after `n` rewritings of the axiom.
pub open spec fn generation(m: LSystemModel, n: nat) -> Seq<char>
    decreases n,
{
    if n == 0 {
        m.start
    } else {
        rewrite(m, generation(m, (n - 1) as nat))
    }
}

/// The pen's width after a line: changed by `delta`, but never under one
/// unit and never over `VALUE_MAX`.
pub open spec fn next_width(width: int, delta: int) -> int {
    if width + delta < UNIT {
        UNIT as int
    } else if width + delta > VALUE_MAX {
        VALUE_MAX as int
    } else {
        width + delta
    }
}

/// A colour channel after a line. It moves only while the change is
/// positive and the channel is not yet full, and stops at 255.
pub open spec fn next_channel(channel: u8, delta: u8) -> u8 {
    if delta > 0 && channel < 255 {
        if channel + delta > 255 {
            255u8
        } else {
            (channel + delta) as u8
        }
    } else {
        channel
    }
}

/// The pen's colour after a line: each channel moved by its own change.
pub open spec fn next_color(color: Rgb, delta: Rgb) -> Rgb {
    Rgb {
        r: next_channel(color.r, delta.r),
        g: next_channel(color.g, delta.g),
        b: next_channel(color.b, delta.b),
    }
}

/// The state before the first symbol: at the origin, with the configured
/// heading, width and colour, nothing drawn and nothing remembered.
pub open spec fn start_run(m: LSystemModel) -> Run {
    Run {
        strokes: Seq::empty(),
        turtle: Turtle {
            node: None,
            heading: (m.angle % (FULL_TURN as int)) as i64,
            width: m.width as i64,
            color: m.color,
        },
        stack: Seq::empty(),
    }
}

/// Whether `amount` may be drawn for the symbol `c`: it lies in the range of
/// a random action. Other symbols draw nothing, and every amount will do.
pub open spec fn permitted(m: LSystemModel, c: char, amount: int) -> bool {
    if m.actions.contains_key(c) {
        match m.actions[c] {
            Action::ForwardRandom(lo, hi) => lo <= amount <= hi,
            Action::RotateRandom(lo, hi) => lo <= amount <= hi,
            _ => true,
        }
    } else {
        true
    }
}

/// The state after a line of length `d` has been drawn.
pub open spec fn drawn(m: LSystemModel, r: Run, d: int) -> Run {
    Run {
        strokes: r.strokes.push(
            Stroke {
                from: r.turtle.node,
                heading: r.turtle.heading,
                length: d as i64,
                width: r.turtle.width,
                color: r.turtle.color,
            },
        ),
        turtle: Turtle {
            node: Some(r.strokes.len() as usize),
            heading: r.turtle.heading,
            width: next_width(r.turtle.width as int, m.width_delta) as i64,
            color: next_color(r.turtle.color, m.color_delta),
        },
        stack: r.stack,
    }
}

/// The state after a turn by `a`.
pub open spec fn turned(r: Run, a: int) -> Run {
    Run {
        turtle: Turtle { heading: ((r.turtle.heading + a) % (FULL_TURN as int)) as i64, ..r.turtle },
        ..r
    }
}

/// The state after the symbol `c`, where `amount` is what was drawn at
/// random for it. A symbol without an action changes nothing; `Restore` with
/// nothing remembered changes nothing.
pub open spec fn advance(m: LSystemModel, r: Run, c: char, amount: int) -> Run {
    if m.actions.contains_key(c) {
        match m.actions[c] {
            Action::Forward(d) => drawn(m, r, d as int),
            Action::ForwardRandom(lo, hi) => drawn(m, r, amount),
            Action::Rotate(a) => turned(r, a as int),
            Action::RotateRandom(lo, hi) => turned(r, amount),
            Action::Save => Run { stack: r.stack.push(r.turtle), ..r },
            Action::Restore => if r.stack.len() > 0 {
                Run { turtle: r.stack.last(), stack: r.stack.drop_last(), ..r }
            } else {
                r
            },
        }
    } else {
        r
    }
}

/// Whether the symbol `c` can lead from the state `before` to `after`.
pub open spec fn step(m: LSystemModel, before: Run, c: char, after: Run) -> bool {
    exists|amount: int| #[trigger] permitted(m, c, amount) && after == advance(m, before, c, amount)
}

/// Whether the reading of `s` from the start can end in `r`.
pub open spec fn runs(m: LSystemModel, s: Seq<char>, r: Run) -> bool
    decreases s.len(),
{
    if s.len() == 0 {
        r == start_run(m)
    } else {
        exists|mid: Run| runs(m, s.drop_last(), mid) && #[trigger] step(m, mid, s.last(), r)
    }
}

/// Whether `strokes` is what the turtle can draw when it reads `s`.
pub open spec fn traces(m: LSystemModel, s: Seq<char>, strokes: Seq<Stroke>) -> bool {
    exists|r: Run| #[trigger] runs(m, s, r) && r.strokes == strokes
}

/// Whether the system draws nothing at random.
pub open spec fn is_fixed(m: LSystemModel) -> bool {
    forall|c: char| #[trigger]
        m.actions.contains_key(c) ==> !(m.actions[c] is ForwardRandom) && !(m.actions[c]
            is RotateRandom)
}

/// The one state in which the reading of `s` ends in a system that draws
/// nothing at random.
pub open spec fn run_of(m: LSystemModel, s: Seq<char>) -> Run
    decreases s.len(),
{
    if s.len() == 0 {
        start_run(m)
    } else {
        advance(m, run_of(m, s.drop_last()), s.last(), 0)
    }
}

/// In a system that draws nothing at random the reading of a string has one
/// outcome.
pub proof fn lemma_fixed_run(m: LSystemModel, s: Seq<char>, r: Run)
    requires
        is_fixed(m),
    ensures
        runs(m, s, r) <==> r == run_of(m, s),
    decreases s.len(),
{
    if s.len() > 0 {
        let c = s.last();
        let t = s.drop_last();
        assert(m.actions.contains_key(c) ==> !(m.actions[c] is ForwardRandom) && !(m.actions[c]
            is RotateRandom));
        if runs(m, s, r) {
            let mid = choose|mid: Run| runs(m, t, mid) && #[trigger] step(m, mid, c, r);
            lemma_fixed_run(m, t, mid);
            let amount = choose|amount: int| #[trigger]
                permitted(m, c, amount) && r == advance(m, mid, c, amount);
            assert(advance(m, mid, c, amount) == advance(m, mid, c, 0));
        }
        if r == run_of(m, s) {
            let mid = run_of(m, t);
            lemma_fixed_run(m, t, mid);
            assert(permitted(m, c, 0));
            assert(step(m, mid, c, r));
            assert(runs(m, t, mid));
        }
    }
}

/// Rewriting never shortens a string, as no rule replaces a symbol by
/// nothing.
pub proof fn lemma_rewrite_grows(m: LSystemModel, s: Seq<char>)
    requires
        m.wf(),
    ensures
        rewrite(m, s).len() >= s.len(),
    decreases s.len(),
{
    if s.len() > 0 {
        lemma_rewrite_grows(m, s.drop_last());
        if m.rules.contains_key(s.last()) {
            assert(m.rules[s.last()].len() > 0);
        }
    }
}

/// Rewriting goes symbol by symbol: the rewriting of two strings joined is
/// the two rewritings joined.
pub proof fn lemma_rewrite_concat(m: LSystemModel, a: Seq<char>, b: Seq<char>)
    ensures
        rewrite(m, a + b) == rewrite(m, a) + rewrite(m, b),
    decreases b.len(),
{
    if b.len() == 0 {
        assert(a + b == a);
    } else {
        lemma_rewrite_concat(m, a, b.drop_last());
        assert((a + b).drop_last() == a + b.drop_last());
        assert((a + b).last() == b.last());
    }
}

/// The point where stroke `k` ends when stroke `j` makes the step
/// `steps[j]`: where it begins, moved by its step.
pub open spec fn end_of(strokes: Seq<Stroke>, steps: Seq<Point>, k: int) -> (int, int)
    decreases k,
{
    if 0 <= k < strokes.len() && k < steps.len() {
        let b = match strokes[k].from {
            Some(j) => if j < k {
                end_of(strokes, steps, j as int)
            } else {
                (0, 0)
            },
            None => (0, 0),
        };
        (b.0 + steps[k].x, b.1 + steps[k].y)
    } else {
        (0, 0)
    }
}

/// The point where stroke `k` begins: the end of the stroke it follows, or
/// the origin.
pub open spec fn begin_of(strokes: Seq<Stroke>, steps: Seq<Point>, k: int) -> (int, int) {
    if 0 <= k < strokes.len() {
        match strokes[k].from {
            Some(j) => if j < k {
                end_of(strokes, steps, j as int)
            } else {
                (0, 0)
            },
            None => (0, 0),
        }
    } else {
        (0, 0)
    }
}

/// Whether a point of the layout lies on the plane.
pub open spec fn fits(p: (int, int)) -> bool {
    -PLANE_MAX <= p.0 <= PLANE_MAX && -PLANE_MAX <= p.1 <= PLANE_MAX
}

/// Whether the layout of `strokes` by `steps` stays on the plane.
pub open spec fn lays_out(strokes: Seq<Stroke>, steps: Seq<Point>) -> bool {
    &&& steps.len() == strokes.len()
    &&& forall|k: int| 0 <= k < strokes.len() ==> fits(#[trigger] end_of(strokes, steps, k))
}

/// The line of stroke `k` in the layout.
pub open spec fn line_of(strokes: Seq<Stroke>, steps: Seq<Point>, k: int) -> Line {
    Line {
        begin: Point {
            x: begin_of(strokes, steps, k).0 as i64,
            y: begin_of(strokes, steps, k).1 as i64,
        },
        end: Point { x: end_of(strokes, steps, k).0 as i64, y: end_of(strokes, steps, k).1 as i64 },
        width: strokes[k].width,
        color: strokes[k].color,
    }
}

fn advance_width(width: i64, delta: i64) -> (w: i64)
    requires
        is_value(width as int),
        is_value(delta as int),
    ensures
        w == next_width(width as int, delta as int),
        is_value(w as int),
{
    let sum: i64 = width + delta;
    if sum < UNIT {
        UNIT
    } else if sum > VALUE_MAX {
        VALUE_MAX
    } else {
        sum
    }
}

fn advance_channel(channel: u8, delta: u8) -> (c: u8)
    ensures
        c == next_channel(channel, delta),
{
    if delta > 0 && channel < 255 {
        if channel > 255 - delta {
            255
        } else {
            channel + delta
        }
    } else {
        channel
    }
}

/// The pen's colour after a line.
pub fn add_color_delta(color: Rgb, delta: Rgb) -> (c: Rgb)
    ensures
        c == next_color(color, delta),
{
    Rgb {
        r: advance_channel(color.r, delta.r),
        g: advance_channel(color.g, delta.g),
        b: advance_channel(color.b, delta.b),
    }
}

/// `angle` brought into the range from 0 up to a full turn.
fn normalize(angle: i64) -> (a: i64)
    requires
        -3 * VALUE_MAX <= angle <= 3 * VALUE_MAX,
    ensures
        a == (angle as int) % (FULL_TURN as int),
        0 <= a < FULL_TURN,
{
    let lifted: i64 = angle + 360_000 * 40_000_000;
    lifted % FULL_TURN
}

/// Draws a line of length `d`: the stroke goes onto `strokes`, and the
/// turtle that comes back stands at its end with the next width and colour.
fn forward(config: &LSystemConfig, strokes: &mut Vec<Stroke>, turtle: Turtle, d: i64) -> (next:
    Turtle)
    requires
        config.wf(),
        is_value(turtle.width as int),
    ensures
        final(strokes)@ == old(strokes)@.push(
            Stroke {
                from: turtle.node,
                heading: turtle.heading,
                length: d,
                width: turtle.width,
                color: turtle.color,
            },
        ),
        next == (Turtle {
            node: Some(old(strokes)@.len() as usize),
            heading: turtle.heading,
            width: next_width(turtle.width as int, config@.width_delta) as i64,
            color: next_color(turtle.color, config@.color_delta),
        }),
        is_value(next.width as int),
{
    strokes.push(
        Stroke {
            from: turtle.node,
            heading: turtle.heading,
            length: d,
            width: turtle.width,
            color: turtle.color,
        },
    );
    Turtle {
        node: Some(strokes.len() - 1),
        heading: turtle.heading,
        width: advance_width(turtle.width, config.width_delta()),
        color: add_color_delta(turtle.color, config.color_delta()),
    }
}

/// Turns the turtle by `a`.
fn rotate(turtle: Turtle, a: i64) -> (next: Turtle)
    requires
        0 <= turtle.heading < FULL_TURN,
        is_value(a as int),
    ensures
        next == (Turtle {
            heading: ((turtle.heading + a) % (FULL_TURN as int)) as i64,
            ..turtle
        }),
        0 <= next.heading < FULL_TURN,
{
    Turtle {
        node: turtle.node,
        heading: normalize(turtle.heading + a),
        width: turtle.width,
        color: turtle.color,
    }
}

/// Reads `s` from left to right and does at each symbol what its action
/// says.
fn interpret(config: &LSystemConfig, s: &Vec<char>, rng: &mut rand::rngs::StdRng) -> (strokes: Vec<
    Stroke,
>)
    requires
        config.wf(),
    ensures
        traces(config@, s@, strokes@),
{
    let ghost m = config@;
    let mut strokes: Vec<Stroke> = Vec::new();
    let mut stack: Vec<Turtle> = Vec::new();
    let mut turtle = Turtle {
        node: None,
        heading: normalize(config.angle()),
        width: config.width(),
        color: config.color(),
    };
    let ghost mut run = start_run(m);
    let mut i: usize = 0;
    assert(s@.take(0) == Seq::<char>::empty());
    while i < s.len()
        invariant
            i <= s.len(),
            m == config@,
            config.wf(),
            runs(m, s@.take(i as int), run),
            run.strokes == strokes@,
            run.turtle == turtle,
            run.stack == stack@,
            is_value(turtle.width as int),
            0 <= turtle.heading < FULL_TURN,
            forall|j: int|
                0 <= j < stack.len() ==> is_value((#[trigger] stack@[j]).width as int) && 0
                    <= stack@[j].heading < FULL_TURN,
        decreases s.len() - i,
    {
        let c = s[i];
        let ghost before = run;
        let ghost mut amount: int = 0;
        match config.action(c) {
            None => {},
            Some(action) => {
                assert(m.actions[c].wf());
                match action {
                    Action::Forward(d) => {
                        turtle = forward(config, &mut strokes, turtle, d);
                    },
                    Action::ForwardRandom(lo, hi) => {
                        let d = draw_between(rng, lo, hi);
                        proof {
                            amount = d as int;
                        }
                        turtle = forward(config, &mut strokes, turtle, d);
                    },
                    Action::Rotate(a) => {
                        turtle = rotate(turtle, a);
                    },
                    Action::RotateRandom(lo, hi) => {
                        let a = draw_between(rng, lo, hi);
                        proof {
                            amount = a as int;
                        }
                        turtle = rotate(turtle, a);
                    },
                    Action::Save => {
                        stack.push(turtle);
                    },
                    Action::Restore => {
                        match stack.pop() {
                            Some(saved) => {
                                turtle = saved;
                            },
                            None => {},
                        }
                    },
                }
            },
        }
        proof {
            run = advance(m, before, c, amount);
            let t = s@.take(i + 1);
            assert(t.drop_last() == s@.take(i as int));
            assert(t.last() == c);
            assert(permitted(m, c, amount));
            assert(step(m, before, c, run));
        }
        i += 1;
    }
    assert(s@.take(s.len() as int) == s@);
    strokes
}

/// `s` with every symbol rewritten.
fn rewrite_string(config: &LSystemConfig, s: &Vec<char>) -> (r: Vec<char>)
    ensures
        r@ == rewrite(config@, s@),
{
    let mut r: Vec<char> = Vec::new();
    let mut i: usize = 0;
    assert(s@.take(0) == Seq::<char>::empty());
    while i < s.len()
        invariant
            i <= s.len(),
            r@ == rewrite(config@, s@.take(i as int)),
        decreases s.len() - i,
    {
        let ghost t = s@.take(i + 1);
        assert(t.drop_last() == s@.take(i as int));
        assert(t.last() == s@[i as int]);
        match config.rule_chars(s[i]) {
            Some(replacement) => {
                let mut j: usize = 0;
                let ghost base = r@;
                while j < replacement.len()
                    invariant
                        j <= replacement.len(),
                        r@ == base + replacement@.take(j as int),
                    decreases replacement.len() - j,
                {
                    r.push(replacement[j]);
                    assert(replacement@.take(j + 1) == replacement@.take(j as int).push(
                        replacement@[j as int],
                    ));
                    j += 1;
                }
                assert(replacement@.take(replacement.len() as int) == replacement@);
            },
            None => {
                r.push(s[i]);
                assert(r@ == rewrite(config@, s@.take(i as int)) + seq![s@[i as int]]);
            },
        }
        i += 1;
    }
    assert(s@.take(s.len() as int) == s@);
    r
}

/// An L-system at work.
pub struct Lsystem {
    config: LSystemConfig,
    cur_string: Vec<char>,
    iter: usize,
    strokes: Vec<Stroke>,
    rng: rand::rngs::StdRng,
}

impl Lsystem {
    /// The configuration.
    pub closed spec fn model(&self) -> LSystemModel {
        self.config@
    }

    /// The current string.
    pub closed spec fn string(&self) -> Seq<char> {
        self.cur_string@
    }

    /// The number of the current generation; the axiom is generation one.
    pub closed spec fn iteration(&self) -> int {
        self.iter as int
    }

    /// The strokes of the current string.
    pub closed spec fn drawing(&self) -> Seq<Stroke> {
        self.strokes@
    }

    /// The string is the generation that the count names, and the strokes are
    /// what the turtle can draw from it.
    pub open spec fn wf(&self) -> bool {
        &&& self.model().wf()
        &&& self.iteration() >= 1
        &&& self.string() == generation(self.model(), (self.iteration() - 1) as nat)
        &&& traces(self.model(), self.string(), self.drawing())
    }

    /// Starts the system at its axiom, with a random source made from `seed`.
    pub fn new(config: LSystemConfig, seed: u64) -> (l: Lsystem)
        requires
            config.wf(),
        ensures
            l.wf(),
            l.model() == config@,
            l.iteration() == 1,
            l.string() == config@.start,
    {
        let mut rng = seeded(seed);
        let start = config.start_chars();
        let cur_string = subvec(start, 0, start.len());
        assert(cur_string@ == start@);
        let strokes = interpret(&config, &cur_string, &mut rng);
        Lsystem { config, cur_string, iter: 1, strokes, rng }
    }

    /// Rewrites the string once and draws it anew.
    pub fn iter_once(&mut self)
        requires
            old(self).wf(),
            old(self).iteration() < usize::MAX,
        ensures
            final(self).wf(),
            final(self).model() == old(self).model(),
            final(self).iteration() == old(self).iteration() + 1,
            final(self).string() == rewrite(old(self).model(), old(self).string()),
            final(self).string().len() >= old(self).string().len(),
    {
        proof {
            lemma_rewrite_grows(self.config@, self.cur_string@);
        }
        let next = rewrite_string(&self.config, &self.cur_string);
        let strokes = interpret(&self.config, &next, &mut self.rng);
        self.cur_string = next;
        self.strokes = strokes;
        self.iter = self.iter + 1;
    }

    /// The number of the current generation.
    pub fn cur_iter_num(&self) -> (n: usize)
        ensures
            n == self.iteration(),
    {
        self.iter
    }

    /// The current string.
    pub fn current_string(&self) -> (s: String)
        ensures
            s@ == self.string(),
    {
        string_of(&self.cur_string)
    }

    /// The configuration that the system runs.
    pub fn config(&self) -> (c: &LSystemConfig)
        ensures
            c@ == self.model(),
    {
        &self.config
    }

    /// The strokes of the current string, in the order drawn.
    pub fn strokes(&self) -> (s: &Vec<Stroke>)
        ensures
            s@ == self.drawing(),
    {
        &self.strokes
    }

    /// Lays the strokes out on the plane. `steps[k]` is the step that stroke
    /// `k` makes from its beginning to its end.
    ///
    /// Returns the lines in the order of the strokes, or `None` where the
    /// steps are not one per stroke or a line would leave the plane.
    pub fn lines(&self, steps: &Vec<Point>) -> (r: Option<Vec<Line>>)
        requires
            self.wf(),
        ensures
            r is Some <==> lays_out(self.drawing(), steps@),
            r matches Some(lines) ==> lines.len() == self.drawing().len() && forall|k: int|
                0 <= k < lines.len() ==> #[trigger] lines[k] == line_of(
                    self.drawing(),
                    steps@,
                    k,
                ),
    {
        layout(&self.strokes, steps)
    }
}

impl Lsystem {
    /// The drawing fitted into `area` with `margin` left free on every side.
    ///
    /// The strokes are laid out by `steps` as `lines` lays them out and then
    /// fitted; `None` where they cannot be laid out.
    pub fn draw(&self, steps: &Vec<Point>, area: Rect, margin: i64) -> (r: Option<Vec<Line>>)
        requires
            self.wf(),
            area.is_viewport(),
            leaves_room(area, margin as int),
        ensures
            r is Some <==> lays_out(self.drawing(), steps@),
            r matches Some(drawn) ==> {
                let laid = Seq::new(
                    self.drawing().len(),
                    |k: int| line_of(self.drawing(), steps@, k),
                );
                &&& drawn.len() == laid.len()
                &&& forall|k: int|
                    0 <= k < drawn.len() ==> #[trigger] drawn[k] == fitted_line(
                        area,
                        bounding_rect(laid)->0,
                        margin as int,
                        laid[k],
                    )
            },
    {
        match self.lines(steps) {
            None => None,
            Some(lines) => {
                proof {
                    let laid = Seq::new(
                        self.drawing().len(),
                        |k: int| line_of(self.drawing(), steps@, k),
                    );
                    assert(lines@ =~= laid);
                    assert forall|k: int| 0 <= k < lines.len() implies (
                    #[trigger] lines@[k]).on_plane() by {
                        lemma_line_on_plane(self.drawing(), steps@, k);
                    }
                }
                Some(draw_lines(&lines, area, margin))
            },
        }
    }
}

/// In a layout that stays on the plane every line lies on the plane.
pub proof fn lemma_line_on_plane(strokes: Seq<Stroke>, steps: Seq<Point>, k: int)
    requires
        lays_out(strokes, steps),
        0 <= k < strokes.len(),
    ensures
        line_of(strokes, steps, k).on_plane(),
        line_of(strokes, steps, k).begin.x == begin_of(strokes, steps, k).0,
        line_of(strokes, steps, k).begin.y == begin_of(strokes, steps, k).1,
        line_of(strokes, steps, k).end.x == end_of(strokes, steps, k).0,
        line_of(strokes, steps, k).end.y == end_of(strokes, steps, k).1,
{
    assert(fits(end_of(strokes, steps, k)));
    match strokes[k].from {
        Some(j) => {
            if j < k {
                assert(fits(end_of(strokes, steps, j as int)));
            }
        },
        None => {},
    }
}

/// Lays `strokes` out on the plane by `steps`.
pub fn layout(strokes: &Vec<Stroke>, steps: &Vec<Point>) -> (r: Option<Vec<Line>>)
    ensures
        r is Some <==> lays_out(strokes@, steps@),
        r matches Some(lines) ==> lines.len() == strokes.len() && forall|k: int|
            0 <= k < lines.len() ==> #[trigger] lines[k] == line_of(strokes@, steps@, k),
{
    if steps.len() != strokes.len() {
        return None;
    }
    let mut lines: Vec<Line> = Vec::new();
    let mut k: usize = 0;
    while k < strokes.len()
        invariant
            k <= strokes.len(),
            steps.len() == strokes.len(),
            lines.len() == k,
            forall|j: int| 0 <= j < k ==> fits(#[trigger] end_of(strokes@, steps@, j)),
            forall|j: int| 0 <= j < k ==> #[trigger] lines[j] == line_of(strokes@, steps@, j),
        decreases strokes.len() - k,
    {
        let stroke = strokes[k];
        let begin = match stroke.from {
            Some(j) => if j < k {
                assert(lines[j as int] == line_of(strokes@, steps@, j as int));
                assert(fits(end_of(strokes@, steps@, j as int)));
                lines[j].end
            } else {
                Point { x: 0, y: 0 }
            },
            None => Point { x: 0, y: 0 },
        };
        assert(begin.x == begin_of(strokes@, steps@, k as int).0);
        assert(begin.y == begin_of(strokes@, steps@, k as int).1);
        let step = steps[k];
        let x: i128 = begin.x as i128 + step.x as i128;
        let y: i128 = begin.y as i128 + step.y as i128;
        assert(end_of(strokes@, steps@, k as int) == (x as int, y as int));
        if x < -(PLANE_MAX as i128) || x > PLANE_MAX as i128 || y < -(PLANE_MAX as i128) || y
            > PLANE_MAX as i128 {
            assert(!fits(end_of(strokes@, steps@, k as int)));
            return None;
        }
        lines.push(
            Line {
                begin,
                end: Point { x: x as i64, y: y as i64 },
                width: stroke.width,
                color: stroke.color,
            },
        );
        k += 1;
    }
    Some(lines)
}

} // verus!
