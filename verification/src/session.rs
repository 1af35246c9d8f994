//! An editing session: the three engines, the fractal and the tool that are
//! chosen, and what a click, a drag or a request for the next iteration does
//! to them.
//!
//! The session decides; it draws nothing and reads nothing. Whoever shows it
//! hands it positions and texts as plain values.

use vstd::prelude::*;
use crate::bezier::after_delete;
use crate::bezier::anchors_of;
use crate::bezier::lemma_nearest_unique;
use crate::bezier::moved;
use crate::bezier::nearest;
use crate::bezier::smooth;
use crate::bezier::BezierCurve;
use crate::geometry::Point;
use crate::l_system::config::LSystemModel;
use crate::l_system::engine::rewrite;
use crate::l_system::engine::Lsystem;
use crate::l_system::parser::parse;
use crate::l_system::parser::LParseErr;
use crate::l_system::parser::Parser;
use crate::midpoint_displacement::splits;
use crate::midpoint_displacement::unit_line;
use crate::midpoint_displacement::MidDisplacement;
use crate::midpoint_displacement::ITERATIONS_MAX;
use crate::midpoint_displacement::ROUGHNESS_MAX;

verus! {

/// How near to an anchor a click must fall to pick it, in thousandths.
pub const PICK_RADIUS: i64 = 10_000;

/// The fractal that is shown.
#[derive(Clone, Copy, Debug, PartialEq, Eq, Structural)]
pub enum FractalType {
    LSystem,
    MidpointDisplacement,
    BezierSpline,
}

/// The tool that a click on the curve uses.
#[derive(Clone, Copy, Debug, PartialEq, Eq, Structural)]
pub enum Instrument {
    AddPoint,
    RemovePoint,
    MovePoint,
    /// No tool is chosen.
    Idle,
}

/// `roughness` brought into the range that the engine takes.
pub open spec fn usable_roughness(roughness: int) -> int {
    if roughness < 0 {
        0
    } else if roughness > ROUGHNESS_MAX {
        ROUGHNESS_MAX as int
    } else {
        roughness
    }
}

/// `iterations` brought down to what the engine takes.
pub open spec fn usable_iterations(iterations: int) -> int {
    if iterations > ITERATIONS_MAX {
        ITERATIONS_MAX as int
    } else {
        iterations
    }
}

/// The points of the curve after a click at `pos` with `instrument`: a point
/// more, a deletion, or no change.
pub open spec fn points_after_click(points: Seq<Point>, instrument: Instrument, pos: Point) -> Seq<
    Point,
> {
    match instrument {
        Instrument::AddPoint => smooth(anchors_of(points).push(pos)),
        Instrument::RemovePoint => after_delete(points, pos, PICK_RADIUS as int),
        _ => points,
    }
}

/// What a click or a drag can change: the points of the curve, the point
/// picked for moving, and the number of points shown.
pub struct Editing {
    pub points: Seq<Point>,
    pub selection: Option<usize>,
    pub counted: int,
}

/// The editing state after a click at `pos`.
///
/// Only the curve takes clicks, and only at positions. With the tool that
/// adds, the curve gets a point; with the tool that removes, it loses the
/// anchor under the click; both show the new number of points. With the tool
/// that moves, the anchor under the click is picked.
pub open spec fn after_click(kind: FractalType, tool: Instrument, e: Editing, pos: Point) -> Editing {
    if kind != FractalType::BezierSpline || !pos.is_position() {
        e
    } else {
        let points = points_after_click(e.points, tool, pos);
        match tool {
            Instrument::AddPoint => Editing { points, counted: points.len() as int, ..e },
            Instrument::RemovePoint => Editing { points, counted: points.len() as int, ..e },
            Instrument::MovePoint => Editing {
                selection: nearest(e.points, pos, PICK_RADIUS as int),
                ..e
            },
            Instrument::Idle => e,
        }
    }
}

/// The editing state after a drag to `pos`.
///
/// Where the curve is shown, the tool moves points, a point is picked and
/// `pos` is a position, the picked point moves there, if there is such a
/// point, and the number of points is shown.
pub open spec fn after_drag(kind: FractalType, tool: Instrument, e: Editing, pos: Point) -> Editing {
    match e.selection {
        Some(index) => if kind == FractalType::BezierSpline && tool == Instrument::MovePoint
            && pos.is_position() {
            Editing {
                points: if index < e.points.len() {
                    moved(e.points, index as int, pos)
                } else {
                    e.points
                },
                counted: e.points.len() as int,
                ..e
            }
        } else {
            e
        },
        None => e,
    }
}

/// The state of an editing session.
pub struct FractalsApp {
    /// The fractal that is shown.
    fractal_type: FractalType,
    /// The tool that is chosen.
    instrument: Instrument,
    /// The roughness of the next mountains, in thousandths.
    md_roughness: i64,
    /// The number of iterations of the next mountains.
    md_iterations: u32,
    /// Whether the number of the iteration is shown with the mountains.
    md_show_steps: bool,
    point_count: usize,
    current_iteration: usize,
    lsystem: Option<Lsystem>,
    midpoint_displacement: MidDisplacement,
    bezier_curve: BezierCurve,
    selected_point: Option<usize>,
}

impl FractalsApp {
    /// The fractal that is shown.
    pub closed spec fn kind(&self) -> FractalType {
        self.fractal_type
    }

    /// The tool that is chosen.
    pub closed spec fn tool(&self) -> Instrument {
        self.instrument
    }

    /// The roughness chosen for the next mountains.
    pub closed spec fn roughness_chosen(&self) -> int {
        self.md_roughness as int
    }

    /// The number of iterations chosen for the next mountains.
    pub closed spec fn iterations_chosen(&self) -> int {
        self.md_iterations as int
    }

    /// Whether the number of the iteration is shown with the mountains.
    pub closed spec fn steps_shown(&self) -> bool {
        self.md_show_steps
    }

    /// The curve under editing.
    pub closed spec fn curve(&self) -> BezierCurve {
        self.bezier_curve
    }

    /// The mountains.
    pub closed spec fn mountains(&self) -> MidDisplacement {
        self.midpoint_displacement
    }

    /// The L-system, where one was loaded.
    pub closed spec fn system(&self) -> Option<Lsystem> {
        self.lsystem
    }

    /// The number of points shown.
    pub closed spec fn counted(&self) -> int {
        self.point_count as int
    }

    /// The number of the iteration shown.
    pub closed spec fn shown(&self) -> int {
        self.current_iteration as int
    }

    /// The point that is picked for moving.
    pub closed spec fn selection(&self) -> Option<usize> {
        self.selected_point
    }

    /// What a click or a drag can change.
    pub open spec fn editing(&self) -> Editing {
        Editing {
            points: self.curve().points_view(),
            selection: self.selection(),
            counted: self.counted(),
        }
    }

    /// The three engines are well formed.
    pub open spec fn wf(&self) -> bool {
        &&& self.curve().wf()
        &&& self.mountains().wf()
        &&& self.system() matches Some(l) ==> l.wf()
    }

    /// Whether everything but the choices of fractal and tool is as in
    /// `other`.
    pub open spec fn same_content(&self, other: &FractalsApp) -> bool {
        &&& self.curve() == other.curve()
        &&& self.mountains() == other.mountains()
        &&& self.system() == other.system()
        &&& self.counted() == other.counted()
        &&& self.shown() == other.shown()
        &&& self.selection() == other.selection()
    }

    /// Whether the choices of fractal, tool and mountains are as in `other`.
    pub open spec fn same_choices(&self, other: &FractalsApp) -> bool {
        &&& self.kind() == other.kind()
        &&& self.tool() == other.tool()
        &&& self.roughness_chosen() == other.roughness_chosen()
        &&& self.iterations_chosen() == other.iterations_chosen()
        &&& self.steps_shown() == other.steps_shown()
    }

    /// A session at its start: the L-system chosen but none loaded, no tool,
    /// mountains of roughness one before their first iteration, an empty
    /// curve. `seed` makes the random source of the mountains.
    pub fn new(seed: u64) -> (app: FractalsApp)
        ensures
            app.wf(),
            app.kind() == FractalType::LSystem,
            app.tool() == Instrument::Idle,
            app.roughness_chosen() == 1000,
            app.iterations_chosen() == 8,
            !app.steps_shown(),
            app.counted() == 0,
            app.shown() == 0,
            app.selection() is None,
            app.system() is None,
            app.curve().points_view().len() == 0,
            app.mountains().iteration() == 0,
            app.mountains().roughness() == 1000,
            app.mountains().lines_view() == seq![unit_line()],
    {
        FractalsApp {
            fractal_type: FractalType::LSystem,
            instrument: Instrument::Idle,
            md_roughness: 1000,
            md_iterations: 8,
            md_show_steps: false,
            point_count: 0,
            current_iteration: 0,
            lsystem: None,
            midpoint_displacement: MidDisplacement::new(1000, seed),
            bezier_curve: BezierCurve::new(),
            selected_point: None,
        }
    }

    /// The fractal that is shown.
    pub fn fractal_type(&self) -> (t: FractalType)
        ensures
            t == self.kind(),
    {
        self.fractal_type
    }

    /// Chooses the fractal to show.
    pub fn set_fractal_type(&mut self, fractal_type: FractalType)
        ensures
            final(self).kind() == fractal_type,
            final(self).tool() == old(self).tool(),
            final(self).roughness_chosen() == old(self).roughness_chosen(),
            final(self).iterations_chosen() == old(self).iterations_chosen(),
            final(self).steps_shown() == old(self).steps_shown(),
            final(self).same_content(old(self)),
    {
        self.fractal_type = fractal_type;
    }

    /// The tool that is chosen.
    pub fn instrument(&self) -> (t: Instrument)
        ensures
            t == self.tool(),
    {
        self.instrument
    }

    /// Chooses the tool.
    pub fn set_instrument(&mut self, instrument: Instrument)
        ensures
            final(self).tool() == instrument,
            final(self).kind() == old(self).kind(),
            final(self).roughness_chosen() == old(self).roughness_chosen(),
            final(self).iterations_chosen() == old(self).iterations_chosen(),
            final(self).steps_shown() == old(self).steps_shown(),
            final(self).same_content(old(self)),
    {
        self.instrument = instrument;
    }

    /// The roughness chosen for the next mountains, in thousandths.
    pub fn md_roughness(&self) -> (r: i64)
        ensures
            r == self.roughness_chosen(),
    {
        self.md_roughness
    }

    /// Chooses the roughness of the next mountains, in thousandths.
    pub fn set_md_roughness(&mut self, roughness: i64)
        ensures
            final(self).roughness_chosen() == roughness,
            final(self).kind() == old(self).kind(),
            final(self).tool() == old(self).tool(),
            final(self).iterations_chosen() == old(self).iterations_chosen(),
            final(self).steps_shown() == old(self).steps_shown(),
            final(self).same_content(old(self)),
    {
        self.md_roughness = roughness;
    }

    /// The number of iterations chosen for the next mountains.
    pub fn md_iterations(&self) -> (n: u32)
        ensures
            n == self.iterations_chosen(),
    {
        self.md_iterations
    }

    /// Chooses the number of iterations of the next mountains.
    pub fn set_md_iterations(&mut self, iterations: u32)
        ensures
            final(self).iterations_chosen() == iterations,
            final(self).kind() == old(self).kind(),
            final(self).tool() == old(self).tool(),
            final(self).roughness_chosen() == old(self).roughness_chosen(),
            final(self).steps_shown() == old(self).steps_shown(),
            final(self).same_content(old(self)),
    {
        self.md_iterations = iterations;
    }

    /// Whether the number of the iteration is shown with the mountains.
    pub fn md_show_steps(&self) -> (b: bool)
        ensures
            b == self.steps_shown(),
    {
        self.md_show_steps
    }

    /// Chooses whether the number of the iteration is shown.
    pub fn set_md_show_steps(&mut self, show: bool)
        ensures
            final(self).steps_shown() == show,
            final(self).kind() == old(self).kind(),
            final(self).tool() == old(self).tool(),
            final(self).roughness_chosen() == old(self).roughness_chosen(),
            final(self).iterations_chosen() == old(self).iterations_chosen(),
            final(self).same_content(old(self)),
    {
        self.md_show_steps = show;
    }

    /// The curve under editing.
    pub fn bezier_curve(&self) -> (c: &BezierCurve)
        ensures
            *c == self.curve(),
    {
        &self.bezier_curve
    }

    /// The mountains.
    pub fn midpoint_displacement(&self) -> (m: &MidDisplacement)
        ensures
            *m == self.mountains(),
    {
        &self.midpoint_displacement
    }

    /// The L-system, where one was loaded.
    pub fn lsystem(&self) -> (l: &Option<Lsystem>)
        ensures
            *l == self.system(),
    {
        &self.lsystem
    }

    /// The number of points shown.
    pub fn point_count(&self) -> (n: usize)
        ensures
            n == self.counted(),
    {
        self.point_count
    }

    /// The number of the iteration shown.
    pub fn current_iteration(&self) -> (n: usize)
        ensures
            n == self.shown(),
    {
        self.current_iteration
    }

    /// The point that is picked for moving.
    pub fn selected_point(&self) -> (s: Option<usize>)
        ensures
            s == self.selection(),
    {
        self.selected_point
    }

    /// Clears what the chosen fractal shows: the mountains start over, the
    /// curve loses its points, an L-system stays. Both counts go to zero.
    pub fn clear_canvas(&mut self)
        requires
            old(self).wf(),
        ensures
            final(self).wf(),
            final(self).same_choices(old(self)),
            final(self).counted() == 0,
            final(self).shown() == 0,
            final(self).selection() == old(self).selection(),
            final(self).system() == old(self).system(),
            if old(self).kind() == FractalType::BezierSpline {
                final(self).curve().points_view().len() == 0
            } else {
                final(self).curve() == old(self).curve()
            },
            if old(self).kind() == FractalType::MidpointDisplacement {
                &&& final(self).mountains().iteration() == 0
                &&& final(self).mountains().base() == unit_line()
                &&& final(self).mountains().lines_view() == seq![unit_line()]
                &&& final(self).mountains().roughness() == old(self).mountains().roughness()
            } else {
                final(self).mountains() == old(self).mountains()
            },
    {
        match self.fractal_type {
            FractalType::LSystem => {},
            FractalType::MidpointDisplacement => {
                self.midpoint_displacement.clear();
            },
            FractalType::BezierSpline => {
                self.bezier_curve.clear();
            },
        }
        self.point_count = 0;
        self.current_iteration = 0;
    }

    /// Takes what happened on the canvas: a click where `clicked` holds its
    /// place, then a drag where `dragged` holds the pointer's place.
    pub fn handle_input(&mut self, clicked: Option<Point>, dragged: Option<Point>)
        requires
            old(self).wf(),
        ensures
            final(self).wf(),
            final(self).same_choices(old(self)),
            final(self).mountains() == old(self).mountains(),
            final(self).system() == old(self).system(),
            final(self).shown() == old(self).shown(),
            final(self).editing() == ({
                let first = match clicked {
                    Some(pos) => after_click(
                        old(self).kind(),
                        old(self).tool(),
                        old(self).editing(),
                        pos,
                    ),
                    None => old(self).editing(),
                };
                match dragged {
                    Some(pos) => after_drag(old(self).kind(), old(self).tool(), first, pos),
                    None => first,
                }
            }),
    {
        match clicked {
            Some(pos) => {
                self.handle_click(pos);
            },
            None => {},
        }
        match dragged {
            Some(pos) => {
                self.handle_drag(pos);
            },
            None => {},
        }
    }

    /// Takes a click at `pos`, as `after_click` says.
    pub fn handle_click(&mut self, pos: Point)
        requires
            old(self).wf(),
        ensures
            final(self).wf(),
            final(self).same_choices(old(self)),
            final(self).mountains() == old(self).mountains(),
            final(self).system() == old(self).system(),
            final(self).shown() == old(self).shown(),
            final(self).editing() == after_click(
                old(self).kind(),
                old(self).tool(),
                old(self).editing(),
                pos,
            ),
    {
        if self.fractal_type == FractalType::BezierSpline && pos.check_position() {
            self.handle_bezier_click(pos);
        }
    }

    fn handle_bezier_click(&mut self, pos: Point)
        requires
            old(self).wf(),
            pos.is_position(),
            old(self).kind() == FractalType::BezierSpline,
        ensures
            final(self).wf(),
            final(self).same_choices(old(self)),
            final(self).mountains() == old(self).mountains(),
            final(self).system() == old(self).system(),
            final(self).shown() == old(self).shown(),
            final(self).editing() == after_click(
                old(self).kind(),
                old(self).tool(),
                old(self).editing(),
                pos,
            ),
    {
        match self.instrument {
            Instrument::AddPoint => {
                self.bezier_curve.add_point(pos);
                self.point_count = self.bezier_curve.points().len();
            },
            Instrument::RemovePoint => {
                self.bezier_curve.delete_point(pos, PICK_RADIUS);
                self.point_count = self.bezier_curve.points().len();
            },
            Instrument::MovePoint => {
                let found = self.bezier_curve.nearest_anchor_index(pos, PICK_RADIUS);
                proof {
                    lemma_nearest_unique(
                        self.bezier_curve.points_view(),
                        pos,
                        PICK_RADIUS as int,
                        found,
                    );
                }
                self.selected_point = found;
            },
            Instrument::Idle => {},
        }
    }

    /// Takes a drag to `pos`, as `after_drag` says.
    pub fn handle_drag(&mut self, pos: Point)
        requires
            old(self).wf(),
        ensures
            final(self).wf(),
            final(self).same_choices(old(self)),
            final(self).mountains() == old(self).mountains(),
            final(self).system() == old(self).system(),
            final(self).shown() == old(self).shown(),
            final(self).editing() == after_drag(
                old(self).kind(),
                old(self).tool(),
                old(self).editing(),
                pos,
            ),
    {
        if self.fractal_type != FractalType::BezierSpline {
            return ;
        }
        if self.instrument != Instrument::MovePoint {
            return ;
        }
        if !pos.check_position() {
            return ;
        }
        match self.selected_point {
            Some(index) => {
                self.bezier_curve.move_point(index, pos);
                self.point_count = self.bezier_curve.points().len();
            },
            None => {},
        }
    }

    /// Reads an L-system from `source` and starts it, with a random source
    /// made from `seed`. A text that is no L-system leaves the session as it
    /// was.
    pub fn load_lsystem(&mut self, source: &str, seed: u64) -> (r: Result<(), LParseErr>)
        requires
            old(self).wf(),
        ensures
            final(self).wf(),
            final(self).same_choices(old(self)),
            final(self).curve() == old(self).curve(),
            final(self).mountains() == old(self).mountains(),
            final(self).counted() == old(self).counted(),
            final(self).selection() == old(self).selection(),
            match parse(source@) {
                Ok(m) => {
                    &&& r is Ok
                    &&& final(self).system() matches Some(l) && l.model() == m && l.iteration() == 1
                        && l.string() == m.start
                    &&& final(self).shown() == 1
                },
                Err(e) => {
                    &&& r matches Err(x) && x@ == e
                    &&& final(self).same_content(old(self))
                },
            },
    {
        let mut parser = Parser::new();
        match parser.parse_l_system(source) {
            Ok(config) => {
                let l = Lsystem::new(config, seed);
                self.current_iteration = l.cur_iter_num();
                self.lsystem = Some(l);
                Ok(())
            },
            Err(e) => Err(e),
        }
    }

    /// Makes new mountains with the chosen roughness and iterations, each
    /// brought into the range that the engine takes, and a random source
    /// made from `seed`.
    pub fn generate_mountains(&mut self, seed: u64)
        requires
            old(self).wf(),
        ensures
            final(self).wf(),
            final(self).same_choices(old(self)),
            final(self).curve() == old(self).curve(),
            final(self).system() == old(self).system(),
            final(self).counted() == old(self).counted(),
            final(self).selection() == old(self).selection(),
            final(self).mountains().base() == unit_line(),
            final(self).mountains().roughness() == usable_roughness(old(self).roughness_chosen()),
            final(self).mountains().iteration() == usable_iterations(old(self).iterations_chosen()),
            final(self).shown() == final(self).mountains().iteration(),
    {
        let roughness: i64 = if self.md_roughness < 0 {
            0
        } else if self.md_roughness > ROUGHNESS_MAX {
            ROUGHNESS_MAX
        } else {
            self.md_roughness
        };
        let iterations: u32 = if self.md_iterations > ITERATIONS_MAX {
            ITERATIONS_MAX
        } else {
            self.md_iterations
        };
        let mut mountains = MidDisplacement::new(roughness, seed);
        let mut i: u32 = 0;
        while i < iterations
            invariant
                i <= iterations <= ITERATIONS_MAX,
                mountains.wf(),
                mountains.iteration() == i,
                mountains.roughness() == roughness,
                mountains.base() == unit_line(),
            decreases iterations - i,
        {
            mountains.iter_once();
            i += 1;
        }
        self.current_iteration = mountains.cur_iter_num() as usize;
        self.midpoint_displacement = mountains;
    }

    /// Makes the next iteration of the chosen fractal.
    ///
    /// A loaded L-system is rewritten once, mountains are split once unless
    /// they stand at their last iteration, and the iteration shown follows.
    /// The curve has no iterations.
    pub fn iterate_fractal(&mut self)
        requires
            old(self).wf(),
        ensures
            final(self).wf(),
            final(self).same_choices(old(self)),
            final(self).curve() == old(self).curve(),
            final(self).counted() == old(self).counted(),
            final(self).selection() == old(self).selection(),
            match old(self).kind() {
                FractalType::LSystem => {
                    &&& final(self).mountains() == old(self).mountains()
                    &&& match old(self).system() {
                        Some(before) => if before.iteration() < usize::MAX {
                            &&& final(self).system() matches Some(after) && after.model()
                                == before.model() && after.iteration() == before.iteration() + 1
                                && after.string() == rewrite(before.model(), before.string())
                            &&& final(self).shown() == before.iteration() + 1
                        } else {
                            final(self).same_content(old(self))
                        },
                        None => final(self).same_content(old(self)),
                    }
                },
                FractalType::MidpointDisplacement => {
                    &&& final(self).system() == old(self).system()
                    &&& final(self).shown() == final(self).mountains().iteration()
                    &&& if old(self).mountains().iteration() < ITERATIONS_MAX {
                        &&& final(self).mountains().roughness() == old(self).mountains().roughness()
                        &&& final(self).mountains().iteration() == old(self).mountains().iteration() + 1
                        &&& final(self).mountains().base() == old(self).mountains().base()
                        &&& splits(
                            old(self).mountains().lines_view(),
                            old(self).mountains().roughness(),
                            final(self).mountains().lines_view(),
                        )
                    } else {
                        final(self).mountains() == old(self).mountains()
                    }
                },
                FractalType::BezierSpline => final(self).same_content(old(self)),
            },
    {
        match self.fractal_type {
            FractalType::LSystem => {
                let mut taken: Option<Lsystem> = None;
                std::mem::swap(&mut self.lsystem, &mut taken);
                match taken {
                    Some(mut l) => {
                        if l.cur_iter_num() < usize::MAX {
                            l.iter_once();
                            self.current_iteration = l.cur_iter_num();
                        }
                        self.lsystem = Some(l);
                    },
                    None => {},
                }
            },
            FractalType::MidpointDisplacement => {
                if self.midpoint_displacement.cur_iter_num() < ITERATIONS_MAX {
                    self.midpoint_displacement.iter_once();
                }
                self.current_iteration = self.midpoint_displacement.cur_iter_num() as usize;
            },
            FractalType::BezierSpline => {},
        }
    }

    /// Clears the curve, the count of points and the picked point.
    pub fn reset_bezier(&mut self)
        requires
            old(self).wf(),
        ensures
            final(self).wf(),
            final(self).same_choices(old(self)),
            final(self).mountains() == old(self).mountains(),
            final(self).system() == old(self).system(),
            final(self).shown() == old(self).shown(),
            final(self).curve().points_view().len() == 0,
            final(self).curve().lines_view().len() == 0,
            final(self).counted() == 0,
            final(self).selection() is None,
    {
        self.bezier_curve.clear();
        self.point_count = 0;
        self.selected_point = None;
    }
}

} // verus!
