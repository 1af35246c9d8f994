//! What an L-system is made of: axiom, rewrite rules, turtle actions and the
//! pen's settings.

use vstd::prelude::*;
use std::collections::HashMap;
use crate::geometry::Rgb;
use crate::number::VALUE_MAX;
use crate::number::UNIT;
use crate::text::string_of;

verus! {

/// What the turtle does at a symbol. Lengths and angles are in thousandths;
/// angles are in degrees.
#[derive(Clone, Copy, Debug, PartialEq, Eq, Structural)]
pub enum Action {
    /// Draw forward by this length.
    Forward(i64),
    /// Draw forward by a length drawn from this range, both ends included.
    ForwardRandom(i64, i64),
    /// Turn by this angle.
    Rotate(i64),
    /// Turn by an angle drawn from this range, both ends included.
    RotateRandom(i64, i64),
    /// Remember the current state.
    Save,
    /// Go back to the state remembered last.
    Restore,
}

/// Whether `v` is a number that a configuration may hold.
pub open spec fn is_value(v: int) -> bool {
    -VALUE_MAX <= v <= VALUE_MAX
}

/// Tests `is_value`.
pub fn check_value(v: i64) -> (ok: bool)
    ensures
        ok == is_value(v as int),
{
    -VALUE_MAX <= v && v <= VALUE_MAX
}

impl Action {
    /// Tests `wf`.
    pub fn check(&self) -> (ok: bool)
        ensures
            ok == self.wf(),
    {
        match self {
            Action::Forward(d) => check_value(*d),
            Action::ForwardRandom(lo, hi) => check_value(*lo) && check_value(*hi) && *lo <= *hi,
            Action::Rotate(a) => check_value(*a),
            Action::RotateRandom(lo, hi) => check_value(*lo) && check_value(*hi) && *lo <= *hi,
            Action::Save => true,
            Action::Restore => true,
        }
    }

    /// Numbers are within `VALUE_MAX`, and a range is not empty.
    pub open spec fn wf(self) -> bool {
        match self {
            Action::Forward(d) => is_value(d as int),
            Action::ForwardRandom(lo, hi) => is_value(lo as int) && is_value(hi as int) && lo <= hi,
            Action::Rotate(a) => is_value(a as int),
            Action::RotateRandom(lo, hi) => is_value(lo as int) && is_value(hi as int) && lo <= hi,
            Action::Save => true,
            Action::Restore => true,
        }
    }
}

/// An L-system as mathematics: what `LSystemConfig` stands for.
pub struct LSystemModel {
    pub start: Seq<char>,
    /// The symbols that have a rule or an action, each once, in the order in
    /// which they got their first.
    pub symbols: Seq<char>,
    pub rules: Map<char, Seq<char>>,
    pub actions: Map<char, Action>,
    pub width: int,
    pub width_delta: int,
    pub angle: int,
    pub color: Rgb,
    pub color_delta: Rgb,
}

impl LSystemModel {
    /// The numbers are within `VALUE_MAX`, every action is well formed, no
    /// rule replaces a symbol by nothing, and the list of symbols holds each
    /// symbol with a rule or an action once.
    pub open spec fn wf(self) -> bool {
        &&& is_value(self.width)
        &&& is_value(self.width_delta)
        &&& is_value(self.angle)
        &&& forall|c: char| self.actions.contains_key(c) ==> (#[trigger] self.actions[c]).wf()
        &&& forall|c: char| self.rules.contains_key(c) ==> (#[trigger] self.rules[c]).len() > 0
        &&& self.symbols.no_duplicates()
        &&& forall|c: char| #[trigger]
            self.symbols.contains(c) <==> self.rules.contains_key(c) || self.actions.contains_key(
                c,
            )
    }

    /// The system with this axiom and initial heading, nothing else set: no
    /// rule, no action, a black pen of width one that never changes.
    pub open spec fn plain(start: Seq<char>, angle: int) -> LSystemModel {
        LSystemModel {
            start,
            symbols: Seq::empty(),
            rules: Map::empty(),
            actions: Map::empty(),
            width: UNIT as int,
            width_delta: 0,
            angle,
            color: Rgb::black(),
            color_delta: Rgb::black(),
        }
    }
}

/// `symbols` with `c` at its end, unless it holds `c` already.
pub open spec fn noted(symbols: Seq<char>, c: char) -> Seq<char> {
    if symbols.contains(c) {
        symbols
    } else {
        symbols.push(c)
    }
}

/// `noted` adds `c` and nothing else, and adds it once.
pub proof fn lemma_noted(symbols: Seq<char>, c: char)
    requires
        symbols.no_duplicates(),
    ensures
        noted(symbols, c).no_duplicates(),
        forall|x: char| #[trigger] noted(symbols, c).contains(x) <==> symbols.contains(x) || x == c,
{
    let n = noted(symbols, c);
    if symbols.contains(c) {
    } else {
        assert(n[symbols.len() as int] == c);
        assert forall|x: char| #[trigger] n.contains(x) <==> symbols.contains(x) || x == c by {
            if symbols.contains(x) {
                let i = choose|i: int| 0 <= i < symbols.len() && symbols[i] == x;
                assert(n[i] == x);
            }
            if n.contains(x) {
                let i = choose|i: int| 0 <= i < n.len() && n[i] == x;
                if i < symbols.len() {
                    assert(symbols[i] == x);
                }
            }
        }
        assert forall|i: int, j: int| 0 <= i < n.len() && 0 <= j < n.len() && i != j implies n[i]
            != n[j] by {
            if i < symbols.len() && j < symbols.len() {
                assert(symbols[i] != symbols[j]);
            } else if i < symbols.len() {
                assert(symbols.contains(symbols[i]));
            } else if j < symbols.len() {
                assert(symbols.contains(symbols[j]));
            }
        }
    }
}

proof fn lemma_codes_differ(a: char, b: char)
    ensures
        a != b ==> a as u32 != b as u32,
{
}

/// The configuration of an L-system.
pub struct LSystemConfig {
    start: Vec<char>,
    symbols: Vec<char>,
    rules: HashMap<u32, Vec<char>>,
    actions: HashMap<u32, Action>,
    width: i64,
    width_delta: i64,
    angle: i64,
    color: Rgb,
    color_delta: Rgb,
}

impl View for LSystemConfig {
    type V = LSystemModel;

    closed spec fn view(&self) -> LSystemModel {
        LSystemModel {
            start: self.start@,
            symbols: self.symbols@,
            rules: Map::new(
                |c: char| self.rules@.contains_key(c as u32),
                |c: char| self.rules@[c as u32]@,
            ),
            actions: Map::new(
                |c: char| self.actions@.contains_key(c as u32),
                |c: char| self.actions@[c as u32],
            ),
            width: self.width as int,
            width_delta: self.width_delta as int,
            angle: self.angle as int,
            color: self.color,
            color_delta: self.color_delta,
        }
    }
}

impl LSystemConfig {
    /// Whether the configuration is well formed: its model is.
    pub open spec fn wf(&self) -> bool {
        self@.wf()
    }

    /// The configuration with this axiom and initial heading and nothing else
    /// set.
    pub fn new(start: Vec<char>, angle: i64) -> (c: LSystemConfig)
        requires
            is_value(angle as int),
        ensures
            c@ == LSystemModel::plain(start@, angle as int),
            c.wf(),
    {
        let c = LSystemConfig {
            start,
            symbols: Vec::new(),
            rules: HashMap::new(),
            actions: HashMap::new(),
            width: UNIT,
            width_delta: 0,
            angle,
            color: Rgb { r: 0, g: 0, b: 0 },
            color_delta: Rgb { r: 0, g: 0, b: 0 },
        };
        assert(c@.rules =~= Map::empty());
        assert(c@.actions =~= Map::empty());
        c
    }

    /// Puts `symbol` on the list of symbols, unless it stands there.
    fn note(&mut self, symbol: char)
        ensures
            final(self).symbols@ == noted(old(self).symbols@, symbol),
            final(self).start == old(self).start,
            final(self).rules == old(self).rules,
            final(self).actions == old(self).actions,
            final(self).width == old(self).width,
            final(self).width_delta == old(self).width_delta,
            final(self).angle == old(self).angle,
            final(self).color == old(self).color,
            final(self).color_delta == old(self).color_delta,
    {
        let mut i: usize = 0;
        while i < self.symbols.len()
            invariant
                i <= self.symbols.len(),
                *self == *old(self),
                forall|j: int| 0 <= j < i ==> self.symbols@[j] != symbol,
            decreases self.symbols.len() - i,
        {
            if self.symbols[i] == symbol {
                return ;
            }
            i += 1;
        }
        self.symbols.push(symbol);
    }

    /// The symbols that have a rule or an action, each once, in the order in
    /// which they got their first.
    pub fn symbols(&self) -> (s: &Vec<char>)
        ensures
            s@ == self@.symbols,
    {
        &self.symbols
    }

    /// Sets the replacement of `symbol`, in place of an earlier one.
    pub fn set_rule(&mut self, symbol: char, replacement: Vec<char>)
        requires
            old(self).wf(),
            replacement.len() > 0,
        ensures
            final(self).wf(),
            final(self)@ == (LSystemModel {
                rules: old(self)@.rules.insert(symbol, replacement@),
                symbols: noted(old(self)@.symbols, symbol),
                ..old(self)@
            }),
    {
        proof {
            lemma_noted(self.symbols@, symbol);
        }
        self.note(symbol);
        self.rules.insert(symbol as u32, replacement);
        assert(self.rules@ == old(self).rules@.insert(symbol as u32, replacement));
        assert forall|c: char|
            self@.rules.contains_key(c) == #[trigger] old(self)@.rules.insert(
                symbol,
                replacement@,
            ).contains_key(c) by {
            lemma_codes_differ(c, symbol);
        }
        assert forall|c: char| self@.rules.contains_key(c) implies #[trigger] self@.rules[c]
            == old(self)@.rules.insert(symbol, replacement@)[c] by {
            lemma_codes_differ(c, symbol);
        }
        assert(self@.rules =~= old(self)@.rules.insert(symbol, replacement@));
        assert(self@.actions =~= old(self)@.actions);
    }

    /// Sets the action of `symbol`, in place of an earlier one.
    pub fn set_action(&mut self, symbol: char, action: Action)
        requires
            old(self).wf(),
            action.wf(),
        ensures
            final(self).wf(),
            final(self)@ == (LSystemModel {
                actions: old(self)@.actions.insert(symbol, action),
                symbols: noted(old(self)@.symbols, symbol),
                ..old(self)@
            }),
    {
        proof {
            lemma_noted(self.symbols@, symbol);
        }
        self.note(symbol);
        self.actions.insert(symbol as u32, action);
        assert(self.actions@ == old(self).actions@.insert(symbol as u32, action));
        assert forall|c: char|
            self@.actions.contains_key(c) == #[trigger] old(self)@.actions.insert(
                symbol,
                action,
            ).contains_key(c) by {
            lemma_codes_differ(c, symbol);
        }
        assert forall|c: char| self@.actions.contains_key(c) implies #[trigger] self@.actions[c]
            == old(self)@.actions.insert(symbol, action)[c] by {
            lemma_codes_differ(c, symbol);
        }
        assert(self@.actions =~= old(self)@.actions.insert(symbol, action));
        assert(self@.rules =~= old(self)@.rules);
    }

    /// Sets the pen's width at the start.
    pub fn set_width(&mut self, width: i64)
        requires
            old(self).wf(),
            is_value(width as int),
        ensures
            final(self).wf(),
            final(self)@ == (LSystemModel { width: width as int, ..old(self)@ }),
    {
        self.width = width;
    }

    /// Sets by how much the pen's width changes after each line.
    pub fn set_width_delta(&mut self, width_delta: i64)
        requires
            old(self).wf(),
            is_value(width_delta as int),
        ensures
            final(self).wf(),
            final(self)@ == (LSystemModel { width_delta: width_delta as int, ..old(self)@ }),
    {
        self.width_delta = width_delta;
    }

    /// Sets the pen's colour at the start.
    pub fn set_color(&mut self, color: Rgb)
        requires
            old(self).wf(),
        ensures
            final(self).wf(),
            final(self)@ == (LSystemModel { color, ..old(self)@ }),
    {
        self.color = color;
    }

    /// Sets by how much the pen's colour changes after each line.
    pub fn set_color_delta(&mut self, color_delta: Rgb)
        requires
            old(self).wf(),
        ensures
            final(self).wf(),
            final(self)@ == (LSystemModel { color_delta, ..old(self)@ }),
    {
        self.color_delta = color_delta;
    }

    /// The axiom, as a string.
    pub fn start(&self) -> (s: String)
        ensures
            s@ == self@.start,
    {
        string_of(&self.start)
    }

    pub(crate) fn start_chars(&self) -> (v: &Vec<char>)
        ensures
            v@ == self@.start,
    {
        &self.start
    }

    /// The replacement of `symbol`, where it has a rule.
    pub(crate) fn rule_chars(&self, symbol: char) -> (r: Option<&Vec<char>>)
        ensures
            r is Some <==> self@.rules.contains_key(symbol),
            r matches Some(v) ==> v@ == self@.rules[symbol],
    {
        self.rules.get(&(symbol as u32))
    }

    /// The replacement of `symbol`, where it has a rule, as a string.
    pub fn rule(&self, symbol: char) -> (r: Option<String>)
        ensures
            r is Some <==> self@.rules.contains_key(symbol),
            r matches Some(s) ==> s@ == self@.rules[symbol],
    {
        match self.rules.get(&(symbol as u32)) {
            Some(v) => Some(string_of(v)),
            None => None,
        }
    }

    /// The action of `symbol`, where it has one.
    pub fn action(&self, symbol: char) -> (r: Option<Action>)
        ensures
            r is Some <==> self@.actions.contains_key(symbol),
            r matches Some(a) ==> a == self@.actions[symbol],
    {
        match self.actions.get(&(symbol as u32)) {
            Some(a) => Some(*a),
            None => None,
        }
    }

    /// The pen's width at the start.
    pub fn width(&self) -> (w: i64)
        ensures
            w == self@.width,
    {
        self.width
    }

    /// By how much the pen's width changes after each line.
    pub fn width_delta(&self) -> (w: i64)
        ensures
            w == self@.width_delta,
    {
        self.width_delta
    }

    /// The heading at the start, in thousandths of a degree.
    pub fn angle(&self) -> (a: i64)
        ensures
            a == self@.angle,
    {
        self.angle
    }

    /// The pen's colour at the start.
    pub fn color(&self) -> (c: Rgb)
        ensures
            c == self@.color,
    {
        self.color
    }

    /// By how much the pen's colour changes after each line.
    pub fn color_delta(&self) -> (c: Rgb)
        ensures
            c == self@.color_delta,
    {
        self.color_delta
    }
}

} // verus!
