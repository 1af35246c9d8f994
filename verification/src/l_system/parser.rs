//! The text format of an L-system and the parser that reads it.
//!
//! The first line holds the axiom, the turning angle and the initial heading.
//! Every further line is a rule or an action (`symbol -> ...`) or the setting
//! of a variable (`NAME = value`). What each text means is stated by the spec
//! functions of this module; `Parser::parse_l_system` is proved to return
//! exactly that.

use vstd::prelude::*;
use crate::geometry::Rgb;
use crate::l_system::config::Action;
use crate::l_system::config::LSystemConfig;
use crate::l_system::config::LSystemModel;
use crate::l_system::config::is_value;
use crate::l_system::config::noted;
use crate::number::byte;
use crate::number::decimal;
use crate::number::parse_byte;
use crate::number::parse_decimal;
use crate::number::DECIMAL_MAX;
use crate::text::chars_of;
use crate::text::contains;
use crate::text::contains_seq;
use crate::text::count_occurrences;
use crate::text::count_seq;
use crate::text::find_seq;
use crate::text::first_occurrence;
use crate::text::lines_of;
use crate::text::split_char;
use crate::text::split_lines;
use crate::text::split_on;
use crate::text::split_words;
use crate::text::starts_with;
use crate::text::matches_at;
use crate::text::string_of;
use crate::text::strip_all;
use crate::text::strip_prefixes;
use crate::text::subvec;
use crate::text::trim;
use crate::text::trimmed;
use crate::text::views;
use crate::text::words;
use crate::text::lemma_first_occurrence;

verus! {

/// Why a text is not an L-system. Each variant begins with the number of the
/// line, counted from one.
#[derive(Debug, PartialEq, Eq)]
pub enum LParseErr {
    /// The line has another number of parts than expected: line, expected,
    /// found.
    UnexpectedValuesAmount(usize, usize, usize),
    /// A part of the line is not what the grammar asks for there: line, what
    /// was expected, what was found.
    UnexpectedValue(usize, String, String),
    /// A part that must be a number is none, or is too large: line, the part.
    InvalidNumber(usize, String),
}

/// `LParseErr` as mathematics.
pub enum LParseErrView {
    UnexpectedValuesAmount(int, int, int),
    UnexpectedValue(int, Seq<char>, Seq<char>),
    InvalidNumber(int, Seq<char>),
}

impl View for LParseErr {
    type V = LParseErrView;

    open spec fn view(&self) -> LParseErrView {
        match self {
            LParseErr::UnexpectedValuesAmount(n, e, g) => LParseErrView::UnexpectedValuesAmount(
                *n as int,
                *e as int,
                *g as int,
            ),
            LParseErr::UnexpectedValue(n, e, g) => LParseErrView::UnexpectedValue(
                *n as int,
                e@,
                g@,
            ),
            LParseErr::InvalidNumber(n, t) => LParseErrView::InvalidNumber(*n as int, t@),
        }
    }
}

/// What the first line says.
pub struct Header {
    pub start: Seq<char>,
    pub unit: int,
    pub heading: int,
}

/// What a further line says.
pub enum Statement {
    Rule(char, Seq<char>),
    Act(char, Action),
    Width(int),
    WidthDelta(int),
    Color(Rgb),
    ColorDelta(Rgb),
}

/// The first line: exactly three words, the second and third of them numbers.
#[verifier::opaque]
pub open spec fn header(line: Seq<char>, n: int) -> Result<Header, LParseErrView> {
    let w = words(line);
    if w.len() != 3 {
        Err(LParseErrView::UnexpectedValuesAmount(n, 3, w.len() as int))
    } else {
        match decimal(w[1]) {
            None => Err(LParseErrView::InvalidNumber(n, w[1])),
            Some(unit) => match decimal(w[2]) {
                None => Err(LParseErrView::InvalidNumber(n, w[2])),
                Some(heading) => Ok(Header { start: w[0], unit, heading }),
            },
        }
    }
}

/// What stands behind a keyword: the text without the keyword's copies at
/// its start and without the white space around the rest.
pub open spec fn after(text: Seq<char>, keyword: Seq<char>) -> Seq<char> {
    trimmed(strip_prefixes(text, keyword))
}

/// `FORWARD <length>` and `FORWARD RANDOM <least> <greatest>`.
#[verifier::opaque]
pub open spec fn forward(rv: Seq<char>, n: int) -> Result<Action, LParseErrView> {
    if contains_seq(rv, "RANDOM"@) {
        let rest = after(after(rv, "FORWARD"@), "RANDOM"@);
        let w = words(rest);
        if w.len() != 2 {
            Err(
                LParseErrView::UnexpectedValue(
                    n,
                    "<начало диапазона> <конец диапазона>"@,
                    rest,
                ),
            )
        } else {
            match decimal(w[0]) {
                None => Err(LParseErrView::InvalidNumber(n, w[0])),
                Some(least) => match decimal(w[1]) {
                    None => Err(LParseErrView::InvalidNumber(n, w[1])),
                    Some(greatest) => if least > greatest {
                        Err(
                            LParseErrView::UnexpectedValue(
                                n,
                                "<начало диапазона> <конец диапазона>"@,
                                rest,
                            ),
                        )
                    } else {
                        Ok(Action::ForwardRandom(least as i64, greatest as i64))
                    },
                },
            }
        }
    } else {
        let rest = after(rv, "FORWARD"@);
        if rest.len() == 0 {
            Err(LParseErrView::UnexpectedValue(n, "<длина>"@, "''"@))
        } else {
            match decimal(rest) {
                None => Err(LParseErrView::InvalidNumber(n, rest)),
                Some(length) => Ok(Action::Forward(length as i64)),
            }
        }
    }
}

/// `ROTATE`, `ROTATE +`, `ROTATE -` and `ROTATE RANDOM <sign><spread>`. The
/// turn is the unit angle with the sign; a random turn is drawn from the
/// spread to both sides of it.
#[verifier::opaque]
pub open spec fn rotate(rv: Seq<char>, unit: int, n: int) -> Result<Action, LParseErrView> {
    if contains_seq(rv, "RANDOM"@) {
        let rest = after(after(rv, "ROTATE"@), "RANDOM"@);
        let negative = contains_seq(rest, "-"@);
        let spread = after(
            rest,
            if negative {
                "-"@
            } else {
                "+"@
            },
        );
        let turn = if negative {
            -unit
        } else {
            unit
        };
        if rest.len() == 0 {
            Err(LParseErrView::UnexpectedValue(n, "(- | + ) <отклонение>"@, "''"@))
        } else if spread.len() == 0 {
            Err(LParseErrView::UnexpectedValue(n, "<отклонение>"@, "''"@))
        } else {
            match decimal(spread) {
                None => Err(LParseErrView::InvalidNumber(n, spread)),
                Some(d) => if d < 0 {
                    Err(LParseErrView::UnexpectedValue(n, "<отклонение>"@, spread))
                } else {
                    Ok(Action::RotateRandom((turn - d) as i64, (turn + d) as i64))
                },
            }
        }
    } else {
        let rest = after(rv, "ROTATE"@);
        if rest.len() > 1 {
            Err(LParseErrView::UnexpectedValue(n, "+ | -"@, rest))
        } else if contains_seq(rest, "-"@) {
            Ok(Action::Rotate((-unit) as i64))
        } else {
            Ok(Action::Rotate(unit as i64))
        }
    }
}

/// `SAVE` and `RESTORE`: nothing may follow the keyword.
pub open spec fn bare(rv: Seq<char>, keyword: Seq<char>, action: Action, n: int) -> Result<
    Action,
    LParseErrView,
> {
    let rest = after(rv, keyword);
    if rest.len() != 0 {
        Err(LParseErrView::UnexpectedValue(n, "''"@, rest))
    } else {
        Ok(action)
    }
}

/// The right side of `symbol -> ...` where it begins with a keyword;
/// `None` where it begins with none, and so is a replacement string.
#[verifier::opaque]
pub open spec fn operation(rv: Seq<char>, unit: int, n: int) -> Option<
    Result<Action, LParseErrView>,
> {
    if starts_with(rv, "FORWARD"@) {
        Some(forward(rv, n))
    } else if starts_with(rv, "ROTATE"@) {
        Some(rotate(rv, unit, n))
    } else if starts_with(rv, "SAVE"@) {
        Some(bare(rv, "SAVE"@, Action::Save, n))
    } else if starts_with(rv, "RESTORE"@) {
        Some(bare(rv, "RESTORE"@, Action::Restore, n))
    } else {
        None
    }
}

/// A line that holds `->`: one symbol to the left, and to the right an
/// operation or, failing that, a replacement string taken as it stands.
#[verifier::opaque]
pub open spec fn rule_or_action(line: Seq<char>, unit: int, n: int) -> Result<
    Statement,
    LParseErrView,
> {
    let parts = count_occurrences(line, "->"@) + 1;
    let k = first_occurrence(line, "->"@);
    let lv = trimmed(line.take(k as int));
    let rv = trimmed(line.skip((k + 2) as int));
    if parts != 2 {
        Err(LParseErrView::UnexpectedValuesAmount(n, 3, parts as int))
    } else if lv.len() != 1 {
        Err(LParseErrView::UnexpectedValue(n, "<одиночный символ>"@, lv))
    } else if rv.len() == 0 {
        Err(
            LParseErrView::UnexpectedValue(
                n,
                "<строка над алфавитом> | <операция>"@,
                "''"@,
            ),
        )
    } else {
        match operation(rv, unit, n) {
            Some(Ok(action)) => Ok(Statement::Act(lv[0], action)),
            Some(Err(e)) => Err(e),
            None => Ok(Statement::Rule(lv[0], rv)),
        }
    }
}

/// A colour: some opening character, three channels between commas, some
/// closing character.
#[verifier::opaque]
pub open spec fn color(rv: Seq<char>, n: int) -> Result<Rgb, LParseErrView> {
    let parts = split_char(rv.subrange(1, rv.len() - 1), ',');
    if rv.len() < 2 || parts.len() != 3 {
        Err(LParseErrView::UnexpectedValue(n, "(r, g, b)"@, rv))
    } else {
        match byte(trimmed(parts[0])) {
            None => Err(LParseErrView::InvalidNumber(n, trimmed(parts[0]))),
            Some(r) => match byte(trimmed(parts[1])) {
                None => Err(LParseErrView::InvalidNumber(n, trimmed(parts[1]))),
                Some(g) => match byte(trimmed(parts[2])) {
                    None => Err(LParseErrView::InvalidNumber(n, trimmed(parts[2]))),
                    Some(b) => Ok(Rgb { r: r as u8, g: g as u8, b: b as u8 }),
                },
            },
        }
    }
}

/// A line that holds `=` and no `->`: a variable's name to the left, its
/// value to the right.
#[verifier::opaque]
pub open spec fn assignment(line: Seq<char>, n: int) -> Result<Statement, LParseErrView> {
    let parts = count_occurrences(line, "="@) + 1;
    let k = first_occurrence(line, "="@);
    let lv = trimmed(line.take(k as int));
    let rv = trimmed(line.skip((k + 1) as int));
    if parts != 2 {
        Err(LParseErrView::UnexpectedValuesAmount(n, 3, parts as int))
    } else if lv == "WIDTH"@ || lv == "WIDTH_DELTA"@ {
        match decimal(rv) {
            None => Err(LParseErrView::InvalidNumber(n, rv)),
            Some(v) => if lv == "WIDTH"@ {
                Ok(Statement::Width(v))
            } else {
                Ok(Statement::WidthDelta(v))
            },
        }
    } else if lv == "COLOR"@ || lv == "COLOR_DELTA"@ {
        match color(rv, n) {
            Err(e) => Err(e),
            Ok(c) => if lv == "COLOR"@ {
                Ok(Statement::Color(c))
            } else {
                Ok(Statement::ColorDelta(c))
            },
        }
    } else {
        Err(
            LParseErrView::UnexpectedValue(
                n,
                "WIDTH | WIDTH_DELTA | COLOR | COLOR_DELTA"@,
                lv,
            ),
        )
    }
}

/// What a line after the first says, or why it says nothing.
#[verifier::opaque]
pub open spec fn statement(line: Seq<char>, unit: int, n: int) -> Result<
    Statement,
    LParseErrView,
> {
    if contains_seq(line, "->"@) {
        rule_or_action(line, unit, n)
    } else if contains_seq(line, "="@) {
        assignment(line, n)
    } else {
        Err(
            LParseErrView::UnexpectedValue(
                n,
                "<правило> | <действие> | <присвоение>"@,
                line,
            ),
        )
    }
}

/// The system after a statement: a rule or an action replaces an earlier one
/// of the same symbol, whose symbol is put on the list of symbols; a setting
/// replaces the value set before.
pub open spec fn apply(m: LSystemModel, st: Statement) -> LSystemModel {
    match st {
        Statement::Rule(c, s) => LSystemModel {
            rules: m.rules.insert(c, s),
            symbols: noted(m.symbols, c),
            ..m
        },
        Statement::Act(c, a) => LSystemModel {
            actions: m.actions.insert(c, a),
            symbols: noted(m.symbols, c),
            ..m
        },
        Statement::Width(v) => LSystemModel { width: v, ..m },
        Statement::WidthDelta(v) => LSystemModel { width_delta: v, ..m },
        Statement::Color(c) => LSystemModel { color: c, ..m },
        Statement::ColorDelta(c) => LSystemModel { color_delta: c, ..m },
    }
}

/// The lines from index `i` on, applied in order to `m`; the first line that
/// fails ends the reading with its error.
pub open spec fn body(lines: Seq<Seq<char>>, i: int, unit: int, m: LSystemModel) -> Result<
    LSystemModel,
    LParseErrView,
>
    decreases lines.len() - i,
{
    if i < 0 || i >= lines.len() {
        Ok(m)
    } else {
        match statement(lines[i], unit, i + 1) {
            Err(e) => Err(e),
            Ok(st) => body(lines, i + 1, unit, apply(m, st)),
        }
    }
}

/// What a whole text means: the L-system it describes, or the first error.
pub open spec fn parse(source: Seq<char>) -> Result<LSystemModel, LParseErrView> {
    let lines = split_lines(source);
    match header(lines[0], 1) {
        Err(e) => Err(e),
        Ok(h) => body(lines, 1, h.unit, LSystemModel::plain(h.start, h.heading)),
    }
}

/// The number of lines that were read when the reading of `lines` ended:
/// all of them, or those up to the first that fails.
pub open spec fn lines_read(lines: Seq<Seq<char>>, i: int, unit: int) -> int
    decreases lines.len() - i,
{
    if i < 0 || i >= lines.len() {
        i
    } else {
        match statement(lines[i], unit, i + 1) {
            Err(e) => i + 1,
            Ok(st) => lines_read(lines, i + 1, unit),
        }
    }
}

/// Whether an executable result says what the grammar says.
pub open spec fn agrees<T>(r: Result<T, LParseErr>, m: Result<T, LParseErrView>) -> bool {
    match (r, m) {
        (Ok(a), Ok(b)) => a == b,
        (Err(e), Err(f)) => e@ == f,
        _ => false,
    }
}

fn value_error(n: usize, expected: &str, got: &Vec<char>) -> (e: LParseErr)
    ensures
        e@ == LParseErrView::UnexpectedValue(n as int, expected@, got@),
{
    LParseErr::UnexpectedValue(n, expected.to_string(), string_of(got))
}

fn number_error(n: usize, token: &Vec<char>) -> (e: LParseErr)
    ensures
        e@ == LParseErrView::InvalidNumber(n as int, token@),
{
    LParseErr::InvalidNumber(n, string_of(token))
}

fn tail(text: &Vec<char>, keyword: &str) -> (r: Vec<char>)
    ensures
        r@ == after(text@, keyword@),
{
    let k = chars_of(keyword);
    let stripped = strip_all(text, &k);
    trim(&stripped)
}

fn holds(text: &Vec<char>, part: &str) -> (r: bool)
    ensures
        r == contains_seq(text@, part@),
{
    let p = chars_of(part);
    contains(text, &p)
}

fn begins(text: &Vec<char>, part: &str) -> (r: bool)
    ensures
        r == starts_with(text@, part@),
{
    let p = chars_of(part);
    matches_at(text, &p, 0)
}

fn is_text(text: &Vec<char>, other: &str) -> (r: bool)
    ensures
        r == (text@ == other@),
{
    let p = chars_of(other);
    crate::text::same_chars(text, &p)
}

/// Reads the first line.
pub fn parse_header(line: &Vec<char>, n: usize) -> (r: Result<(Vec<char>, i64, i64), LParseErr>)
    ensures
        match header(line@, n as int) {
            Ok(h) => r matches Ok(t) && t.0@ == h.start && t.1 == h.unit && t.2 == h.heading
                && -DECIMAL_MAX <= t.1 <= DECIMAL_MAX && -DECIMAL_MAX <= t.2 <= DECIMAL_MAX,
            Err(e) => r matches Err(x) && x@ == e,
        },
{
    proof {
        reveal(header);
    }
    let w = split_words(line);
    assert(w@.len() == views(w@).len());
    if w.len() != 3 {
        return Err(LParseErr::UnexpectedValuesAmount(n, 3, w.len()));
    }
    assert(views(w@)[0] == w@[0]@);
    assert(views(w@)[1] == w@[1]@);
    assert(views(w@)[2] == w@[2]@);
    let unit = match parse_decimal(&w[1]) {
        None => {
            return Err(number_error(n, &w[1]));
        },
        Some(v) => v,
    };
    let heading = match parse_decimal(&w[2]) {
        None => {
            return Err(number_error(n, &w[2]));
        },
        Some(v) => v,
    };
    let start = subvec(&w[0], 0, w[0].len());
    assert(start@ == w@[0]@);
    Ok((start, unit, heading))
}

fn parse_forward(rv: &Vec<char>, n: usize) -> (r: Result<Action, LParseErr>)
    ensures
        agrees(r, forward(rv@, n as int)),
        r matches Ok(a) ==> a.wf(),
{
    proof {
        reveal(forward);
    }
    if holds(rv, "RANDOM") {
        let first = tail(rv, "FORWARD");
        let rest = tail(&first, "RANDOM");
        let w = split_words(&rest);
        assert(w@.len() == views(w@).len());
        if w.len() != 2 {
            return Err(value_error(n, "<начало диапазона> <конец диапазона>", &rest));
        }
        assert(views(w@)[0] == w@[0]@);
        assert(views(w@)[1] == w@[1]@);
        let least = match parse_decimal(&w[0]) {
            None => {
                return Err(number_error(n, &w[0]));
            },
            Some(v) => v,
        };
        let greatest = match parse_decimal(&w[1]) {
            None => {
                return Err(number_error(n, &w[1]));
            },
            Some(v) => v,
        };
        if least > greatest {
            return Err(value_error(n, "<начало диапазона> <конец диапазона>", &rest));
        }
        Ok(Action::ForwardRandom(least, greatest))
    } else {
        let rest = tail(rv, "FORWARD");
        if rest.len() == 0 {
            let none = chars_of("''");
            return Err(value_error(n, "<длина>", &none));
        }
        match parse_decimal(&rest) {
            None => Err(number_error(n, &rest)),
            Some(length) => Ok(Action::Forward(length)),
        }
    }
}

fn parse_rotate(rv: &Vec<char>, unit: i64, n: usize) -> (r: Result<Action, LParseErr>)
    requires
        -DECIMAL_MAX <= unit <= DECIMAL_MAX,
    ensures
        agrees(r, rotate(rv@, unit as int, n as int)),
        r matches Ok(a) ==> a.wf(),
{
    proof {
        reveal(rotate);
    }
    if holds(rv, "RANDOM") {
        let first = tail(rv, "ROTATE");
        let rest = tail(&first, "RANDOM");
        let negative = holds(&rest, "-");
        let spread = if negative {
            tail(&rest, "-")
        } else {
            tail(&rest, "+")
        };
        let turn: i64 = if negative {
            -unit
        } else {
            unit
        };
        if rest.len() == 0 {
            let none = chars_of("''");
            return Err(value_error(n, "(- | + ) <отклонение>", &none));
        }
        if spread.len() == 0 {
            let none = chars_of("''");
            return Err(value_error(n, "<отклонение>", &none));
        }
        match parse_decimal(&spread) {
            None => Err(number_error(n, &spread)),
            Some(d) => {
                if d < 0 {
                    Err(value_error(n, "<отклонение>", &spread))
                } else {
                    Ok(Action::RotateRandom(turn - d, turn + d))
                }
            },
        }
    } else {
        let rest = tail(rv, "ROTATE");
        if rest.len() > 1 {
            return Err(value_error(n, "+ | -", &rest));
        }
        if holds(&rest, "-") {
            Ok(Action::Rotate(-unit))
        } else {
            Ok(Action::Rotate(unit))
        }
    }
}

fn parse_bare(rv: &Vec<char>, keyword: &str, action: Action, n: usize) -> (r: Result<
    Action,
    LParseErr,
>)
    ensures
        agrees(r, bare(rv@, keyword@, action, n as int)),
        r matches Ok(a) ==> a == action,
{
    let rest = tail(rv, keyword);
    if rest.len() != 0 {
        return Err(value_error(n, "''", &rest));
    }
    Ok(action)
}

fn parse_operation(rv: &Vec<char>, unit: i64, n: usize) -> (r: Option<Result<Action, LParseErr>>)
    requires
        -DECIMAL_MAX <= unit <= DECIMAL_MAX,
    ensures
        match operation(rv@, unit as int, n as int) {
            None => r is None,
            Some(m) => r matches Some(x) && agrees(x, m),
        },
        r matches Some(Ok(a)) ==> a.wf(),
{
    proof {
        reveal(operation);
    }
    if begins(rv, "FORWARD") {
        Some(parse_forward(rv, n))
    } else if begins(rv, "ROTATE") {
        Some(parse_rotate(rv, unit, n))
    } else if begins(rv, "SAVE") {
        Some(parse_bare(rv, "SAVE", Action::Save, n))
    } else if begins(rv, "RESTORE") {
        Some(parse_bare(rv, "RESTORE", Action::Restore, n))
    } else {
        None
    }
}

fn parse_color(rv: &Vec<char>, n: usize) -> (r: Result<Rgb, LParseErr>)
    ensures
        agrees(r, color(rv@, n as int)),
{
    proof {
        reveal(color);
    }
    if rv.len() < 2 {
        return Err(value_error(n, "(r, g, b)", rv));
    }
    let inner = subvec(rv, 1, rv.len() - 1);
    let parts = split_on(&inner, ',');
    assert(parts@.len() == views(parts@).len());
    if parts.len() != 3 {
        return Err(value_error(n, "(r, g, b)", rv));
    }
    assert(views(parts@)[0] == parts@[0]@);
    assert(views(parts@)[1] == parts@[1]@);
    assert(views(parts@)[2] == parts@[2]@);
    let red = trim(&parts[0]);
    let green = trim(&parts[1]);
    let blue = trim(&parts[2]);
    let r = match parse_byte(&red) {
        None => {
            return Err(number_error(n, &red));
        },
        Some(v) => v,
    };
    let g = match parse_byte(&green) {
        None => {
            return Err(number_error(n, &green));
        },
        Some(v) => v,
    };
    let b = match parse_byte(&blue) {
        None => {
            return Err(number_error(n, &blue));
        },
        Some(v) => v,
    };
    Ok(Rgb { r, g, b })
}

fn parse_rule_or_action(line: &Vec<char>, unit: i64, n: usize, config: &mut LSystemConfig) -> (r:
    Result<(), LParseErr>)
    requires
        old(config).wf(),
        -DECIMAL_MAX <= unit <= DECIMAL_MAX,
        contains_seq(line@, "->"@),
        line.len() < usize::MAX,
    ensures
        match rule_or_action(line@, unit as int, n as int) {
            Ok(st) => r is Ok && final(config)@ == apply(old(config)@, st),
            Err(e) => r matches Err(x) && x@ == e && final(config)@ == old(config)@,
        },
        final(config).wf(),
{
    proof {
        reveal(rule_or_action);
    }
    let arrow = chars_of("->");
    proof {
        reveal_strlit("->");
        assert(line@.skip(0) == line@);
        lemma_first_occurrence(line@, "->"@);
    }
    let count = count_seq(line, &arrow);
    let k = find_seq(line, &arrow, 0);
    let left = subvec(line, 0, k);
    let right = subvec(line, k + 2, line.len());
    assert(left@ == line@.take(k as int));
    assert(right@ == line@.skip(k + 2));
    let lv = trim(&left);
    let rv = trim(&right);
    if count != 1 {
        return Err(LParseErr::UnexpectedValuesAmount(n, 3, count + 1));
    }
    if lv.len() != 1 {
        return Err(value_error(n, "<одиночный символ>", &lv));
    }
    if rv.len() == 0 {
        let none = chars_of("''");
        return Err(value_error(n, "<строка над алфавитом> | <операция>", &none));
    }
    match parse_operation(&rv, unit, n) {
        Some(Ok(action)) => {
            config.set_action(lv[0], action);
            Ok(())
        },
        Some(Err(e)) => Err(e),
        None => {
            config.set_rule(lv[0], rv);
            Ok(())
        },
    }
}

fn parse_assignment(line: &Vec<char>, n: usize, config: &mut LSystemConfig) -> (r: Result<
    (),
    LParseErr,
>)
    requires
        old(config).wf(),
        contains_seq(line@, "="@),
        line.len() < usize::MAX,
    ensures
        match assignment(line@, n as int) {
            Ok(st) => r is Ok && final(config)@ == apply(old(config)@, st),
            Err(e) => r matches Err(x) && x@ == e && final(config)@ == old(config)@,
        },
        final(config).wf(),
{
    proof {
        reveal(assignment);
    }
    let sign = chars_of("=");
    proof {
        reveal_strlit("=");
        assert(line@.skip(0) == line@);
        lemma_first_occurrence(line@, "="@);
    }
    let count = count_seq(line, &sign);
    let k = find_seq(line, &sign, 0);
    let left = subvec(line, 0, k);
    let right = subvec(line, k + 1, line.len());
    assert(left@ == line@.take(k as int));
    assert(right@ == line@.skip(k + 1));
    let lv = trim(&left);
    let rv = trim(&right);
    if count != 1 {
        return Err(LParseErr::UnexpectedValuesAmount(n, 3, count + 1));
    }
    let width = is_text(&lv, "WIDTH");
    if width || is_text(&lv, "WIDTH_DELTA") {
        match parse_decimal(&rv) {
            None => Err(number_error(n, &rv)),
            Some(v) => {
                if width {
                    config.set_width(v);
                } else {
                    config.set_width_delta(v);
                }
                Ok(())
            },
        }
    } else {
        let color = is_text(&lv, "COLOR");
        if color || is_text(&lv, "COLOR_DELTA") {
            match parse_color(&rv, n) {
                Err(e) => Err(e),
                Ok(c) => {
                    if color {
                        config.set_color(c);
                    } else {
                        config.set_color_delta(c);
                    }
                    Ok(())
                },
            }
        } else {
            Err(value_error(n, "WIDTH | WIDTH_DELTA | COLOR | COLOR_DELTA", &lv))
        }
    }
}

/// Reads a line after the first and applies what it says to `config`, which
/// an error leaves as it was. `unit` is the turning angle of the first line,
/// `n` the line's number.
pub fn parse_statement(line: &Vec<char>, unit: i64, n: usize, config: &mut LSystemConfig) -> (r:
    Result<(), LParseErr>)
    requires
        old(config).wf(),
        -DECIMAL_MAX <= unit <= DECIMAL_MAX,
        line.len() < usize::MAX,
    ensures
        match statement(line@, unit as int, n as int) {
            Ok(st) => r is Ok && final(config)@ == apply(old(config)@, st),
            Err(e) => r matches Err(x) && x@ == e && final(config)@ == old(config)@,
        },
        final(config).wf(),
{
    proof {
        reveal(statement);
    }
    if holds(line, "->") {
        parse_rule_or_action(line, unit, n, config)
    } else if holds(line, "=") {
        parse_assignment(line, n, config)
    } else {
        Err(value_error(n, "<правило> | <действие> | <присвоение>", line))
    }
}

/// The reader of L-system texts. It remembers how many lines it has read.
pub struct Parser {
    cur_line: usize,
}

impl Parser {
    /// A parser that has read no line.
    pub fn new() -> (p: Parser)
        ensures
            p.cur_line() == 0,
    {
        Parser { cur_line: 0 }
    }

    /// The number of the line read last, zero before the first reading.
    pub closed spec fn cur_line(&self) -> int {
        self.cur_line as int
    }

    /// The number of the line read last.
    pub fn line_number(&self) -> (n: usize)
        ensures
            n == self.cur_line(),
    {
        self.cur_line
    }

    /// Reads the description of an L-system.
    ///
    /// Returns the system that `parse` gives for this text, or the error that
    /// it gives. Lines are counted from one in every call; afterwards the
    /// parser stands at the last line it read.
    pub fn parse_l_system(&mut self, source: &str) -> (r: Result<LSystemConfig, LParseErr>)
        ensures
            match parse(source@) {
                Ok(m) => r matches Ok(c) && c@ == m && c.wf(),
                Err(e) => r matches Err(x) && x@ == e,
            },
            final(self).cur_line() == match header(split_lines(source@)[0], 1) {
                Err(e) => 1,
                Ok(h) => lines_read(split_lines(source@), 1, h.unit),
            },
    {
        let text = chars_of(source);
        let lines = lines_of(&text);
        assert(lines@.len() == views(lines@).len());
        assert(views(lines@)[0] == lines@[0]@);
        self.cur_line = 1;
        let (start, unit, heading) = match parse_header(&lines[0], 1) {
            Err(e) => {
                return Err(e);
            },
            Ok(t) => t,
        };
        let mut config = LSystemConfig::new(start, heading);
        let ghost all = split_lines(source@);
        let ghost first = LSystemModel::plain(start@, heading as int);
        let mut i: usize = 1;
        while i < lines.len()
            invariant
                1 <= i <= lines.len(),
                all == split_lines(source@),
                header(all[0], 1) matches Ok(h) && h.unit == unit && LSystemModel::plain(
                    h.start,
                    h.heading,
                ) == first,
                views(lines@) == all,
                lines@.len() == all.len(),
                forall|j: int| 1 <= j < lines.len() ==> (#[trigger] lines@[j]).len() < usize::MAX,
                config.wf(),
                -DECIMAL_MAX <= unit <= DECIMAL_MAX,
                self.cur_line == i,
                body(all, 1, unit as int, first) == body(all, i as int, unit as int, config@),
                lines_read(all, 1, unit as int) == lines_read(all, i as int, unit as int),
            decreases lines.len() - i,
        {
            assert(all[i as int] == lines@[i as int]@);
            self.cur_line = i + 1;
            match parse_statement(&lines[i], unit, i + 1, &mut config) {
                Err(e) => {
                    return Err(e);
                },
                Ok(_) => {},
            }
            i += 1;
        }
        Ok(config)
    }
}

} // verus!
