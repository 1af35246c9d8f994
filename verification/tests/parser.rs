use fractals::geometry::Rgb;
use fractals::l_system::config::Action;
use fractals::l_system::config::LSystemConfig;
use fractals::l_system::parser::LParseErr;
use fractals::l_system::parser::parse_header;
use fractals::l_system::parser::parse_statement;
use fractals::l_system::parser::Parser;

fn value(line: usize, expected: &str, got: &str) -> LParseErr {
    LParseErr::UnexpectedValue(line, expected.to_string(), got.to_string())
}

fn number(line: usize, token: &str) -> LParseErr {
    LParseErr::InvalidNumber(line, token.to_string())
}

fn failure(source: &str) -> LParseErr {
    match Parser::new().parse_l_system(source) {
        Ok(_) => panic!("the text was accepted"),
        Err(e) => e,
    }
}

#[test]
fn parses_a_plant() {
    let source = "X 22.5 90\nX -> F-[[X]+X]+F[+FX]-X\nF -> FF\nF -> FORWARD 10\n+ -> ROTATE +\n- -> ROTATE -\n[ -> SAVE\n] -> RESTORE\nWIDTH = 3\nWIDTH_DELTA = -0.25\nCOLOR = (10, 120, 30)\nCOLOR_DELTA = [1,2,3]\n";
    let mut parser = Parser::new();
    let config = parser.parse_l_system(source).unwrap();
    assert_eq!(parser.line_number(), 12);
    assert_eq!(config.start(), "X");
    assert_eq!(config.angle(), 90_000);
    assert_eq!(config.rule('X'), Some("F-[[X]+X]+F[+FX]-X".to_string()));
    assert_eq!(config.rule('F'), Some("FF".to_string()));
    assert_eq!(config.rule('+'), None);
    assert_eq!(config.action('F'), Some(Action::Forward(10_000)));
    assert_eq!(config.action('+'), Some(Action::Rotate(22_500)));
    assert_eq!(config.action('-'), Some(Action::Rotate(-22_500)));
    assert_eq!(config.action('['), Some(Action::Save));
    assert_eq!(config.action(']'), Some(Action::Restore));
    assert_eq!(config.action('X'), None);
    assert_eq!(config.width(), 3_000);
    assert_eq!(config.width_delta(), -250);
    assert_eq!(config.color(), Rgb { r: 10, g: 120, b: 30 });
    assert_eq!(config.color_delta(), Rgb { r: 1, g: 2, b: 3 });
}

#[test]
fn defaults_when_nothing_is_set() {
    let config = Parser::new().parse_l_system("AB 60 0").unwrap();
    assert_eq!(config.start(), "AB");
    assert_eq!(config.angle(), 0);
    assert_eq!(config.width(), 1_000);
    assert_eq!(config.width_delta(), 0);
    assert_eq!(config.color(), Rgb { r: 0, g: 0, b: 0 });
    assert_eq!(config.color_delta(), Rgb { r: 0, g: 0, b: 0 });
    assert_eq!(config.rule('A'), None);
    assert_eq!(config.action('A'), None);
}

#[test]
fn a_later_rule_replaces_an_earlier_one() {
    let config = Parser::new().parse_l_system("A 1 0\nA -> AB\nA -> BA\n").unwrap();
    assert_eq!(config.rule('A'), Some("BA".to_string()));
}

#[test]
fn first_line_needs_three_fields() {
    assert_eq!(failure(""), LParseErr::UnexpectedValuesAmount(1, 3, 0));
    assert_eq!(failure("F 90"), LParseErr::UnexpectedValuesAmount(1, 3, 2));
    assert_eq!(failure("F 90 0 7\nF -> FF"), LParseErr::UnexpectedValuesAmount(1, 3, 4));
    assert_eq!(failure("\nF 90 0"), LParseErr::UnexpectedValuesAmount(1, 3, 0));
}

#[test]
fn first_line_numbers_must_be_numbers() {
    assert_eq!(failure("F ninety 0"), number(1, "ninety"));
    assert_eq!(failure("F 90 1e3"), number(1, "1e3"));
    assert_eq!(failure("F 90 ."), number(1, "."));
    assert_eq!(failure("F 1000000001 0"), number(1, "1000000001"));
}

#[test]
fn a_line_is_a_rule_an_action_or_a_setting() {
    assert_eq!(
        failure("F 90 0\nhello"),
        value(2, "<правило> | <действие> | <присвоение>", "hello")
    );
    assert_eq!(
        failure("F 90 0\nF -> FF\n\nF -> FORWARD 1"),
        value(3, "<правило> | <действие> | <присвоение>", "")
    );
}

#[test]
fn the_parser_stops_at_the_failing_line() {
    let mut parser = Parser::new();
    assert!(parser.parse_l_system("F 90 0\nF -> FF\nbad\nF -> FORWARD 1").is_err());
    assert_eq!(parser.line_number(), 3);
    assert!(parser.parse_l_system("F 90 0\nF -> FF").is_ok());
    assert_eq!(parser.line_number(), 2);
    assert!(parser.parse_l_system("F 90").is_err());
    assert_eq!(parser.line_number(), 1);
}

#[test]
fn a_rule_line_has_one_arrow_and_one_symbol() {
    assert_eq!(failure("F 90 0\nF -> A -> B"), LParseErr::UnexpectedValuesAmount(2, 3, 3));
    assert_eq!(failure("F 90 0\nFG -> A"), value(2, "<одиночный символ>", "FG"));
    assert_eq!(failure("F 90 0\n -> A"), value(2, "<одиночный символ>", ""));
    assert_eq!(
        failure("F 90 0\nF ->   "),
        value(2, "<строка над алфавитом> | <операция>", "''")
    );
}

#[test]
fn a_symbol_may_be_any_one_character() {
    let config = Parser::new().parse_l_system("я 90 0\nя -> яя\nя -> FORWARD 2").unwrap();
    assert_eq!(config.rule('я'), Some("яя".to_string()));
    assert_eq!(config.action('я'), Some(Action::Forward(2_000)));
}

#[test]
fn a_replacement_is_taken_as_it_stands() {
    let config = Parser::new().parse_l_system("F 90 0\nF ->  F + = XFORWARD 1  \n").unwrap();
    assert_eq!(config.rule('F'), Some("F + = XFORWARD 1".to_string()));
    assert_eq!(config.action('F'), None);
}

#[test]
fn forward_takes_a_length() {
    let config = Parser::new().parse_l_system("F 90 0\nF -> FORWARD 12.5\nG->FORWARD7").unwrap();
    assert_eq!(config.action('F'), Some(Action::Forward(12_500)));
    assert_eq!(config.action('G'), Some(Action::Forward(7_000)));
    assert_eq!(failure("F 90 0\nF -> FORWARD"), value(2, "<длина>", "''"));
    assert_eq!(failure("F 90 0\nF -> FORWARD far"), number(2, "far"));
    assert_eq!(failure("F 90 0\nF -> FORWARD 1 2"), number(2, "1 2"));
}

#[test]
fn forward_random_takes_a_range() {
    let config = Parser::new().parse_l_system("F 90 0\nF -> FORWARD RANDOM 5 10.5").unwrap();
    assert_eq!(config.action('F'), Some(Action::ForwardRandom(5_000, 10_500)));
    assert_eq!(
        failure("F 90 0\nF -> FORWARD RANDOM 5"),
        value(2, "<начало диапазона> <конец диапазона>", "5")
    );
    assert_eq!(
        failure("F 90 0\nF -> FORWARD RANDOM 5 6 7"),
        value(2, "<начало диапазона> <конец диапазона>", "5 6 7")
    );
    assert_eq!(
        failure("F 90 0\nF -> FORWARD RANDOM 10 5"),
        value(2, "<начало диапазона> <конец диапазона>", "10 5")
    );
    assert_eq!(failure("F 90 0\nF -> FORWARD RANDOM a 6"), number(2, "a"));
    assert_eq!(failure("F 90 0\nF -> FORWARD RANDOM 5 b"), number(2, "b"));
}

#[test]
fn rotate_takes_the_unit_angle_with_a_sign() {
    let config = Parser::new()
        .parse_l_system("F 30 0\na -> ROTATE\nb -> ROTATE +\nc -> ROTATE -\nd -> ROTATE x")
        .unwrap();
    assert_eq!(config.action('a'), Some(Action::Rotate(30_000)));
    assert_eq!(config.action('b'), Some(Action::Rotate(30_000)));
    assert_eq!(config.action('c'), Some(Action::Rotate(-30_000)));
    assert_eq!(config.action('d'), Some(Action::Rotate(30_000)));
    assert_eq!(failure("F 30 0\na -> ROTATE +-"), value(2, "+ | -", "+-"));
}

#[test]
fn rotate_random_spreads_around_the_unit_angle() {
    let config = Parser::new()
        .parse_l_system("F 30 0\na -> ROTATE RANDOM +5\nb -> ROTATE RANDOM -5\nc -> ROTATE RANDOM 2.5")
        .unwrap();
    assert_eq!(config.action('a'), Some(Action::RotateRandom(25_000, 35_000)));
    assert_eq!(config.action('b'), Some(Action::RotateRandom(-35_000, -25_000)));
    assert_eq!(config.action('c'), Some(Action::RotateRandom(27_500, 32_500)));
    assert_eq!(failure("F 30 0\na -> ROTATE RANDOM"), value(2, "(- | + ) <отклонение>", "''"));
    assert_eq!(failure("F 30 0\na -> ROTATE RANDOM +"), value(2, "<отклонение>", "''"));
    assert_eq!(failure("F 30 0\na -> ROTATE RANDOM - -5"), value(2, "<отклонение>", "-5"));
    assert_eq!(failure("F 30 0\na -> ROTATE RANDOM +x"), number(2, "x"));
}

#[test]
fn save_and_restore_take_nothing() {
    assert_eq!(failure("F 30 0\n[ -> SAVE 1"), value(2, "''", "1"));
    assert_eq!(failure("F 30 0\n[ -> SAVE\n] -> RESTORE now"), value(3, "''", "now"));
}

#[test]
fn a_setting_names_a_known_variable() {
    assert_eq!(
        failure("F 30 0\nHEIGHT = 4"),
        value(2, "WIDTH | WIDTH_DELTA | COLOR | COLOR_DELTA", "HEIGHT")
    );
    assert_eq!(failure("F 30 0\nWIDTH = 4 = 5"), LParseErr::UnexpectedValuesAmount(2, 3, 3));
    assert_eq!(failure("F 30 0\nWIDTH = wide"), number(2, "wide"));
    assert_eq!(failure("F 30 0\nWIDTH ="), number(2, ""));
}

#[test]
fn a_colour_has_three_channels() {
    assert_eq!(failure("F 30 0\nCOLOR = (1,2)"), value(2, "(r, g, b)", "(1,2)"));
    assert_eq!(failure("F 30 0\nCOLOR = (1,2,3,4)"), value(2, "(r, g, b)", "(1,2,3,4)"));
    assert_eq!(failure("F 30 0\nCOLOR = 7"), value(2, "(r, g, b)", "7"));
    assert_eq!(failure("F 30 0\nCOLOR = (1,256,3)"), number(2, "256"));
    assert_eq!(failure("F 30 0\nCOLOR = (1,2,-3)"), number(2, "-3"));
    assert_eq!(failure("F 30 0\nCOLOR_DELTA = (1,,3)"), number(2, ""));
    let config = Parser::new().parse_l_system("F 30 0\nCOLOR = < 255 , +0 , 007 >").unwrap();
    assert_eq!(config.color(), Rgb { r: 255, g: 0, b: 7 });
}

#[test]
fn carriage_returns_are_white_space() {
    let config = Parser::new().parse_l_system("F 30 0\r\nF -> FF\r\nWIDTH = 2\r\n").unwrap();
    assert_eq!(config.rule('F'), Some("FF".to_string()));
    assert_eq!(config.width(), 2_000);
}

#[test]
fn symbols_are_listed_once_in_the_order_of_their_first_line() {
    let config = Parser::new()
        .parse_l_system("X 1 0\nF -> FF\n+ -> ROTATE +\nF -> FORWARD 1\nX -> F+X\n+ -> ROTATE -\nWIDTH = 2\n")
        .unwrap();
    assert_eq!(config.symbols(), &vec!['F', '+', 'X']);
    assert!(Parser::new().parse_l_system("X 1 0").unwrap().symbols().is_empty());
}

#[test]
fn keywords_are_stripped_as_often_as_they_stand() {
    let config = Parser::new()
        .parse_l_system("F 30 0\nF -> FORWARDFORWARD 5\nG -> FORWARD RANDOMRANDOM 1 2\n[ -> SAVESAVE\n")
        .unwrap();
    assert_eq!(config.action('F'), Some(Action::Forward(5_000)));
    assert_eq!(config.action('G'), Some(Action::ForwardRandom(1_000, 2_000)));
    assert_eq!(config.action('['), Some(Action::Save));
}

#[test]
fn random_anywhere_asks_for_a_range() {
    assert_eq!(failure("F 30 0\nF -> FORWARD 5 RANDOM"), number(2, "RANDOM"));
    assert_eq!(failure("F 30 0\nF -> FORWARD 5RANDOM"), value(2, "<начало диапазона> <конец диапазона>", "5RANDOM"));
    assert_eq!(failure("F 30 0\nF -> SAVEX"), value(2, "''", "X"));
}

#[test]
fn an_arrow_goes_before_an_equals_sign() {
    let config = Parser::new().parse_l_system("F 30 0\nF -> A=B\n= -> FORWARD 1\n").unwrap();
    assert_eq!(config.rule('F'), Some("A=B".to_string()));
    assert_eq!(config.action('='), Some(Action::Forward(1_000)));
}

#[test]
fn the_first_line_can_be_read_alone() {
    let line: Vec<char> = " F+F  -7.5 360 ".chars().collect();
    assert_eq!(parse_header(&line, 9), Ok(("F+F".chars().collect(), -7_500, 360_000)));
    let short: Vec<char> = "F 1".chars().collect();
    assert_eq!(parse_header(&short, 9), Err(LParseErr::UnexpectedValuesAmount(9, 3, 2)));
}

#[test]
fn a_line_can_be_read_alone() {
    let mut config = LSystemConfig::new("F".chars().collect(), 0);
    let rule: Vec<char> = "F -> F+F".chars().collect();
    let turn: Vec<char> = "+ -> ROTATE -".chars().collect();
    let bad: Vec<char> = "WIDTH = x".chars().collect();
    assert_eq!(parse_statement(&rule, 60_000, 2, &mut config), Ok(()));
    assert_eq!(parse_statement(&turn, 60_000, 3, &mut config), Ok(()));
    assert_eq!(parse_statement(&bad, 60_000, 4, &mut config), Err(number(4, "x")));
    assert_eq!(config.rule('F'), Some("F+F".to_string()));
    assert_eq!(config.action('+'), Some(Action::Rotate(-60_000)));
    assert_eq!(config.width(), 1_000);
    assert_eq!(config.symbols(), &vec!['F', '+']);
}
