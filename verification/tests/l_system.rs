use fractals::geometry::Line;
use fractals::geometry::Point;
use fractals::geometry::Rect;
use fractals::geometry::Rgb;
use fractals::l_system::config::check_value;
use fractals::l_system::config::Action;
use fractals::l_system::config::LSystemConfig;
use fractals::l_system::engine::add_color_delta;
use fractals::l_system::engine::layout;
use fractals::l_system::engine::Lsystem;
use fractals::l_system::engine::Stroke;
use fractals::l_system::parser::Parser;

fn system(source: &str) -> Lsystem {
    Lsystem::new(Parser::new().parse_l_system(source).unwrap(), 7)
}

fn black() -> Rgb {
    Rgb { r: 0, g: 0, b: 0 }
}

#[test]
fn rewriting_grows_the_string() {
    let mut l = system("A 90 0\nA -> AB\n");
    assert_eq!(l.cur_iter_num(), 1);
    assert_eq!(l.current_string(), "A");
    l.iter_once();
    assert_eq!(l.cur_iter_num(), 2);
    assert_eq!(l.current_string(), "AB");
    l.iter_once();
    assert_eq!(l.cur_iter_num(), 3);
    assert_eq!(l.current_string(), "ABB");
}

#[test]
fn rewriting_is_symbol_by_symbol() {
    let mut l = system("AXB 90 0\nA -> AB\nB -> A\n");
    let mut expected = String::from("AXB");
    for _ in 0..6 {
        l.iter_once();
        let mut next = String::new();
        for c in expected.chars() {
            match c {
                'A' => next.push_str("AB"),
                'B' => next.push('A'),
                other => next.push(other),
            }
        }
        assert!(next.len() >= expected.len());
        expected = next;
        assert_eq!(l.current_string(), expected);
    }
    assert_eq!(l.cur_iter_num(), 7);
}

#[test]
fn symbols_without_a_rule_stay() {
    let mut l = system("F+G 90 0\nF -> FF\n");
    l.iter_once();
    assert_eq!(l.current_string(), "FF+G");
}

#[test]
fn symbols_without_an_action_draw_nothing() {
    let l = system("XYZ 90 0\nX -> XY\n");
    assert!(l.strokes().is_empty());
    assert_eq!(l.lines(&Vec::new()), Some(Vec::new()));
}

#[test]
fn forward_draws_from_the_origin_with_the_heading() {
    let l = system("F 90 0\nF -> FORWARD 10\n");
    assert_eq!(
        l.strokes(),
        &vec![Stroke { from: None, heading: 0, length: 10_000, width: 1_000, color: black() }]
    );
    let lines = l.lines(&vec![Point { x: 10_000, y: 0 }]).unwrap();
    assert_eq!(
        lines,
        vec![Line {
            begin: Point { x: 0, y: 0 },
            end: Point { x: 10_000, y: 0 },
            width: 1_000,
            color: black()
        }]
    );
    let up = system("F 90 90\nF -> FORWARD 10\n");
    assert_eq!(up.strokes()[0].heading, 90_000);
    let lines = up.lines(&vec![Point { x: 0, y: 10_000 }]).unwrap();
    assert_eq!(lines[0].end, Point { x: 0, y: 10_000 });
}

#[test]
fn save_and_restore_bring_the_turtle_back() {
    let l = system("SFRF 90 0\nS -> SAVE\nF -> FORWARD 5\nR -> RESTORE\n");
    assert_eq!(l.strokes().len(), 2);
    assert_eq!(l.strokes()[0].from, None);
    assert_eq!(l.strokes()[1].from, None);
    let lines = l.lines(&vec![Point { x: 5_000, y: 0 }, Point { x: 5_000, y: 0 }]).unwrap();
    assert_eq!(lines.len(), 2);
    assert_eq!(lines[0].begin, Point { x: 0, y: 0 });
    assert_eq!(lines[1].begin, Point { x: 0, y: 0 });
    assert_eq!(lines[0].end, Point { x: 5_000, y: 0 });
    assert_eq!(lines[1].end, Point { x: 5_000, y: 0 });
}

#[test]
fn restore_without_save_changes_nothing() {
    let l = system("FRF 90 0\nF -> FORWARD 5\nR -> RESTORE\n");
    assert_eq!(l.strokes()[0].from, None);
    assert_eq!(l.strokes()[1].from, Some(0));
}

#[test]
fn restore_brings_back_heading_width_and_colour() {
    let l = system(
        "F[+F]F 30 10\nF -> FORWARD 2\n+ -> ROTATE +\n[ -> SAVE\n] -> RESTORE\nWIDTH = 4\nWIDTH_DELTA = -1\nCOLOR = (0, 250, 9)\nCOLOR_DELTA = (0, 10, 1)\n",
    );
    let s = l.strokes();
    assert_eq!(s.len(), 3);
    assert_eq!(
        s[0],
        Stroke {
            from: None,
            heading: 10_000,
            length: 2_000,
            width: 4_000,
            color: Rgb { r: 0, g: 250, b: 9 }
        }
    );
    assert_eq!(
        s[1],
        Stroke {
            from: Some(0),
            heading: 40_000,
            length: 2_000,
            width: 3_000,
            color: Rgb { r: 0, g: 255, b: 10 }
        }
    );
    assert_eq!(
        s[2],
        Stroke {
            from: Some(0),
            heading: 10_000,
            length: 2_000,
            width: 3_000,
            color: Rgb { r: 0, g: 255, b: 10 }
        }
    );
}

#[test]
fn headings_wrap_at_a_full_turn() {
    let l = system("-F++++F 100 0\nF -> FORWARD 1\n+ -> ROTATE +\n- -> ROTATE -\n");
    assert_eq!(l.strokes()[0].heading, 260_000);
    assert_eq!(l.strokes()[1].heading, 300_000);
    let negative = system("F 1 -90\nF -> FORWARD 1\n");
    assert_eq!(negative.strokes()[0].heading, 270_000);
    let large = system("F 1 725.5\nF -> FORWARD 1\n");
    assert_eq!(large.strokes()[0].heading, 5_500);
}

#[test]
fn width_never_falls_under_one_unit() {
    let l = system("FFFF 1 0\nF -> FORWARD 1\nWIDTH = 2.5\nWIDTH_DELTA = -1\n");
    let widths: Vec<i64> = l.strokes().iter().map(|s| s.width).collect();
    assert_eq!(widths, vec![2_500, 1_500, 1_000, 1_000]);
    let thin = system("FF 1 0\nF -> FORWARD 1\nWIDTH = 0.5\n");
    let widths: Vec<i64> = thin.strokes().iter().map(|s| s.width).collect();
    assert_eq!(widths, vec![500, 1_000]);
}

#[test]
fn colour_moves_only_upwards_and_stops_when_full() {
    let delta = Rgb { r: 100, g: 0, b: 1 };
    assert_eq!(add_color_delta(Rgb { r: 0, g: 7, b: 254 }, delta), Rgb { r: 100, g: 7, b: 255 });
    assert_eq!(add_color_delta(Rgb { r: 200, g: 7, b: 255 }, delta), Rgb { r: 255, g: 7, b: 255 });
    assert_eq!(add_color_delta(Rgb { r: 255, g: 0, b: 0 }, delta), Rgb { r: 255, g: 0, b: 1 });
    assert_eq!(
        add_color_delta(Rgb { r: 1, g: 2, b: 3 }, Rgb { r: 0, g: 0, b: 0 }),
        Rgb { r: 1, g: 2, b: 3 }
    );
}

#[test]
fn random_actions_stay_in_their_ranges() {
    for seed in 0..20u64 {
        let config = Parser::new()
            .parse_l_system("F+F+F+F 90 0\nF -> FORWARD RANDOM 5 6\n+ -> ROTATE RANDOM +10\n")
            .unwrap();
        let l = Lsystem::new(config, seed);
        let mut least = 0i64;
        let mut greatest = 0i64;
        for s in l.strokes() {
            assert!(5_000 <= s.length && s.length <= 6_000);
            assert!(least <= s.heading && s.heading <= greatest);
            least += 80_000;
            greatest += 100_000;
        }
        assert_eq!(l.strokes().len(), 4);
    }
}

#[test]
fn the_same_seed_draws_the_same() {
    let source = "F+F+F 90 0\nF -> FORWARD RANDOM 1 1000\n+ -> ROTATE RANDOM +45\nF -> F+F\n";
    let mut a = system(source);
    let mut b = system(source);
    a.iter_once();
    b.iter_once();
    assert_eq!(a.strokes(), b.strokes());
}

#[test]
fn a_degenerate_range_draws_its_only_value() {
    let l = system("F 90 0\nF -> FORWARD RANDOM 3 3\n");
    assert_eq!(l.strokes()[0].length, 3_000);
}

#[test]
fn layout_follows_the_tree_of_strokes() {
    let stroke = |from| Stroke { from, heading: 0, length: 1, width: 9, color: black() };
    let strokes = vec![stroke(None), stroke(Some(0)), stroke(Some(0)), stroke(Some(2))];
    let steps = vec![
        Point { x: 1, y: 1 },
        Point { x: 10, y: 0 },
        Point { x: 0, y: -10 },
        Point { x: 100, y: 100 },
    ];
    let lines = layout(&strokes, &steps).unwrap();
    let ends: Vec<(Point, Point)> = lines.iter().map(|l| (l.begin, l.end)).collect();
    assert_eq!(
        ends,
        vec![
            (Point { x: 0, y: 0 }, Point { x: 1, y: 1 }),
            (Point { x: 1, y: 1 }, Point { x: 11, y: 1 }),
            (Point { x: 1, y: 1 }, Point { x: 1, y: -9 }),
            (Point { x: 1, y: -9 }, Point { x: 101, y: 91 }),
        ]
    );
    assert_eq!(lines[3].width, 9);
}

#[test]
fn layout_needs_one_step_for_each_stroke() {
    let strokes = vec![Stroke { from: None, heading: 0, length: 1, width: 1, color: black() }];
    assert_eq!(layout(&strokes, &Vec::new()), None);
    assert_eq!(layout(&strokes, &vec![Point { x: 0, y: 0 }, Point { x: 0, y: 0 }]), None);
}

#[test]
fn layout_stays_on_the_plane() {
    let far = 0x1_0000_0000_0000i64;
    let stroke = |from| Stroke { from, heading: 0, length: 1, width: 1, color: black() };
    let strokes = vec![stroke(None), stroke(Some(0))];
    assert!(layout(&strokes, &vec![Point { x: far, y: 0 }, Point { x: -1, y: 0 }]).is_some());
    assert_eq!(layout(&strokes, &vec![Point { x: far, y: 0 }, Point { x: 1, y: 0 }]), None);
    assert_eq!(layout(&strokes, &vec![Point { x: 0, y: i64::MAX }, Point { x: 0, y: i64::MAX }]), None);
    assert_eq!(layout(&strokes, &vec![Point { x: 0, y: i64::MIN }, Point { x: 0, y: 0 }]), None);
}

#[test]
fn a_configuration_can_be_built_by_hand() {
    let mut config = LSystemConfig::new("FG".chars().collect(), 45_000);
    config.set_rule('F', "FG".chars().collect());
    config.set_action('F', Action::Forward(1_500));
    config.set_action('G', Action::Rotate(-45_000));
    config.set_width(2_000);
    config.set_width_delta(500);
    config.set_color(Rgb { r: 1, g: 2, b: 3 });
    config.set_color_delta(Rgb { r: 0, g: 0, b: 5 });
    let mut l = Lsystem::new(config, 0);
    l.iter_once();
    assert_eq!(l.current_string(), "FGG");
    assert_eq!(l.config().rule('F'), Some("FG".to_string()));
    assert_eq!(
        l.strokes(),
        &vec![Stroke {
            from: None,
            heading: 45_000,
            length: 1_500,
            width: 2_000,
            color: Rgb { r: 1, g: 2, b: 3 }
        }]
    );
}

#[test]
fn drawing_fits_the_laid_out_lines() {
    let l = system("F+F 90 0\nF -> FORWARD 10\n+ -> ROTATE +\nWIDTH = 2\n");
    let area = Rect { min: Point { x: 0, y: 0 }, max: Point { x: 900_000, y: 600_000 } };
    let steps = vec![Point { x: 10_000, y: 0 }, Point { x: 0, y: 10_000 }];
    let drawn = l.draw(&steps, area, 50_000).unwrap();
    assert_eq!(drawn.len(), 2);
    assert_eq!(drawn[0].begin, Point { x: 200_000, y: 50_000 });
    assert_eq!(drawn[0].end, Point { x: 700_000, y: 50_000 });
    assert_eq!(drawn[1].begin, Point { x: 700_000, y: 50_000 });
    assert_eq!(drawn[1].end, Point { x: 700_000, y: 550_000 });
    assert_eq!(drawn[0].width, 2_000);
    assert_eq!(l.draw(&Vec::new(), area, 0), None);
    let nothing = system("X 90 0\n");
    assert_eq!(nothing.draw(&Vec::new(), area, 0), Some(Vec::new()));
}

#[test]
fn random_actions_take_many_values_of_their_ranges() {
    let mut lengths = Vec::new();
    let mut headings = Vec::new();
    for seed in 0..40u64 {
        let config = Parser::new()
            .parse_l_system("+F 90 0\nF -> FORWARD RANDOM 1 1000\n+ -> ROTATE RANDOM +90\n")
            .unwrap();
        let l = Lsystem::new(config, seed);
        let stroke = l.strokes()[0];
        assert!(1_000 <= stroke.length && stroke.length <= 1_000_000);
        assert!(0 <= stroke.heading && stroke.heading <= 180_000);
        if !lengths.contains(&stroke.length) {
            lengths.push(stroke.length);
        }
        if !headings.contains(&stroke.heading) {
            headings.push(stroke.heading);
        }
    }
    assert!(lengths.len() > 20);
    assert!(headings.len() > 20);
    assert!(lengths.iter().any(|v| *v != 1_000 && *v != 1_000_000));
    assert!(headings.iter().any(|v| *v != 0 && *v != 180_000));
}

fn steps_of(strokes: &[Stroke]) -> Vec<Point> {
    strokes
        .iter()
        .map(|stroke| {
            let angle = (stroke.heading as f64 / 1000.0).to_radians();
            let length = stroke.length as f64;
            Point {
                x: (length * angle.cos()).round() as i64,
                y: (length * angle.sin()).round() as i64,
            }
        })
        .collect()
}

#[test]
fn forward_ends_where_heading_and_length_say() {
    let east = system("F 90 0\nF -> FORWARD 10\n");
    let lines = east.lines(&steps_of(east.strokes())).unwrap();
    assert_eq!(lines.len(), 1);
    assert_eq!(lines[0].begin, Point { x: 0, y: 0 });
    assert!((lines[0].end.x - 10_000).abs() <= 1 && lines[0].end.y.abs() <= 1);

    let north = system("F 90 90\nF -> FORWARD 10\n");
    let lines = north.lines(&steps_of(north.strokes())).unwrap();
    assert!(lines[0].end.x.abs() <= 1 && (lines[0].end.y - 10_000).abs() <= 1);

    let turned = system("F+F 90 0\nF -> FORWARD 10\n+ -> ROTATE +\n");
    let lines = turned.lines(&steps_of(turned.strokes())).unwrap();
    assert!((lines[1].end.x - 10_000).abs() <= 1 && (lines[1].end.y - 10_000).abs() <= 1);
}

#[test]
fn values_and_actions_are_checked() {
    let most = 0x400_0000_0000i64;
    assert!(check_value(most) && check_value(-most) && check_value(0));
    assert!(!check_value(most + 1) && !check_value(-most - 1) && !check_value(i64::MIN));
    assert!(Action::Forward(-most).check());
    assert!(!Action::Forward(most + 1).check());
    assert!(Action::ForwardRandom(3, 3).check());
    assert!(!Action::ForwardRandom(4, 3).check());
    assert!(!Action::ForwardRandom(0, most + 1).check());
    assert!(Action::Rotate(most).check());
    assert!(!Action::Rotate(i64::MAX).check());
    assert!(Action::RotateRandom(-5, 5).check());
    assert!(!Action::RotateRandom(5, -5).check());
    assert!(!Action::RotateRandom(-most - 1, 0).check());
    assert!(Action::Save.check() && Action::Restore.check());
}
