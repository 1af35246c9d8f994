use fractals::geometry::check_on_plane;
use fractals::geometry::draw_lines;
use fractals::geometry::find_rect;
use fractals::geometry::get_transform_to_fullscreen;
use fractals::geometry::Line;
use fractals::geometry::Point;
use fractals::geometry::Rect;
use fractals::geometry::Rgb;
use fractals::geometry::Transform2D;

fn p(x: i64, y: i64) -> Point {
    Point { x, y }
}

fn line(x0: i64, y0: i64, x1: i64, y1: i64) -> Line {
    Line { begin: p(x0, y0), end: p(x1, y1), width: 1000, color: Rgb { r: 0, g: 0, b: 0 } }
}

fn fit(screen: Rect, draw: Rect, margin: i64, q: Point) -> Point {
    let (scale, shift) = get_transform_to_fullscreen(screen, draw, margin);
    shift.apply_to_pos(scale.apply_to_pos(q).unwrap()).unwrap()
}

#[test]
fn no_lines_have_no_rect() {
    assert_eq!(find_rect(&Vec::new()), None);
}

#[test]
fn the_rect_is_the_smallest_around_all_ends() {
    let lines = vec![line(5, 5, -3, 9), line(0, -7, 2, 2), line(11, 0, 11, 1)];
    assert_eq!(find_rect(&lines), Some(Rect { min: p(-3, -7), max: p(11, 9) }));
}

#[test]
fn a_flat_rect_is_widened_by_one_unit() {
    assert_eq!(find_rect(&vec![line(0, 5, 10, 5)]), Some(Rect { min: p(0, 5), max: p(10, 1005) }));
    assert_eq!(find_rect(&vec![line(3, 5, 3, 9)]), Some(Rect { min: p(3, 5), max: p(1003, 9) }));
    assert_eq!(find_rect(&vec![line(3, 5, 3, 5)]), Some(Rect { min: p(3, 5), max: p(1003, 1005) }));
    let far = 0x1_0000_0000_0000i64;
    assert_eq!(
        find_rect(&vec![line(far, far, far, far)]),
        Some(Rect { min: p(far, far), max: p(far + 1000, far + 1000) })
    );
}

#[test]
fn scaling_rounds_down() {
    let half = Transform2D::uniform_scaling(1, 2);
    assert_eq!(half.apply_to_pos(p(7, -7)), Some(p(3, -4)));
    let flip = Transform2D::uniform_scaling(-3, 2);
    assert_eq!(flip.apply_to_pos(p(3, -3)), Some(p(-5, 4)));
    assert_eq!(Transform2D::uniform_scaling(0, 5).apply_to_pos(p(9, 9)), Some(p(0, 0)));
}

#[test]
fn translation_shifts() {
    let t = Transform2D::translation(10, -20);
    assert_eq!(t.apply_to_pos(p(1, 2)), Some(p(11, -18)));
}

#[test]
fn applying_off_the_plane_gives_nothing() {
    let far = 0x1_0000_0000_0000i64;
    assert_eq!(Transform2D::translation(1, 0).apply_to_pos(p(far, 0)), None);
    assert_eq!(Transform2D::translation(0, -1).apply_to_pos(p(0, -far)), None);
    assert_eq!(Transform2D::translation(0, 0).apply_to_pos(p(far, -far)), Some(p(far, -far)));
    assert_eq!(Transform2D::uniform_scaling(2, 1).apply_to_pos(p(far, 0)), None);
    assert_eq!(Transform2D::uniform_scaling(i64::MAX, 1).apply_to_pos(p(i64::MIN, i64::MAX)), None);
    let back = Transform2D::translation(-(1i128 << 100), 1i128 << 100);
    assert_eq!(back.apply_to_pos(p(i64::MAX, i64::MIN)), None);
}

#[test]
fn the_fit_takes_the_smaller_ratio_and_centres() {
    let screen = Rect { min: p(0, 0), max: p(900, 600) };
    let draw = Rect { min: p(0, 0), max: p(100, 100) };
    // free 800 x 500 around a square: the height decides, scale 5
    assert_eq!(fit(screen, draw, 50, p(0, 0)), p(200, 50));
    assert_eq!(fit(screen, draw, 50, p(100, 100)), p(700, 550));
    assert_eq!(fit(screen, draw, 50, p(50, 50)), p(450, 300));
    let wide = Rect { min: p(-200, 10), max: p(200, 30) };
    // free 900 x 600 around 400 x 20: the width decides, scale 9/4
    assert_eq!(fit(screen, wide, 0, p(-200, 10)), p(0, 278));
    assert_eq!(fit(screen, wide, 0, p(200, 30)), p(900, 323));
}

#[test]
fn the_fit_lands_corners_within_the_margin() {
    let screens = [
        Rect { min: p(0, 0), max: p(900, 600) },
        Rect { min: p(-777, 13), max: p(-70, 1013) },
        Rect { min: p(5, 5), max: p(6, 6) },
        Rect { min: p(-0x8000_0000, -0x8000_0000), max: p(0x8000_0000, 0x8000_0000) },
    ];
    let draws = [
        Rect { min: p(0, 0), max: p(1, 1) },
        Rect { min: p(-31, 7), max: p(1000, 8) },
        Rect { min: p(123_456_789, -987_654_321), max: p(123_456_796, -987_654_000) },
        Rect {
            min: p(-0x1_0000_0000_0000, -0x1_0000_0000_0000),
            max: p(0x1_0000_0000_0000, 0x1_0000_0000_0000),
        },
        Rect { min: p(0x1_0000_0000_0000 - 3, 0), max: p(0x1_0000_0000_0000, 1_000_000) },
    ];
    for screen in screens {
        for draw in draws {
            let room = (screen.max.x - screen.min.x).min(screen.max.y - screen.min.y) / 2;
            for margin in [0, room.min(1), room / 3, room] {
                let (scale, shift) = get_transform_to_fullscreen(screen, draw, margin);
                for corner in [draw.min, draw.max, p(draw.min.x, draw.max.y)] {
                    let x = corner.x as i128;
                    let y = corner.y as i128;
                    let (n, d) = if (screen.max.x - screen.min.x - 2 * margin) as i128
                        * (draw.max.y - draw.min.y) as i128
                        <= (screen.max.y - screen.min.y - 2 * margin) as i128
                            * (draw.max.x - draw.min.x) as i128
                    {
                        (
                            (screen.max.x - screen.min.x - 2 * margin) as i128,
                            (draw.max.x - draw.min.x) as i128,
                        )
                    } else {
                        (
                            (screen.max.y - screen.min.y - 2 * margin) as i128,
                            (draw.max.y - draw.min.y) as i128,
                        )
                    };
                    let sx = (x * n).div_euclid(d);
                    let sy = (y * n).div_euclid(d);
                    let lines = draw_lines(
                        &vec![
                            Line { begin: draw.min, end: draw.max, width: 1, color: Rgb { r: 0, g: 0, b: 0 } },
                            Line { begin: corner, end: corner, width: 1, color: Rgb { r: 0, g: 0, b: 0 } },
                        ],
                        screen,
                        margin,
                    );
                    let q = lines[1].begin;
                    assert!(screen.min.x + margin <= q.x && q.x <= screen.max.x - margin);
                    assert!(screen.min.y + margin <= q.y && q.y <= screen.max.y - margin);
                    if let Some(s) = scale.apply_to_pos(corner) {
                        assert_eq!((s.x as i128, s.y as i128), (sx, sy));
                        if let Some(t) = shift.apply_to_pos(s) {
                            assert_eq!(t, q);
                        }
                    }
                }
            }
        }
    }
}

#[test]
fn drawing_no_lines_draws_nothing() {
    let screen = Rect { min: p(0, 0), max: p(900, 600) };
    assert_eq!(draw_lines(&Vec::new(), screen, 10), Vec::new());
}

#[test]
fn drawing_fits_every_line_and_keeps_width_and_colour() {
    let screen = Rect { min: p(0, 0), max: p(900, 600) };
    let red = Rgb { r: 255, g: 0, b: 0 };
    let lines = vec![
        Line { begin: p(0, 0), end: p(100, 0), width: 7, color: red },
        line(100, 0, 100, 100),
        line(50, 50, 0, 100),
    ];
    let drawn = draw_lines(&lines, screen, 50);
    assert_eq!(
        drawn,
        vec![
            Line { begin: p(200, 50), end: p(700, 50), width: 7, color: red },
            line(700, 50, 700, 550),
            line(450, 300, 200, 550),
        ]
    );
}

#[test]
fn a_single_point_is_drawn_at_a_corner_of_its_unit_box() {
    let screen = Rect { min: p(0, 0), max: p(1000, 1000) };
    let drawn = draw_lines(&vec![line(5, 5, 5, 5)], screen, 0);
    assert_eq!(drawn, vec![line(0, 0, 0, 0)]);
}

#[test]
fn positions_are_checked() {
    assert!(p(0x8000_0000, -0x8000_0000).check_position());
    assert!(!p(0x8000_0001, 0).check_position());
    assert!(!p(0, -0x8000_0001).check_position());
    assert_eq!(Point::new(3, 4), p(3, 4));
}

#[test]
fn viewports_and_margins_are_checked() {
    let view = Rect { min: p(0, 0), max: p(900, 600) };
    assert!(view.check_viewport());
    assert!(Rect { min: p(5, 5), max: p(5, 5) }.check_viewport());
    assert!(!Rect { min: p(6, 5), max: p(5, 5) }.check_viewport());
    assert!(!Rect { min: p(5, 6), max: p(5, 5) }.check_viewport());
    assert!(!Rect { min: p(0, 0), max: p(0x8000_0001, 5) }.check_viewport());
    assert!(view.check_room(0));
    assert!(view.check_room(300));
    assert!(!view.check_room(301));
    assert!(!view.check_room(-1));
    assert!(!view.check_room(i64::MAX));
}

#[test]
fn lines_are_checked_for_the_plane() {
    let far = 0x1_0000_0000_0000i64;
    assert!(check_on_plane(&Vec::new()));
    assert!(check_on_plane(&vec![line(far, -far, -far, far)]));
    assert!(!check_on_plane(&vec![line(0, 0, 1, 1), line(0, 0, far + 1, 0)]));
    assert!(!check_on_plane(&vec![line(0, -far - 1, 0, 0)]));
    assert!(!check_on_plane(&vec![line(i64::MIN, 0, 0, 0)]));
}

#[test]
fn the_default_line_is_a_black_point_at_the_origin() {
    assert_eq!(
        Line::default(),
        Line { begin: p(0, 0), end: p(0, 0), width: 0, color: Rgb { r: 0, g: 0, b: 0 } }
    );
}
