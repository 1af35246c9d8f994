use fractals::bezier::BezierCurve;
use fractals::bezier::Marker;
use fractals::geometry::Line;
use fractals::geometry::Point;
use fractals::geometry::Rgb;

fn p(x: i64, y: i64) -> Point {
    Point { x, y }
}

fn curve(anchors: &[(i64, i64)]) -> BezierCurve {
    let mut c = BezierCurve::new();
    for &(x, y) in anchors {
        c.add_point(p(x, y));
    }
    c
}

#[test]
fn a_new_curve_is_empty() {
    let c = BezierCurve::new();
    assert!(c.points().is_empty());
    assert!(c.lines().is_empty());
}

#[test]
fn the_first_point_stands_alone() {
    let c = curve(&[(100, 200)]);
    assert_eq!(c.points(), &vec![p(100, 200)]);
    assert!(c.lines().is_empty());
}

#[test]
fn the_second_point_makes_a_segment() {
    let c = curve(&[(0, 0), (1000, 2000)]);
    assert_eq!(c.points(), &vec![p(0, 0), p(300, 600), p(700, 1400), p(1000, 2000)]);
    assert_eq!(c.lines().len(), 50);
}

#[test]
fn offsets_are_rounded_down() {
    let c = curve(&[(0, 0), (-7, 7)]);
    assert_eq!(c.points(), &vec![p(0, 0), p(-3, 2), p(-4, 5), p(-7, 7)]);
}

#[test]
fn further_points_smooth_the_inner_anchors() {
    let c = curve(&[(0, 0), (1000, 0), (1000, 1000)]);
    assert_eq!(
        c.points(),
        &vec![
            p(0, 0),
            p(300, 0),
            p(750, -250),
            p(1000, 0),
            p(1250, 250),
            p(1000, 700),
            p(1000, 1000)
        ]
    );
    assert_eq!(c.lines().len(), 100);
}

#[test]
fn adding_a_point_sets_moved_controls_anew() {
    let mut c = curve(&[(0, 0), (1000, 0)]);
    c.move_point(1, p(5, 5));
    assert_eq!(c.points()[1], p(5, 5));
    c.add_point(p(2000, 0));
    assert_eq!(c.points()[1], p(300, 0));
    assert_eq!(c.points()[2], p(500, 0));
    assert_eq!(c.points()[4], p(1500, 0));
    assert_eq!(c.points()[5], p(1700, 0));
}

#[test]
fn the_number_of_points_is_one_more_than_a_multiple_of_three() {
    let mut c = BezierCurve::new();
    for k in 0..12i64 {
        assert!(c.points().is_empty() || c.points().len() % 3 == 1);
        assert_eq!(c.points().len(), if k == 0 { 0 } else { 3 * (k as usize) - 2 });
        c.add_point(p(k * 1000, (k % 3) * 500));
    }
    assert_eq!(c.points().len(), 34);
    assert_eq!(c.lines().len(), 50 * 11);
}

#[test]
fn the_curve_goes_through_its_anchors() {
    let c = curve(&[(0, 0), (1000, 3000), (5000, -2000), (7000, 7000)]);
    let lines = c.lines();
    assert_eq!(lines.len(), 150);
    assert_eq!(lines[0].begin, p(0, 0));
    assert_eq!(lines[49].end, p(1000, 3000));
    assert_eq!(lines[50].begin, p(1000, 3000));
    assert_eq!(lines[99].end, p(5000, -2000));
    assert_eq!(lines[149].end, p(7000, 7000));
    for i in 1..lines.len() {
        assert_eq!(lines[i].begin, lines[i - 1].end);
    }
    for l in lines {
        assert_eq!(l.width, 2000);
        assert_eq!(l.color, Rgb { r: 0, g: 0, b: 0 });
    }
}

#[test]
fn samples_follow_the_cubic_formula() {
    let mut c = curve(&[(0, 0), (3000, 0)]);
    c.move_point(1, p(0, 3000));
    c.move_point(2, p(3000, 3000));
    let lines = c.lines();
    // t = 1/2: (p0 + 3 p1 + 3 p2 + p3) / 8
    assert_eq!(lines[24].end, p(1500, 2250));
    // t = 1/50: weights 117649, 7203, 147, 1 of 125000
    assert_eq!(lines[0].end, p(3, 176));
    assert_eq!(
        lines[0],
        Line { begin: p(0, 0), end: p(3, 176), width: 2000, color: Rgb { r: 0, g: 0, b: 0 } }
    );
}

#[test]
fn the_nearest_anchor_is_found_within_the_radius() {
    let c = curve(&[(0, 0), (1000, 0), (2000, 0)]);
    assert_eq!(c.nearest_anchor_index(p(1001, 3), 10), Some(3));
    assert_eq!(c.nearest_anchor_index(p(1990, 0), 11), Some(6));
    assert_eq!(c.nearest_anchor_index(p(1990, 0), 10), None);
    assert_eq!(c.nearest_anchor_index(p(6, 8), 10), None);
    assert_eq!(c.nearest_anchor_index(p(6, 8), 11), Some(0));
    assert_eq!(c.nearest_anchor_index(p(6, 8), -11), Some(0));
    assert_eq!(c.nearest_anchor_index(p(300, 0), 5), None);
    assert_eq!(BezierCurve::new().nearest_anchor_index(p(0, 0), 1000), None);
}

#[test]
fn of_equally_near_anchors_the_first_is_found() {
    let c = curve(&[(0, 0), (1000, 0), (2000, 0)]);
    assert_eq!(c.nearest_anchor_index(p(500, 0), 600), Some(0));
    assert_eq!(c.nearest_anchor_index(p(1500, 0), 600), Some(3));
    assert_eq!(c.nearest_anchor_index(p(1000, 0), 5000), Some(3));
}

#[test]
fn controls_are_not_found() {
    let c = curve(&[(0, 0), (1000, 0)]);
    assert_eq!(c.points()[1], p(300, 0));
    assert_eq!(c.nearest_anchor_index(p(300, 0), 100), None);
}

#[test]
fn deleting_an_inner_anchor_splices_the_curve() {
    let mut c = curve(&[(0, 0), (1000, 0), (2000, 500), (3000, 0)]);
    let before = c.points().clone();
    assert_eq!(before.len(), 10);
    c.delete_point(p(1002, 0), 10);
    let mut expected = before.clone();
    expected.drain(2..5);
    assert_eq!(c.points(), &expected);
    assert_eq!(c.points().len(), 7);
    assert_eq!(c.lines().len(), 100);
}

#[test]
fn deleting_the_first_anchor_removes_the_first_segment() {
    let mut c = curve(&[(0, 0), (1000, 0), (2000, 500), (3000, 0)]);
    let before = c.points().clone();
    c.delete_point(p(1, 1), 10);
    assert_eq!(c.points(), &before[3..].to_vec());
    assert_eq!(c.points()[0], p(1000, 0));
}

#[test]
fn deleting_the_last_anchor_removes_the_last_segment() {
    let mut c = curve(&[(0, 0), (1000, 0), (2000, 500), (3000, 0)]);
    let before = c.points().clone();
    c.delete_point(p(3000, 5), 10);
    assert_eq!(c.points(), &before[..7].to_vec());
    assert_eq!(c.lines().len(), 100);
}

#[test]
fn deleting_far_from_every_anchor_changes_nothing() {
    let mut c = curve(&[(0, 0), (1000, 0), (2000, 500)]);
    let before = c.points().clone();
    let lines = c.lines().clone();
    c.delete_point(p(500, 500), 10);
    assert_eq!(c.points(), &before);
    assert_eq!(c.lines(), &lines);
    c.delete_point(p(300, 0), 10);
    assert_eq!(c.points(), &before);
}

#[test]
fn deleting_from_two_anchors_leaves_one() {
    let mut c = curve(&[(0, 0), (1000, 0)]);
    c.delete_point(p(0, 0), 10);
    assert_eq!(c.points(), &vec![p(1000, 0)]);
    assert!(c.lines().is_empty());
}

#[test]
fn deleting_from_a_short_curve_clears_it() {
    let mut c = curve(&[(0, 0)]);
    c.delete_point(p(50_000, 50_000), 10);
    assert!(c.points().is_empty());
    assert!(c.lines().is_empty());
    c.delete_point(p(0, 0), 10);
    assert!(c.points().is_empty());
}

#[test]
fn moving_an_anchor_takes_its_controls_along() {
    let mut c = curve(&[(0, 0), (1000, 0), (2000, 500), (3000, 0)]);
    let before = c.points().clone();
    c.move_point(3, p(1100, -250));
    let after = c.points();
    for i in 0..before.len() {
        if i == 2 || i == 3 || i == 4 {
            assert_eq!(after[i], p(before[i].x + 100, before[i].y - 250));
        } else {
            assert_eq!(after[i], before[i]);
        }
    }
}

#[test]
fn moving_an_end_anchor_takes_its_one_control_along() {
    let mut c = curve(&[(0, 0), (1000, 0), (2000, 500)]);
    let before = c.points().clone();
    c.move_point(0, p(-10, -20));
    assert_eq!(c.points()[0], p(-10, -20));
    assert_eq!(c.points()[1], p(before[1].x - 10, before[1].y - 20));
    assert_eq!(c.points()[2..], before[2..]);
    let before = c.points().clone();
    c.move_point(6, p(2000, 0));
    assert_eq!(c.points()[6], p(2000, 0));
    assert_eq!(c.points()[5], p(before[5].x, before[5].y - 500));
    assert_eq!(c.points()[..5], before[..5]);
}

#[test]
fn moving_a_control_moves_it_alone() {
    let mut c = curve(&[(0, 0), (1000, 0), (2000, 500)]);
    let before = c.points().clone();
    c.move_point(4, p(-5, -5));
    for i in 0..before.len() {
        assert_eq!(c.points()[i], if i == 4 { p(-5, -5) } else { before[i] });
    }
    assert_ne!(c.lines()[50].end, c.lines()[50].begin);
}

#[test]
fn moving_a_lone_anchor() {
    let mut c = curve(&[(5, 5)]);
    c.move_point(0, p(6, 7));
    assert_eq!(c.points(), &vec![p(6, 7)]);
}

#[test]
fn moving_beyond_the_points_changes_nothing() {
    let mut c = curve(&[(0, 0), (1000, 0)]);
    let before = c.points().clone();
    c.move_point(4, p(1, 1));
    c.move_point(usize::MAX, p(1, 1));
    assert_eq!(c.points(), &before);
    let mut empty = BezierCurve::new();
    empty.move_point(0, p(1, 1));
    assert!(empty.points().is_empty());
}

#[test]
fn moving_redraws_the_curve() {
    let mut c = curve(&[(0, 0), (1000, 0)]);
    c.move_point(3, p(1000, 1000));
    assert_eq!(c.lines()[49].end, p(1000, 1000));
}

#[test]
fn clear_empties_points_and_lines() {
    let mut c = curve(&[(0, 0), (1000, 0), (2000, 500)]);
    c.clear();
    assert!(c.points().is_empty());
    assert!(c.lines().is_empty());
    c.add_point(p(1, 1));
    assert_eq!(c.points(), &vec![p(1, 1)]);
}

#[test]
fn positions_at_the_border_are_taken() {
    let far = 0x8000_0000i64;
    let mut c = curve(&[(-far, -far), (far, far), (-far, far)]);
    c.move_point(4, p(-far, -far));
    c.move_point(3, p(-far, far));
    c.move_point(3, p(far, -far));
    assert_eq!(c.lines().len(), 100);
    assert_eq!(c.nearest_anchor_index(p(far, -far), i64::MAX), Some(3));
    assert_eq!(c.nearest_anchor_index(p(far, -far), i64::MIN), Some(3));
    c.delete_point(p(far, -far), 1);
    assert_eq!(c.points().len(), 4);
}

#[test]
fn drawing_holds_the_control_polygon_and_the_curve() {
    assert!(BezierCurve::new().draw().is_empty());
    assert!(curve(&[(5, 5)]).draw().is_empty());
    let c = curve(&[(0, 0), (1000, 0), (2000, 500)]);
    let drawn = c.draw();
    assert_eq!(drawn.len(), 6 + 100);
    let grey = Rgb { r: 220, g: 220, b: 220 };
    for j in 0..6 {
        assert_eq!(
            drawn[j],
            Line { begin: c.points()[j], end: c.points()[j + 1], width: 1000, color: grey }
        );
    }
    assert_eq!(drawn[6..], c.lines()[..]);
}

#[test]
fn anchors_are_marked_green_and_controls_red() {
    let c = curve(&[(0, 0), (1000, 0)]);
    let green = Rgb { r: 0x90, g: 0xEE, b: 0x90 };
    let red = Rgb { r: 255, g: 128, b: 128 };
    assert_eq!(
        c.draw_points(),
        vec![
            Marker { center: p(0, 0), radius: 4000, color: green },
            Marker { center: p(300, 0), radius: 4000, color: red },
            Marker { center: p(700, 0), radius: 4000, color: red },
            Marker { center: p(1000, 0), radius: 4000, color: green },
        ]
    );
    assert!(BezierCurve::new().draw_points().is_empty());
}

#[test]
fn update_draws_the_same_curve_again() {
    let mut c = curve(&[(0, 0), (1000, 0), (2000, 500)]);
    let points = c.points().clone();
    let lines = c.lines().clone();
    c.update();
    assert_eq!(c.points(), &points);
    assert_eq!(c.lines(), &lines);
}

#[test]
fn the_default_curve_is_empty() {
    let c = BezierCurve::default();
    assert!(c.points().is_empty());
    assert!(c.lines().is_empty());
}
