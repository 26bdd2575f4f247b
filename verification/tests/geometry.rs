use stick_snake::fixed::{COORD_MAX, ONE};
use stick_snake::intersection::{convert_to_endpoints, lines_intersect, Point};
use stick_snake::rotation::Rotation;
use stick_snake::intersection::{CENTER_MAX, LENGTH_MAX};

fn p(x: i64, y: i64) -> Point {
    Point { x, y }
}

fn rotation_of(degrees: f64) -> Rotation {
    let angle = degrees.to_radians();
    let cos = (angle.cos() * ONE as f64) as i64;
    let sin = (angle.sin() * ONE as f64) as i64;
    Rotation::new(cos, sin).expect("a truncated unit vector is a rotation")
}

#[test]
fn endpoints_along_the_first_axis() {
    let (start, end) = convert_to_endpoints(p(1000, 2000), 200, Rotation::identity());
    assert_eq!(start, p(1100, 2000));
    assert_eq!(end, p(900, 2000));
}

#[test]
fn endpoints_along_the_second_axis() {
    let up = Rotation::new(0, ONE).unwrap();
    let (start, end) = convert_to_endpoints(p(1000, 2000), 200, up);
    assert_eq!(start, p(1000, 2100));
    assert_eq!(end, p(1000, 1900));
}

#[test]
fn endpoints_on_a_diagonal_round_toward_the_center() {
    let diagonal = Rotation::new(759250124, 759250124).unwrap();
    let (start, end) = convert_to_endpoints(p(0, 0), 200, diagonal);
    assert_eq!(start, p(70, 70));
    assert_eq!(end, p(-70, -70));
    let back = Rotation::new(-759250124, 759250124).unwrap();
    let (start, end) = convert_to_endpoints(p(5, -5), 200, back);
    assert_eq!(start, p(-65, 65));
    assert_eq!(end, p(75, -75));
}

#[test]
fn midpoint_of_the_endpoints_is_the_center() {
    let centers = [p(0, 0), p(-12345, 67890), p(CENTER_MAX, -CENTER_MAX)];
    let lengths = [1, 2, 3, 999, 6553600, LENGTH_MAX];
    for center in centers {
        for length in lengths {
            for step in 0..72 {
                let axis = rotation_of(step as f64 * 5.0);
                let (start, end) = convert_to_endpoints(center, length, axis);
                assert_eq!(start.x + end.x, 2 * center.x);
                assert_eq!(start.y + end.y, 2 * center.y);
            }
        }
    }
}

#[test]
fn separation_of_the_endpoints_is_the_length() {
    for step in 0..360 {
        let axis = rotation_of(step as f64);
        let length: i64 = 13107200;
        let (start, end) = convert_to_endpoints(p(0, 0), length, axis);
        let dx = (start.x - end.x) as f64;
        let dy = (start.y - end.y) as f64;
        let separation = (dx * dx + dy * dy).sqrt();
        assert!(separation <= length as f64);
        assert!(separation >= length as f64 - 4.0);
        let exact_x = length as i128 * axis.cos as i128;
        let got_x = (start.x - end.x) as i128 * ONE as i128;
        assert!((got_x - exact_x).abs() < 2 * ONE as i128);
    }
}

#[test]
fn crossing_segments_meet_in_the_middle() {
    let r = lines_intersect(p(0, 0), p(10, 0), p(5, -5), p(5, 5));
    assert_eq!(r, Some(p(5, 0)));
}

#[test]
fn segment_beyond_the_other_does_not_cross() {
    let r = lines_intersect(p(0, 0), p(10, 0), p(20, -5), p(20, 5));
    assert_eq!(r, None);
}

#[test]
fn shared_endpoint_is_the_crossing() {
    assert_eq!(lines_intersect(p(0, 0), p(10, 10), p(10, 10), p(20, 0)), Some(p(10, 10)));
    assert_eq!(lines_intersect(p(10, 10), p(0, 0), p(10, 10), p(20, 0)), Some(p(10, 10)));
    assert_eq!(lines_intersect(p(0, 0), p(10, 10), p(20, 0), p(10, 10)), Some(p(10, 10)));
    assert_eq!(lines_intersect(p(-7, 3), p(0, 0), p(0, 0), p(4, 9)), Some(p(0, 0)));
}

#[test]
fn endpoint_on_the_inside_of_the_other_crosses() {
    assert_eq!(lines_intersect(p(0, 0), p(10, 0), p(4, 0), p(4, 8)), Some(p(4, 0)));
}

#[test]
fn lines_that_meet_outside_both_segments_do_not_cross() {
    assert_eq!(lines_intersect(p(0, 0), p(1, 1), p(10, 0), p(9, 1)), None);
}

#[test]
fn lines_that_meet_outside_one_segment_do_not_cross() {
    assert_eq!(lines_intersect(p(0, 0), p(10, 0), p(5, 1), p(5, 5)), None);
    assert_eq!(lines_intersect(p(5, 1), p(5, 5), p(0, 0), p(10, 0)), None);
}

#[test]
fn parallel_segments_do_not_cross() {
    assert_eq!(lines_intersect(p(0, 0), p(10, 0), p(0, 1), p(10, 1)), None);
    assert_eq!(lines_intersect(p(0, 0), p(3, 4), p(1, 0), p(4, 4)), None);
}

#[test]
fn overlapping_segments_on_one_line_do_not_cross() {
    assert_eq!(lines_intersect(p(0, 0), p(10, 0), p(5, 0), p(15, 0)), None);
    assert_eq!(lines_intersect(p(0, 0), p(10, 10), p(0, 0), p(10, 10)), None);
    assert_eq!(lines_intersect(p(0, 0), p(1, 0), p(1, 0), p(2, 0)), None);
}

#[test]
fn a_segment_that_is_a_point_does_not_cross() {
    assert_eq!(lines_intersect(p(5, 0), p(5, 0), p(0, 0), p(10, 0)), None);
}

#[test]
fn crossing_off_the_grid_is_rounded_toward_zero() {
    assert_eq!(lines_intersect(p(0, 0), p(1, 1), p(0, 1), p(1, 0)), Some(p(0, 0)));
    assert_eq!(lines_intersect(p(0, 0), p(-1, -1), p(0, -1), p(-1, 0)), Some(p(0, 0)));
    assert_eq!(lines_intersect(p(0, 0), p(3, 3), p(0, 3), p(3, 0)), Some(p(1, 1)));
    assert_eq!(lines_intersect(p(0, 0), p(30, 10), p(0, 10), p(30, 0)), Some(p(15, 5)));
    assert_eq!(lines_intersect(p(-10, 0), p(10, 1), p(0, -5), p(1, 5)), Some(p(0, 0)));
}

#[test]
fn crossing_does_not_depend_on_the_order_of_the_ends() {
    let a = p(-3, -7);
    let b = p(11, 5);
    let c = p(-4, 9);
    let d = p(8, -6);
    let first = lines_intersect(a, b, c, d);
    assert!(first.is_some());
    assert_eq!(lines_intersect(b, a, c, d), first);
    assert_eq!(lines_intersect(a, b, d, c), first);
    assert_eq!(lines_intersect(c, d, a, b), first);
}

#[test]
fn segments_at_the_edge_of_the_world_cross() {
    let m = COORD_MAX;
    assert_eq!(lines_intersect(p(-m, -m), p(m, m), p(-m, m), p(m, -m)), Some(p(0, 0)));
    assert_eq!(lines_intersect(p(-m, m), p(m, m), p(m, -m), p(m, m)), Some(p(m, m)));
    assert_eq!(lines_intersect(p(-m, -m), p(m, m - 1), p(-m, m), p(m, -m)), Some(p(0, 0)));
    assert_eq!(lines_intersect(p(-m, -m), p(-m, m), p(m, -m), p(m, m)), None);
    assert!(p(m, -m).is_in_world());
    assert!(!p(m + 1, 0).is_in_world());
    assert!(!p(0, -m - 1).is_in_world());
}

#[test]
fn rotation_is_at_most_a_unit_vector() {
    assert_eq!(Rotation::new(ONE, 0), Some(Rotation { cos: ONE, sin: 0 }));
    assert_eq!(Rotation::new(0, -ONE), Some(Rotation { cos: 0, sin: -ONE }));
    assert_eq!(Rotation::new(0, 0), Some(Rotation { cos: 0, sin: 0 }));
    assert_eq!(Rotation::new(ONE, 1), None);
    assert_eq!(Rotation::new(ONE + 1, 0), None);
    assert_eq!(Rotation::new(759250125, 759250125), None);
    assert_eq!(Rotation::new(i64::MAX, i64::MIN), None);
    assert!(Rotation { cos: 759250124, sin: -759250124 }.is_valid());
    assert!(!Rotation { cos: -ONE, sin: -1 }.is_valid());
    assert_eq!(Rotation::identity(), Rotation { cos: ONE, sin: 0 });
}

#[test]
fn quarter_turn_gives_the_long_axis() {
    assert_eq!(Rotation::identity().quarter_turn(), Rotation { cos: 0, sin: ONE });
    let r = Rotation { cos: 600000000, sin: -800000000 };
    assert_eq!(r.quarter_turn(), Rotation { cos: 800000000, sin: 600000000 });
    assert_eq!(
        r.quarter_turn().quarter_turn().quarter_turn().quarter_turn(),
        r
    );
}

#[test]
fn rotation_turns_a_displacement() {
    let quarter = Rotation::new(0, ONE).unwrap();
    assert_eq!(quarter.apply(p(1000, 0)), p(0, 1000));
    assert_eq!(quarter.apply(p(0, 1000)), p(-1000, 0));
    assert_eq!(Rotation::identity().apply(p(-123, 456)), p(-123, 456));
    let half = Rotation::new(ONE / 2, 0).unwrap();
    assert_eq!(half.apply(p(3, -3)), p(1, -1));
    let big = 4 * COORD_MAX;
    assert_eq!(quarter.apply(p(big, -big)), p(big, big));
}

#[test]
fn rotations_compose() {
    let quarter = Rotation::new(0, ONE).unwrap();
    assert_eq!(quarter.compose(quarter), Rotation { cos: -ONE, sin: 0 });
    assert_eq!(Rotation::identity().compose(quarter), quarter);
    let r = rotation_of(30.0);
    let twice = r.compose(r);
    let sixty = rotation_of(60.0);
    assert!((twice.cos - sixty.cos).abs() <= 2);
    assert!((twice.sin - sixty.sin).abs() <= 2);
    assert!(twice.is_valid());
}

#[test]
fn composed_rotations_never_grow() {
    let step = rotation_of(0.75);
    let mut heading = Rotation::identity();
    for _ in 0..10000 {
        heading = step.compose(heading);
        assert!(heading.is_valid());
    }
    let norm = ((heading.cos as f64).powi(2) + (heading.sin as f64).powi(2)).sqrt();
    assert!(norm > ONE as f64 * 0.9999);
}
