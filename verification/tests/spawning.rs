use stick_snake::fixed::{ONE, UNIT};
use stick_snake::intersection::Point;
use stick_snake::rotation::Rotation;
use stick_snake::segment::{Membership, Segment};
use stick_snake::spawn::{add_line, add_spawn_timer, random_line, set_spawn_timer, spawn_sticks};
use stick_snake::spawn::{Placement, Spawner};
use stick_snake::spawn::{FULL_TURN, SPAWN_BOUND, SPAWN_LENGTH_END, SPAWN_LENGTH_MIN};
use stick_snake::world::World;

fn line(x: i64) -> Segment {
    Segment::new(Point { x, y: 0 }, 100 * UNIT, Rotation::identity()).unwrap()
}

#[test]
fn spawn_ranges_are_those_of_the_world() {
    assert_eq!(SPAWN_BOUND, 5000 * UNIT);
    assert_eq!(SPAWN_LENGTH_MIN, 100 * UNIT);
    assert_eq!(SPAWN_LENGTH_END, 500 * UNIT);
    assert_eq!(FULL_TURN, 360000000);
}

#[test]
fn random_lines_lie_in_range() {
    for _ in 0..2000 {
        let placement = random_line();
        assert!(-SPAWN_BOUND <= placement.center.x && placement.center.x < SPAWN_BOUND);
        assert!(-SPAWN_BOUND <= placement.center.y && placement.center.y < SPAWN_BOUND);
        assert!(SPAWN_LENGTH_MIN <= placement.length && placement.length < SPAWN_LENGTH_END);
        assert!(0 <= placement.angle && placement.angle < FULL_TURN);
    }
}

#[test]
fn random_lines_differ() {
    let first = random_line();
    let mut lengths = 0;
    let mut places = 0;
    let mut angles = 0;
    for _ in 0..200 {
        let next = random_line();
        if next.length != first.length {
            lengths += 1;
        }
        if next.center != first.center {
            places += 1;
        }
        if next.angle != first.angle {
            angles += 1;
        }
    }
    assert!(lengths > 100);
    assert!(places > 100);
    assert!(angles > 100);
}

#[test]
fn placement_gives_a_free_segment() {
    let placement = Placement { center: Point { x: -5, y: 6 }, length: SPAWN_LENGTH_MIN, angle: 90000000 };
    let heading = Rotation::new(0, ONE).unwrap();
    let segment = placement.segment(heading);
    assert_eq!(
        segment,
        Segment {
            center: Point { x: -5, y: 6 },
            length: SPAWN_LENGTH_MIN,
            heading,
            membership: Membership::Free,
        }
    );
    assert!(segment.is_valid());
}

#[test]
fn first_line_is_added() {
    let mut world = World::new();
    let mut spawner = Spawner::new();
    assert_eq!(spawner, Spawner { remaining: 0, candidate: None });
    add_line(&mut world, &mut spawner, line(1));
    assert_eq!(world.segments.len(), 2);
    assert_eq!(world.segments[1], line(1));
    assert_eq!(spawner.candidate, Some(1));
}

#[test]
fn free_line_is_replaced() {
    let mut world = World::new();
    let mut spawner = Spawner::new();
    add_line(&mut world, &mut spawner, line(1));
    add_line(&mut world, &mut spawner, line(2));
    add_line(&mut world, &mut spawner, line(3));
    assert_eq!(world.segments.len(), 2);
    assert_eq!(world.segments[1], line(3));
    assert_eq!(spawner.candidate, Some(1));
    assert!(world.is_valid());
}

#[test]
fn absorbed_line_is_kept() {
    let mut world = World::new();
    let mut spawner = Spawner::new();
    add_line(&mut world, &mut spawner, line(1));
    world.segments[1].membership = Membership::Chain;
    let kept = world.segments[1];
    add_line(&mut world, &mut spawner, line(2));
    assert_eq!(world.segments.len(), 3);
    assert_eq!(world.segments[1], kept);
    assert_eq!(world.segments[2], line(2));
    assert_eq!(spawner.candidate, Some(2));
    add_line(&mut world, &mut spawner, line(3));
    assert_eq!(world.segments.len(), 3);
    assert_eq!(world.segments[2], line(3));
}

#[test]
fn leader_is_never_replaced() {
    let mut world = World::new();
    let leader = world.segments[0];
    let mut spawner = Spawner { remaining: 0, candidate: Some(0) };
    add_line(&mut world, &mut spawner, line(1));
    assert_eq!(world.segments, vec![leader, line(1)]);
    assert_eq!(spawner.candidate, Some(1));
    let mut stale = Spawner { remaining: 0, candidate: Some(9) };
    add_line(&mut world, &mut stale, line(2));
    assert_eq!(world.segments, vec![leader, line(1), line(2)]);
    assert_eq!(stale.candidate, Some(2));
}

#[test]
fn timer_runs_down() {
    let mut spawner = Spawner::new();
    set_spawn_timer(&mut spawner, 5);
    assert_eq!(spawner.remaining, 5000);
    assert!(!spawn_sticks(&mut spawner, 0));
    assert!(!spawn_sticks(&mut spawner, 4999));
    assert_eq!(spawner.remaining, 1);
    assert!(spawn_sticks(&mut spawner, 1));
    assert_eq!(spawner.remaining, 0);
    set_spawn_timer(&mut spawner, 2000);
    assert_eq!(spawner.remaining, 2000000);
    assert!(spawn_sticks(&mut spawner, u32::MAX));
    assert_eq!(spawner.remaining, 0);
    assert!(spawn_sticks(&mut spawner, 0));
}

#[test]
fn random_delays_lie_in_range() {
    let mut spawner = Spawner { remaining: 0, candidate: Some(3) };
    let mut seen = std::collections::BTreeSet::new();
    for _ in 0..500 {
        add_spawn_timer(&mut spawner);
        assert!(1000 <= spawner.remaining && spawner.remaining < 2000000);
        assert_eq!(spawner.remaining % 1000, 0);
        assert_eq!(spawner.candidate, Some(3));
        seen.insert(spawner.remaining);
    }
    assert!(seen.len() > 100);
}
