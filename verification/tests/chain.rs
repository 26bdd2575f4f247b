use stick_snake::camera::{chain_bounds, fit_scale, sync_cameras, Bounds, Camera, Viewport};
use stick_snake::collision::{handle_collisions, touches_any};
use stick_snake::fixed::{ONE, UNIT};
use stick_snake::intersection::{Point, CENTER_MAX, LENGTH_MAX};
use stick_snake::rotation::Rotation;
use stick_snake::motion::move_velocity;
use stick_snake::segment::{Membership, Segment};
use stick_snake::tick::{planned_turn, tick};
use stick_snake::velocity::{Keys, Velocity, MAX_SPEED, RATE_MAX};
use stick_snake::world::{World, LEADER_LENGTH};

fn p(x: i64, y: i64) -> Point {
    Point { x, y }
}

fn no_keys() -> Keys {
    Keys { up: false, down: false, left: false, right: false, turn_left: false, turn_right: false }
}

fn upright() -> Rotation {
    Rotation::identity()
}

fn flat() -> Rotation {
    Rotation::new(0, ONE).unwrap()
}

fn free(x: i64, y: i64, length: i64, heading: Rotation) -> Segment {
    Segment::new(p(x, y), length, heading).expect("the segment lies in the world")
}

fn link(x: i64, y: i64, length: i64, heading: Rotation) -> Segment {
    Segment { membership: Membership::Chain, ..free(x, y, length, heading) }
}

fn memberships(world: &World) -> Vec<Membership> {
    world.segments.iter().map(|s| s.membership).collect()
}

#[test]
fn new_world_holds_its_leader() {
    let world = World::new();
    assert!(world.is_valid());
    assert_eq!(world.leader, 0);
    assert_eq!(world.segments, vec![link(0, 0, 200 * UNIT, upright())]);
    assert_eq!(LEADER_LENGTH, 200 * UNIT);
    assert_eq!(world.velocity, Velocity::new());
}

#[test]
fn world_without_a_chain_leader_is_not_valid() {
    let mut world = World::new();
    world.segments.push(free(10, 10, 100, upright()));
    assert!(world.is_valid());
    world.leader = 1;
    assert!(!world.is_valid());
    world.leader = 2;
    assert!(!world.is_valid());
    world.leader = 0;
    world.segments[1].length = 0;
    assert!(!world.is_valid());
    world.segments[1].length = 1;
    world.velocity.rotation = RATE_MAX + 1;
    assert!(!world.is_valid());
}

#[test]
fn segment_outside_the_world_is_refused() {
    assert!(Segment::new(p(CENTER_MAX, -CENTER_MAX), LENGTH_MAX, upright()).is_some());
    assert_eq!(Segment::new(p(CENTER_MAX + 1, 0), 100, upright()), None);
    assert_eq!(Segment::new(p(0, -CENTER_MAX - 1), 100, upright()), None);
    assert_eq!(Segment::new(p(0, 0), 0, upright()), None);
    assert_eq!(Segment::new(p(0, 0), -5, upright()), None);
    assert_eq!(Segment::new(p(0, 0), LENGTH_MAX + 1, upright()), None);
    assert_eq!(Segment::new(p(0, 0), 100, Rotation { cos: ONE, sin: ONE }), None);
    let s = free(3, 4, 100, upright());
    assert_eq!(s.membership, Membership::Free);
    assert!(!s.in_chain());
    assert!(link(3, 4, 100, upright()).in_chain());
}

#[test]
fn endpoints_lie_a_quarter_turn_from_the_heading() {
    let s = free(1000, 2000, 200, upright());
    assert_eq!(s.endpoints(), (p(1000, 2100), p(1000, 1900)));
    let s = free(1000, 2000, 200, flat());
    assert_eq!(s.endpoints(), (p(900, 2000), p(1100, 2000)));
}

#[test]
fn leader_alone_moves_with_its_velocity() {
    let mut world = World::new();
    world.velocity = Velocity { translation: p(6553600, -6553600), rotation: 1000 };
    assert!(move_velocity(&mut world, 500000, upright()));
    assert_eq!(world.segments[0].center, p(3276800, -3276800));
    assert_eq!(world.segments[0].heading, upright());
    assert_eq!(world.velocity, Velocity { translation: p(3440640, -3440640), rotation: 525 });
}

#[test]
fn chain_turns_about_the_leader_and_then_shifts() {
    let mut world = World::new();
    world.segments[0].center = p(100, 200);
    world.segments.push(link(1100, 200, 500, upright()));
    world.segments.push(free(1100, 200, 500, upright()));
    world.velocity = Velocity { translation: p(3000000, 0), rotation: 0 };
    assert!(move_velocity(&mut world, 1000, flat()));
    assert_eq!(world.segments[0].center, p(3100, 200));
    assert_eq!(world.segments[0].heading, flat());
    assert_eq!(world.segments[1].center, p(3100, 1200));
    assert_eq!(world.segments[1].heading, flat());
    assert_eq!(world.segments[1].length, 500);
    assert_eq!(world.segments[2], free(1100, 200, 500, upright()));
}

#[test]
fn offsets_from_the_leader_survive_translation() {
    let mut world = World::new();
    world.segments.push(link(-70000, 123456, 900, flat()));
    world.segments.push(link(5, -9, 900, upright()));
    world.velocity = Velocity { translation: p(MAX_SPEED, -MAX_SPEED / 3), rotation: 0 };
    for step in 0..500 {
        assert!(move_velocity(&mut world, 16667 + step, upright()));
        let leader = world.segments[0].center;
        assert_eq!(world.segments[1].center, p(leader.x - 70000, leader.y + 123456));
        assert_eq!(world.segments[2].center, p(leader.x + 5, leader.y - 9));
        world.velocity.translation = p(MAX_SPEED - step as i64, 77 * step as i64);
    }
    assert_ne!(world.segments[0].center, p(0, 0));
}

#[test]
fn offsets_from_the_leader_survive_rotation_up_to_rounding() {
    let mut world = World::new();
    world.segments.push(link(300 * UNIT, 400 * UNIT, 900, upright()));
    world.velocity = Velocity { translation: p(MAX_SPEED, MAX_SPEED), rotation: 0 };
    let angle = 0.75_f64.to_radians();
    let step = Rotation::new((angle.cos() * ONE as f64) as i64, (angle.sin() * ONE as f64) as i64)
        .unwrap();
    for _ in 0..480 {
        assert!(move_velocity(&mut world, 16667, step));
        world.velocity.translation = p(MAX_SPEED, MAX_SPEED);
    }
    let leader = world.segments[0];
    let member = world.segments[1];
    let dx = (member.center.x - leader.center.x) as f64;
    let dy = (member.center.y - leader.center.y) as f64;
    let distance = (dx * dx + dy * dy).sqrt();
    assert!((distance - 500.0 * UNIT as f64).abs() < 1000.0);
    // 480 steps of three quarters of a degree are a full turn
    assert!((dx - 300.0 * UNIT as f64).abs() < 2000.0);
    assert!((dy - 400.0 * UNIT as f64).abs() < 2000.0);
    assert!((leader.heading.cos - ONE).abs() < 2000);
    assert_eq!(member.heading, leader.heading);
    assert_eq!(member.length, 900);
}

#[test]
fn long_tick_turns_the_velocity_around() {
    let mut world = World::new();
    world.velocity = Velocity { translation: p(MAX_SPEED, 0), rotation: 0 };
    assert!(move_velocity(&mut world, 3000000, upright()));
    assert_eq!(world.velocity.translation, p(-24248320, 0));
    assert_eq!(world.segments[0].center, p(3 * MAX_SPEED, 0));
}

#[test]
fn chain_does_not_leave_the_world() {
    let mut world = World::new();
    world.segments[0].center = p(CENTER_MAX - 10, 0);
    world.segments.push(link(0, 0, 100, upright()));
    world.velocity = Velocity { translation: p(11000, 0), rotation: 5 };
    let before = (world.segments.clone(), world.velocity);
    assert!(!move_velocity(&mut world, 1000, upright()));
    assert_eq!((world.segments.clone(), world.velocity), before);
    world.velocity.translation = p(10000, 0);
    assert!(move_velocity(&mut world, 1000, upright()));
    assert_eq!(world.segments[0].center, p(CENTER_MAX, 0));
    assert_eq!(world.segments[1].center, p(10, 0));
}

#[test]
fn member_swung_out_of_the_world_stops_the_chain() {
    let mut world = World::new();
    world.segments[0].center = p(CENTER_MAX - 5, 0);
    world.segments.push(link(CENTER_MAX - 5, -100, 100, upright()));
    let before = world.segments.clone();
    assert!(!move_velocity(&mut world, 1000, flat()));
    assert_eq!(world.segments, before);
    assert!(move_velocity(&mut world, 1000, Rotation::new(0, -ONE).unwrap()));
    assert_eq!(world.segments[1].center, p(CENTER_MAX - 105, 0));
}

#[test]
fn velocity_out_of_range_stops_the_chain() {
    let mut world = World::new();
    world.velocity = Velocity { translation: p(RATE_MAX, 0), rotation: 0 };
    let before = world.segments.clone();
    assert!(!move_velocity(&mut world, 3000000, upright()));
    assert_eq!(world.segments, before);
    assert_eq!(world.velocity.translation, p(RATE_MAX, 0));
}

#[test]
fn free_segment_across_the_leader_is_absorbed() {
    let mut world = World::new();
    world.segments.push(free(0, 50 * UNIT, 100 * UNIT, flat()));
    world.segments.push(free(0, 150 * UNIT, 100 * UNIT, flat()));
    world.segments.push(free(60 * UNIT, 0, 100 * UNIT, flat()));
    assert!(touches_any(&world, 1));
    assert!(!touches_any(&world, 2));
    assert!(!touches_any(&world, 3));
    let shapes: Vec<Point> = world.segments.iter().map(|s| s.center).collect();
    let absorbed = handle_collisions(&mut world);
    assert_eq!(absorbed, vec![1]);
    assert_eq!(
        memberships(&world),
        vec![Membership::Chain, Membership::Chain, Membership::Free, Membership::Free]
    );
    assert_eq!(world.segments.iter().map(|s| s.center).collect::<Vec<Point>>(), shapes);
    assert!(world.is_valid());
}

#[test]
fn segment_touching_an_end_of_the_leader_is_absorbed() {
    let mut world = World::new();
    world.segments.push(free(0, 100 * UNIT, 10 * UNIT, flat()));
    world.segments.push(free(5 * UNIT, -100 * UNIT, 10 * UNIT, flat()));
    world.segments.push(free(5 * UNIT + 1, -100 * UNIT, 10 * UNIT, flat()));
    assert_eq!(handle_collisions(&mut world), vec![1, 2]);
}

#[test]
fn segment_along_the_leader_is_not_absorbed() {
    let mut world = World::new();
    world.segments.push(free(0, 50 * UNIT, 100 * UNIT, upright()));
    assert_eq!(handle_collisions(&mut world), Vec::<usize>::new());
    assert_eq!(memberships(&world), vec![Membership::Chain, Membership::Free]);
}

#[test]
fn segment_absorbed_in_a_tick_absorbs_in_the_next() {
    let mut world = World::new();
    // crosses a segment that only joins the chain in the first round
    world.segments.push(free(140 * UNIT, 0, 100 * UNIT, upright()));
    // crosses the leader
    world.segments.push(free(90 * UNIT, 0, 200 * UNIT, flat()));
    assert_eq!(handle_collisions(&mut world), vec![2]);
    assert_eq!(
        memberships(&world),
        vec![Membership::Chain, Membership::Free, Membership::Chain]
    );
    assert_eq!(handle_collisions(&mut world), vec![1]);
    assert_eq!(
        memberships(&world),
        vec![Membership::Chain, Membership::Chain, Membership::Chain]
    );
    assert_eq!(handle_collisions(&mut world), Vec::<usize>::new());
}

#[test]
fn chain_membership_is_never_lost() {
    let mut world = World::new();
    world.segments.push(free(0, 50 * UNIT, 100 * UNIT, flat()));
    world.segments.push(free(4000 * UNIT, 0, 100 * UNIT, flat()));
    let mut main = Camera { center: p(0, 0), scale: UNIT };
    let mut minimap = main;
    let viewport = Viewport { width: 1280, height: 720 };
    let keys = Keys { up: true, right: true, turn_left: true, ..no_keys() };
    let report = tick(&mut world, &mut main, &mut minimap, no_keys(), 16667, upright(), viewport);
    assert_eq!(report.absorbed, vec![1]);
    for _ in 0..300 {
        let before = memberships(&world);
        let angle = planned_turn(&world, keys, 16667) as f64 / 1e6;
        let rotation = Rotation::new(
            (angle.to_radians().cos() * ONE as f64) as i64,
            (angle.to_radians().sin() * ONE as f64) as i64,
        )
        .unwrap();
        tick(&mut world, &mut main, &mut minimap, keys, 16667, rotation, viewport);
        for (was, is) in before.iter().zip(memberships(&world)) {
            assert!(*was == Membership::Free || is == Membership::Chain);
        }
        assert!(world.is_valid());
    }
    assert_eq!(world.segments[1].membership, Membership::Chain);
}

#[test]
fn bounds_of_the_leader_alone() {
    let world = World::new();
    assert_eq!(
        chain_bounds(&world),
        Bounds { min: p(0, -100 * UNIT), max: p(0, 100 * UNIT) }
    );
}

#[test]
fn bounds_cover_the_chain_and_nothing_else() {
    let mut world = World::new();
    world.segments.insert(0, free(-900 * UNIT, -900 * UNIT, 100 * UNIT, flat()));
    world.leader = 1;
    world.segments.push(link(300 * UNIT, 50 * UNIT, 100 * UNIT, flat()));
    world.segments.push(free(900 * UNIT, 900 * UNIT, 100 * UNIT, flat()));
    world.segments.push(link(-20 * UNIT, -200 * UNIT, 40 * UNIT, upright()));
    assert_eq!(
        chain_bounds(&world),
        Bounds { min: p(-20 * UNIT, -220 * UNIT), max: p(350 * UNIT, 100 * UNIT) }
    );
}

#[test]
fn scale_fits_the_larger_ratio() {
    let viewport = Viewport { width: 1280, height: 720 };
    assert_eq!(fit_scale(0, 200 * UNIT, viewport), Some(36408));
    assert_eq!(fit_scale(200 * UNIT, 0, viewport), Some(20480));
    assert_eq!(fit_scale(200 * UNIT, 200 * UNIT, viewport), Some(36408));
    assert_eq!(fit_scale(640 * UNIT, 100 * UNIT, viewport), Some(UNIT));
    assert_eq!(fit_scale(640 * UNIT, 360 * UNIT, viewport), Some(UNIT));
    assert_eq!(fit_scale(0, 0, viewport), Some(0));
    assert_eq!(fit_scale(1, 1, viewport), Some(0));
}

#[test]
fn wider_ratio_fills_half_of_the_width() {
    let viewport = Viewport { width: 1000, height: 500 };
    let width = 3000 * UNIT;
    let height = 1000 * UNIT;
    let scale = fit_scale(width, height, viewport).unwrap();
    assert_eq!(scale, 6 * UNIT);
    // width / viewport width / scale is one half
    assert_eq!(2 * width, scale * viewport.width as i64);
    assert!(2 * height <= scale * viewport.height as i64);
}

#[test]
fn scale_is_skipped_without_a_viewport() {
    assert_eq!(fit_scale(100, 100, Viewport { width: 0, height: 720 }), None);
    assert_eq!(fit_scale(100, 100, Viewport { width: 1280, height: 0 }), None);
    assert_eq!(fit_scale(100, 100, Viewport { width: 0, height: 0 }), None);
}

#[test]
fn cameras_follow_the_chain() {
    let mut world = World::new();
    world.segments[0].center = p(1000, 2000);
    let mut main = Camera { center: p(0, 0), scale: UNIT };
    let mut minimap = Camera { center: p(7, 7), scale: 7 };
    let viewport = Viewport { width: 1280, height: 720 };
    assert!(sync_cameras(&world, &mut main, &mut minimap, viewport, 100000));
    assert_eq!(minimap, Camera { center: p(1000, 2000), scale: 50 * 36408 });
    assert_eq!(main, Camera { center: p(500, 1000), scale: 65536 - 2912 });
    assert!(sync_cameras(&world, &mut main, &mut minimap, viewport, 500000));
    assert_eq!(main.center, p(1750, 3500));
    assert_eq!(main.scale, 62624 - 13108);
}

#[test]
fn fitted_camera_stays() {
    let world = World::new();
    let mut main = Camera { center: p(0, 0), scale: 36408 };
    let mut minimap = main;
    let viewport = Viewport { width: 1280, height: 720 };
    for micros in [0, 1, 16667, 1000000, u32::MAX] {
        assert!(sync_cameras(&world, &mut main, &mut minimap, viewport, micros));
        assert_eq!(main, Camera { center: p(0, 0), scale: 36408 });
    }
}

#[test]
fn cameras_stay_without_a_viewport() {
    let world = World::new();
    let mut main = Camera { center: p(5, 6), scale: 7 };
    let mut minimap = Camera { center: p(8, 9), scale: 10 };
    assert!(!sync_cameras(&world, &mut main, &mut minimap, Viewport { width: 0, height: 9 }, 1000));
    assert!(!sync_cameras(&world, &mut main, &mut minimap, Viewport { width: 9, height: 0 }, 1000));
    assert_eq!(main, Camera { center: p(5, 6), scale: 7 });
    assert_eq!(minimap, Camera { center: p(8, 9), scale: 10 });
}

#[test]
fn camera_far_away_is_held_in_range() {
    let world = World::new();
    let mut main = Camera { center: p(i64::MIN, i64::MAX), scale: i64::MAX };
    let mut minimap = main;
    let viewport = Viewport { width: 1280, height: 720 };
    assert!(sync_cameras(&world, &mut main, &mut minimap, viewport, u32::MAX));
    assert_eq!(main.center, p(i64::MAX, i64::MIN));
    assert_eq!(main.scale, i64::MIN);
}

#[test]
fn tick_steers_moves_absorbs_and_fits_in_order() {
    let mut world = World::new();
    // one sub-unit beyond the reach of the leader before it moves
    world.segments.push(free(50 * UNIT + 1, 0, 100 * UNIT, flat()));
    let mut main = Camera { center: p(0, 0), scale: UNIT };
    let mut minimap = main;
    let viewport = Viewport { width: 1280, height: 720 };
    let keys = Keys { right: true, ..no_keys() };
    assert_eq!(planned_turn(&world, keys, 10000), 0);
    let report = tick(&mut world, &mut main, &mut minimap, keys, 10000, upright(), viewport);
    assert!(report.moved);
    assert!(report.fitted);
    assert_eq!(report.absorbed, vec![1]);
    // the push of this tick moved the leader in this tick
    assert_eq!(world.segments[0].center, p(13107, 0));
    assert_eq!(world.velocity.translation, p(1298268, 0));
    // the cameras see the chain as it has grown in this tick
    assert_eq!(minimap.center, p(50 * UNIT + 1, 0));
}

#[test]
fn planned_turn_is_the_turn_of_the_coming_tick() {
    let mut world = World::new();
    let keys = Keys { turn_left: true, ..no_keys() };
    assert_eq!(planned_turn(&world, keys, 100000), 4500000);
    world.velocity.rotation = 40000000;
    assert_eq!(planned_turn(&world, keys, 100000), 4500000);
    assert_eq!(planned_turn(&world, no_keys(), 100000), 4000000);
    assert_eq!(planned_turn(&world, Keys { turn_right: true, ..no_keys() }, 100000), -500000);
}
