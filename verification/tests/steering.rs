use stick_snake::intersection::Point;
use stick_snake::velocity::{handle_keys, Keys, Velocity};
use stick_snake::velocity::{MAX_SPEED, MAX_TURN_RATE, RATE_MAX};

fn no_keys() -> Keys {
    Keys { up: false, down: false, left: false, right: false, turn_left: false, turn_right: false }
}

fn velocity(x: i64, y: i64, rotation: i64) -> Velocity {
    Velocity { translation: Point { x, y }, rotation }
}

#[test]
fn new_velocity_is_at_rest() {
    assert_eq!(Velocity::new(), velocity(0, 0, 0));
}

#[test]
fn held_keys_push_the_velocity() {
    let mut v = Velocity::new();
    handle_keys(&mut v, Keys { up: true, ..no_keys() }, 10000);
    assert_eq!(v, velocity(0, 1310720, 0));
    handle_keys(&mut v, Keys { right: true, ..no_keys() }, 10000);
    assert_eq!(v, velocity(1310720, 1310720, 0));
    handle_keys(&mut v, Keys { down: true, left: true, ..no_keys() }, 20000);
    assert_eq!(v, velocity(-1310720, -1310720, 0));
    handle_keys(&mut v, Keys { turn_left: true, ..no_keys() }, 10000);
    assert_eq!(v, velocity(-1310720, -1310720, 4500000));
    handle_keys(&mut v, Keys { turn_right: true, ..no_keys() }, 30000);
    assert_eq!(v, velocity(-1310720, -1310720, -9000000));
}

#[test]
fn no_keys_leave_a_velocity_within_limits_alone() {
    let mut v = velocity(123, -456, 789);
    handle_keys(&mut v, no_keys(), 16667);
    assert_eq!(v, velocity(123, -456, 789));
}

#[test]
fn opposed_keys_cancel() {
    let mut v = velocity(1000, -2000, 3000);
    let all = Keys {
        up: true,
        down: true,
        left: true,
        right: true,
        turn_left: true,
        turn_right: true,
    };
    handle_keys(&mut v, all, 250000);
    assert_eq!(v, velocity(1000, -2000, 3000));
}

#[test]
fn velocity_is_limited_after_input() {
    let mut v = Velocity::new();
    handle_keys(&mut v, Keys { up: true, right: true, turn_left: true, ..no_keys() }, 1000000);
    assert_eq!(v, velocity(MAX_SPEED, MAX_SPEED, MAX_TURN_RATE));
    handle_keys(&mut v, Keys { down: true, left: true, turn_right: true, ..no_keys() }, u32::MAX);
    assert_eq!(v, velocity(-MAX_SPEED, -MAX_SPEED, -MAX_TURN_RATE));
}

#[test]
fn any_velocity_is_limited_after_input() {
    let mut v = velocity(i64::MAX, i64::MIN, i64::MAX);
    handle_keys(&mut v, Keys { right: true, down: true, turn_left: true, ..no_keys() }, u32::MAX);
    assert_eq!(v, velocity(MAX_SPEED, -MAX_SPEED, MAX_TURN_RATE));
    let mut v = velocity(MAX_SPEED + 1, -MAX_SPEED - 1, -MAX_TURN_RATE - 1);
    handle_keys(&mut v, no_keys(), 0);
    assert_eq!(v, velocity(MAX_SPEED, -MAX_SPEED, -MAX_TURN_RATE));
}

#[test]
fn limits_hold_after_any_sequence_of_input() {
    let mut v = Velocity::new();
    let mut seed: u32 = 12345;
    for _ in 0..2000 {
        seed = seed.wrapping_mul(1664525).wrapping_add(1013904223);
        let keys = Keys {
            up: seed & 1 != 0,
            down: seed & 2 != 0,
            left: seed & 4 != 0,
            right: seed & 8 != 0,
            turn_left: seed & 16 != 0,
            turn_right: seed & 32 != 0,
        };
        handle_keys(&mut v, keys, seed >> 12);
        assert!(v.translation.x.abs() <= MAX_SPEED);
        assert!(v.translation.y.abs() <= MAX_SPEED);
        assert!(v.rotation.abs() <= MAX_TURN_RATE);
    }
}

#[test]
fn turn_is_rate_times_time() {
    assert_eq!(velocity(0, 0, MAX_TURN_RATE).turn(16667), 750015);
    assert_eq!(velocity(0, 0, -MAX_TURN_RATE).turn(16667), -750015);
    assert_eq!(velocity(0, 0, MAX_TURN_RATE).turn(1000000), 45000000);
    assert_eq!(velocity(0, 0, 999999).turn(1), 0);
    assert_eq!(velocity(0, 0, -999999).turn(1), 0);
    assert_eq!(velocity(0, 0, 0).turn(u32::MAX), 0);
    assert_eq!(velocity(0, 0, RATE_MAX).turn(u32::MAX), 4722366481770133);
}

#[test]
fn velocity_in_range_is_valid() {
    assert!(velocity(RATE_MAX, -RATE_MAX, RATE_MAX).is_valid());
    assert!(!velocity(RATE_MAX + 1, 0, 0).is_valid());
    assert!(!velocity(0, -RATE_MAX - 1, 0).is_valid());
    assert!(!velocity(0, 0, RATE_MAX + 1).is_valid());
}
