//! The leader's velocity and how the player's input changes it.
use crate::fixed::{clamp_to, clamped, scaled, trunc_div, MICROS_PER_SECOND};
use crate::fixed::{lemma_trunc_div_bounds, lemma_trunc_div_within};
use crate::intersection::Point;
use vstd::prelude::*;

verus! {

/// Speed gained along an axis per second of a held key, in sub-units per second.
pub const LINEAR_ACCELERATION: i64 = 131072000;

/// Largest speed along each axis, in sub-units per second.
pub const MAX_SPEED: i64 = 13107200;

/// Turn rate gained per second of a held key, in millionths of a degree per second.
pub const ANGULAR_ACCELERATION: i64 = 450000000;

/// Largest turn rate, in millionths of a degree per second.
pub const MAX_TURN_RATE: i64 = 45000000;

/// Largest magnitude of a component of a velocity that the motion accepts.
pub const RATE_MAX: i64 = 1099511627776;

/// The movement and rotation keys that are held during a tick.
#[derive(Clone, Copy, Debug, PartialEq, Eq, Structural)]
pub struct Keys {
    pub up: bool,
    pub down: bool,
    pub left: bool,
    pub right: bool,
    pub turn_left: bool,
    pub turn_right: bool,
}

/// The leader's velocity: sub-units per second along each axis, and a turn rate in
/// millionths of a degree per second, counter-clockwise positive.
#[derive(Clone, Copy, Debug, PartialEq, Eq, Structural)]
pub struct Velocity {
    pub translation: Point,
    pub rotation: i64,
}

/// What `rate * micros` microseconds amount to: the change over the elapsed time of a
/// quantity that changes by `rate` per second, rounded toward zero.
pub open spec fn over_time(rate: int, micros: int) -> int {
    trunc_div(rate * micros, MICROS_PER_SECOND as int)
}

/// The direction a pair of opposed keys asks for: forward, backward or, with both or
/// neither held, none.
pub open spec fn key_axis(forward: bool, backward: bool) -> int {
    (if forward {
        1int
    } else {
        0int
    }) - (if backward {
        1int
    } else {
        0int
    })
}

/// One component of the velocity after a tick of input: the old value plus the push of
/// the held keys, limited to the largest magnitude.
pub open spec fn steered_component(old: int, axis: int, acceleration: int, limit: int, micros: int)
    -> int {
    clamped(old + axis * over_time(acceleration, micros), -limit, limit)
}

impl Velocity {
    /// The velocity after `micros` microseconds of the keys `keys`.
    pub open spec fn steered(self, keys: Keys, micros: int) -> Velocity {
        Velocity {
            translation: Point {
                x: steered_component(
                    self.translation.x as int,
                    key_axis(keys.right, keys.left),
                    LINEAR_ACCELERATION as int,
                    MAX_SPEED as int,
                    micros,
                ) as i64,
                y: steered_component(
                    self.translation.y as int,
                    key_axis(keys.up, keys.down),
                    LINEAR_ACCELERATION as int,
                    MAX_SPEED as int,
                    micros,
                ) as i64,
            },
            rotation: steered_component(
                self.rotation as int,
                key_axis(keys.turn_left, keys.turn_right),
                ANGULAR_ACCELERATION as int,
                MAX_TURN_RATE as int,
                micros,
            ) as i64,
        }
    }

    /// No component exceeds its largest magnitude.
    pub open spec fn within_limits(self) -> bool {
        &&& -MAX_SPEED <= self.translation.x <= MAX_SPEED
        &&& -MAX_SPEED <= self.translation.y <= MAX_SPEED
        &&& -MAX_TURN_RATE <= self.rotation <= MAX_TURN_RATE
    }

    /// Every component is small enough for the motion to compute with.
    pub open spec fn wf(self) -> bool {
        &&& self.translation.within(RATE_MAX as int)
        &&& -RATE_MAX <= self.rotation <= RATE_MAX
    }

    /// The angle the chain turns by in `micros` microseconds, in millionths of a degree.
    pub open spec fn spec_turn(self, micros: int) -> int {
        over_time(self.rotation as int, micros)
    }

    /// The velocity of a leader at rest.
    pub fn new() -> (v: Velocity)
        ensures
            v == (Velocity { translation: Point { x: 0, y: 0 }, rotation: 0 }),
            v.within_limits(),
            v.wf(),
    {
        Velocity { translation: Point { x: 0, y: 0 }, rotation: 0 }
    }

    /// Whether every component is small enough for the motion to compute with.
    pub fn is_valid(&self) -> (b: bool)
        ensures
            b == self.wf(),
    {
        -RATE_MAX <= self.translation.x && self.translation.x <= RATE_MAX && -RATE_MAX
            <= self.translation.y && self.translation.y <= RATE_MAX && -RATE_MAX <= self.rotation
            && self.rotation <= RATE_MAX
    }

    /// The angle the chain turns by in `micros` microseconds, in millionths of a degree:
    /// the turn rate times the elapsed time. The caller turns it into the rotation that
    /// the motion of the tick is given.
    pub fn turn(&self, micros: u32) -> (angle: i64)
        requires
            self.wf(),
        ensures
            angle == self.spec_turn(micros as int),
    {
        let a: i128 = scaled(self.rotation, micros as i64, MICROS_PER_SECOND);
        proof {
            lemma_over_time_bounded(self.rotation as int, micros as int);
        }
        a as i64
    }
}

/// After a tick of input no component of the velocity exceeds its limit, whatever the
/// velocity was before and however long the tick.
pub proof fn lemma_steered_within_limits(velocity: Velocity, keys: Keys, micros: int)
    ensures
        velocity.steered(keys, micros).within_limits(),
        velocity.steered(keys, micros).wf(),
{
}

/// Over less than 2^32 microseconds a quantity changes by less than 4295 times its rate.
pub proof fn lemma_over_time_bounded(rate: int, micros: int)
    requires
        0 <= micros <= 0xffff_ffff,
    ensures
        rate >= 0 ==> 0 <= over_time(rate, micros) <= 4295 * rate,
        rate <= 0 ==> 4295 * rate <= over_time(rate, micros) <= 0,
{
    let m = MICROS_PER_SECOND as int;
    lemma_trunc_div_bounds(rate * micros, m);
    if rate >= 0 {
        assert(0 <= rate * micros <= rate * 0xffff_ffff) by (nonlinear_arith)
            requires
                rate >= 0,
                0 <= micros <= 0xffff_ffff,
        ;
        assert(rate * 0xffff_ffff <= (4295 * rate) * m) by (nonlinear_arith)
            requires
                rate >= 0,
                m == 1000000,
        ;
        lemma_trunc_div_within(rate * micros, m, 4295 * rate);
    } else {
        assert(0 >= rate * micros >= rate * 0xffff_ffff) by (nonlinear_arith)
            requires
                rate <= 0,
                0 <= micros <= 0xffff_ffff,
        ;
        assert(rate * 0xffff_ffff >= -((4295 * (-rate)) * m)) by (nonlinear_arith)
            requires
                rate <= 0,
                m == 1000000,
        ;
        lemma_trunc_div_within(rate * micros, m, 4295 * (-rate));
    }
}

/// One component of the velocity after a tick of input.
fn steer_component(
    old: i64,
    forward: bool,
    backward: bool,
    acceleration: i64,
    limit: i64,
    micros: u32,
) -> (new: i64)
    requires
        0 <= acceleration <= 0x1_0000_0000,
        0 <= limit,
    ensures
        new == steered_component(
            old as int,
            key_axis(forward, backward),
            acceleration as int,
            limit as int,
            micros as int,
        ),
        -limit <= new <= limit,
{
    let push: i128 = scaled(acceleration, micros as i64, MICROS_PER_SECOND);
    proof {
        lemma_over_time_bounded(acceleration as int, micros as int);
    }
    let mut pushed: i128 = old as i128;
    if forward {
        pushed = pushed + push;
    }
    if backward {
        pushed = pushed - push;
    }
    assert(pushed == old + key_axis(forward, backward) * over_time(
        acceleration as int,
        micros as int,
    )) by (nonlinear_arith)
        requires
            pushed == old + (if forward {
                push as int
            } else {
                0
            }) - (if backward {
                push as int
            } else {
                0
            }),
            push == over_time(acceleration as int, micros as int),
            key_axis(forward, backward) == (if forward {
                1int
            } else {
                0
            }) - (if backward {
                1int
            } else {
                0
            }),
    ;
    clamp_to(pushed, -limit, limit)
}

/// Applies `micros` microseconds of held keys to the leader's velocity.
///
/// Each held movement key pushes the velocity along its axis, each held rotation key
/// pushes the turn rate, opposed keys cancel, and every component is then limited to its
/// largest magnitude. Whatever the velocity was before and however long the tick, no
/// component exceeds its limit afterwards.
pub fn handle_keys(velocity: &mut Velocity, keys: Keys, micros: u32)
    ensures
        *final(velocity) == old(velocity).steered(keys, micros as int),
        final(velocity).within_limits(),
        final(velocity).wf(),
{
    let x: i64 = steer_component(
        velocity.translation.x,
        keys.right,
        keys.left,
        LINEAR_ACCELERATION,
        MAX_SPEED,
        micros,
    );
    let y: i64 = steer_component(
        velocity.translation.y,
        keys.up,
        keys.down,
        LINEAR_ACCELERATION,
        MAX_SPEED,
        micros,
    );
    let rotation: i64 = steer_component(
        velocity.rotation,
        keys.turn_left,
        keys.turn_right,
        ANGULAR_ACCELERATION,
        MAX_TURN_RATE,
        micros,
    );
    *velocity = Velocity { translation: Point { x, y }, rotation };
}

} // verus!
