//! The rigid motion of the chain: the leader's velocity carries the leader and, with it,
//! every segment of the chain.
use crate::fixed::{scaled, trunc_div, MICROS_PER_SECOND, ONE};
use crate::fixed::{lemma_trunc_div_bounds, lemma_trunc_div_within};
use crate::intersection::{Point, CENTER_MAX};
use crate::rotation::Rotation;
use crate::segment::Segment;
use crate::velocity::{lemma_over_time_bounded, over_time, Velocity, RATE_MAX};
use crate::world::{chain_kept, State, World};
use vstd::prelude::*;

verus! {

/// Numerator of the share of the velocity that is lost per second.
pub const DECAY_NUM: i64 = 95;

/// Denominator of the share of the velocity that is lost per second.
pub const DECAY_DEN: i64 = 100;

/// A component of the velocity after `micros` microseconds of damping: the old value
/// times one minus the decay rate times the elapsed time, rounded toward zero.
pub open spec fn damped(v: int, micros: int) -> int {
    trunc_div(
        v * (DECAY_DEN * MICROS_PER_SECOND - DECAY_NUM * micros),
        DECAY_DEN * MICROS_PER_SECOND,
    )
}

/// First coordinate of a centre carried along with the chain: turned about `pivot`, the
/// leader's position before the tick, then shifted like the leader.
pub open spec fn carried_x(center: Point, pivot: Point, rotation: Rotation, shift: int) -> int {
    pivot.x + rotation.turned_x(center.x - pivot.x, center.y - pivot.y) + shift
}

/// Second coordinate of a centre carried along with the chain.
pub open spec fn carried_y(center: Point, pivot: Point, rotation: Rotation, shift: int) -> int {
    pivot.y + rotation.turned_y(center.x - pivot.x, center.y - pivot.y) + shift
}

/// The segment after a tick of motion. A chain segment is turned about `pivot` and
/// shifted by `(shift_x, shift_y)`, and its heading is turned likewise; a free segment
/// stays where it is.
pub open spec fn carried(
    segment: Segment,
    pivot: Point,
    rotation: Rotation,
    shift_x: int,
    shift_y: int,
) -> Segment {
    if segment.is_chain() {
        Segment {
            center: Point {
                x: carried_x(segment.center, pivot, rotation, shift_x) as i64,
                y: carried_y(segment.center, pivot, rotation, shift_y) as i64,
            },
            heading: rotation.spec_compose(segment.heading),
            ..segment
        }
    } else {
        segment
    }
}

/// The segment is still in the world after a tick of motion.
pub open spec fn stays_in_world(
    segment: Segment,
    pivot: Point,
    rotation: Rotation,
    shift_x: int,
    shift_y: int,
) -> bool {
    segment.is_chain() ==> {
        &&& -CENTER_MAX <= carried_x(segment.center, pivot, rotation, shift_x) <= CENTER_MAX
        &&& -CENTER_MAX <= carried_y(segment.center, pivot, rotation, shift_y) <= CENTER_MAX
    }
}

/// The velocity after `micros` microseconds of damping.
pub open spec fn slowed(velocity: Velocity, micros: int) -> Velocity {
    Velocity {
        translation: Point {
            x: damped(velocity.translation.x as int, micros) as i64,
            y: damped(velocity.translation.y as int, micros) as i64,
        },
        rotation: damped(velocity.rotation as int, micros) as i64,
    }
}

/// The damped velocity can still be computed with.
pub open spec fn slows_in_range(velocity: Velocity, micros: int) -> bool {
    &&& -RATE_MAX <= damped(velocity.translation.x as int, micros) <= RATE_MAX
    &&& -RATE_MAX <= damped(velocity.translation.y as int, micros) <= RATE_MAX
    &&& -RATE_MAX <= damped(velocity.rotation as int, micros) <= RATE_MAX
}

impl State {
    /// The leader's displacement along the first axis over `micros` microseconds.
    pub open spec fn shift_x(self, micros: int) -> int {
        over_time(self.velocity.translation.x as int, micros)
    }

    /// The leader's displacement along the second axis over `micros` microseconds.
    pub open spec fn shift_y(self, micros: int) -> int {
        over_time(self.velocity.translation.y as int, micros)
    }

    /// The segment at index `i` after a tick of motion.
    pub open spec fn carried_at(self, i: int, rotation: Rotation, micros: int) -> Segment {
        carried(
            self.segments[i],
            self.leader_segment().center,
            rotation,
            self.shift_x(micros),
            self.shift_y(micros),
        )
    }

    /// The tick of motion can be taken: every chain segment stays in the world and the
    /// damped velocity stays in range.
    pub open spec fn can_move(self, rotation: Rotation, micros: int) -> bool {
        &&& forall|i: int|
            0 <= i < self.segments.len() ==> stays_in_world(
                #[trigger] self.segments[i],
                self.leader_segment().center,
                rotation,
                self.shift_x(micros),
                self.shift_y(micros),
            )
        &&& slows_in_range(self.velocity, micros)
    }

    /// The state after a tick of motion: the chain carried along with its leader and the
    /// velocity damped where the tick can be taken, and the state itself where it cannot.
    pub open spec fn moved(self, rotation: Rotation, micros: int) -> State {
        if self.can_move(rotation, micros) {
            State {
                segments: Seq::new(
                    self.segments.len(),
                    |i: int| self.carried_at(i, rotation, micros),
                ),
                leader: self.leader,
                velocity: slowed(self.velocity, micros),
            }
        } else {
            self
        }
    }
}

/// A tick of motion keeps a state well formed, keeps its leader, and takes no segment out
/// of the chain. No length and no membership changes, and free segments stay where they
/// are.
pub proof fn lemma_moved_wf(s: State, rotation: Rotation, micros: int)
    requires
        s.wf(),
        rotation.wf(),
    ensures
        s.moved(rotation, micros).wf(),
        s.moved(rotation, micros).leader == s.leader,
        s.moved(rotation, micros).segments.len() == s.segments.len(),
        chain_kept(s.segments, s.moved(rotation, micros).segments),
        forall|i: int|
            0 <= i < s.segments.len() ==> (#[trigger] s.moved(rotation, micros).segments[i]).length
                == s.segments[i].length && s.moved(rotation, micros).segments[i].membership
                == s.segments[i].membership,
        forall|i: int|
            0 <= i < s.segments.len() && !s.segments[i].is_chain() ==> #[trigger] s.moved(
                rotation,
                micros,
            ).segments[i] == s.segments[i],
{
    if s.can_move(rotation, micros) {
        let t = s.moved(rotation, micros);
        assert forall|i: int| 0 <= i < t.segments.len() implies (#[trigger] t.segments[i]).wf()
            && t.segments[i].length == s.segments[i].length && t.segments[i].membership
            == s.segments[i].membership by {
            let old = s.segments[i];
            assert(old.wf());
            assert(stays_in_world(
                old,
                s.leader_segment().center,
                rotation,
                s.shift_x(micros),
                s.shift_y(micros),
            ));
            if old.is_chain() {
                old.heading.lemma_components_bounded();
                rotation.lemma_turn_is_short(old.heading.cos as int, old.heading.sin as int);
                let c = rotation.turned_x(old.heading.cos as int, old.heading.sin as int);
                let d = rotation.turned_y(old.heading.cos as int, old.heading.sin as int);
                assert(-ONE <= c <= ONE && -ONE <= d <= ONE) by (nonlinear_arith)
                    requires
                        c * c + d * d <= old.heading.cos * old.heading.cos + old.heading.sin
                            * old.heading.sin,
                        old.heading.cos * old.heading.cos + old.heading.sin * old.heading.sin <= ONE
                            * ONE,
                ;
            }
        }
        assert(t.segments[t.leader].is_chain());
    }
}

/// One tick of motion is rigid: the leader is shifted by its displacement, and the
/// offset of every chain segment from the leader is turned by the rotation of the tick,
/// whatever that displacement is. Lengths do not change, and every heading in the chain
/// is turned by the same rotation.
pub proof fn lemma_motion_is_rigid(s: State, rotation: Rotation, micros: int, i: int)
    requires
        s.wf(),
        rotation.wf(),
        s.can_move(rotation, micros),
        0 <= i < s.segments.len(),
        s.segments[i].is_chain(),
    ensures
        ({
            let t = s.moved(rotation, micros);
            let dx = s.segments[i].center.x - s.leader_segment().center.x;
            let dy = s.segments[i].center.y - s.leader_segment().center.y;
            &&& t.leader_segment().center.x == s.leader_segment().center.x + s.shift_x(micros)
            &&& t.leader_segment().center.y == s.leader_segment().center.y + s.shift_y(micros)
            &&& t.segments[i].center.x - t.leader_segment().center.x == rotation.turned_x(dx, dy)
            &&& t.segments[i].center.y - t.leader_segment().center.y == rotation.turned_y(dx, dy)
            &&& t.segments[i].heading == rotation.spec_compose(s.segments[i].heading)
            &&& t.segments[i].length == s.segments[i].length
        }),
{
    let pivot = s.leader_segment().center;
    assert(stays_in_world(s.segments[i], pivot, rotation, s.shift_x(micros), s.shift_y(micros)));
    assert(stays_in_world(
        s.segments[s.leader],
        pivot,
        rotation,
        s.shift_x(micros),
        s.shift_y(micros),
    ));
    assert(rotation.turned_x(0, 0) == 0 && rotation.turned_y(0, 0) == 0) by {
        assert(rotation.cos * 0 - rotation.sin * 0 == 0) by (nonlinear_arith);
        assert(rotation.sin * 0 + rotation.cos * 0 == 0) by (nonlinear_arith);
        lemma_trunc_div_bounds(0, ONE as int);
    }
}

/// Damping never raises a speed as long as the tick is short enough for the decay not to
/// exceed two: for ticks of up to `2 * DECAY_DEN / DECAY_NUM` seconds.
pub proof fn lemma_damping_slows(v: int, micros: int)
    requires
        0 <= micros,
        DECAY_NUM * micros <= 2 * (DECAY_DEN * MICROS_PER_SECOND),
    ensures
        v >= 0 ==> -v <= damped(v, micros) <= v,
        v <= 0 ==> v <= damped(v, micros) <= -v,
{
    let den = DECAY_DEN * MICROS_PER_SECOND;
    let factor = den - DECAY_NUM * micros;
    assert(-den <= factor <= den);
    if v >= 0 {
        assert(-(v * den) <= v * factor <= v * den) by (nonlinear_arith)
            requires
                v >= 0,
                -den <= factor <= den,
        ;
        lemma_trunc_div_within(v * factor, den, v);
    } else {
        assert(-((-v) * den) <= v * factor <= (-v) * den) by (nonlinear_arith)
            requires
                v <= 0,
                -den <= factor <= den,
        ;
        lemma_trunc_div_within(v * factor, den, -v);
    }
}

/// A component of the velocity after `micros` microseconds of damping.
fn damp(v: i64, micros: u32) -> (r: i128)
    requires
        -RATE_MAX <= v <= RATE_MAX,
    ensures
        r == damped(v as int, micros as int),
{
    let factor: i64 = DECAY_DEN * MICROS_PER_SECOND - DECAY_NUM * (micros as i64);
    scaled(v, factor, DECAY_DEN * MICROS_PER_SECOND)
}

/// Whether a value has at most the given magnitude.
fn within(v: i128, bound: i64) -> (b: bool)
    requires
        0 <= bound,
    ensures
        b == (-bound <= v <= bound),
{
    -(bound as i128) <= v && v <= bound as i128
}

/// Carries the chain along with its leader for `micros` microseconds.
///
/// `rotation` is the turn of this tick, the rotation by the angle that
/// `world.velocity.turn(micros)` gives. Every chain segment is turned by it about the
/// leader's position before the tick and then shifted by the leader's displacement,
/// velocity times elapsed time; its heading is turned by the same rotation. The leader,
/// which sits on the pivot, is thereby shifted and turned in place. Free segments do not
/// move. The velocity is then damped.
///
/// The tick is taken only if it leaves every chain segment in the world and the velocity
/// in range; otherwise nothing changes. The result says whether it was taken.
pub fn move_velocity(world: &mut World, micros: u32, rotation: Rotation) -> (moved: bool)
    requires
        old(world).wf(),
        rotation.wf(),
    ensures
        moved == old(world)@.can_move(rotation, micros as int),
        final(world)@ == old(world)@.moved(rotation, micros as int),
        final(world).wf(),
        chain_kept(old(world)@.segments, final(world)@.segments),
{
    let ghost before = *world;
    let pivot: Point = world.segments[world.leader].center;
    proof {
        lemma_over_time_bounded(world.velocity.translation.x as int, micros as int);
        lemma_over_time_bounded(world.velocity.translation.y as int, micros as int);
    }
    let shift_x: i128 = scaled(world.velocity.translation.x, micros as i64, MICROS_PER_SECOND);
    let shift_y: i128 = scaled(world.velocity.translation.y, micros as i64, MICROS_PER_SECOND);
    let vx: i128 = damp(world.velocity.translation.x, micros);
    let vy: i128 = damp(world.velocity.translation.y, micros);
    let vr: i128 = damp(world.velocity.rotation, micros);
    if !(within(vx, RATE_MAX) && within(vy, RATE_MAX) && within(vr, RATE_MAX)) {
        return false;
    }
    let mut carried_segments: Vec<Segment> = Vec::new();
    let mut i: usize = 0;
    while i < world.segments.len()
        invariant
            *world == before,
            before.wf(),
            rotation.wf(),
            pivot == before@.leader_segment().center,
            shift_x == before@.shift_x(micros as int),
            shift_y == before@.shift_y(micros as int),
            -4295 * RATE_MAX <= shift_x <= 4295 * RATE_MAX,
            -4295 * RATE_MAX <= shift_y <= 4295 * RATE_MAX,
            0 <= i <= before.segments@.len(),
            carried_segments@.len() == i,
            forall|k: int|
                0 <= k < i ==> stays_in_world(
                    #[trigger] before.segments@[k],
                    pivot,
                    rotation,
                    shift_x as int,
                    shift_y as int,
                ),
            forall|k: int|
                0 <= k < i ==> #[trigger] carried_segments@[k] == before@.carried_at(
                    k,
                    rotation,
                    micros as int,
                ),
            forall|k: int| 0 <= k < i ==> (#[trigger] carried_segments@[k]).wf(),
        decreases before.segments@.len() - i,
    {
        let segment: Segment = world.segments[i];
        if segment.in_chain() {
            let offset = Point { x: segment.center.x - pivot.x, y: segment.center.y - pivot.y };
            let turned: Point = rotation.apply(offset);
            let x: i128 = pivot.x as i128 + turned.x as i128 + shift_x;
            let y: i128 = pivot.y as i128 + turned.y as i128 + shift_y;
            if !(within(x, CENTER_MAX) && within(y, CENTER_MAX)) {
                assert(!stays_in_world(
                    before.segments@[i as int],
                    pivot,
                    rotation,
                    shift_x as int,
                    shift_y as int,
                ));
                return false;
            }
            let heading: Rotation = rotation.compose(segment.heading);
            carried_segments.push(
                Segment {
                    center: Point { x: x as i64, y: y as i64 },
                    length: segment.length,
                    heading,
                    membership: segment.membership,
                },
            );
        } else {
            carried_segments.push(segment);
        }
        i = i + 1;
    }
    world.segments = carried_segments;
    world.velocity = Velocity {
        translation: Point { x: vx as i64, y: vy as i64 },
        rotation: vr as i64,
    };
    assert(world@.segments =~= before@.moved(rotation, micros as int).segments);
    true
}

} // verus!
