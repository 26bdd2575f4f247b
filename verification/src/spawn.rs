//! The spawner: a free segment appears at a random place, and is replaced by another
//! after a random delay for as long as the chain has not absorbed it.
use crate::intersection::Point;
use crate::rotation::Rotation;
use crate::segment::{Membership, Segment};
use crate::world::{chain_kept, State, World};
use rand::Rng;
use vstd::prelude::*;

verus! {

/// Free segments appear with both coordinates of their centre below this bound in
/// magnitude, in sub-units.
pub const SPAWN_BOUND: i64 = 327680000;

/// Least length of a spawned segment, in sub-units.
pub const SPAWN_LENGTH_MIN: i64 = 6553600;

/// The length of a spawned segment stays below this, in sub-units.
pub const SPAWN_LENGTH_END: i64 = 32768000;

/// A full circle, in millionths of a degree.
pub const FULL_TURN: i64 = 360000000;

/// Least delay before a free segment is replaced, in milliseconds.
pub const DELAY_MIN: i64 = 1;

/// The delay before a free segment is replaced stays below this, in milliseconds.
pub const DELAY_END: i64 = 2000;

/// Where and how a new free segment appears: its centre, its length, and the angle of its
/// heading in millionths of a degree.
#[derive(Clone, Copy, Debug, PartialEq, Eq, Structural)]
pub struct Placement {
    pub center: Point,
    pub length: i64,
    pub angle: i64,
}

/// The timer of the spawner and the segment it last placed.
#[derive(Clone, Copy, Debug, PartialEq, Eq, Structural)]
pub struct Spawner {
    /// Microseconds until the next segment appears.
    pub remaining: u64,
    /// Index of the segment placed last, if any was placed.
    pub candidate: Option<usize>,
}

impl Placement {
    /// The placement is one that the spawner makes: the centre within the spawn bound,
    /// the length and the angle within their ranges.
    pub open spec fn in_range(self) -> bool {
        &&& -SPAWN_BOUND <= self.center.x < SPAWN_BOUND
        &&& -SPAWN_BOUND <= self.center.y < SPAWN_BOUND
        &&& SPAWN_LENGTH_MIN <= self.length < SPAWN_LENGTH_END
        &&& 0 <= self.angle < FULL_TURN
    }

    /// The free segment that appears at this placement with the given heading.
    pub open spec fn spec_segment(self, heading: Rotation) -> Segment {
        Segment {
            center: self.center,
            length: self.length,
            heading,
            membership: Membership::Free,
        }
    }

    /// The free segment that appears at this placement. `heading` is the rotation by the
    /// angle of the placement.
    pub fn segment(&self, heading: Rotation) -> (line: Segment)
        requires
            self.in_range(),
            heading.wf(),
        ensures
            line == self.spec_segment(heading),
            line.wf(),
    {
        Segment {
            center: self.center,
            length: self.length,
            heading,
            membership: Membership::Free,
        }
    }
}

impl State {
    /// The spawner replaces the segment at index `candidate`: one was placed there, and
    /// the chain has not absorbed it.
    pub open spec fn replaces(self, candidate: Option<usize>) -> bool {
        match candidate {
            Some(c) => c < self.segments.len() && !self.segments[c as int].is_chain(),
            None => false,
        }
    }

    /// The state after `line` has appeared: in the place of the segment placed last if
    /// that one is still free, and as a new segment otherwise.
    pub open spec fn with_line(self, candidate: Option<usize>, line: Segment) -> State {
        if self.replaces(candidate) {
            State { segments: self.segments.update(candidate.unwrap() as int, line), ..self }
        } else {
            State { segments: self.segments.push(line), ..self }
        }
    }
}

/// A segment that appears keeps a state well formed and leaves the chain as it is: the
/// leader stays, every chain segment stays where and what it was, and no segment leaves
/// the chain.
pub proof fn lemma_with_line_wf(s: State, candidate: Option<usize>, line: Segment)
    requires
        s.wf(),
        line.wf(),
        !line.is_chain(),
    ensures
        s.with_line(candidate, line).wf(),
        s.with_line(candidate, line).leader == s.leader,
        s.with_line(candidate, line).velocity == s.velocity,
        chain_kept(s.segments, s.with_line(candidate, line).segments),
        forall|i: int|
            0 <= i < s.segments.len() && (#[trigger] s.segments[i]).is_chain() ==> s.with_line(
                candidate,
                line,
            ).segments[i] == s.segments[i],
{
    let t = s.with_line(candidate, line);
    assert forall|i: int| 0 <= i < t.segments.len() implies (#[trigger] t.segments[i]).wf() by {
        if i < s.segments.len() {
            assert(s.segments[i].wf());
        }
    }
}

impl Spawner {
    /// A spawner that has placed nothing yet and is due at once.
    pub fn new() -> (s: Spawner)
        ensures
            s == (Spawner { remaining: 0, candidate: None }),
    {
        Spawner { remaining: 0, candidate: None }
    }
}

/// A number drawn from `low` up to, but not including, `high`.
///
/// Calls `rand::Rng::gen_range` on the thread's generator with the range `low..high`.
/// Of the number drawn nothing is claimed but that it lies in the range; the range must
/// not be empty, or the call would panic.
#[verifier::external_body]
fn random_below(low: i64, high: i64) -> (r: i64)
    requires
        low < high,
    ensures
        low <= r < high,
{
    rand::thread_rng().gen_range(low..high)
}

/// Draws the placement of a new free segment: a centre within the spawn bound, a length
/// and the angle of a heading, each uniformly from its range.
pub fn random_line() -> (placement: Placement)
    ensures
        placement.in_range(),
{
    let length: i64 = random_below(SPAWN_LENGTH_MIN, SPAWN_LENGTH_END);
    let x: i64 = random_below(-SPAWN_BOUND, SPAWN_BOUND);
    let y: i64 = random_below(-SPAWN_BOUND, SPAWN_BOUND);
    let angle: i64 = random_below(0, FULL_TURN);
    Placement { center: Point { x, y }, length, angle }
}

/// Lets the free segment `line` appear in the world.
///
/// The segment that the spawner placed last is destroyed and `line` takes its place,
/// unless the chain has absorbed it or none was placed yet: then `line` is added to the
/// world as a new segment. Either way the spawner remembers where `line` stands. Chain
/// segments are never touched.
pub fn add_line(world: &mut World, spawner: &mut Spawner, line: Segment)
    requires
        old(world).wf(),
        line.wf(),
        !line.is_chain(),
    ensures
        final(world)@ == old(world)@.with_line(old(spawner).candidate, line),
        final(spawner).remaining == old(spawner).remaining,
        final(spawner).candidate == if old(world)@.replaces(old(spawner).candidate) {
            old(spawner).candidate
        } else {
            Some(old(world).segments@.len() as usize)
        },
        final(world).wf(),
        chain_kept(old(world)@.segments, final(world)@.segments),
{
    let replaced: bool = match spawner.candidate {
        Some(c) => c < world.segments.len() && !world.segments[c].in_chain(),
        None => false,
    };
    if replaced {
        let c: usize = spawner.candidate.unwrap();
        world.segments.set(c, line);
    } else {
        let index: usize = world.segments.len();
        world.segments.push(line);
        spawner.candidate = Some(index);
    }
}

/// Sets the timer of the spawner to a delay of `millis` milliseconds.
pub fn set_spawn_timer(spawner: &mut Spawner, millis: i64)
    requires
        0 <= millis <= DELAY_END,
    ensures
        final(spawner).remaining == millis * 1000,
        final(spawner).candidate == old(spawner).candidate,
{
    spawner.remaining = (millis * 1000) as u64;
}

/// Sets the timer of the spawner to a random delay, drawn uniformly from its range.
pub fn add_spawn_timer(spawner: &mut Spawner)
    ensures
        DELAY_MIN * 1000 <= final(spawner).remaining < DELAY_END * 1000,
        final(spawner).remaining % 1000 == 0,
        final(spawner).candidate == old(spawner).candidate,
{
    let millis: i64 = random_below(DELAY_MIN, DELAY_END);
    set_spawn_timer(spawner, millis);
}

/// Lets `micros` microseconds pass on the spawner's timer and says whether a new segment
/// is due: whether the timer has run out.
///
/// When a segment is due, the caller draws a placement with `random_line`, lets the
/// segment appear with `add_line` and sets the timer anew with `add_spawn_timer`.
pub fn spawn_sticks(spawner: &mut Spawner, micros: u32) -> (due: bool)
    ensures
        due == (old(spawner).remaining <= micros),
        final(spawner).remaining == if old(spawner).remaining <= micros {
            0
        } else {
            old(spawner).remaining - micros
        },
        final(spawner).candidate == old(spawner).candidate,
{
    if spawner.remaining <= micros as u64 {
        spawner.remaining = 0;
        true
    } else {
        spawner.remaining = spawner.remaining - micros as u64;
        false
    }
}

} // verus!
