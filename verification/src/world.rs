//! The world: every segment that exists, which of them leads, and the leader's velocity.
use crate::intersection::Point;
use crate::rotation::Rotation;
use crate::segment::{Membership, Segment};
use crate::velocity::Velocity;
use vstd::prelude::*;

verus! {

/// Length of the segment a new world starts with, in sub-units.
pub const LEADER_LENGTH: i64 = 13107200;

/// Every segment of the simulation, in the order in which they were added, the index of
/// the leader among them, and the leader's velocity.
pub struct World {
    pub segments: Vec<Segment>,
    pub leader: usize,
    pub velocity: Velocity,
}

/// The segments form a world led by the segment at `leader`: every segment lies in the
/// world, and the leader exists and belongs to the chain.
pub open spec fn led_by(segments: Seq<Segment>, leader: int) -> bool {
    &&& 0 <= leader < segments.len()
    &&& segments[leader].is_chain()
    &&& forall|i: int| 0 <= i < segments.len() ==> (#[trigger] segments[i]).wf()
}

/// Nothing that was in the chain `before` has left it `after`, and no segment has
/// disappeared.
pub open spec fn chain_kept(before: Seq<Segment>, after: Seq<Segment>) -> bool {
    &&& before.len() <= after.len()
    &&& forall|i: int|
        0 <= i < before.len() && (#[trigger] before[i]).is_chain() ==> after[i].is_chain()
}

/// The state of a world as a mathematical value: the sequence of its segments, the index
/// of the leader and the leader's velocity.
pub struct State {
    pub segments: Seq<Segment>,
    pub leader: int,
    pub velocity: Velocity,
}

impl State {
    /// The state is led by its leader and its velocity can be computed with.
    pub open spec fn wf(self) -> bool {
        &&& led_by(self.segments, self.leader)
        &&& self.velocity.wf()
    }

    /// The segment that leads the chain.
    pub open spec fn leader_segment(self) -> Segment {
        self.segments[self.leader]
    }
}

impl View for World {
    type V = State;

    open spec fn view(&self) -> State {
        State { segments: self.segments@, leader: self.leader as int, velocity: self.velocity }
    }
}

impl World {
    /// The world is led by its leader and its velocity can be computed with.
    pub open spec fn wf(self) -> bool {
        self@.wf()
    }

    /// A world that holds only its leader: a chain segment of the starting length at the
    /// origin, with no turn in its heading, at rest.
    pub fn new() -> (w: World)
        ensures
            w.wf(),
            w.leader == 0,
            w.segments@ == seq![
                Segment {
                    center: Point { x: 0, y: 0 },
                    length: LEADER_LENGTH,
                    heading: Rotation::spec_identity(),
                    membership: Membership::Chain,
                },
            ],
            w.velocity == (Velocity { translation: Point { x: 0, y: 0 }, rotation: 0 }),
    {
        let leader = Segment {
            center: Point { x: 0, y: 0 },
            length: LEADER_LENGTH,
            heading: Rotation::identity(),
            membership: Membership::Chain,
        };
        let mut segments: Vec<Segment> = Vec::new();
        segments.push(leader);
        World { segments, leader: 0, velocity: Velocity::new() }
    }

    /// Whether the world is led by its leader and its velocity can be computed with.
    pub fn is_valid(&self) -> (b: bool)
        ensures
            b == self.wf(),
    {
        if self.leader >= self.segments.len() {
            return false;
        }
        if !self.segments[self.leader].in_chain() {
            return false;
        }
        if !self.velocity.is_valid() {
            return false;
        }
        let mut i: usize = 0;
        while i < self.segments.len()
            invariant
                0 <= i <= self.segments.len(),
                forall|k: int| 0 <= k < i ==> (#[trigger] self.segments@[k]).wf(),
            decreases self.segments.len() - i,
        {
            if !self.segments[i].is_valid() {
                return false;
            }
            i = i + 1;
        }
        true
    }
}

} // verus!
