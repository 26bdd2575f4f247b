//! What holds of a world over any number of ticks.
use crate::collision::{is_hit, lemma_collided_wf};
use crate::fixed::{lemma_trunc_div_multiple, ONE};
use crate::rotation::Rotation;
use crate::motion::{lemma_damping_slows, lemma_motion_is_rigid, lemma_moved_wf};
use crate::motion::{DECAY_DEN, DECAY_NUM};
use crate::fixed::MICROS_PER_SECOND;
use crate::segment::Segment;
use crate::spawn::lemma_with_line_wf;
use crate::velocity::{lemma_steered_within_limits, Keys};
use crate::world::{chain_kept, State};
use vstd::prelude::*;

verus! {

/// Something that happens to a world: a tick passes, or a free segment appears.
pub enum Event {
    /// A tick of `micros` microseconds with the keys `keys` held, in which the chain
    /// turns by `rotation`.
    Tick { keys: Keys, micros: u32, rotation: Rotation },
    /// The free segment `line` appears, in the place of the segment at `candidate` if
    /// that one is still free.
    Line { candidate: Option<usize>, line: Segment },
}

impl Event {
    /// The event is one that a world can meet: the rotation of a tick is a rotation, and
    /// a segment that appears lies in the world and is free.
    pub open spec fn valid(self) -> bool {
        match self {
            Event::Tick { keys, micros, rotation } => rotation.wf(),
            Event::Line { candidate, line } => line.wf() && !line.is_chain(),
        }
    }
}

/// The displacement `(x, y)` turned by `turn`, or left as it is where there is none.
pub open spec fn turned_by(turn: Option<Rotation>, x: int, y: int) -> (int, int) {
    match turn {
        Some(rotation) => (rotation.turned_x(x, y), rotation.turned_y(x, y)),
        None => (x, y),
    }
}

/// The heading turned by `turn`, or left as it is where there is none.
pub open spec fn heading_turned_by(turn: Option<Rotation>, heading: Rotation) -> Rotation {
    match turn {
        Some(rotation) => rotation.spec_compose(heading),
        None => heading,
    }
}

impl State {
    /// The state after the event.
    pub open spec fn after(self, event: Event) -> State {
        match event {
            Event::Tick { keys, micros, rotation } => self.ticked(keys, micros as int, rotation),
            Event::Line { candidate, line } => self.with_line(candidate, line),
        }
    }

    /// The state after the events, the first of them first.
    pub open spec fn run(self, events: Seq<Event>) -> State
        decreases events.len(),
    {
        if events.len() == 0 {
            self
        } else {
            self.run(events.drop_last()).after(events.last())
        }
    }

    /// The rotation by which the event turns the chain: that of a tick in which the chain
    /// moves, and none otherwise.
    pub open spec fn turn_of(self, event: Event) -> Option<Rotation> {
        match event {
            Event::Tick { keys, micros, rotation } => if self.steered(keys, micros as int).can_move(
                rotation,
                micros as int,
            ) {
                Some(rotation)
            } else {
                None
            },
            Event::Line { candidate, line } => None,
        }
    }

    /// The offset `(x, y)` of a chain segment from the leader, carried through the
    /// events: turned by the rotation of every tick in which the chain moves, and by
    /// nothing else.
    pub open spec fn carried_offset(self, events: Seq<Event>, x: int, y: int) -> (int, int)
        decreases events.len(),
    {
        if events.len() == 0 {
            (x, y)
        } else {
            let before = self.carried_offset(events.drop_last(), x, y);
            turned_by(self.run(events.drop_last()).turn_of(events.last()), before.0, before.1)
        }
    }

    /// The heading of a chain segment, carried through the events: turned by the rotation
    /// of every tick in which the chain moves, and by nothing else.
    pub open spec fn carried_heading(self, events: Seq<Event>, heading: Rotation) -> Rotation
        decreases events.len(),
    {
        if events.len() == 0 {
            heading
        } else {
            heading_turned_by(
                self.run(events.drop_last()).turn_of(events.last()),
                self.carried_heading(events.drop_last(), heading),
            )
        }
    }

    /// The offset of the segment at index `i` from the leader.
    pub open spec fn offset(self, i: int) -> (int, int) {
        (
            self.segments[i].center.x - self.leader_segment().center.x,
            self.segments[i].center.y - self.leader_segment().center.y,
        )
    }
}

/// An event keeps a state well formed, keeps its leader, and takes no segment out of the
/// chain.
pub proof fn lemma_after_wf(s: State, event: Event)
    requires
        s.wf(),
        event.valid(),
    ensures
        s.after(event).wf(),
        s.after(event).leader == s.leader,
        chain_kept(s.segments, s.after(event).segments),
{
    match event {
        Event::Tick { keys, micros, rotation } => {
            let steered = s.steered(keys, micros as int);
            lemma_steered_within_limits(s.velocity, keys, micros as int);
            lemma_moved_wf(steered, rotation, micros as int);
            lemma_collided_wf(steered.moved(rotation, micros as int));
        },
        Event::Line { candidate, line } => {
            lemma_with_line_wf(s, candidate, line);
        },
    }
}

/// Any number of events keep a state well formed, keep its leader, and take no segment
/// out of the chain.
pub proof fn lemma_run_wf(s: State, events: Seq<Event>)
    requires
        s.wf(),
        forall|k: int| 0 <= k < events.len() ==> (#[trigger] events[k]).valid(),
    ensures
        s.run(events).wf(),
        s.run(events).leader == s.leader,
        chain_kept(s.segments, s.run(events).segments),
    decreases events.len(),
{
    if events.len() > 0 {
        let earlier = events.drop_last();
        assert forall|k: int| 0 <= k < earlier.len() implies (#[trigger] earlier[k]).valid() by {
            assert(earlier[k] == events[k]);
        }
        lemma_run_wf(s, earlier);
        lemma_after_wf(s.run(earlier), events.last());
    }
}

/// Membership is monotonic: a segment that belongs to the chain belongs to it after any
/// sequence of ticks and appearing segments.
pub proof fn lemma_chain_is_permanent(s: State, events: Seq<Event>, i: int)
    requires
        s.wf(),
        forall|k: int| 0 <= k < events.len() ==> (#[trigger] events[k]).valid(),
        0 <= i < s.segments.len(),
        s.segments[i].is_chain(),
    ensures
        i < s.run(events).segments.len(),
        s.run(events).segments[i].is_chain(),
{
    lemma_run_wf(s, events);
}

/// A free segment that crosses the chain once the chain has moved belongs to the chain
/// at the end of that same tick.
pub proof fn lemma_tick_absorbs(s: State, keys: Keys, micros: int, rotation: Rotation, i: int)
    requires
        ({
            let moved = s.steered(keys, micros).moved(rotation, micros);
            0 <= i < moved.segments.len() && is_hit(moved.segments, i)
        }),
    ensures
        s.ticked(keys, micros, rotation).segments[i].is_chain(),
{
}

/// One event changes the offset of a chain segment from the leader, and its heading, by
/// the rotation of the event and by nothing else; its length does not change.
pub proof fn lemma_event_is_rigid(s: State, event: Event, i: int)
    requires
        s.wf(),
        event.valid(),
        0 <= i < s.segments.len(),
        s.segments[i].is_chain(),
    ensures
        s.after(event).offset(i) == turned_by(s.turn_of(event), s.offset(i).0, s.offset(i).1),
        s.after(event).segments[i].heading == heading_turned_by(
            s.turn_of(event),
            s.segments[i].heading,
        ),
        s.after(event).segments[i].length == s.segments[i].length,
{
    match event {
        Event::Tick { keys, micros, rotation } => {
            let steered = s.steered(keys, micros as int);
            lemma_steered_within_limits(s.velocity, keys, micros as int);
            lemma_moved_wf(steered, rotation, micros as int);
            let moved = steered.moved(rotation, micros as int);
            lemma_collided_wf(moved);
            assert(s.after(event).segments[i].same_shape(moved.segments[i]));
            assert(s.after(event).segments[s.leader].same_shape(moved.segments[s.leader]));
            if steered.can_move(rotation, micros as int) {
                lemma_motion_is_rigid(steered, rotation, micros as int, i);
            }
        },
        Event::Line { candidate, line } => {
            lemma_with_line_wf(s, candidate, line);
        },
    }
}

/// The chain is rigid: after any sequence of ticks and appearing segments, the offset of
/// a chain segment from the leader is its first offset turned by the rotations of the
/// ticks in which the chain moved, one after the other, and so is its heading: the
/// segment turns with the leader, whose heading is carried through the same rotations.
/// Neither the leader's displacements nor the place of the segment enter into it, and
/// its length stays what it was.
pub proof fn lemma_chain_is_rigid(s: State, events: Seq<Event>, i: int)
    requires
        s.wf(),
        forall|k: int| 0 <= k < events.len() ==> (#[trigger] events[k]).valid(),
        0 <= i < s.segments.len(),
        s.segments[i].is_chain(),
    ensures
        i < s.run(events).segments.len(),
        s.run(events).offset(i) == s.carried_offset(events, s.offset(i).0, s.offset(i).1),
        s.run(events).segments[i].heading == s.carried_heading(events, s.segments[i].heading),
        s.run(events).segments[i].length == s.segments[i].length,
    decreases events.len(),
{
    if events.len() > 0 {
        let earlier = events.drop_last();
        assert forall|k: int| 0 <= k < earlier.len() implies (#[trigger] earlier[k]).valid() by {
            assert(earlier[k] == events[k]);
        }
        lemma_chain_is_rigid(s, earlier, i);
        lemma_run_wf(s, earlier);
        lemma_event_is_rigid(s.run(earlier), events.last(), i);
    }
}

/// The turn by no angle changes no displacement.
pub proof fn lemma_identity_turns_nothing(x: int, y: int)
    ensures
        Rotation::spec_identity().turned_x(x, y) == x,
        Rotation::spec_identity().turned_y(x, y) == y,
{
    assert(ONE * x - 0 * y == x * ONE) by (nonlinear_arith);
    assert(0 * x + ONE * y == y * ONE) by (nonlinear_arith);
    lemma_trunc_div_multiple(x, ONE as int);
    lemma_trunc_div_multiple(y, ONE as int);
}

/// While the leader does not turn, the chain keeps its shape exactly: after any sequence
/// of ticks without rotation, and of appearing segments, every chain segment has the
/// offset from the leader that it had at first.
pub proof fn lemma_translation_keeps_offsets(s: State, events: Seq<Event>, i: int)
    requires
        s.wf(),
        forall|k: int| 0 <= k < events.len() ==> (#[trigger] events[k]).valid(),
        forall|k: int|
            0 <= k < events.len() ==> match #[trigger] events[k] {
                Event::Tick { keys, micros, rotation } => rotation == Rotation::spec_identity(),
                Event::Line { candidate, line } => true,
            },
        0 <= i < s.segments.len(),
        s.segments[i].is_chain(),
    ensures
        i < s.run(events).segments.len(),
        s.run(events).offset(i) == s.offset(i),
{
    lemma_chain_is_rigid(s, events, i);
    lemma_untouched_offset(s, events, s.offset(i).0, s.offset(i).1);
}

/// Ticks without rotation carry an offset through unchanged.
proof fn lemma_untouched_offset(s: State, events: Seq<Event>, x: int, y: int)
    requires
        forall|k: int|
            0 <= k < events.len() ==> match #[trigger] events[k] {
                Event::Tick { keys, micros, rotation } => rotation == Rotation::spec_identity(),
                Event::Line { candidate, line } => true,
            },
    ensures
        s.carried_offset(events, x, y) == (x, y),
    decreases events.len(),
{
    if events.len() > 0 {
        let earlier = events.drop_last();
        assert forall|k: int| 0 <= k < earlier.len() implies match #[trigger] earlier[k] {
            Event::Tick { keys, micros, rotation } => rotation == Rotation::spec_identity(),
            Event::Line { candidate, line } => true,
        } by {
            assert(earlier[k] == events[k]);
        }
        lemma_untouched_offset(s, earlier, x, y);
        lemma_identity_turns_nothing(x, y);
        assert(events.last() == events[events.len() - 1]);
    }
}

/// A chain segment never drifts away from the leader: after any sequence of events its
/// offset is no longer than it was at first.
pub proof fn lemma_offsets_never_grow(s: State, events: Seq<Event>, x: int, y: int)
    requires
        forall|k: int| 0 <= k < events.len() ==> (#[trigger] events[k]).valid(),
    ensures
        ({
            let carried = s.carried_offset(events, x, y);
            carried.0 * carried.0 + carried.1 * carried.1 <= x * x + y * y
        }),
    decreases events.len(),
{
    if events.len() > 0 {
        let earlier = events.drop_last();
        assert forall|k: int| 0 <= k < earlier.len() implies (#[trigger] earlier[k]).valid() by {
            assert(earlier[k] == events[k]);
        }
        lemma_offsets_never_grow(s, earlier, x, y);
        let before = s.carried_offset(earlier, x, y);
        assert(events.last() == events[events.len() - 1]);
        match s.run(earlier).turn_of(events.last()) {
            Some(rotation) => {
                rotation.lemma_turn_is_short(before.0, before.1);
            },
            None => {},
        }
    }
}

/// A tick leaves every component of the velocity within its limit, as long as the tick
/// is short enough for the damping not to raise a speed: for ticks of up to
/// `2 * DECAY_DEN / DECAY_NUM` seconds.
pub proof fn lemma_tick_keeps_limits(s: State, keys: Keys, micros: int, rotation: Rotation)
    requires
        0 <= micros,
        DECAY_NUM * micros <= 2 * (DECAY_DEN * MICROS_PER_SECOND),
    ensures
        s.ticked(keys, micros, rotation).velocity.within_limits(),
{
    let steered = s.steered(keys, micros);
    lemma_steered_within_limits(s.velocity, keys, micros);
    lemma_damping_slows(steered.velocity.translation.x as int, micros);
    lemma_damping_slows(steered.velocity.translation.y as int, micros);
    lemma_damping_slows(steered.velocity.rotation as int, micros);
}

} // verus!
