//! The collision detector: free segments that touch the chain join it.
use crate::intersection::{lines_intersect, Point};
use crate::segment::{Membership, Segment};
use crate::world::{chain_kept, led_by, State, World};
use vstd::prelude::*;

verus! {

/// The segment at index `i` crosses some segment of the chain.
pub open spec fn touches_chain(segments: Seq<Segment>, i: int) -> bool {
    exists|j: int|
        0 <= j < segments.len() && (#[trigger] segments[j]).is_chain() && segments[j].touches(
            segments[i],
        )
}

/// The segment at index `i` is free and crosses some segment of the chain.
pub open spec fn is_hit(segments: Seq<Segment>, i: int) -> bool {
    !segments[i].is_chain() && touches_chain(segments, i)
}

/// The segment at index `i` after the collisions of a tick: a member of the chain if it
/// was hit, and unchanged otherwise.
pub open spec fn after_collisions(segments: Seq<Segment>, i: int) -> Segment {
    if is_hit(segments, i) {
        segments[i].absorbed()
    } else {
        segments[i]
    }
}

impl State {
    /// The state after the collisions of a tick: every free segment that crosses the
    /// chain has joined it, and nothing else has changed.
    pub open spec fn collided(self) -> State {
        State {
            segments: Seq::new(self.segments.len(), |i: int| after_collisions(self.segments, i)),
            ..self
        }
    }
}

/// The indices in `hits` are exactly the hit segments, in increasing order.
pub open spec fn lists_hits(hits: Seq<usize>, segments: Seq<Segment>) -> bool {
    &&& forall|a: int, b: int| 0 <= a < b < hits.len() ==> hits[a] < hits[b]
    &&& forall|a: int| 0 <= a < hits.len() ==> hits[a] < segments.len() && is_hit(segments, #[trigger] hits[a] as int)
    &&& forall|i: int| 0 <= i < segments.len() && is_hit(segments, i) ==> hits.contains(i as usize)
}

/// The collisions of a tick keep a state well formed and move nothing: every segment
/// keeps its shape, no segment leaves the chain, and a segment joins it exactly when it
/// was free and crossed a segment that was in the chain before.
pub proof fn lemma_collided_wf(s: State)
    requires
        s.wf(),
    ensures
        s.collided().wf(),
        s.collided().leader == s.leader,
        s.collided().velocity == s.velocity,
        s.collided().segments.len() == s.segments.len(),
        chain_kept(s.segments, s.collided().segments),
        forall|i: int|
            0 <= i < s.segments.len() ==> (#[trigger] s.collided().segments[i]).same_shape(
                s.segments[i],
            ) && (s.collided().segments[i].is_chain() <==> (s.segments[i].is_chain()
                || touches_chain(s.segments, i))),
{
    let t = s.collided();
    assert forall|i: int| 0 <= i < t.segments.len() implies (#[trigger] t.segments[i]).wf() by {
        assert(s.segments[i].wf());
    }
}

/// A free segment that crosses a segment of the chain belongs to the chain once the
/// collisions of the tick are handled.
pub proof fn lemma_touched_segment_joins(s: State, i: int, j: int)
    requires
        0 <= i < s.segments.len(),
        0 <= j < s.segments.len(),
        s.segments[j].is_chain(),
        s.segments[j].touches(s.segments[i]),
    ensures
        s.collided().segments[i].is_chain(),
{
    assert(touches_chain(s.segments, i));
}

/// Whether the segment at index `i` crosses some segment of the chain.
pub fn touches_any(world: &World, i: usize) -> (b: bool)
    requires
        world.wf(),
        i < world.segments@.len(),
    ensures
        b == touches_chain(world.segments@, i as int),
{
    let ghost segments = world.segments@;
    let ends: (Point, Point) = world.segments[i].endpoints();
    let mut j: usize = 0;
    while j < world.segments.len()
        invariant
            segments == world.segments@,
            led_by(segments, world.leader as int),
            i < segments.len(),
            ends.0 == segments[i as int].start(),
            ends.1 == segments[i as int].end(),
            ends.0.in_world(),
            ends.1.in_world(),
            0 <= j <= segments.len(),
            forall|k: int|
                0 <= k < j && (#[trigger] segments[k]).is_chain() ==> !segments[k].touches(
                    segments[i as int],
                ),
        decreases segments.len() - j,
    {
        if world.segments[j].in_chain() {
            let link: (Point, Point) = world.segments[j].endpoints();
            if lines_intersect(link.0, link.1, ends.0, ends.1).is_some() {
                assert(segments[j as int].is_chain() && segments[j as int].touches(
                    segments[i as int],
                ));
                return true;
            }
        }
        j = j + 1;
    }
    false
}

/// Absorbs into the chain every free segment that crosses it, and reports which were
/// absorbed.
///
/// Each free segment is tested against every segment that belonged to the chain when
/// the tick began: a segment absorbed in this tick does not absorb others before the
/// next one. Only memberships change; no segment moves. The result lists the indices of
/// the absorbed segments in increasing order.
pub fn handle_collisions(world: &mut World) -> (absorbed: Vec<usize>)
    requires
        old(world).wf(),
    ensures
        final(world)@ == old(world)@.collided(),
        lists_hits(absorbed@, old(world)@.segments),
        final(world).wf(),
        chain_kept(old(world)@.segments, final(world)@.segments),
{
    let ghost before = world.segments@;
    let mut after: Vec<Segment> = Vec::new();
    let mut absorbed: Vec<usize> = Vec::new();
    let mut i: usize = 0;
    while i < world.segments.len()
        invariant
            world.wf(),
            *world == *old(world),
            before == world.segments@,
            0 <= i <= before.len(),
            after@.len() == i,
            forall|k: int| 0 <= k < i ==> #[trigger] after@[k] == after_collisions(before, k),
            forall|a: int, b: int| 0 <= a < b < absorbed@.len() ==> absorbed@[a] < absorbed@[b],
            forall|a: int|
                0 <= a < absorbed@.len() ==> absorbed@[a] < i && is_hit(
                    before,
                    #[trigger] absorbed@[a] as int,
                ),
            forall|k: int| 0 <= k < i && is_hit(before, k) ==> absorbed@.contains(k as usize),
        decreases before.len() - i,
    {
        let segment: Segment = world.segments[i];
        if !segment.in_chain() && touches_any(world, i) {
            let ghost listed = absorbed@;
            after.push(Segment { membership: Membership::Chain, ..segment });
            absorbed.push(i);
            proof {
                assert(absorbed@[listed.len() as int] == i);
                assert forall|k: int| 0 <= k < i + 1 && is_hit(before, k) implies absorbed@.contains(
                    k as usize,
                ) by {
                    if k < i {
                        assert(listed.contains(k as usize));
                        let a = choose|a: int| 0 <= a < listed.len() && listed[a] == k as usize;
                        assert(absorbed@[a] == k as usize);
                    }
                }
            }
        } else {
            after.push(segment);
        }
        i = i + 1;
    }
    world.segments = after;
    assert(world@.segments =~= old(world)@.collided().segments);
    absorbed
}

} // verus!
