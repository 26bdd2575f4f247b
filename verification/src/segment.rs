//! Segments: the line obstacles and chain links of the simulation.
use crate::intersection::{convert_to_endpoints, half_axis_x, half_axis_y, segments_cross};
use crate::intersection::{lemma_half_axis_bounded, Point, CENTER_MAX, LENGTH_MAX};
use crate::rotation::Rotation;
use vstd::prelude::*;

verus! {

/// Whether a segment floats free or belongs to the player's chain. A segment only ever
/// goes from `Free` to `Chain`.
#[derive(Clone, Copy, Debug, PartialEq, Eq, Structural)]
pub enum Membership {
    Free,
    Chain,
}

/// A line obstacle or chain link: a centre, a length fixed at creation, the heading it is
/// drawn with, and its membership.
///
/// The long axis of a segment, along which its endpoints lie, is a quarter turn away from
/// its heading.
#[derive(Clone, Copy, Debug, PartialEq, Eq, Structural)]
pub struct Segment {
    pub center: Point,
    pub length: i64,
    pub heading: Rotation,
    pub membership: Membership,
}

impl Segment {
    /// The segment lies in the world: its centre and its length are within the limits of
    /// the geometry, its length is positive and its heading is a rotation.
    pub open spec fn wf(self) -> bool {
        &&& self.center.within(CENTER_MAX as int)
        &&& 0 < self.length <= LENGTH_MAX
        &&& self.heading.wf()
    }

    /// The segment belongs to the chain.
    pub open spec fn is_chain(self) -> bool {
        self.membership == Membership::Chain
    }

    /// The direction of the long axis: the heading turned by a quarter of a circle.
    pub open spec fn long_axis(self) -> Rotation {
        self.heading.spec_quarter_turn()
    }

    /// The first endpoint: the centre plus half the length along the long axis.
    pub open spec fn start(self) -> Point {
        Point {
            x: (self.center.x + half_axis_x(self.length as int, self.long_axis())) as i64,
            y: (self.center.y + half_axis_y(self.length as int, self.long_axis())) as i64,
        }
    }

    /// The second endpoint: the centre minus half the length along the long axis.
    pub open spec fn end(self) -> Point {
        Point {
            x: (self.center.x - half_axis_x(self.length as int, self.long_axis())) as i64,
            y: (self.center.y - half_axis_y(self.length as int, self.long_axis())) as i64,
        }
    }

    /// This segment crosses `other`, endpoints included.
    pub open spec fn touches(self, other: Segment) -> bool {
        segments_cross(self.start(), self.end(), other.start(), other.end())
    }

    /// The two segments agree in everything but membership.
    pub open spec fn same_shape(self, other: Segment) -> bool {
        &&& self.center == other.center
        &&& self.length == other.length
        &&& self.heading == other.heading
    }

    /// This segment as a member of the chain.
    pub open spec fn absorbed(self) -> Segment {
        Segment { membership: Membership::Chain, ..self }
    }

    /// The endpoints of a segment in the world are points of the world, symmetric about
    /// its centre.
    pub proof fn lemma_endpoints_in_world(self)
        requires
            self.wf(),
        ensures
            self.start().in_world(),
            self.end().in_world(),
            self.start().x + self.end().x == 2 * self.center.x,
            self.start().y + self.end().y == 2 * self.center.y,
            self.long_axis().wf(),
    {
        self.heading.lemma_components_bounded();
        let c = self.heading.cos as int;
        let s = self.heading.sin as int;
        assert((-s) * (-s) + c * c == c * c + s * s) by (nonlinear_arith);
        lemma_half_axis_bounded(self.length as int, self.long_axis());
    }

    /// A free segment with the given centre, length and heading, if it lies in the world.
    pub fn new(center: Point, length: i64, heading: Rotation) -> (r: Option<Segment>)
        ensures
            r == if (Segment { center, length, heading, membership: Membership::Free }).wf() {
                Some(Segment { center, length, heading, membership: Membership::Free })
            } else {
                None::<Segment>
            },
    {
        let segment = Segment { center, length, heading, membership: Membership::Free };
        if segment.is_valid() {
            Some(segment)
        } else {
            None
        }
    }

    /// Whether the segment lies in the world.
    pub fn is_valid(&self) -> (b: bool)
        ensures
            b == self.wf(),
    {
        -CENTER_MAX <= self.center.x && self.center.x <= CENTER_MAX && -CENTER_MAX
            <= self.center.y && self.center.y <= CENTER_MAX && 0 < self.length && self.length
            <= LENGTH_MAX && self.heading.is_valid()
    }

    /// The two endpoints of the segment.
    ///
    /// The stored heading is turned by a quarter of a circle to give the long axis before
    /// the endpoints are computed.
    pub fn endpoints(&self) -> (ends: (Point, Point))
        requires
            self.wf(),
        ensures
            ends.0 == self.start(),
            ends.1 == self.end(),
            ends.0.in_world(),
            ends.1.in_world(),
    {
        let axis: Rotation = self.heading.quarter_turn();
        convert_to_endpoints(self.center, self.length, axis)
    }

    /// Whether the segment belongs to the chain.
    pub fn in_chain(&self) -> (b: bool)
        ensures
            b == self.is_chain(),
    {
        match self.membership {
            Membership::Chain => true,
            Membership::Free => false,
        }
    }
}

} // verus!
