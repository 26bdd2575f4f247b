//! One tick of the simulation: input, motion, collisions and the cameras, in that order.
use crate::camera::{chain_box, followed, overview, sync_cameras, Camera, Viewport};
use crate::collision::{handle_collisions, lists_hits};
use crate::rotation::Rotation;
use crate::motion::move_velocity;
use crate::velocity::{handle_keys, Keys, Velocity};
use crate::world::{chain_kept, State, World};
use vstd::prelude::*;

verus! {

/// What a tick did: whether the chain moved, which segments it absorbed, and whether the
/// cameras were fitted.
pub struct TickReport {
    pub moved: bool,
    pub absorbed: Vec<usize>,
    pub fitted: bool,
}

impl State {
    /// The state after `micros` microseconds of the keys `keys`: only the velocity
    /// changes.
    pub open spec fn steered(self, keys: Keys, micros: int) -> State {
        State { velocity: self.velocity.steered(keys, micros), ..self }
    }

    /// The state after one tick: the input is applied to the velocity, the chain moves
    /// with the new velocity, and the segments that the moved chain crosses join it.
    pub open spec fn ticked(self, keys: Keys, micros: int, rotation: Rotation) -> State {
        self.steered(keys, micros).moved(rotation, micros).collided()
    }
}

/// The angle by which the coming tick turns the chain, in millionths of a degree: the
/// turn rate as the keys of that tick will leave it, times the elapsed time. The caller
/// hands `tick` the rotation by this angle.
pub fn planned_turn(world: &World, keys: Keys, micros: u32) -> (angle: i64)
    ensures
        angle == world@.steered(keys, micros as int).velocity.spec_turn(micros as int),
{
    let mut velocity: Velocity = world.velocity;
    handle_keys(&mut velocity, keys, micros);
    velocity.turn(micros)
}

/// Advances the simulation by one tick of `micros` microseconds.
///
/// The steps are taken in a fixed order. The held keys change the leader's velocity; the
/// chain moves with the changed velocity, turned by `rotation`; the free segments that
/// the moved chain crosses join it; the cameras follow the grown chain. `rotation` is the
/// rotation by the angle that `planned_turn` gives for the same keys and elapsed time.
pub fn tick(
    world: &mut World,
    main: &mut Camera,
    minimap: &mut Camera,
    keys: Keys,
    micros: u32,
    rotation: Rotation,
    viewport: Viewport,
) -> (report: TickReport)
    requires
        old(world).wf(),
        rotation.wf(),
    ensures
        final(world)@ == old(world)@.ticked(keys, micros as int, rotation),
        final(world).wf(),
        chain_kept(old(world)@.segments, final(world)@.segments),
        report.moved == old(world)@.steered(keys, micros as int).can_move(rotation, micros as int),
        lists_hits(
            report.absorbed@,
            old(world)@.steered(keys, micros as int).moved(rotation, micros as int).segments,
        ),
        report.fitted == (viewport.width != 0 && viewport.height != 0),
        !report.fitted ==> *final(main) == *old(main) && *final(minimap) == *old(minimap),
        report.fitted ==> *final(main) == followed(
            *old(main),
            chain_box(final(world)@.segments),
            viewport,
            micros as int,
        ),
        report.fitted ==> *final(minimap) == overview(chain_box(final(world)@.segments), viewport),
{
    let mut velocity: Velocity = world.velocity;
    handle_keys(&mut velocity, keys, micros);
    world.velocity = velocity;
    assert(world@ == old(world)@.steered(keys, micros as int));
    let moved: bool = move_velocity(world, micros, rotation);
    let absorbed: Vec<usize> = handle_collisions(world);
    let fitted: bool = sync_cameras(world, main, minimap, viewport, micros);
    TickReport { moved, absorbed, fitted }
}

} // verus!
