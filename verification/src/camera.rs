//! The viewport fitter: the bounding box of the chain and the cameras that frame it.
use crate::fixed::{clamp_to, clamped, lower, max_of, min_of, trunc_div, upper};
use crate::fixed::{COORD_MAX, MICROS_PER_SECOND};
use crate::fixed::{lemma_trunc_div_bounds, lemma_trunc_div_within};
use crate::algebra::lemma_product_bounded;
use crate::intersection::Point;
use crate::segment::Segment;
use crate::world::{led_by, World};
use vstd::prelude::*;

verus! {

/// Numerator of the share of the viewport that the chain is fitted to.
pub const FILL_NUM: i64 = 1;

/// Denominator of the share of the viewport that the chain is fitted to.
pub const FILL_DEN: i64 = 2;

/// How fast the main camera's centre closes in on its target: the share of the remaining
/// distance covered per second.
pub const CENTER_RATE: i64 = 5;

/// How fast the main camera's scale closes in on its target, per second.
pub const SCALE_RATE: i64 = 1;

/// How much farther out than the fitted scale the overview camera stands.
pub const OVERVIEW_ZOOM: i64 = 50;

/// A camera: the point of the world at the middle of its picture, and its scale in
/// sub-units per pixel.
#[derive(Clone, Copy, Debug, PartialEq, Eq, Structural)]
pub struct Camera {
    pub center: Point,
    pub scale: i64,
}

/// The size of the window in pixels.
#[derive(Clone, Copy, Debug, PartialEq, Eq, Structural)]
pub struct Viewport {
    pub width: u32,
    pub height: u32,
}

/// An axis-aligned box, given by its corners of least and of greatest coordinates.
#[derive(Clone, Copy, Debug, PartialEq, Eq, Structural)]
pub struct Bounds {
    pub min: Point,
    pub max: Point,
}

impl Bounds {
    /// The point lies in the box, borders included.
    pub open spec fn holds(self, p: Point) -> bool {
        &&& self.min.x <= p.x <= self.max.x
        &&& self.min.y <= p.y <= self.max.y
    }

    /// The box holds both endpoints of every chain segment.
    pub open spec fn encloses(self, segments: Seq<Segment>) -> bool {
        forall|i: int|
            0 <= i < segments.len() && (#[trigger] segments[i]).is_chain() ==> self.holds(
                segments[i].start(),
            ) && self.holds(segments[i].end())
    }

    /// Some endpoint of a chain segment has `x` as its first coordinate.
    pub open spec fn reaches_x(segments: Seq<Segment>, x: int) -> bool {
        exists|i: int|
            0 <= i < segments.len() && (#[trigger] segments[i]).is_chain() && (segments[i].start().x
                == x || segments[i].end().x == x)
    }

    /// Some endpoint of a chain segment has `y` as its second coordinate.
    pub open spec fn reaches_y(segments: Seq<Segment>, y: int) -> bool {
        exists|i: int|
            0 <= i < segments.len() && (#[trigger] segments[i]).is_chain() && (segments[i].start().y
                == y || segments[i].end().y == y)
    }

    /// The box is the bounding box of the chain: it holds every endpoint of every chain
    /// segment, and each of its four sides passes through one of them.
    pub open spec fn bounds_chain(self, segments: Seq<Segment>) -> bool {
        &&& self.encloses(segments)
        &&& Self::reaches_x(segments, self.min.x as int)
        &&& Self::reaches_x(segments, self.max.x as int)
        &&& Self::reaches_y(segments, self.min.y as int)
        &&& Self::reaches_y(segments, self.max.y as int)
    }

    /// The middle of the box, each coordinate rounded toward zero.
    pub open spec fn spec_center(self) -> Point {
        Point {
            x: trunc_div(self.min.x + self.max.x, 2) as i64,
            y: trunc_div(self.min.y + self.max.y, 2) as i64,
        }
    }

    /// The width of the box.
    pub open spec fn width(self) -> int {
        self.max.x - self.min.x
    }

    /// The height of the box.
    pub open spec fn height(self) -> int {
        self.max.y - self.min.y
    }

    /// A chain has only one bounding box.
    pub proof fn lemma_bounds_unique(self, other: Bounds, segments: Seq<Segment>)
        requires
            self.bounds_chain(segments),
            other.bounds_chain(segments),
        ensures
            self == other,
    {
    }
}

/// The bounding box of the chain among `segments`.
pub open spec fn chain_box(segments: Seq<Segment>) -> Bounds {
    choose|bounds: Bounds| bounds.bounds_chain(segments)
}

/// The scale at which a stretch of `extent` sub-units fills the target share of `pixels`
/// pixels, rounded toward zero.
pub open spec fn scale_for(extent: int, pixels: int) -> int
    recommends
        pixels > 0,
{
    trunc_div(FILL_DEN * extent, FILL_NUM * pixels)
}

/// The scale at which a box of the given width and height fits into the target share of
/// the viewport in both directions: the larger of the scales that its width and its
/// height ask for.
pub open spec fn fitted_scale(width: int, height: int, viewport: Viewport) -> int
    recommends
        viewport.width > 0,
        viewport.height > 0,
{
    max_of(scale_for(width, viewport.width as int), scale_for(height, viewport.height as int))
}

/// A value moved from `current` toward `target` by the share `rate * micros` millionths
/// of the distance, limited to what a machine integer holds.
///
/// The share is not limited to one: a tick longer than `1 / rate` seconds overshoots.
pub open spec fn eased(current: int, target: int, rate: int, micros: int) -> int {
    clamped(
        current + trunc_div((target - current) * (rate * micros), MICROS_PER_SECOND as int),
        i64::MIN as int,
        i64::MAX as int,
    )
}

/// The main camera after a tick of `micros` microseconds in which it follows the box
/// `bounds` through the viewport `viewport`.
pub open spec fn followed(main: Camera, bounds: Bounds, viewport: Viewport, micros: int) -> Camera {
    let target = bounds.spec_center();
    Camera {
        center: Point {
            x: eased(main.center.x as int, target.x as int, CENTER_RATE as int, micros) as i64,
            y: eased(main.center.y as int, target.y as int, CENTER_RATE as int, micros) as i64,
        },
        scale: eased(
            main.scale as int,
            fitted_scale(bounds.width(), bounds.height(), viewport),
            SCALE_RATE as int,
            micros,
        ) as i64,
    }
}

/// The overview camera for the box `bounds` in the viewport `viewport`: centred on the
/// box, and farther out than the fitted scale by the overview zoom.
pub open spec fn overview(bounds: Bounds, viewport: Viewport) -> Camera {
    Camera {
        center: bounds.spec_center(),
        scale: (OVERVIEW_ZOOM * fitted_scale(bounds.width(), bounds.height(), viewport)) as i64,
    }
}

/// The scale for a stretch is the largest whole number of sub-units per pixel at which
/// the stretch still covers the target share of the pixels.
pub proof fn lemma_scale_for_bounds(extent: int, pixels: int)
    requires
        0 <= extent,
        0 < pixels,
    ensures
        0 <= scale_for(extent, pixels),
        scale_for(extent, pixels) * pixels <= 2 * extent < (scale_for(extent, pixels) + 1) * pixels,
        scale_for(extent, pixels) * (FILL_NUM * pixels) <= FILL_DEN * extent < (scale_for(
            extent,
            pixels,
        ) + 1) * (FILL_NUM * pixels),
{
    let q = scale_for(extent, pixels);
    assert(FILL_NUM * pixels == pixels);
    assert(FILL_DEN * extent == 2 * extent);
    lemma_trunc_div_bounds(2 * extent, pixels);
    assert(q == trunc_div(2 * extent, pixels));
    assert((q + 1) * pixels == q * pixels + pixels) by (nonlinear_arith);
}

/// Where the box is wider, measured against the viewport, than it is high, its width
/// sets the scale: the width, seen at the fitted scale, fills the target share of the
/// viewport's width, up to the rounding of the scale.
pub proof fn lemma_wider_ratio_sets_scale(width: int, height: int, viewport: Viewport)
    requires
        viewport.width > 0,
        viewport.height > 0,
        0 <= width,
        0 <= height,
        width * viewport.height > height * viewport.width,
    ensures
        ({
            let scale = fitted_scale(width, height, viewport);
            &&& scale == scale_for(width, viewport.width as int)
            &&& scale * (FILL_NUM * viewport.width) <= FILL_DEN * width < (scale + 1) * (FILL_NUM
                * viewport.width)
        }),
{
    let vw = viewport.width as int;
    let vh = viewport.height as int;
    let by_height = scale_for(height, vh);
    let by_width = scale_for(width, vw);
    lemma_scale_for_bounds(height, vh);
    lemma_scale_for_bounds(width, vw);
    if by_height > by_width {
        // by_height * vh <= 2 * height, and (by_width + 1) * vw > 2 * width
        assert(by_height * vh * vw <= 2 * height * vw) by (nonlinear_arith)
            requires
                by_height * vh <= 2 * height,
                vw > 0,
        ;
        assert((by_width + 1) * vw * vh > 2 * width * vh) by (nonlinear_arith)
            requires
                (by_width + 1) * vw > 2 * width,
                vh > 0,
        ;
        assert(by_height * vh * vw >= (by_width + 1) * vw * vh) by (nonlinear_arith)
            requires
                by_height >= by_width + 1,
                vw > 0,
                vh > 0,
        ;
        assert(2 * height * vw < 2 * width * vh) by (nonlinear_arith)
            requires
                width * vh > height * vw,
        ;
    }
}

/// At the fitted scale the box fits into the target share of the viewport in both
/// directions, up to the rounding of the scale.
pub proof fn lemma_fit_contains(width: int, height: int, viewport: Viewport)
    requires
        viewport.width > 0,
        viewport.height > 0,
        0 <= width,
        0 <= height,
    ensures
        ({
            let scale = fitted_scale(width, height, viewport);
            &&& FILL_DEN * width < (scale + 1) * (FILL_NUM * viewport.width)
            &&& FILL_DEN * height < (scale + 1) * (FILL_NUM * viewport.height)
            &&& scale >= 0
        }),
{
    let vw = viewport.width as int;
    let vh = viewport.height as int;
    let scale = fitted_scale(width, height, viewport);
    let by_height = scale_for(height, vh);
    let by_width = scale_for(width, vw);
    lemma_scale_for_bounds(height, vh);
    lemma_scale_for_bounds(width, vw);
    assert((scale + 1) * vw >= (by_width + 1) * vw) by (nonlinear_arith)
        requires
            scale >= by_width,
            vw > 0,
    ;
    assert((scale + 1) * vh >= (by_height + 1) * vh) by (nonlinear_arith)
        requires
            scale >= by_height,
            vh > 0,
    ;
}

/// A value that has reached its target stays there, however long the tick.
pub proof fn lemma_settled_value_stays(target: int, rate: int, micros: int)
    requires
        i64::MIN <= target <= i64::MAX,
    ensures
        eased(target, target, rate, micros) == target,
{
    assert((target - target) * (rate * micros) == 0) by (nonlinear_arith);
    lemma_trunc_div_bounds(0, MICROS_PER_SECOND as int);
}

/// A main camera that is centred on the box at the fitted scale stays as it is: the
/// fitted scale is the steady state of the camera.
pub proof fn lemma_fitted_camera_stays(main: Camera, bounds: Bounds, viewport: Viewport, micros: int)
    requires
        main.center == bounds.spec_center(),
        main.scale == fitted_scale(bounds.width(), bounds.height(), viewport),
    ensures
        followed(main, bounds, viewport, micros) == main,
{
    lemma_settled_value_stays(main.center.x as int, CENTER_RATE as int, micros);
    lemma_settled_value_stays(main.center.y as int, CENTER_RATE as int, micros);
    lemma_settled_value_stays(main.scale as int, SCALE_RATE as int, micros);
}

/// A tick of at most `1 / rate` seconds does not overshoot: the eased value lies between
/// the current value and the target.
pub proof fn lemma_eased_between(current: int, target: int, rate: int, micros: int)
    requires
        i64::MIN <= current <= i64::MAX,
        i64::MIN <= target <= i64::MAX,
        0 <= rate * micros <= MICROS_PER_SECOND,
    ensures
        min_of(current, target) <= eased(current, target, rate, micros) <= max_of(current, target),
{
    let share = rate * micros;
    let distance = target - current;
    let m = MICROS_PER_SECOND as int;
    lemma_trunc_div_bounds(distance * share, m);
    if distance >= 0 {
        assert(0 <= distance * share <= distance * m) by (nonlinear_arith)
            requires
                distance >= 0,
                0 <= share <= m,
        ;
        lemma_trunc_div_within(distance * share, m, distance);
    } else {
        assert(0 >= distance * share >= distance * m) by (nonlinear_arith)
            requires
                distance <= 0,
                0 <= share <= m,
        ;
        assert((-distance) * m == -(distance * m)) by (nonlinear_arith);
        lemma_trunc_div_within(distance * share, m, -distance);
    }
}

/// The bounding box of the chain: the least and the greatest coordinates among the
/// endpoints of all chain segments.
pub fn chain_bounds(world: &World) -> (bounds: Bounds)
    requires
        world.wf(),
    ensures
        bounds == chain_box(world.segments@),
        bounds.bounds_chain(world.segments@),
        bounds.min.in_world(),
        bounds.max.in_world(),
        bounds.min.x <= bounds.max.x,
        bounds.min.y <= bounds.max.y,
{
    let ghost segments = world.segments@;
    let first: (Point, Point) = world.segments[world.leader].endpoints();
    let mut min_x: i64 = lower(first.0.x, first.1.x);
    let mut max_x: i64 = upper(first.0.x, first.1.x);
    let mut min_y: i64 = lower(first.0.y, first.1.y);
    let mut max_y: i64 = upper(first.0.y, first.1.y);
    let ghost mut at_min_x: int = world.leader as int;
    let ghost mut at_max_x: int = world.leader as int;
    let ghost mut at_min_y: int = world.leader as int;
    let ghost mut at_max_y: int = world.leader as int;
    let mut i: usize = 0;
    while i < world.segments.len()
        invariant
            segments == world.segments@,
            led_by(segments, world.leader as int),
            0 <= i <= segments.len(),
            -COORD_MAX <= min_x <= max_x <= COORD_MAX,
            -COORD_MAX <= min_y <= max_y <= COORD_MAX,
            forall|k: int|
                0 <= k < i && (#[trigger] segments[k]).is_chain() ==> {
                    &&& min_x <= segments[k].start().x <= max_x
                    &&& min_x <= segments[k].end().x <= max_x
                    &&& min_y <= segments[k].start().y <= max_y
                    &&& min_y <= segments[k].end().y <= max_y
                },
            min_x <= segments[world.leader as int].start().x <= max_x,
            min_x <= segments[world.leader as int].end().x <= max_x,
            min_y <= segments[world.leader as int].start().y <= max_y,
            min_y <= segments[world.leader as int].end().y <= max_y,
            0 <= at_min_x < segments.len() && segments[at_min_x].is_chain() && (
            segments[at_min_x].start().x == min_x || segments[at_min_x].end().x == min_x),
            0 <= at_max_x < segments.len() && segments[at_max_x].is_chain() && (
            segments[at_max_x].start().x == max_x || segments[at_max_x].end().x == max_x),
            0 <= at_min_y < segments.len() && segments[at_min_y].is_chain() && (
            segments[at_min_y].start().y == min_y || segments[at_min_y].end().y == min_y),
            0 <= at_max_y < segments.len() && segments[at_max_y].is_chain() && (
            segments[at_max_y].start().y == max_y || segments[at_max_y].end().y == max_y),
        decreases segments.len() - i,
    {
        if world.segments[i].in_chain() {
            let ends: (Point, Point) = world.segments[i].endpoints();
            let low_x: i64 = lower(ends.0.x, ends.1.x);
            let high_x: i64 = upper(ends.0.x, ends.1.x);
            let low_y: i64 = lower(ends.0.y, ends.1.y);
            let high_y: i64 = upper(ends.0.y, ends.1.y);
            if low_x < min_x {
                min_x = low_x;
                proof {
                    at_min_x = i as int;
                }
            }
            if high_x > max_x {
                max_x = high_x;
                proof {
                    at_max_x = i as int;
                }
            }
            if low_y < min_y {
                min_y = low_y;
                proof {
                    at_min_y = i as int;
                }
            }
            if high_y > max_y {
                max_y = high_y;
                proof {
                    at_max_y = i as int;
                }
            }
        }
        i = i + 1;
    }
    let bounds = Bounds { min: Point { x: min_x, y: min_y }, max: Point { x: max_x, y: max_y } };
    proof {
        assert(bounds.encloses(segments));
        assert(Bounds::reaches_x(segments, min_x as int)) by {
            assert(segments[at_min_x].is_chain());
        }
        assert(Bounds::reaches_x(segments, max_x as int)) by {
            assert(segments[at_max_x].is_chain());
        }
        assert(Bounds::reaches_y(segments, min_y as int)) by {
            assert(segments[at_min_y].is_chain());
        }
        assert(Bounds::reaches_y(segments, max_y as int)) by {
            assert(segments[at_max_y].is_chain());
        }
        assert(bounds.bounds_chain(segments));
        bounds.lemma_bounds_unique(chain_box(segments), segments);
    }
    bounds
}

/// A value moved from `current` toward `target` by the share `rate * micros` millionths
/// of the distance, limited to what a machine integer holds.
fn ease(current: i64, target: i64, rate: i64, micros: u32) -> (r: i64)
    requires
        0 <= rate <= 8,
    ensures
        r == eased(current as int, target as int, rate as int, micros as int),
{
    let distance: i128 = target as i128 - current as i128;
    assert(0 <= rate * micros <= 0x8_0000_0000) by (nonlinear_arith)
        requires
            0 <= rate <= 8,
            0 <= micros <= 0xffff_ffff,
    ;
    let share: i128 = rate as i128 * micros as i128;
    proof {
        lemma_product_bounded(
            distance as int,
            share as int,
            0x1_0000_0000_0000_0000,
            0x8_0000_0000,
        );
        assert(0x1_0000_0000_0000_0000 * 0x8_0000_0000 == 0x8_0000_0000_0000_0000_0000_0000int)
            by (nonlinear_arith);
        lemma_trunc_div_within(
            distance * share,
            MICROS_PER_SECOND as int,
            0x8_0000_0000_0000_0000_0000_0000,
        );
        assert(0x8_0000_0000_0000_0000_0000_0000 * MICROS_PER_SECOND >= 0x8_0000_0000_0000_0000_0000_0000int) by (nonlinear_arith);
    }
    let step: i128 = (distance * share) / (MICROS_PER_SECOND as i128);
    clamp_to(current as i128 + step, i64::MIN, i64::MAX)
}

/// The scale at which a box of the given width and height fits into the target share of
/// the viewport, or nothing where the viewport has no width or no height.
pub fn fit_scale(width: i64, height: i64, viewport: Viewport) -> (scale: Option<i64>)
    requires
        0 <= width <= 2 * COORD_MAX,
        0 <= height <= 2 * COORD_MAX,
    ensures
        scale == if viewport.width == 0 || viewport.height == 0 {
            None::<i64>
        } else {
            Some(fitted_scale(width as int, height as int, viewport) as i64)
        },
        scale.is_some() ==> 0 <= scale.unwrap() == fitted_scale(
            width as int,
            height as int,
            viewport,
        ) <= 4 * COORD_MAX,
{
    if viewport.width == 0 || viewport.height == 0 {
        return None;
    }
    proof {
        lemma_trunc_div_bounds(FILL_DEN * width, FILL_NUM * viewport.width);
        lemma_trunc_div_bounds(FILL_DEN * height, FILL_NUM * viewport.height);
        lemma_trunc_div_within(FILL_DEN * width, FILL_NUM * viewport.width, 4 * COORD_MAX);
        lemma_trunc_div_within(FILL_DEN * height, FILL_NUM * viewport.height, 4 * COORD_MAX);
        assert((4 * COORD_MAX) * (FILL_NUM * viewport.width) >= 4 * COORD_MAX) by (nonlinear_arith)
            requires
                viewport.width >= 1,
        ;
        assert((4 * COORD_MAX) * (FILL_NUM * viewport.height) >= 4 * COORD_MAX)
            by (nonlinear_arith)
            requires
                viewport.height >= 1,
        ;
    }
    let by_width: i64 = (FILL_DEN * width) / (FILL_NUM * (viewport.width as i64));
    let by_height: i64 = (FILL_DEN * height) / (FILL_NUM * (viewport.height as i64));
    Some(upper(by_width, by_height))
}

/// Moves the cameras after the chain.
///
/// The chain's bounding box gives a target centre, its middle, and a target scale, at
/// which the box fills the target share of the viewport in the direction that needs the
/// larger scale. The main camera moves toward both by a share proportional to the elapsed
/// time; the overview camera jumps to the target centre and stands farther out by the
/// overview zoom. Where the viewport has no width or no height, the tick is skipped and
/// both cameras stay as they are: the result says whether the cameras were fitted.
pub fn sync_cameras(
    world: &World,
    main: &mut Camera,
    minimap: &mut Camera,
    viewport: Viewport,
    micros: u32,
) -> (fitted: bool)
    requires
        world.wf(),
    ensures
        fitted == (viewport.width != 0 && viewport.height != 0),
        !fitted ==> *final(main) == *old(main) && *final(minimap) == *old(minimap),
        fitted ==> *final(main) == followed(
            *old(main),
            chain_box(world.segments@),
            viewport,
            micros as int,
        ),
        fitted ==> *final(minimap) == overview(chain_box(world.segments@), viewport),
{
    let bounds: Bounds = chain_bounds(world);
    let width: i64 = bounds.max.x - bounds.min.x;
    let height: i64 = bounds.max.y - bounds.min.y;
    match fit_scale(width, height, viewport) {
        None => false,
        Some(scale) => {
            proof {
                lemma_trunc_div_within(bounds.min.x + bounds.max.x, 2, COORD_MAX as int);
                lemma_trunc_div_within(bounds.min.y + bounds.max.y, 2, COORD_MAX as int);
            }
            let target = Point {
                x: (bounds.min.x + bounds.max.x) / 2,
                y: (bounds.min.y + bounds.max.y) / 2,
            };
            assert(target == bounds.spec_center());
            let center = Point {
                x: ease(main.center.x, target.x, CENTER_RATE, micros),
                y: ease(main.center.y, target.y, CENTER_RATE, micros),
            };
            let eased_scale: i64 = ease(main.scale, scale, SCALE_RATE, micros);
            *main = Camera { center, scale: eased_scale };
            *minimap = Camera { center: target, scale: OVERVIEW_ZOOM * scale };
            true
        },
    }
}

} // verus!
