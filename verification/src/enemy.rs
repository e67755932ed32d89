//! Reusable enemy behavior, independent of rendering and concrete enemy types.
//!
//! Distances and velocities are measured outside and handed in; what an enemy
//! does about them is decided here.

use crate::bits::{
    at_most, clamp, clamped, finite, is_finite, less, nan, negate, negated, scaled, total_order,
    total_rank, unsigned, Vec2, MINUS_ONE, ONE, ZERO,
};
use crate::collision::{is_positive, positive, Collider};
use crate::identities::{has_identity, include_identity, increasing};
use vstd::prelude::*;

verus! {

/// The smallest distance that tells a neighbour from the enemy itself, by its
/// bit pattern: the step above one.
pub const EPSILON: u32 = 0x3400_0000;

/// Select built-in pursuit, or supply velocity from outside.
#[derive(Clone, Copy, Debug, PartialEq, Eq, Structural)]
pub enum SteeringMode {
    Chase,
    Manual,
}

impl Default for SteeringMode {
    fn default() -> (mode: Self)
        ensures
            mode == SteeringMode::Chase,
    {
        SteeringMode::Chase
    }
}

/// How an actor responds when its hitbox reaches an arena edge.
#[derive(Clone, Copy, Debug, PartialEq, Eq, Structural)]
pub enum BoundaryMode {
    /// Leave one edge and arrive at the opposite one, keeping speed.
    Wrap,
    /// Stop dead at the edge.
    Clamp,
    /// Reflect off the edge.
    Bounce,
}

impl Default for BoundaryMode {
    fn default() -> (mode: Self)
        ensures
            mode == BoundaryMode::Wrap,
    {
        BoundaryMode::Wrap
    }
}

/// Per-enemy tuning. Distances are world units, times are seconds, each by its
/// bit pattern. Invalid settings freeze movement.
#[derive(Clone, Copy, Debug, PartialEq, Eq, Structural)]
pub struct EnemySettings {
    pub steering: SteeringMode,
    pub boundary: BoundaryMode,
    /// Maximum chase speed (manual velocity is also capped to this speed).
    pub speed: u32,
    /// Exponential velocity response per second; must be positive.
    pub response: u32,
    /// Acquire the nearest eligible actor inside this radius.
    pub detection_range: u32,
    /// Retain the current target to this radius; must be >= detection range.
    pub retention_range: u32,
    /// Stop pursuing inside this center-to-center distance.
    pub stop_distance: u32,
    /// Slow down over this additional distance approaching the stop distance.
    pub arrival_radius: u32,
    /// Predict target position by this many seconds of its current velocity.
    pub lookahead_seconds: u32,
}

/// Speed 180, response 8, detection to 900 and retention to 1200, no stop
/// distance, an arrival radius of 80 and 0.15 seconds of lookahead.
pub open spec fn default_settings() -> EnemySettings {
    EnemySettings {
        steering: SteeringMode::Chase,
        boundary: BoundaryMode::Wrap,
        speed: 0x4334_0000,
        response: 0x4100_0000,
        detection_range: 0x4461_0000,
        retention_range: 0x4496_0000,
        stop_distance: ZERO,
        arrival_radius: 0x42a0_0000,
        lookahead_seconds: 0x3e19_999a,
    }
}

impl Default for EnemySettings {
    fn default() -> (settings: Self)
        ensures
            settings == default_settings(),
    {
        EnemySettings {
            steering: SteeringMode::Chase,
            boundary: BoundaryMode::Wrap,
            speed: 0x4334_0000,
            response: 0x4100_0000,
            detection_range: 0x4461_0000,
            retention_range: 0x4496_0000,
            stop_distance: ZERO,
            arrival_radius: 0x42a0_0000,
            lookahead_seconds: 0x3e19_999a,
        }
    }
}

/// A value not below zero, and not infinite.
pub open spec fn usable(bits: u32) -> bool {
    finite(bits) && scaled(bits) >= 0
}

/// Whether a value is not below zero, and not infinite.
pub fn is_usable(bits: u32) -> (result: bool)
    ensures
        result == usable(bits),
{
    proof {
        assert(!nan(ZERO) && scaled(ZERO) == 0);
    }
    is_finite(bits) && at_most(ZERO, bits)
}

/// What an enemy that has a target does about it.
#[derive(Clone, Copy, Debug, PartialEq, Eq, Structural)]
pub enum Pursuit {
    /// It stands still.
    Rest,
    /// It slows down over the arrival radius.
    Slowing,
    /// It goes at full speed.
    FullSpeed,
}

impl EnemySettings {
    /// Tuning an enemy can move by.
    pub open spec fn valid(self) -> bool {
        &&& usable(self.speed)
        &&& usable(self.detection_range)
        &&& usable(self.retention_range)
        &&& usable(self.stop_distance)
        &&& usable(self.arrival_radius)
        &&& usable(self.lookahead_seconds)
        &&& positive(self.response)
        &&& scaled(self.retention_range) >= scaled(self.detection_range)
    }

    /// Validate externally supplied tuning before spawning an enemy.
    pub fn is_valid(self) -> (result: bool)
        ensures
            result == self.valid(),
    {
        is_usable(self.speed) && is_usable(self.detection_range) && is_usable(
            self.retention_range,
        ) && is_usable(self.stop_distance) && is_usable(self.arrival_radius) && is_usable(
            self.lookahead_seconds,
        ) && is_positive(self.response) && at_most(self.detection_range, self.retention_range)
    }

    /// Whether an enemy backs away from a neighbour at this distance: one within
    /// detection range, and not the enemy itself.
    pub fn crowds(self, distance: u32) -> (result: bool)
        ensures
            result == (!nan(distance) && !nan(self.detection_range) && scaled(distance) > scaled(
                EPSILON,
            ) && scaled(distance) <= scaled(self.detection_range)),
    {
        proof {
            assert(!nan(EPSILON));
        }
        less(EPSILON, distance) && at_most(distance, self.detection_range)
    }

    /// How an enemy pursues a target at this distance.
    pub open spec fn pursues(
        self,
        position: Vec2,
        target: Vec2,
        target_velocity: Vec2,
        distance: u32,
    ) -> Pursuit {
        if !self.valid() || !position.finite() || !target.finite() || !target_velocity.finite() {
            Pursuit::Rest
        } else if !nan(distance) && scaled(distance) <= scaled(self.stop_distance) {
            Pursuit::Rest
        } else if scaled(self.arrival_radius) > 0 {
            Pursuit::Slowing
        } else {
            Pursuit::FullSpeed
        }
    }

    /// Decide how to pursue a target at this distance.
    pub fn pursuit(
        self,
        position: Vec2,
        target: Vec2,
        target_velocity: Vec2,
        distance: u32,
    ) -> (result: Pursuit)
        ensures
            result == self.pursues(position, target, target_velocity, distance),
    {
        proof {
            assert(!nan(ZERO) && scaled(ZERO) == 0);
        }
        if !self.is_valid() || !position.is_finite() || !target.is_finite()
            || !target_velocity.is_finite() {
            return Pursuit::Rest;
        }
        if at_most(distance, self.stop_distance) {
            return Pursuit::Rest;
        }
        if less(ZERO, self.arrival_radius) {
            Pursuit::Slowing
        } else {
            Pursuit::FullSpeed
        }
    }
}

/// Current target, retained until it disappears or leaves the retention range.
#[derive(Clone, Copy, Debug, PartialEq, Eq, Structural)]
pub struct EnemyState {
    pub target: Option<u64>,
    /// Where to drift when there is nothing to chase, away from the crowd.
    pub separation: Vec2,
}

/// An actor an enemy could chase, and how far away it is.
#[derive(Clone, Copy, Debug, PartialEq, Eq, Structural)]
pub struct Sighting {
    pub entity: u64,
    pub distance: u32,
}

impl Sighting {
    /// No further away than the range.
    pub open spec fn inside(self, range: u32) -> bool {
        !nan(self.distance) && !nan(range) && scaled(self.distance) <= scaled(range)
    }

    /// At most as far away, and of two at one distance the lower identity.
    pub open spec fn no_further(self, other: Sighting) -> bool {
        ||| total_rank(self.distance) < total_rank(other.distance)
        ||| total_rank(self.distance) == total_rank(other.distance) && self.entity <= other.entity
    }

    fn is_no_further(self, other: Sighting) -> (result: bool)
        ensures
            result == self.no_further(other),
    {
        let mine: i64 = total_order(self.distance);
        let theirs: i64 = total_order(other.distance);
        mine < theirs || (mine == theirs && self.entity <= other.entity)
    }
}

/// The actor is in sight, no further away than the range.
pub open spec fn seen_inside(sightings: Seq<Sighting>, entity: u64, range: u32) -> bool {
    exists|i: int|
        0 <= i < sightings.len() && (#[trigger] sightings[i]).entity == entity
            && sightings[i].inside(range)
}

/// The nearest of those inside the range, if there is any.
pub open spec fn is_nearest(sightings: Seq<Sighting>, range: u32, found: Option<u64>) -> bool {
    match found {
        Some(entity) => exists|i: int|
            #![trigger sightings[i]]
            {
                &&& 0 <= i < sightings.len()
                &&& sightings[i].entity == entity
                &&& sightings[i].inside(range)
                &&& forall|j: int|
                    0 <= j < sightings.len() && (#[trigger] sightings[j]).inside(range)
                        ==> sightings[i].no_further(sightings[j])
            },
        None => forall|j: int|
            0 <= j < sightings.len() ==> !(#[trigger] sightings[j]).inside(range),
    }
}

/// Find the nearest actor inside the range.
pub fn nearest(sightings: &[Sighting], range: u32) -> (found: Option<u64>)
    ensures
        is_nearest(sightings@, range, found),
{
    let mut best: Option<usize> = None;
    let mut index: usize = 0;
    while index < sightings.len()
        invariant
            index <= sightings@.len(),
            match best {
                Some(at) => {
                    &&& at < index
                    &&& sightings@[at as int].inside(range)
                    &&& forall|j: int|
                        0 <= j < index && (#[trigger] sightings@[j]).inside(range)
                            ==> sightings@[at as int].no_further(sightings@[j])
                },
                None => forall|j: int|
                    0 <= j < index ==> !(#[trigger] sightings@[j]).inside(range),
            },
        decreases sightings@.len() - index,
    {
        let candidate: Sighting = sightings[index];
        if at_most(candidate.distance, range) {
            let better: bool = match best {
                Some(at) => !sightings[at].is_no_further(candidate),
                None => true,
            };
            if better {
                best = Some(index);
            }
        }
        index = index + 1;
    }
    match best {
        Some(at) => Some(sightings[at].entity),
        None => None,
    }
}

/// What steering makes of an enemy's state.
pub open spec fn steers(
    before: EnemyState,
    settings: EnemySettings,
    sightings: Seq<Sighting>,
    separation: Vec2,
    after: EnemyState,
) -> bool {
    if settings.steering == SteeringMode::Manual {
        after == before
    } else if !settings.valid() {
        after == (EnemyState { target: None, separation: Vec2 { x: ZERO, y: ZERO } })
    } else {
        &&& after.separation == separation
        &&& match before.target {
            Some(entity) => if seen_inside(sightings, entity, settings.retention_range) {
                after.target == Some(entity)
            } else {
                is_nearest(sightings, settings.detection_range, after.target)
            },
            None => is_nearest(sightings, settings.detection_range, after.target),
        }
    }
}

fn retains(sightings: &[Sighting], entity: u64, range: u32) -> (result: bool)
    ensures
        result == seen_inside(sightings@, entity, range),
{
    let mut index: usize = 0;
    while index < sightings.len()
        invariant
            index <= sightings@.len(),
            forall|i: int|
                0 <= i < index ==> !((#[trigger] sightings@[i]).entity == entity
                    && sightings@[i].inside(range)),
        decreases sightings@.len() - index,
    {
        if sightings[index].entity == entity && at_most(sightings[index].distance, range) {
            assert(sightings@[index as int].inside(range));
            return true;
        }
        index = index + 1;
    }
    false
}

impl EnemyState {
    /// Keep the target while it is in retention range, or take the nearest one
    /// in detection range. `separation` is the way out of the crowd.
    pub fn steer(&mut self, settings: EnemySettings, sightings: &[Sighting], separation: Vec2)
        ensures
            steers(*old(self), settings, sightings@, separation, *final(self)),
    {
        if settings.steering == SteeringMode::Manual {
            return;
        }
        if !settings.is_valid() {
            self.target = None;
            self.separation = Vec2 { x: ZERO, y: ZERO };
            return;
        }
        self.separation = separation;
        let kept: bool = match self.target {
            Some(entity) => retains(sightings, entity, settings.retention_range),
            None => false,
        };
        if !kept {
            self.target = nearest(sightings, settings.detection_range);
        }
    }
}

impl Default for EnemyState {
    fn default() -> (state: Self)
        ensures
            state == (EnemyState { target: None, separation: Vec2 { x: ZERO, y: ZERO } }),
    {
        EnemyState { target: None, separation: Vec2 { x: ZERO, y: ZERO } }
    }
}

/// The time an update advances, or `None` where the cap is none: elapsed time
/// is held between zero and the cap, so a backgrounded tab cannot leap.
pub fn frame_delta(elapsed: u32, max_delta_seconds: u32) -> (delta: Option<u32>)
    ensures
        delta == if positive(max_delta_seconds) {
            Some(clamped(elapsed, ZERO, max_delta_seconds))
        } else {
            None
        },
{
    if !is_positive(max_delta_seconds) {
        return None;
    }
    proof {
        assert(!nan(ZERO));
    }
    Some(clamp(elapsed, ZERO, max_delta_seconds))
}

/// The share of its speed an enemy goes at: a scale reaches from full speed
/// backwards to full speed onwards.
pub fn speed_share(speed_scale: u32) -> (share: u32)
    ensures
        share == clamped(speed_scale, MINUS_ONE, ONE),
{
    proof {
        assert(!nan(MINUS_ONE) && !nan(ONE));
    }
    clamp(speed_scale, MINUS_ONE, ONE)
}

/// A velocity that is not finite is no velocity.
pub fn settled(velocity: Vec2) -> (result: Vec2)
    ensures
        result == if velocity.finite() {
            velocity
        } else {
            Vec2 { x: ZERO, y: ZERO }
        },
{
    if velocity.is_finite() {
        velocity
    } else {
        Vec2 { x: ZERO, y: ZERO }
    }
}

/// How an enemy goes on this update.
#[derive(Clone, Copy, Debug, PartialEq, Eq, Structural)]
pub enum Course {
    /// It loses its velocity and stays where it is.
    Frozen,
    /// It keeps the velocity it was given.
    Coast,
    /// It chases this actor.
    Pursue(u64),
    /// It drifts away from the crowd.
    Spread(Vec2),
}

/// The course of an enemy, given the actors that are present.
pub open spec fn course_of(
    settings: EnemySettings,
    state: EnemyState,
    collider: Collider,
    position: Vec2,
    speed_scale: u32,
    present: Seq<u64>,
) -> Course {
    if !settings.valid() || !collider.valid() || !position.finite() || !finite(speed_scale) {
        Course::Frozen
    } else if settings.steering == SteeringMode::Manual {
        Course::Coast
    } else {
        match state.target {
            Some(entity) => if present.contains(entity) {
                Course::Pursue(entity)
            } else {
                Course::Spread(state.separation)
            },
            None => Course::Spread(state.separation),
        }
    }
}

/// Decide how an enemy goes on this update.
pub fn choose_course(
    settings: EnemySettings,
    state: EnemyState,
    collider: Collider,
    position: Vec2,
    speed_scale: u32,
    present: &[u64],
) -> (course: Course)
    ensures
        course == course_of(settings, state, collider, position, speed_scale, present@),
{
    if !settings.is_valid() || !collider.is_valid() || !position.is_finite() || !is_finite(
        speed_scale,
    ) {
        return Course::Frozen;
    }
    if settings.steering == SteeringMode::Manual {
        return Course::Coast;
    }
    match state.target {
        Some(entity) => if has_identity(present, entity) {
            Course::Pursue(entity)
        } else {
            // Nothing to chase, so spread out rather than sit still.
            Course::Spread(state.separation)
        },
        None => Course::Spread(state.separation),
    }
}

/// What the world's edges mean to one enemy.
#[derive(Clone, Copy, Debug, PartialEq, Eq, Structural)]
pub enum Edges {
    /// The world has none.
    Open,
    /// The world is too small for the enemy, which freezes.
    Misfit,
    /// The world wraps at these half extents.
    Seam(Vec2),
    /// The world ends at these half extents.
    Wall(Vec2),
}

/// The hitbox fits into the world.
pub open spec fn fits(half_extents: Vec2, collider: Collider) -> bool {
    &&& half_extents.finite()
    &&& !nan(collider.half_extents.x) && !nan(collider.half_extents.y)
    &&& scaled(half_extents.x) >= scaled(collider.half_extents.x)
    &&& scaled(half_extents.y) >= scaled(collider.half_extents.y)
}

/// Whether a hitbox fits into a world of these half extents.
pub fn fits_world(half_extents: Vec2, collider: Collider) -> (result: bool)
    ensures
        result == fits(half_extents, collider),
{
    half_extents.is_finite() && at_most(collider.half_extents.x, half_extents.x) && at_most(
        collider.half_extents.y,
        half_extents.y,
    )
}

/// Decide what the world's edges mean to an enemy.
pub fn choose_edges(
    half_extents: Option<Vec2>,
    boundary: BoundaryMode,
    collider: Collider,
) -> (edges: Edges)
    ensures
        edges == match half_extents {
            None => Edges::Open,
            Some(half) => if !fits(half, collider) {
                Edges::Misfit
            } else if boundary == BoundaryMode::Wrap {
                Edges::Seam(half)
            } else {
                Edges::Wall(half)
            },
        },
{
    match half_extents {
        None => Edges::Open,
        Some(half) => if !fits_world(half, collider) {
            Edges::Misfit
        } else if boundary == BoundaryMode::Wrap {
            Edges::Seam(half)
        } else {
            Edges::Wall(half)
        },
    }
}

/// The place held between two walls: raised to the lower one unless it is above
/// it, and lowered to the upper one unless it is below it. A place that is no
/// number is put at the lower wall.
pub open spec fn held_between(next: u32, lower: u32, upper: u32) -> u32 {
    let raised = if before(lower, next) {
        next
    } else {
        lower
    };
    if before(raised, upper) {
        raised
    } else {
        upper
    }
}

/// The first value is less than the second.
pub open spec fn before(a: u32, b: u32) -> bool {
    !nan(a) && !nan(b) && scaled(a) < scaled(b)
}

/// The velocity presses against one of the two walls.
pub open spec fn pressing(place: u32, velocity: u32, lower: u32, upper: u32) -> bool {
    ||| !nan(place) && !nan(lower) && scaled(place) <= scaled(lower) && before(velocity, ZERO)
    ||| !nan(place) && !nan(upper) && scaled(place) >= scaled(upper) && before(ZERO, velocity)
}

/// The velocity along one axis after meeting its walls.
pub open spec fn turned(
    boundary: BoundaryMode,
    place: u32,
    velocity: u32,
    lower: u32,
    upper: u32,
) -> u32 {
    if pressing(place, velocity, lower, upper) {
        if boundary == BoundaryMode::Bounce {
            negated(velocity)
        } else {
            ZERO
        }
    } else {
        velocity
    }
}

/// Meet the two walls of one axis: the place is held between them, and a
/// velocity that presses against one is turned or lost.
pub fn meet_walls(
    boundary: BoundaryMode,
    next: u32,
    velocity: u32,
    lower: u32,
    upper: u32,
) -> (met: (u32, u32))
    ensures
        met.0 == held_between(next, lower, upper),
        met.1 == turned(boundary, met.0, velocity, lower, upper),
{
    proof {
        assert(!nan(ZERO) && scaled(ZERO) == 0);
    }
    let raised: u32 = if less(lower, next) { next } else { lower };
    let place: u32 = if less(raised, upper) { raised } else { upper };
    if (at_most(place, lower) && less(velocity, ZERO)) || (at_most(upper, place) && less(
        ZERO,
        velocity,
    )) {
        if boundary == BoundaryMode::Bounce {
            (place, negate(velocity))
        } else {
            (place, ZERO)
        }
    } else {
        (place, velocity)
    }
}

/// A wall never lets an enemy through and never speeds it up: wherever the enemy
/// would have gone, its place is between the walls, and its velocity no longer
/// presses against them.
pub proof fn law_walls_hold(
    boundary: BoundaryMode,
    next: u32,
    velocity: u32,
    lower: u32,
    upper: u32,
)
    requires
        before(lower, upper),
    ensures
        ({
            let place = held_between(next, lower, upper);
            let after = turned(boundary, place, velocity, lower, upper);
            &&& !nan(place)
            &&& scaled(lower) <= scaled(place) <= scaled(upper)
            &&& !pressing(place, after, lower, upper)
            &&& scaled(unsigned(after)) == scaled(unsigned(velocity)) || after == ZERO
        }),
{
    crate::bits::law_signs(velocity);
    crate::bits::law_signs(negated(velocity));
    assert(!nan(ZERO) && scaled(ZERO) == 0);
}

/// An enemy that overlaps another.
pub open spec fn in_pair(pairs: Seq<(u64, u64)>, entity: u64) -> bool {
    exists|i: int|
        0 <= i < pairs.len() && ((#[trigger] pairs[i]).0 == entity || pairs[i].1 == entity)
}

/// Every enemy that overlaps another, each once: all members of a simultaneous
/// collision cluster die.
pub fn collision_victims(overlapping: &[(u64, u64)]) -> (victims: Vec<u64>)
    ensures
        increasing(victims@),
        forall|entity: u64| #[trigger]
            victims@.contains(entity) <==> in_pair(overlapping@, entity),
{
    let mut victims: Vec<u64> = Vec::new();
    let mut index: usize = 0;
    while index < overlapping.len()
        invariant
            index <= overlapping@.len(),
            increasing(victims@),
            forall|entity: u64| #[trigger]
                victims@.contains(entity) <==> in_pair(overlapping@.take(index as int), entity),
        decreases overlapping@.len() - index,
    {
        include_identity(&mut victims, overlapping[index].0);
        include_identity(&mut victims, overlapping[index].1);
        proof {
            let done = overlapping@.take(index as int);
            let more = overlapping@.take(index + 1);
            assert forall|entity: u64| #[trigger]
                victims@.contains(entity) <==> in_pair(more, entity) by {
                if in_pair(done, entity) {
                    let i = choose|i: int|
                        0 <= i < done.len() && ((#[trigger] done[i]).0 == entity || done[i].1
                            == entity);
                    assert(more[i] == done[i]);
                }
                if in_pair(more, entity) {
                    let i = choose|i: int|
                        0 <= i < more.len() && ((#[trigger] more[i]).0 == entity || more[i].1
                            == entity);
                    if i < index {
                        assert(done[i] == more[i]);
                    }
                }
                if entity == overlapping@[index as int].0 || entity
                    == overlapping@[index as int].1 {
                    assert(more[index as int] == overlapping@[index as int]);
                }
            }
        }
        index = index + 1;
    }
    assert(overlapping@.take(index as int) =~= overlapping@);
    victims
}

/// A newcomer never takes a target away that is still in retention range.
pub proof fn law_targets_are_retained(
    before: EnemyState,
    settings: EnemySettings,
    sightings: Seq<Sighting>,
    separation: Vec2,
    after: EnemyState,
    entity: u64,
)
    requires
        steers(before, settings, sightings, separation, after),
        settings.valid(),
        before.target == Some(entity),
        seen_inside(sightings, entity, settings.retention_range),
    ensures
        after.target == Some(entity),
{
}

/// The nearest target does not depend on the order the actors are listed in.
pub proof fn law_nearest_is_unique(
    sightings: Seq<Sighting>,
    reordered: Seq<Sighting>,
    range: u32,
    found: Option<u64>,
    other: Option<u64>,
)
    requires
        forall|s: Sighting| #[trigger] sightings.contains(s) <==> reordered.contains(s),
        is_nearest(sightings, range, found),
        is_nearest(reordered, range, other),
    ensures
        found == other,
{
    if let Some(entity) = found {
        let i = choose|i: int|
            #![trigger sightings[i]]
            {
                &&& 0 <= i < sightings.len()
                &&& sightings[i].entity == entity
                &&& sightings[i].inside(range)
                &&& forall|j: int|
                    0 <= j < sightings.len() && (#[trigger] sightings[j]).inside(range)
                        ==> sightings[i].no_further(sightings[j])
            };
        assert(sightings.contains(sightings[i]));
        assert(reordered.contains(sightings[i]));
        let k = choose|k: int| 0 <= k < reordered.len() && reordered[k] == sightings[i];
        assert(reordered[k].inside(range));
        let winner = other->0;
        let m = choose|m: int|
            #![trigger reordered[m]]
            {
                &&& 0 <= m < reordered.len()
                &&& reordered[m].entity == winner
                &&& reordered[m].inside(range)
                &&& forall|j: int|
                    0 <= j < reordered.len() && (#[trigger] reordered[j]).inside(range)
                        ==> reordered[m].no_further(reordered[j])
            };
        assert(reordered.contains(reordered[m]));
        assert(sightings.contains(reordered[m]));
        let n = choose|n: int| 0 <= n < sightings.len() && sightings[n] == reordered[m];
        assert(sightings[n].inside(range));
        assert(sightings[i].no_further(sightings[n]));
        assert(reordered[m].no_further(reordered[k]));
    } else if let Some(winner) = other {
        let m = choose|m: int|
            #![trigger reordered[m]]
            {
                &&& 0 <= m < reordered.len()
                &&& reordered[m].entity == winner
                &&& reordered[m].inside(range)
                &&& forall|j: int|
                    0 <= j < reordered.len() && (#[trigger] reordered[j]).inside(range)
                        ==> reordered[m].no_further(reordered[j])
            };
        assert(reordered.contains(reordered[m]));
        assert(sightings.contains(reordered[m]));
        let n = choose|n: int| 0 <= n < sightings.len() && sightings[n] == reordered[m];
        assert(sightings[n].inside(range));
    }
}

/// Tuning is judged by every one of its values and by nothing else: with all of
/// them finite and none below zero, a response above zero and a retention range
/// no shorter than the detection range, an enemy can move by it, however it
/// steers and meets edges.
pub proof fn law_sound_tuning_is_valid(settings: EnemySettings)
    requires
        finite(settings.speed) && scaled(settings.speed) >= 0,
        finite(settings.detection_range) && scaled(settings.detection_range) >= 0,
        finite(settings.retention_range),
        scaled(settings.retention_range) >= scaled(settings.detection_range),
        finite(settings.stop_distance) && scaled(settings.stop_distance) >= 0,
        finite(settings.arrival_radius) && scaled(settings.arrival_radius) >= 0,
        finite(settings.lookahead_seconds) && scaled(settings.lookahead_seconds) >= 0,
        finite(settings.response) && scaled(settings.response) > 0,
    ensures
        settings.valid(),
{
}

/// One value that is infinite, no number or below zero spoils the tuning, and so
/// does a response of zero or a target that is forgotten before it is out of
/// sight.
pub proof fn law_one_bad_value_spoils_the_tuning(settings: EnemySettings)
    requires
        ({
            ||| !finite(settings.speed) || scaled(settings.speed) < 0
            ||| !finite(settings.detection_range) || scaled(settings.detection_range) < 0
            ||| !finite(settings.retention_range) || scaled(settings.retention_range) < 0
            ||| !finite(settings.stop_distance) || scaled(settings.stop_distance) < 0
            ||| !finite(settings.arrival_radius) || scaled(settings.arrival_radius) < 0
            ||| !finite(settings.lookahead_seconds) || scaled(settings.lookahead_seconds) < 0
            ||| !finite(settings.response) || scaled(settings.response) <= 0
            ||| scaled(settings.retention_range) < scaled(settings.detection_range)
        }),
    ensures
        !settings.valid(),
{
}

/// An enemy with sound tuning and a sound hitbox, at a finite place and with any
/// finite speed scale, is never frozen: it pursues its target whenever that is
/// present, spreads out when it is not, and coasts when it is steered by hand.
/// Its course does not depend on which finite speed scale it has, nor on where
/// it is or how large.
pub proof fn law_sound_enemies_are_never_frozen(
    settings: EnemySettings,
    state: EnemyState,
    collider: Collider,
    position: Vec2,
    speed_scale: u32,
    present: Seq<u64>,
)
    requires
        finite(settings.speed) && scaled(settings.speed) >= 0,
        finite(settings.detection_range) && scaled(settings.detection_range) >= 0,
        finite(settings.retention_range),
        scaled(settings.retention_range) >= scaled(settings.detection_range),
        finite(settings.stop_distance) && scaled(settings.stop_distance) >= 0,
        finite(settings.arrival_radius) && scaled(settings.arrival_radius) >= 0,
        finite(settings.lookahead_seconds) && scaled(settings.lookahead_seconds) >= 0,
        finite(settings.response) && scaled(settings.response) > 0,
        finite(collider.half_extents.x) && scaled(collider.half_extents.x) > 0,
        finite(collider.half_extents.y) && scaled(collider.half_extents.y) > 0,
        finite(collider.offset.x) && finite(collider.offset.y),
        finite(position.x) && finite(position.y),
        finite(speed_scale),
    ensures
        ({
            let course = course_of(settings, state, collider, position, speed_scale, present);
            &&& course != Course::Frozen
            &&& settings.steering == SteeringMode::Manual <==> course == Course::Coast
            &&& forall|entity: u64|
                #![trigger present.contains(entity)]
                settings.steering == SteeringMode::Chase && state.target == Some(entity) ==> if present.contains(
                    entity,
                ) {
                    course == Course::Pursue(entity)
                } else {
                    course == Course::Spread(state.separation)
                }
            &&& settings.steering == SteeringMode::Chase && state.target is None ==> course
                == Course::Spread(state.separation)
        }),
{
}

/// Two finite speed scales give an enemy the same course.
pub proof fn law_courses_ignore_the_speed_scale(
    settings: EnemySettings,
    state: EnemyState,
    collider: Collider,
    position: Vec2,
    speed_scale: u32,
    other_scale: u32,
    present: Seq<u64>,
)
    requires
        finite(speed_scale),
        finite(other_scale),
    ensures
        course_of(settings, state, collider, position, speed_scale, present) == course_of(
            settings,
            state,
            collider,
            position,
            other_scale,
            present,
        ),
{
}

/// An enemy freezes where it is nowhere, where its hitbox has no size or no
/// place, or where its speed scale is no finite number; and tuning that cannot
/// be moved by freezes it wherever it is.
pub proof fn law_broken_enemies_freeze(
    settings: EnemySettings,
    state: EnemyState,
    collider: Collider,
    position: Vec2,
    speed_scale: u32,
    present: Seq<u64>,
)
    requires
        ({
            ||| !finite(position.x) || !finite(position.y)
            ||| !finite(speed_scale)
            ||| !finite(collider.half_extents.x) || scaled(collider.half_extents.x) <= 0
            ||| !finite(collider.half_extents.y) || scaled(collider.half_extents.y) <= 0
            ||| !finite(collider.offset.x) || !finite(collider.offset.y)
            ||| !finite(settings.speed) || scaled(settings.speed) < 0
            ||| !finite(settings.detection_range) || scaled(settings.detection_range) < 0
            ||| !finite(settings.response) || scaled(settings.response) <= 0
            ||| scaled(settings.retention_range) < scaled(settings.detection_range)
        }),
    ensures
        course_of(settings, state, collider, position, speed_scale, present) == Course::Frozen,
{
}

/// A sound enemy goes after a target everywhere but inside its stop distance:
/// there it rests, beyond it it moves, slowing down only where it has an arrival
/// radius to slow down over.
pub proof fn law_pursuit_ends_at_the_stop_distance(
    settings: EnemySettings,
    position: Vec2,
    target: Vec2,
    target_velocity: Vec2,
    distance: u32,
)
    requires
        finite(settings.speed) && scaled(settings.speed) >= 0,
        finite(settings.detection_range) && scaled(settings.detection_range) >= 0,
        finite(settings.retention_range),
        scaled(settings.retention_range) >= scaled(settings.detection_range),
        finite(settings.stop_distance) && scaled(settings.stop_distance) >= 0,
        finite(settings.arrival_radius) && scaled(settings.arrival_radius) >= 0,
        finite(settings.lookahead_seconds) && scaled(settings.lookahead_seconds) >= 0,
        finite(settings.response) && scaled(settings.response) > 0,
        finite(position.x) && finite(position.y),
        finite(target.x) && finite(target.y),
        finite(target_velocity.x) && finite(target_velocity.y),
        !nan(distance),
    ensures
        ({
            let pursuit = settings.pursues(position, target, target_velocity, distance);
            &&& scaled(distance) <= scaled(settings.stop_distance) <==> pursuit == Pursuit::Rest
            &&& scaled(distance) > scaled(settings.stop_distance) && scaled(
                settings.arrival_radius,
            ) > 0 ==> pursuit == Pursuit::Slowing
            &&& scaled(distance) > scaled(settings.stop_distance) && scaled(
                settings.arrival_radius,
            ) == 0 ==> pursuit == Pursuit::FullSpeed
        }),
{
}

/// An enemy does not go after what is nowhere, nor from nowhere.
pub proof fn law_pursuit_needs_real_places(
    settings: EnemySettings,
    position: Vec2,
    target: Vec2,
    target_velocity: Vec2,
    distance: u32,
)
    requires
        ({
            ||| !finite(position.x) || !finite(position.y)
            ||| !finite(target.x) || !finite(target.y)
            ||| !finite(target_velocity.x) || !finite(target_velocity.y)
        }),
    ensures
        settings.pursues(position, target, target_velocity, distance) == Pursuit::Rest,
{
}

/// A target that is still seen within the retention range is kept, however near
/// others are.
pub proof fn law_a_target_in_sight_is_kept(
    before: EnemyState,
    settings: EnemySettings,
    sightings: Seq<Sighting>,
    separation: Vec2,
    after: EnemyState,
    at: int,
)
    requires
        steers(before, settings, sightings, separation, after),
        settings.steering == SteeringMode::Chase,
        settings.valid(),
        0 <= at < sightings.len(),
        before.target == Some(sightings[at].entity),
        !nan(sightings[at].distance),
        scaled(sightings[at].distance) <= scaled(settings.retention_range),
    ensures
        after.target == before.target,
        after.separation == separation,
{
    assert(sightings[at].inside(settings.retention_range));
    assert(seen_inside(sightings, sightings[at].entity, settings.retention_range));
}

/// An enemy without a target that it may keep takes the nearest actor within its
/// detection range, of several that are equally near the one with the lowest
/// identity; and it stays without one only if nobody is that near.
pub proof fn law_the_nearest_is_acquired(
    before: EnemyState,
    settings: EnemySettings,
    sightings: Seq<Sighting>,
    separation: Vec2,
    after: EnemyState,
)
    requires
        steers(before, settings, sightings, separation, after),
        settings.steering == SteeringMode::Chase,
        settings.valid(),
        forall|i: int|
            0 <= i < sightings.len() && before.target == Some((#[trigger] sightings[i]).entity)
                ==> nan(sightings[i].distance) || scaled(sightings[i].distance) > scaled(
                settings.retention_range,
            ),
    ensures
        after.separation == separation,
        match after.target {
            Some(entity) => exists|i: int|
                #![trigger sightings[i]]
                {
                    &&& 0 <= i < sightings.len()
                    &&& sightings[i].entity == entity
                    &&& !nan(sightings[i].distance)
                    &&& scaled(sightings[i].distance) <= scaled(settings.detection_range)
                    &&& forall|j: int|
                        0 <= j < sightings.len() && !nan((#[trigger] sightings[j]).distance)
                            && scaled(sightings[j].distance) <= scaled(settings.detection_range)
                            ==> {
                            &&& scaled(sightings[i].distance) <= scaled(sightings[j].distance)
                            &&& sightings[i].distance == sightings[j].distance ==> entity
                                <= sightings[j].entity
                        }
                },
            None => forall|j: int|
                0 <= j < sightings.len() ==> nan((#[trigger] sightings[j]).distance) || scaled(
                    sightings[j].distance,
                ) > scaled(settings.detection_range),
        },
{
    if let Some(entity) = before.target {
        assert(!seen_inside(sightings, entity, settings.retention_range));
    }
    match after.target {
        Some(entity) => {
            let i = choose|i: int|
                #![trigger sightings[i]]
                {
                    &&& 0 <= i < sightings.len()
                    &&& sightings[i].entity == entity
                    &&& sightings[i].inside(settings.detection_range)
                    &&& forall|j: int|
                        0 <= j < sightings.len() && (#[trigger] sightings[j]).inside(
                            settings.detection_range,
                        ) ==> sightings[i].no_further(sightings[j])
                };
            assert forall|j: int|
                0 <= j < sightings.len() && !nan((#[trigger] sightings[j]).distance) && scaled(
                    sightings[j].distance,
                ) <= scaled(settings.detection_range) implies {
                &&& scaled(sightings[i].distance) <= scaled(sightings[j].distance)
                &&& sightings[i].distance == sightings[j].distance ==> entity
                    <= sightings[j].entity
            } by {
                assert(sightings[j].inside(settings.detection_range));
                assert(sightings[i].no_further(sightings[j]));
                crate::bits::law_total_order(sightings[j].distance, sightings[i].distance);
            }
        },
        None => {
            assert forall|j: int| 0 <= j < sightings.len() implies nan(
                (#[trigger] sightings[j]).distance,
            ) || scaled(sightings[j].distance) > scaled(settings.detection_range) by {
                assert(!sightings[j].inside(settings.detection_range));
            }
        },
    }
}

/// Steering by hand changes nothing, and tuning an enemy cannot move by makes it
/// forget its target and its crowd.
pub proof fn law_steering_by_hand_changes_nothing(
    before: EnemyState,
    settings: EnemySettings,
    sightings: Seq<Sighting>,
    separation: Vec2,
    after: EnemyState,
)
    requires
        steers(before, settings, sightings, separation, after),
    ensures
        settings.steering == SteeringMode::Manual ==> after == before,
        settings.steering == SteeringMode::Chase && !settings.valid() ==> after.target is None
            && after.separation.x == 0 && after.separation.y == 0,
{
}

/// A hitbox fits into every finite world that is no smaller than it on either
/// axis, and into no other.
pub proof fn law_worlds_hold_what_is_no_larger(half_extents: Vec2, collider: Collider)
    requires
        finite(half_extents.x) && finite(half_extents.y),
        finite(collider.half_extents.x) && finite(collider.half_extents.y),
    ensures
        scaled(collider.half_extents.x) <= scaled(half_extents.x) && scaled(
            collider.half_extents.y,
        ) <= scaled(half_extents.y) ==> fits(half_extents, collider),
        scaled(collider.half_extents.x) > scaled(half_extents.x) ==> !fits(half_extents, collider),
        scaled(collider.half_extents.y) > scaled(half_extents.y) ==> !fits(half_extents, collider),
{
}

/// Between the walls nothing happens: the place and the velocity stay as they
/// are.
pub proof fn law_walls_leave_the_middle_alone(
    boundary: BoundaryMode,
    next: u32,
    velocity: u32,
    lower: u32,
    upper: u32,
)
    requires
        !nan(lower) && !nan(next) && !nan(upper),
        scaled(lower) < scaled(next) < scaled(upper),
    ensures
        held_between(next, lower, upper) == next,
        turned(boundary, next, velocity, lower, upper) == velocity,
{
}

/// An enemy that would leave by a wall stands at that wall; its velocity turns
/// round where the edge is bounced off, and is lost where it is not. One that
/// moves away from the wall keeps its velocity.
pub proof fn law_walls_stop_or_turn(
    boundary: BoundaryMode,
    next: u32,
    velocity: u32,
    lower: u32,
    upper: u32,
)
    requires
        !nan(lower) && !nan(next) && !nan(upper) && !nan(velocity),
        scaled(lower) < scaled(upper),
        scaled(next) <= scaled(lower) || scaled(next) >= scaled(upper),
    ensures
        ({
            let place = held_between(next, lower, upper);
            let after = turned(boundary, place, velocity, lower, upper);
            let outward = if scaled(next) >= scaled(upper) {
                scaled(velocity) > 0
            } else {
                scaled(velocity) < 0
            };
            &&& scaled(next) <= scaled(lower) ==> place == lower
            &&& scaled(next) >= scaled(upper) ==> place == upper
            &&& !outward ==> after == velocity
            &&& outward && boundary == BoundaryMode::Bounce ==> scaled(after) == -scaled(velocity)
            &&& outward && boundary == BoundaryMode::Clamp ==> scaled(after) == 0
        }),
{
    crate::bits::law_signs(velocity);
    assert(!nan(ZERO) && scaled(ZERO) == 0);
}

/// Both enemies of every overlapping pair are in it, and no enemy that is in no
/// pair.
pub proof fn law_both_of_a_pair_collide(pairs: Seq<(u64, u64)>, entity: u64)
    ensures
        forall|i: int|
            0 <= i < pairs.len() ==> in_pair(pairs, (#[trigger] pairs[i]).0) && in_pair(
                pairs,
                pairs[i].1,
            ),
        in_pair(pairs, entity) ==> !(forall|i: int|
            0 <= i < pairs.len() ==> (#[trigger] pairs[i]).0 != entity && pairs[i].1 != entity),
{
}

/// Untuned enemies chase and wrap, remember further than they see, see further than
/// they slow down for, and stop nowhere before their target.
pub proof fn law_untuned_enemies()
    ensures
        default_settings().steering == SteeringMode::Chase,
        default_settings().boundary == BoundaryMode::Wrap,
        default_settings().speed == 0x4334_0000,
        default_settings().response == 0x4100_0000,
        default_settings().detection_range == 0x4461_0000,
        default_settings().retention_range == 0x4496_0000,
        default_settings().stop_distance == 0,
        default_settings().arrival_radius == 0x42a0_0000,
        default_settings().lookahead_seconds == 0x3e19_999a,
{
}

} // verus!
