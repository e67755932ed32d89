//! Lightweight world-space, axis-aligned hitboxes shared by actors.

use crate::bits::{abs, at_most, finite, less, nan, scaled, unsigned, Vec2, ZERO};
use vstd::prelude::*;

verus! {

/// Half the width of a hitbox nobody sized, by its bit pattern: 12.
pub const DEFAULT_HALF: u32 = 0x4140_0000;

/// A sensor hitbox in world units. Rotation and scale do not change it.
///
/// This detects overlap; it does not resolve penetration or simulate rigid
/// bodies. Touching edges count as contact.
#[derive(Clone, Copy, Debug, PartialEq, Eq, Structural)]
pub struct Collider {
    /// Positive half width and half height, independent of sprite size.
    pub half_extents: Vec2,
    /// World-space offset from the actor's position.
    pub offset: Vec2,
    /// Disable contact reporting without removing the hitbox.
    pub enabled: bool,
}

/// The hitbox of these half extents, centered and enabled.
pub open spec fn centered(half_extents: Vec2) -> Collider {
    Collider { half_extents, offset: Vec2 { x: ZERO, y: ZERO }, enabled: true }
}

/// A value above zero, and not infinite.
pub open spec fn positive(bits: u32) -> bool {
    finite(bits) && scaled(bits) > 0
}

/// Whether a value is above zero, and not infinite.
pub fn is_positive(bits: u32) -> (result: bool)
    ensures
        result == positive(bits),
{
    proof {
        assert(!nan(ZERO) && scaled(ZERO) == 0);
    }
    crate::bits::is_finite(bits) && less(ZERO, bits)
}

impl Collider {
    /// Construct a centered, enabled rectangular hitbox.
    pub fn rectangle(half_extents: Vec2) -> (collider: Self)
        ensures
            collider == centered(half_extents),
    {
        Collider { half_extents, offset: Vec2 { x: ZERO, y: ZERO }, enabled: true }
    }

    /// Geometry that takes part in movement and collision.
    pub open spec fn valid(self) -> bool {
        &&& positive(self.half_extents.x)
        &&& positive(self.half_extents.y)
        &&& self.offset.finite()
    }

    /// Invalid geometry is excluded from movement and collision calculations.
    pub fn is_valid(self) -> (result: bool)
        ensures
            result == self.valid(),
    {
        is_positive(self.half_extents.x) && is_positive(self.half_extents.y)
            && self.offset.is_finite()
    }

    /// Both hitboxes report contacts and stand at real places.
    pub open spec fn comparable(self, position: Vec2, other: Self, other_position: Vec2) -> bool {
        &&& self.enabled && other.enabled
        &&& self.valid() && other.valid()
        &&& position.finite() && other_position.finite()
    }

    /// Whether a pair of hitboxes is in contact.
    ///
    /// `separation` is the way from one center to the other, by the shorter
    /// route where the world wraps, and `reach` the sum of the half extents.
    /// Each axis is judged on its own, and touching edges are in contact.
    pub fn overlaps_wrapped(
        self,
        position: Vec2,
        other: Self,
        other_position: Vec2,
        separation: Vec2,
        reach: Vec2,
    ) -> (result: bool)
        ensures
            result == (self.comparable(position, other, other_position) && within(
                separation.x,
                reach.x,
            ) && within(separation.y, reach.y)),
    {
        if !self.enabled || !other.enabled || !self.is_valid() || !other.is_valid()
            || !position.is_finite() || !other_position.is_finite() {
            return false;
        }
        at_most(abs(separation.x), reach.x) && at_most(abs(separation.y), reach.y)
    }
}

/// A length, whichever way it points, is no longer than the reach.
pub open spec fn within(length: u32, reach: u32) -> bool {
    &&& !nan(unsigned(length)) && !nan(reach)
    &&& scaled(unsigned(length)) <= scaled(reach)
}

impl Default for Collider {
    fn default() -> (collider: Self)
        ensures
            collider == centered(Vec2 { x: DEFAULT_HALF, y: DEFAULT_HALF }),
    {
        Collider::rectangle(Vec2 { x: DEFAULT_HALF, y: DEFAULT_HALF })
    }
}

/// Contact does not depend on which of the two asks: the way back is the way
/// there with the other sign.
pub proof fn law_contact_is_mutual(
    left: Collider,
    left_position: Vec2,
    right: Collider,
    right_position: Vec2,
    length: u32,
    reach: u32,
)
    ensures
        left.comparable(left_position, right, right_position) == right.comparable(
            right_position,
            left,
            left_position,
        ),
        within(length, reach) == within(crate::bits::negated(length), reach),
{
    crate::bits::law_signs(length);
}

/// Two enabled hitboxes of positive, finite size with finite offsets at finite
/// places are compared, whatever their sizes and places are.
pub proof fn law_real_hitboxes_are_compared(
    left: Collider,
    left_position: Vec2,
    right: Collider,
    right_position: Vec2,
)
    requires
        left.enabled && right.enabled,
        finite(left.half_extents.x) && scaled(left.half_extents.x) > 0,
        finite(left.half_extents.y) && scaled(left.half_extents.y) > 0,
        finite(left.offset.x) && finite(left.offset.y),
        finite(right.half_extents.x) && scaled(right.half_extents.x) > 0,
        finite(right.half_extents.y) && scaled(right.half_extents.y) > 0,
        finite(right.offset.x) && finite(right.offset.y),
        finite(left_position.x) && finite(left_position.y),
        finite(right_position.x) && finite(right_position.y),
    ensures
        left.comparable(left_position, right, right_position),
        left.valid() && right.valid(),
{
}

/// A hitbox that is disabled, has no size or no place, or stands nowhere is in
/// contact with nothing.
pub proof fn law_broken_hitboxes_touch_nothing(
    left: Collider,
    left_position: Vec2,
    right: Collider,
    right_position: Vec2,
)
    requires
        ({
            ||| !left.enabled
            ||| !finite(left.half_extents.x) || scaled(left.half_extents.x) <= 0
            ||| !finite(left.half_extents.y) || scaled(left.half_extents.y) <= 0
            ||| !finite(left.offset.x) || !finite(left.offset.y)
            ||| !finite(left_position.x) || !finite(left_position.y)
        }),
    ensures
        !left.comparable(left_position, right, right_position),
        !right.comparable(right_position, left, left_position),
        left.enabled && finite(left_position.x) && finite(left_position.y) ==> !left.valid(),
{
}

/// Touching edges are in contact, and so is everything nearer; nothing further
/// is. What is no number is never within reach.
pub proof fn law_reach_has_one_edge(length: u32, reach: u32)
    requires
        !nan(reach),
    ensures
        !nan(length) && -scaled(reach) <= scaled(length) <= scaled(reach) ==> within(length, reach),
        !nan(length) && scaled(length) > scaled(reach) ==> !within(length, reach),
        !nan(length) && scaled(length) < -scaled(reach) ==> !within(length, reach),
        nan(length) ==> !within(length, reach),
{
    crate::bits::law_signs(length);
    crate::bits::law_signs(reach);
}

/// A rectangle is centered, enabled and of the size it was asked for; with a
/// positive, finite size it takes part in collisions.
pub proof fn law_rectangles_are_centered(half_extents: Vec2)
    ensures
        centered(half_extents).half_extents == half_extents,
        centered(half_extents).enabled,
        scaled(centered(half_extents).offset.x) == 0,
        scaled(centered(half_extents).offset.y) == 0,
        finite(half_extents.x) && scaled(half_extents.x) > 0 && finite(half_extents.y) && scaled(
            half_extents.y,
        ) > 0 ==> centered(half_extents).valid(),
{
    assert(scaled(ZERO) == 0 && finite(ZERO));
}

} // verus!
