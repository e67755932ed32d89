//! What the keys ask of the player, and what the player looks like.

use crate::bits::{at_most, nan, scaled, Vec2, MINUS_ONE, ONE, ZERO};
use crate::simulation::sign_bits;
use vstd::prelude::*;

verus! {

/// The direction two opposite keys ask for: -1, 0 or 1. Both together ask for
/// nothing.
pub open spec fn axis(negative: bool, positive: bool) -> int {
    if negative == positive {
        0
    } else if positive {
        1
    } else {
        -1
    }
}

/// The direction two opposite keys ask for, by its bit pattern.
pub fn input_axis(negative: bool, positive: bool) -> (value: u32)
    ensures
        value == sign_bits(axis(negative, positive)),
{
    match (negative, positive) {
        (true, false) => MINUS_ONE,
        (false, true) => ONE,
        _ => ZERO,
    }
}

/// The movement keys that are held.
#[derive(Clone, Copy, Debug, PartialEq, Eq, Structural)]
pub struct HeldKeys {
    pub left: bool,
    pub right: bool,
    pub down: bool,
    pub up: bool,
}

/// Turn the held keys into a direction. While an agent is watched it owns the
/// movement, and the keys ask for nothing.
pub fn read_keyboard(keys: HeldKeys, watched: bool) -> (direction: Option<Vec2>)
    ensures
        direction == if watched {
            None
        } else {
            Some(
                Vec2 {
                    x: sign_bits(axis(keys.left, keys.right)),
                    y: sign_bits(axis(keys.down, keys.up)),
                },
            )
        },
{
    if watched {
        return None;
    }
    Some(Vec2 { x: input_axis(keys.left, keys.right), y: input_axis(keys.down, keys.up) })
}

/// Pixels across the player's picture.
pub const PICTURE_EDGE: usize = 9;

/// Seconds a piece of the trail lasts, by the bit pattern: a sixth.
pub const TRAIL_SECONDS: u32 = 0x3e2a_aaab;

/// A pixel of the picture is inside the circle. Both coordinates run from -4
/// to 4.
pub open spec fn in_circle(x: int, y: int) -> bool {
    x * x + y * y <= 20
}

/// A byte of the picture: four to the pixel, the last of them its opacity.
pub open spec fn picture_byte(place: int) -> u8 {
    let pixel = place / 4;
    if place % 4 == 3 && !in_circle(pixel % 9 - 4, pixel / 9 - 4) {
        0
    } else {
        255
    }
}

/// A tiny filled circle, rasterized in reference pixels: a white mask, tinted
/// for the body and for its shadow.
pub fn player_picture() -> (bytes: Vec<u8>)
    ensures
        bytes@ == Seq::new(324, |place: int| picture_byte(place)),
{
    let mut bytes: Vec<u8> = Vec::new();
    let mut place: usize = 0;
    while place < 324
        invariant
            place <= 324,
            bytes@ == Seq::new(place as nat, |k: int| picture_byte(k)),
        decreases 324 - place,
    {
        let pixel: usize = place / 4;
        let x: i32 = (pixel % PICTURE_EDGE) as i32 - 4;
        let y: i32 = (pixel / PICTURE_EDGE) as i32 - 4;
        assert(-4 <= x <= 4 && -4 <= y <= 4);
        assert(0 <= x * x <= 16 && 0 <= y * y <= 16) by (nonlinear_arith)
            requires
                -4 <= x <= 4,
                -4 <= y <= 4,
        ;
        let inside: bool = x * x + y * y <= 20;
        let byte: u8 = if place % 4 == 3 && !inside { 0 } else { 255 };
        bytes.push(byte);
        assert(bytes@ =~= Seq::new((place + 1) as nat, |k: int| picture_byte(k)));
        place = place + 1;
    }
    bytes
}

/// Whether a piece of the trail of this age is gone.
pub fn trail_is_over(age: u32) -> (over: bool)
    ensures
        over == (!nan(age) && scaled(age) >= scaled(TRAIL_SECONDS)),
{
    proof {
        assert(!nan(TRAIL_SECONDS));
    }
    at_most(TRAIL_SECONDS, age)
}

/// One key alone asks for its own way, both keys and neither ask for nothing, and
/// exchanging the keys turns the way round.
pub proof fn law_keys_oppose_each_other(negative: bool, positive: bool)
    ensures
        positive && !negative ==> axis(negative, positive) == 1,
        negative && !positive ==> axis(negative, positive) == -1,
        negative == positive ==> axis(negative, positive) == 0,
        axis(positive, negative) == -axis(negative, positive),
        scaled(sign_bits(axis(positive, negative))) == -scaled(
            sign_bits(axis(negative, positive)),
        ),
{
    crate::bits::law_signs(ONE);
    assert(crate::bits::negated(ONE) == MINUS_ONE);
    assert(scaled(ZERO) == 0);
}

/// The picture is a disc: the same from every side and without holes, white
/// throughout, and see-through exactly outside of it.
pub proof fn law_the_picture_is_a_disc(x: int, y: int, nearer: int, place: int)
    requires
        0 <= place < 324,
        -x <= nearer <= x,
    ensures
        in_circle(x, y) == in_circle(-x, y),
        in_circle(x, y) == in_circle(x, -y),
        in_circle(x, y) == in_circle(y, x),
        in_circle(x, y) ==> in_circle(nearer, y),
        in_circle(4, 2) && !in_circle(4, 3),
        place % 4 != 3 ==> picture_byte(place) == 255,
        place % 4 == 3 ==> (picture_byte(place) == 255 <==> in_circle(
            place / 4 % 9 - 4,
            place / 4 / 9 - 4,
        )),
        place % 4 == 3 ==> picture_byte(place) == 255 || picture_byte(place) == 0,
{
    assert((-x) * (-x) == x * x && (-y) * (-y) == y * y) by (nonlinear_arith);
    assert(nearer * nearer <= x * x) by (nonlinear_arith)
        requires
            -x <= nearer <= x,
    ;
}

} // verus!
