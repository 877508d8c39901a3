use vstd::prelude::*;
use crate::entities::{Collision, Vec2i};
use crate::spawn::LAUNCH_CONE_MILLIRAD;
use crate::world::FrameInput;

verus! {

/// Relies on rand::random: a value drawn from the thread-local generator.
/// Nothing is known of it beyond its type.
pub assume_specification<T>[ rand::random::<T> ]() -> (r: T)
    where
        rand::distributions::Standard: rand::distributions::Distribution<T>,
;

/// A percent roll in `0..100`.
pub fn percent_roll() -> (r: u8)
    ensures
        r < 100,
{
    let x: u64 = rand::random::<u64>();
    (x % 100) as u8
}

/// A launch angle inside the forward cone, in milliradians.
pub fn launch_angle() -> (r: u16)
    ensures
        r < LAUNCH_CONE_MILLIRAD,
{
    let x: u64 = rand::random::<u64>();
    (x % (LAUNCH_CONE_MILLIRAD as u64)) as u16
}

/// A fair coin.
pub fn coin_flip() -> (r: bool) {
    rand::random::<bool>()
}

/// The input of one frame, with this frame's random draws filled in.
pub fn frame_input(
    dt_us: u64,
    collisions: Vec<Collision>,
    zone_clear: bool,
    pressed: bool,
    pointer: Option<Vec2i>,
) -> (r: FrameInput)
    ensures
        r.dt_us == dt_us,
        r.collisions@ == collisions@,
        r.zone_clear == zone_clear,
        r.pressed == pressed,
        r.pointer == pointer,
        r.gold_roll < 100,
        r.bonus_roll < 100,
        r.angle_millirad < LAUNCH_CONE_MILLIRAD,
{
    let gold_roll = percent_roll();
    let bonus_roll = percent_roll();
    let angle_millirad = launch_angle();
    let coin = coin_flip();
    FrameInput { dt_us, collisions, zone_clear, pressed, pointer, gold_roll, bonus_roll, angle_millirad, coin }
}

} // verus!
