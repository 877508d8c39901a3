//! Gameplay rules of a two-player paddle-and-ball arcade match: ball
//! spawning, goal resolution, bonus effects and paddle control, over an
//! integer model of the field (milli-pixels and microseconds).
use vstd::prelude::*;

pub mod entities;
pub mod score;
pub mod spawn;
pub mod control;
pub mod world;
pub mod chance;
pub mod laws;

verus! {

} // verus!
