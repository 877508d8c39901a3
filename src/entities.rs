use vstd::prelude::*;

verus! {

/// Base radius of a ball, in milli-pixels.
pub const BALL_RADIUS: i64 = 15000;

/// Radius of a bonus ball, in milli-pixels (85% of the base radius).
pub const BONUS_BALL_RADIUS: i64 = 12750;

/// Which half of the field an entity belongs to or a ball is launched toward.
#[derive(PartialEq, Eq, Structural, Clone, Copy, Debug)]
pub enum Side {
    Random,
    Left,
    Right,
}

pub open spec fn opposite_spec(s: Side) -> Side {
    match s {
        Side::Left => Side::Right,
        Side::Right => Side::Left,
        Side::Random => Side::Random,
    }
}

impl Side {
    /// The mirrored side; `Random` has no mirror and stays `Random`.
    pub fn opposite(&self) -> (r: Side)
        ensures
            r == opposite_spec(*self),
    {
        match self {
            Side::Left => Side::Right,
            Side::Right => Side::Left,
            Side::Random => Side::Random,
        }
    }
}

/// The kinds of ball: two that score and two bonus kinds that change the field.
#[derive(PartialEq, Eq, Structural, Clone, Copy, Debug)]
pub enum BallKind {
    Point,
    Gold,
    Multi,
    SwitchSide,
}

pub open spec fn points_spec(k: BallKind) -> u64 {
    match k {
        BallKind::Point => 1,
        BallKind::Gold => 3,
        BallKind::Multi => 0,
        BallKind::SwitchSide => 0,
    }
}

pub open spec fn is_bonus(k: BallKind) -> bool {
    k == BallKind::Multi || k == BallKind::SwitchSide
}

impl BallKind {
    /// Points awarded when a ball of this kind enters a goal.
    pub fn points(&self) -> (r: u64)
        ensures
            r == points_spec(*self),
    {
        match self {
            BallKind::Point => 1,
            BallKind::Gold => 3,
            BallKind::Multi => 0,
            BallKind::SwitchSide => 0,
        }
    }
}

/// A ball's gameplay data.
#[derive(PartialEq, Eq, Structural, Clone, Copy, Debug)]
pub struct Ball {
    pub kind: BallKind,
}

impl Ball {
    /// Collider radius: bonus balls are drawn smaller than scoring balls.
    pub fn get_radius(&self) -> (r: i64)
        ensures
            r == (if is_bonus(self.kind) { BONUS_BALL_RADIUS } else { BALL_RADIUS }),
    {
        match self.kind {
            BallKind::Multi | BallKind::SwitchSide => BONUS_BALL_RADIUS,
            _ => BALL_RADIUS,
        }
    }
}

/// A point or a velocity on the field, in milli-pixels (per second for a velocity).
#[derive(PartialEq, Eq, Structural, Clone, Copy, Debug)]
pub struct Vec2i {
    pub x: i64,
    pub y: i64,
}

/// A handle into the entity registry.
pub type EntityId = u64;

/// A paddle: the first player's paddle is steered by the pointer, the other
/// one chases balls on its own.
#[derive(PartialEq, Eq, Structural, Clone, Copy, Debug)]
pub struct Paddle {
    pub id: EntityId,
    pub first_player: bool,
    pub side: Side,
    pub position: Vec2i,
    pub velocity: Vec2i,
}

/// A goal sensor behind one end of the field.
#[derive(PartialEq, Eq, Structural, Clone, Copy, Debug)]
pub struct Goal {
    pub id: EntityId,
    pub first_player: bool,
    pub side: Side,
}

/// The launch impulse of a new ball: an angle inside the forward cone, in
/// milliradians from the horizontal, and the side the ball is sent toward.
#[derive(PartialEq, Eq, Structural, Clone, Copy, Debug)]
pub struct Launch {
    pub angle_millirad: u16,
    pub toward: Side,
}

/// A ball in play, with its one-frame deferred launch impulse.
#[derive(PartialEq, Eq, Structural, Clone, Copy, Debug)]
pub struct BallEntity {
    pub id: EntityId,
    pub ball: Ball,
    pub position: Vec2i,
    /// The frame in which the ball was created.
    pub spawned_at: u64,
    /// The pending impulse, present only during the frame of creation.
    pub delayed_force: Option<Launch>,
    /// The impulse handed to the physics engine, once it has been.
    pub applied_force: Option<AppliedForce>,
}

/// A launch impulse together with the frame in which it was applied.
#[derive(PartialEq, Eq, Structural, Clone, Copy, Debug)]
pub struct AppliedForce {
    pub launch: Launch,
    pub frame: u64,
}

/// A collision-begin event naming the two entities that touched.
#[derive(PartialEq, Eq, Structural, Clone, Copy, Debug)]
pub struct Collision {
    pub entity1: EntityId,
    pub entity2: EntityId,
}

} // verus!
