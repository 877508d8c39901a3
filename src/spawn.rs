use vstd::prelude::*;
use crate::entities::{BallKind, Launch, Side};

verus! {

/// Cooldown after a ball has been spawned, in microseconds.
pub const SPAWN_COOLDOWN_US: u64 = 10_000;

/// Time between two bonus balls, in microseconds.
pub const BONUS_INTERVAL_US: u64 = 8_000_000;

/// Percent chance that a replenished scoring ball is gold.
pub const GOLD_PERCENT: u8 = 2;

/// Percent chance that a bonus ball is a multi-ball (else it switches sides).
pub const MULTI_PERCENT: u8 = 20;

/// Width of the launch cone, in milliradians (a quarter turn's half).
pub const LAUNCH_CONE_MILLIRAD: u16 = 785;

/// A pending ball: its kind and the side it should be launched toward.
#[derive(PartialEq, Eq, Structural, Clone, Copy, Debug)]
pub struct SpawnRequest {
    pub kind: BallKind,
    pub side: Side,
}

/// Pending spawn requests; the front is served first.
pub struct SpawnQueue {
    pub requests: Vec<SpawnRequest>,
}

impl View for SpawnQueue {
    type V = Seq<SpawnRequest>;

    open spec fn view(&self) -> Seq<SpawnRequest> {
        self.requests@
    }
}

impl SpawnQueue {
    pub fn new() -> (r: SpawnQueue)
        ensures
            r@ == Seq::<SpawnRequest>::empty(),
    {
        SpawnQueue { requests: Vec::new() }
    }

    pub fn len(&self) -> (r: usize)
        ensures
            r == self@.len(),
    {
        self.requests.len()
    }

    /// Puts an urgent request ahead of every other one.
    pub fn push_front(&mut self, r: SpawnRequest)
        ensures
            final(self)@ == seq![r] + old(self)@,
    {
        self.requests.insert(0, r);
        proof {
            assert(self@ =~= seq![r] + old(self)@);
        }
    }

    /// Queues a request behind every other one.
    pub fn push_back(&mut self, r: SpawnRequest)
        ensures
            final(self)@ == old(self)@.push(r),
    {
        self.requests.push(r);
    }

    /// The request that is served next, if any.
    pub fn peek(&self) -> (r: Option<SpawnRequest>)
        ensures
            r == (if self@.len() == 0 { None } else { Some(self@[0]) }),
    {
        if self.requests.len() == 0 {
            None
        } else {
            Some(self.requests[0])
        }
    }

    /// Takes the front request out of the queue.
    pub fn pop_front(&mut self) -> (r: Option<SpawnRequest>)
        ensures
            old(self)@.len() == 0 ==> r.is_none() && final(self)@ == old(self)@,
            old(self)@.len() > 0 ==> r == Some(old(self)@[0]) && final(self)@
                == old(self)@.drop_first(),
    {
        if self.requests.len() == 0 {
            None
        } else {
            let r = self.requests.remove(0);
            proof {
                assert(self@ =~= old(self)@.drop_first());
            }
            Some(r)
        }
    }
}

/// A one-shot cooldown: it counts elapsed time up to its duration and then
/// stays finished until it is restarted.
#[derive(PartialEq, Eq, Structural, Clone, Copy, Debug)]
pub struct SpawnTimer {
    pub duration_us: u64,
    pub elapsed_us: u64,
}

pub open spec fn timer_tick_spec(t: SpawnTimer, dt_us: u64) -> SpawnTimer {
    SpawnTimer {
        elapsed_us: if t.elapsed_us + dt_us >= t.duration_us {
            t.duration_us
        } else {
            (t.elapsed_us + dt_us) as u64
        },
        ..t
    }
}

impl SpawnTimer {
    /// A timer of zero duration: the first attempt comes at once.
    pub fn new() -> (r: SpawnTimer)
        ensures
            r.duration_us == 0,
            r.elapsed_us == 0,
    {
        SpawnTimer { duration_us: 0, elapsed_us: 0 }
    }

    pub open spec fn wf(&self) -> bool {
        self.elapsed_us <= self.duration_us
    }

    /// Advances the timer by `dt_us`, stopping at its duration.
    pub fn tick(&mut self, dt_us: u64)
        requires
            old(self).wf(),
        ensures
            *final(self) == timer_tick_spec(*old(self), dt_us),
            final(self).wf(),
    {
        if dt_us >= self.duration_us - self.elapsed_us {
            self.elapsed_us = self.duration_us;
        } else {
            self.elapsed_us = self.elapsed_us + dt_us;
        }
    }

    pub fn finished(&self) -> (r: bool)
        ensures
            r == (self.elapsed_us >= self.duration_us),
    {
        self.elapsed_us >= self.duration_us
    }
}

/// The side a new ball is sent toward: the preferred side, or the coin's
/// pick (heads is left) where the request leaves it open.
pub open spec fn launch_side(preferred: Side, coin: bool) -> Side {
    match preferred {
        Side::Left => Side::Left,
        Side::Right => Side::Right,
        Side::Random => if coin { Side::Left } else { Side::Right },
    }
}

/// The launch impulse for a request that prefers `preferred`.
pub fn launch_for(preferred: Side, angle_millirad: u16, coin: bool) -> (r: Launch)
    requires
        angle_millirad < LAUNCH_CONE_MILLIRAD,
    ensures
        r == (Launch { angle_millirad, toward: launch_side(preferred, coin) }),
{
    let toward = if preferred == Side::Left || (preferred == Side::Random && coin) {
        Side::Left
    } else {
        Side::Right
    };
    Launch { angle_millirad, toward }
}

/// The kind of a replenished scoring ball, from a percent roll.
pub open spec fn point_kind(roll: u8) -> BallKind {
    if roll < GOLD_PERCENT {
        BallKind::Gold
    } else {
        BallKind::Point
    }
}

/// The kind of a bonus ball, from a percent roll.
pub open spec fn bonus_kind(roll: u8) -> BallKind {
    if roll < MULTI_PERCENT {
        BallKind::Multi
    } else {
        BallKind::SwitchSide
    }
}

pub fn pick_point_kind(roll: u8) -> (r: BallKind)
    ensures
        r == point_kind(roll),
{
    if roll < GOLD_PERCENT {
        BallKind::Gold
    } else {
        BallKind::Point
    }
}

pub fn pick_bonus_kind(roll: u8) -> (r: BallKind)
    ensures
        r == bonus_kind(roll),
{
    if roll < MULTI_PERCENT {
        BallKind::Multi
    } else {
        BallKind::SwitchSide
    }
}

} // verus!
