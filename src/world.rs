use vstd::prelude::*;
use crate::control::{in_field, steer_ai, steer_ai_spec, steer_human, steer_human_spec};
use crate::entities::{
    opposite_spec, points_spec, AppliedForce, Ball, BallEntity, BallKind, Collision, EntityId,
    Goal, Launch, Paddle, Side, Vec2i,
};
use crate::score::{award_spec, decrement_spec, PointBallCount, Score};
use crate::spawn::{
    bonus_kind, launch_side, pick_bonus_kind, pick_point_kind, point_kind, timer_tick_spec,
    SpawnQueue, SpawnRequest, SpawnTimer, BONUS_INTERVAL_US, LAUNCH_CONE_MILLIRAD,
    SPAWN_COOLDOWN_US, launch_for,
};

verus! {

/// Handles of the fixed entities; balls are numbered from `FIRST_BALL_ID` on.
pub const GOAL_A_ID: u64 = 0;
pub const GOAL_B_ID: u64 = 1;
pub const PADDLE_A_ID: u64 = 2;
pub const PADDLE_B_ID: u64 = 3;
pub const FIRST_BALL_ID: u64 = 4;

/// Distance of each paddle's starting point from the field's centre line.
pub const PADDLE_START_X: i64 = 620_000;

/// The whole match: registry, process-wide resources and scheduler state.
pub struct World {
    pub score: Score,
    pub point_balls: PointBallCount,
    pub queue: SpawnQueue,
    pub timer: SpawnTimer,
    pub bonus_elapsed_us: u64,
    pub paddle_a: Paddle,
    pub paddle_b: Paddle,
    pub goal_a: Goal,
    pub goal_b: Goal,
    pub balls: Vec<BallEntity>,
    pub next_id: u64,
    /// Number of the frame that runs next.
    pub frame: u64,
}

/// What the outside world hands in for one frame.
pub struct FrameInput {
    pub dt_us: u64,
    pub collisions: Vec<Collision>,
    /// Whether no ball or paddle overlaps the spawn zone at the centre.
    pub zone_clear: bool,
    /// Whether the primary pointer button is held.
    pub pressed: bool,
    /// The pointer in field coordinates, if it could be projected.
    pub pointer: Option<Vec2i>,
    /// Percent rolls in `0..100` and the launch draw of this frame.
    pub gold_roll: u8,
    pub bonus_roll: u8,
    pub angle_millirad: u16,
    pub coin: bool,
}

pub ghost struct WorldModel {
    pub score: Score,
    pub point_balls: PointBallCount,
    pub queue: Seq<SpawnRequest>,
    pub timer: SpawnTimer,
    pub bonus_elapsed_us: u64,
    pub paddle_a: Paddle,
    pub paddle_b: Paddle,
    pub goal_a: Goal,
    pub goal_b: Goal,
    pub balls: Seq<BallEntity>,
    pub next_id: u64,
    pub frame: u64,
}

impl View for World {
    type V = WorldModel;

    open spec fn view(&self) -> WorldModel {
        WorldModel {
            score: self.score,
            point_balls: self.point_balls,
            queue: self.queue@,
            timer: self.timer,
            bonus_elapsed_us: self.bonus_elapsed_us,
            paddle_a: self.paddle_a,
            paddle_b: self.paddle_b,
            goal_a: self.goal_a,
            goal_b: self.goal_b,
            balls: self.balls@,
            next_id: self.next_id,
            frame: self.frame,
        }
    }
}

// ---------------------------------------------------------------- invariant

/// Ball handles are increasing in registry order and lie in `FIRST_BALL_ID..next_id`.
pub open spec fn ids_ok(balls: Seq<BallEntity>, next_id: u64) -> bool {
    &&& FIRST_BALL_ID <= next_id
    &&& forall|i: int, j: int| 0 <= i < j < balls.len() ==> balls[i].id < balls[j].id
    &&& forall|i: int| 0 <= i < balls.len() ==> FIRST_BALL_ID <= #[trigger] balls[i].id < next_id
}

/// The one-frame life of a launch impulse, seen before frame `frame` runs: a
/// ball made in the last frame still carries it; every older ball had it
/// applied in the frame after its creation.
pub open spec fn force_ok(b: BallEntity, frame: u64) -> bool {
    &&& b.spawned_at < frame
    &&& b.delayed_force is Some <==> b.spawned_at + 1 == frame
    &&& b.delayed_force is Some ==> b.applied_force is None
    &&& b.delayed_force is None ==> (b.applied_force matches Some(f) && f.frame == b.spawned_at + 1)
}

pub open spec fn forces_ok(balls: Seq<BallEntity>, frame: u64) -> bool {
    forall|i: int| 0 <= i < balls.len() ==> force_ok(#[trigger] balls[i], frame)
}

pub open spec fn positions_ok(w: WorldModel) -> bool {
    &&& in_field(w.paddle_a.position)
    &&& in_field(w.paddle_b.position)
    &&& forall|i: int| 0 <= i < w.balls.len() ==> in_field(#[trigger] w.balls[i].position)
}

/// `paddle_a` is the first player's; the paddles hold the two sides between
/// them, the goals stay at their ends, and each goal belongs to the first
/// player exactly when the first player's paddle is on its side.
pub open spec fn sides_ok(w: WorldModel) -> bool {
    &&& w.paddle_a.first_player && !w.paddle_b.first_player
    &&& {
        ||| w.paddle_a.side == Side::Left && w.paddle_b.side == Side::Right
        ||| w.paddle_a.side == Side::Right && w.paddle_b.side == Side::Left
    }
    &&& w.goal_a.side == Side::Left && w.goal_b.side == Side::Right
    &&& w.goal_a.first_player == (w.goal_a.side == w.paddle_a.side)
    &&& w.goal_b.first_player == (w.goal_b.side == w.paddle_a.side)
}

impl WorldModel {
    pub open spec fn wf(self) -> bool {
        &&& sides_ok(self)
        &&& ids_ok(self.balls, self.next_id)
        &&& forces_ok(self.balls, self.frame)
        &&& positions_ok(self)
        &&& self.timer.wf()
        &&& self.goal_a.id == GOAL_A_ID && self.goal_b.id == GOAL_B_ID
        &&& self.paddle_a.id == PADDLE_A_ID && self.paddle_b.id == PADDLE_B_ID
    }
}

// ---------------------------------------------------------------- deferred forces

pub open spec fn apply_force_spec(b: BallEntity, frame: u64) -> BallEntity {
    match b.delayed_force {
        Some(l) => BallEntity {
            delayed_force: None,
            applied_force: Some(AppliedForce { launch: l, frame }),
            ..b
        },
        None => b,
    }
}

/// Every pending impulse is applied, stamped with the current frame, and its
/// marker removed.
pub open spec fn apply_forces_spec(w: WorldModel) -> WorldModel {
    WorldModel {
        balls: Seq::new(w.balls.len(), |i: int| apply_force_spec(w.balls[i], w.frame)),
        ..w
    }
}

// ---------------------------------------------------------------- goals

pub open spec fn goal_of(w: WorldModel, e: EntityId) -> Option<Goal> {
    if w.goal_a.id == e {
        Some(w.goal_a)
    } else if w.goal_b.id == e {
        Some(w.goal_b)
    } else {
        None
    }
}

pub open spec fn has_ball(w: WorldModel, e: EntityId) -> bool {
    exists|i: int| 0 <= i < w.balls.len() && w.balls[i].id == e
}

pub open spec fn ball_index(w: WorldModel, e: EntityId) -> int {
    choose|i: int| 0 <= i < w.balls.len() && w.balls[i].id == e
}

/// The goal and the ball of a collision that pairs one of each, in either order.
pub open spec fn goal_pair(w: WorldModel, c: Collision) -> Option<(Goal, EntityId)> {
    if goal_of(w, c.entity1) is Some && has_ball(w, c.entity2) {
        Some((goal_of(w, c.entity1).unwrap(), c.entity2))
    } else if goal_of(w, c.entity2) is Some && has_ball(w, c.entity1) {
        Some((goal_of(w, c.entity2).unwrap(), c.entity1))
    } else {
        None
    }
}

pub open spec fn point_request(side: Side) -> SpawnRequest {
    SpawnRequest { kind: BallKind::Point, side }
}

/// Both paddles change side and trade places, and both goals change owner.
pub open spec fn switch_spec(w: WorldModel) -> WorldModel {
    WorldModel {
        paddle_a: Paddle {
            side: opposite_spec(w.paddle_a.side),
            position: w.paddle_b.position,
            ..w.paddle_a
        },
        paddle_b: Paddle {
            side: opposite_spec(w.paddle_b.side),
            position: w.paddle_a.position,
            ..w.paddle_b
        },
        goal_a: Goal { first_player: !w.goal_a.first_player, ..w.goal_a },
        goal_b: Goal { first_player: !w.goal_b.first_player, ..w.goal_b },
        ..w
    }
}

/// What a ball of kind `kind` does when it enters goal `g`.
pub open spec fn effect_spec(w: WorldModel, g: Goal, kind: BallKind) -> WorldModel {
    match kind {
        BallKind::Point | BallKind::Gold => WorldModel {
            score: award_spec(w.score, g.first_player, points_spec(kind)),
            point_balls: decrement_spec(w.point_balls),
            ..w
        },
        BallKind::Multi => WorldModel {
            queue: seq![point_request(g.side), point_request(g.side)] + w.queue,
            ..w
        },
        BallKind::SwitchSide => switch_spec(w),
    }
}

pub open spec fn resolve_one(w: WorldModel, c: Collision) -> WorldModel {
    match goal_pair(w, c) {
        None => w,
        Some((g, e)) => {
            let i = ball_index(w, e);
            let w1 = effect_spec(w, g, w.balls[i].ball.kind);
            WorldModel { balls: w1.balls.remove(i), ..w1 }
        },
    }
}

/// The world after the collision events `cs`, taken in order.
pub open spec fn resolve_all(w: WorldModel, cs: Seq<Collision>) -> WorldModel
    decreases cs.len(),
{
    if cs.len() == 0 {
        w
    } else {
        resolve_one(resolve_all(w, cs.drop_last()), cs.last())
    }
}

// ---------------------------------------------------------------- policies

/// With no scoring ball about, one is put at the front of the queue.
pub open spec fn point_policy_spec(w: WorldModel, roll: u8) -> WorldModel {
    if w.point_balls.0 == 0 {
        WorldModel {
            queue: seq![SpawnRequest { kind: point_kind(roll), side: Side::Random }] + w.queue,
            point_balls: PointBallCount(1),
            ..w
        }
    } else {
        w
    }
}

pub open spec fn bonus_policy_spec(w: WorldModel, dt_us: u64, roll: u8) -> WorldModel {
    let t = if w.bonus_elapsed_us + dt_us > u64::MAX {
        u64::MAX
    } else {
        (w.bonus_elapsed_us + dt_us) as u64
    };
    if t > BONUS_INTERVAL_US {
        WorldModel {
            queue: w.queue.push(SpawnRequest { kind: bonus_kind(roll), side: Side::Random }),
            bonus_elapsed_us: 0,
            ..w
        }
    } else {
        WorldModel { bonus_elapsed_us: t, ..w }
    }
}

// ---------------------------------------------------------------- spawning

pub open spec fn new_ball(w: WorldModel, r: SpawnRequest, launch: Launch) -> BallEntity {
    BallEntity {
        id: w.next_id,
        ball: Ball { kind: r.kind },
        position: Vec2i { x: 0, y: 0 },
        spawned_at: w.frame,
        delayed_force: Some(launch),
        applied_force: None,
    }
}

/// The timer runs; once it has finished, the front request becomes a ball at
/// the centre if the zone there is clear, and the cooldown starts again.
pub open spec fn spawn_spec(w: WorldModel, dt_us: u64, zone_clear: bool, angle: u16, coin: bool) -> WorldModel {
    let t = timer_tick_spec(w.timer, dt_us);
    if t.elapsed_us >= t.duration_us && w.queue.len() > 0 && zone_clear {
        let r = w.queue[0];
        WorldModel {
            queue: w.queue.drop_first(),
            timer: SpawnTimer { duration_us: SPAWN_COOLDOWN_US, elapsed_us: 0 },
            balls: w.balls.push(new_ball(w, r, Launch { angle_millirad: angle, toward: launch_side(r.side, coin) })),
            next_id: (w.next_id + 1) as u64,
            ..w
        }
    } else {
        WorldModel { timer: t, ..w }
    }
}

// ---------------------------------------------------------------- paddles

pub open spec fn first_ball_y(w: WorldModel) -> Option<i64> {
    if w.balls.len() > 0 {
        Some(w.balls[0].position.y)
    } else {
        None
    }
}

pub open spec fn steer_spec(pd: Paddle, w: WorldModel, pressed: bool, pointer: Option<Vec2i>, dt_us: u64) -> Paddle {
    if pd.first_player {
        steer_human_spec(pd, pressed, pointer, dt_us)
    } else {
        steer_ai_spec(pd, first_ball_y(w), dt_us)
    }
}

pub open spec fn paddles_spec(w: WorldModel, pressed: bool, pointer: Option<Vec2i>, dt_us: u64) -> WorldModel {
    WorldModel {
        paddle_a: steer_spec(w.paddle_a, w, pressed, pointer, dt_us),
        paddle_b: steer_spec(w.paddle_b, w, pressed, pointer, dt_us),
        ..w
    }
}

// ---------------------------------------------------------------- lemmas

proof fn lemma_ball_index(w: WorldModel, i: int)
    requires
        ids_ok(w.balls, w.next_id),
        0 <= i < w.balls.len(),
    ensures
        has_ball(w, w.balls[i].id),
        ball_index(w, w.balls[i].id) == i,
{
    let e = w.balls[i].id;
    assert(has_ball(w, e));
    let j = ball_index(w, e);
    if j < i {
        assert(w.balls[j].id < w.balls[i].id);
    } else if j > i {
        assert(w.balls[i].id < w.balls[j].id);
    }
}

proof fn lemma_remove_keeps_ids(balls: Seq<BallEntity>, next_id: u64, i: int)
    requires
        ids_ok(balls, next_id),
        0 <= i < balls.len(),
    ensures
        ids_ok(balls.remove(i), next_id),
{
    let r = balls.remove(i);
    assert forall|a: int, b: int| 0 <= a < b < r.len() implies r[a].id < r[b].id by {
        let a0 = if a < i { a } else { a + 1 };
        let b0 = if b < i { b } else { b + 1 };
        assert(r[a] == balls[a0] && r[b] == balls[b0]);
    }
    assert forall|a: int| 0 <= a < r.len() implies FIRST_BALL_ID <= #[trigger] r[a].id < next_id by {
        let a0 = if a < i { a } else { a + 1 };
        assert(r[a] == balls[a0]);
    }
}

// ---------------------------------------------------------------- phases

impl World {
    /// The ball at registry position `i`, by handle.
    fn find_ball(&self, e: EntityId) -> (r: Option<usize>)
        ensures
            match r {
                Some(i) => i < self.balls@.len() && self.balls@[i as int].id == e,
                None => !has_ball(self@, e),
            },
    {
        let mut i: usize = 0;
        while i < self.balls.len()
            invariant
                i <= self.balls@.len(),
                forall|j: int| 0 <= j < i ==> self.balls@[j].id != e,
            decreases self.balls@.len() - i,
        {
            if self.balls[i].id == e {
                return Some(i);
            }
            i = i + 1;
        }
        None
    }

    fn find_goal(&self, e: EntityId) -> (r: Option<Goal>)
        ensures
            r == goal_of(self@, e),
    {
        if self.goal_a.id == e {
            Some(self.goal_a)
        } else if self.goal_b.id == e {
            Some(self.goal_b)
        } else {
            None
        }
    }

    /// Hands every pending launch impulse to the physics state and removes
    /// its marker.
    pub fn apply_delayed_forces(&mut self)
        ensures
            final(self)@ == apply_forces_spec(old(self)@),
    {
        let n = self.balls.len();
        let mut i: usize = 0;
        while i < n
            invariant
                n == self.balls@.len(),
                i <= n,
                self.frame == old(self).frame,
                self@ == (WorldModel { balls: self.balls@, ..old(self)@ }),
                forall|j: int| 0 <= j < i ==> self.balls@[j] == apply_force_spec(old(self)@.balls[j], self.frame),
                forall|j: int| i <= j < n ==> self.balls@[j] == old(self)@.balls[j],
                n == old(self)@.balls.len(),
            decreases n - i,
        {
            let b = self.balls[i];
            if let Some(l) = b.delayed_force {
                let nb = BallEntity {
                    delayed_force: None,
                    applied_force: Some(AppliedForce { launch: l, frame: self.frame }),
                    ..b
                };
                self.balls.set(i, nb);
            }
            i = i + 1;
        }
        proof {
            assert(self.balls@ =~= apply_forces_spec(old(self)@).balls);
        }
    }

    /// Applies what a ball of `kind` does on entering goal `g`.
    fn goal_effect(&mut self, g: Goal, kind: BallKind)
        ensures
            final(self)@ == effect_spec(old(self)@, g, kind),
    {
        match kind {
            BallKind::Point | BallKind::Gold => {
                self.score.award(g.first_player, kind.points());
                self.point_balls.decrement();
            },
            BallKind::Multi => {
                self.queue.push_front(SpawnRequest { kind: BallKind::Point, side: g.side });
                self.queue.push_front(SpawnRequest { kind: BallKind::Point, side: g.side });
                proof {
                    assert(self.queue@ =~= seq![point_request(g.side), point_request(g.side)] + old(self)@.queue);
                }
            },
            BallKind::SwitchSide => self.switch_sides(),
        }
    }

    /// Both paddles change side and trade places (velocities stay), and both
    /// goals change owner.
    pub fn switch_sides(&mut self)
        ensures
            final(self)@ == switch_spec(old(self)@),
    {
        self.paddle_a.side = self.paddle_a.side.opposite();
        self.paddle_b.side = self.paddle_b.side.opposite();
        let pa = self.paddle_a.position;
        self.paddle_a.position = self.paddle_b.position;
        self.paddle_b.position = pa;
        self.goal_a.first_player = !self.goal_a.first_player;
        self.goal_b.first_player = !self.goal_b.first_player;
    }

    /// Resolves one collision event: a goal and a ball in either order score
    /// or take effect, and the ball leaves the registry; anything else,
    /// including a ball already gone, is ignored.
    pub fn resolve_collision(&mut self, c: Collision)
        requires
            ids_ok(old(self).balls@, old(self).next_id),
        ensures
            final(self)@ == resolve_one(old(self)@, c),
            ids_ok(final(self).balls@, final(self).next_id),
    {
        let pair = match self.find_goal(c.entity1) {
            Some(g) => match self.find_ball(c.entity2) {
                Some(i) => Some((g, i)),
                None => None,
            },
            None => None,
        };
        let pair = match pair {
            Some(p) => Some(p),
            None => match self.find_goal(c.entity2) {
                Some(g) => match self.find_ball(c.entity1) {
                    Some(i) => Some((g, i)),
                    None => None,
                },
                None => None,
            },
        };
        if let Some((g, i)) = pair {
            proof {
                lemma_ball_index(self@, i as int);
                lemma_remove_keeps_ids(self.balls@, self.next_id, i as int);
            }
            let kind = self.balls[i].ball.kind;
            self.goal_effect(g, kind);
            self.balls.remove(i);
        }
    }

    /// Resolves this frame's collision events in order.
    pub fn check_goals(&mut self, cs: &Vec<Collision>)
        requires
            ids_ok(old(self).balls@, old(self).next_id),
        ensures
            final(self)@ == resolve_all(old(self)@, cs@),
            ids_ok(final(self).balls@, final(self).next_id),
    {
        let mut k: usize = 0;
        while k < cs.len()
            invariant
                k <= cs@.len(),
                self@ == resolve_all(old(self)@, cs@.take(k as int)),
                ids_ok(self.balls@, self.next_id),
            decreases cs@.len() - k,
        {
            proof {
                assert(cs@.take(k as int + 1).drop_last() =~= cs@.take(k as int));
            }
            self.resolve_collision(cs[k]);
            k = k + 1;
        }
        proof {
            assert(cs@.take(k as int) =~= cs@);
        }
    }

    /// Keeps a scoring ball in play or queued: with none about, a point ball
    /// (gold when `roll < 2`) goes to the front of the queue.
    pub fn replenish_point_ball(&mut self, roll: u8)
        ensures
            final(self)@ == point_policy_spec(old(self)@, roll),
    {
        if self.point_balls.0 == 0 {
            let kind = pick_point_kind(roll);
            self.queue.push_front(SpawnRequest { kind, side: Side::Random });
            self.point_balls = PointBallCount(1);
        }
    }

    /// Queues a bonus ball (multi when `roll < 20`) at the back each time the
    /// bonus interval is exceeded.
    pub fn schedule_bonus(&mut self, dt_us: u64, roll: u8)
        ensures
            final(self)@ == bonus_policy_spec(old(self)@, dt_us, roll),
    {
        let t = self.bonus_elapsed_us.saturating_add(dt_us);
        if t > BONUS_INTERVAL_US {
            let kind = pick_bonus_kind(roll);
            self.queue.push_back(SpawnRequest { kind, side: Side::Random });
            self.bonus_elapsed_us = 0;
        } else {
            self.bonus_elapsed_us = t;
        }
    }

    /// Runs the spawn cooldown and, when it has finished and the spawn zone is
    /// clear, turns the front request into a ball at the centre carrying its
    /// launch impulse for the next frame. Returns the new ball's handle.
    pub fn spawn_ball(&mut self, dt_us: u64, zone_clear: bool, angle_millirad: u16, coin: bool) -> (r: Option<EntityId>)
        requires
            old(self).timer.wf(),
            old(self).next_id < u64::MAX,
            angle_millirad < LAUNCH_CONE_MILLIRAD,
        ensures
            final(self)@ == spawn_spec(old(self)@, dt_us, zone_clear, angle_millirad, coin),
            final(self).timer.wf(),
            r == (if final(self)@.balls.len() > old(self)@.balls.len() { Some(old(self).next_id) } else { None }),
    {
        self.timer.tick(dt_us);
        if !self.timer.finished() || !zone_clear {
            return None;
        }
        match self.queue.pop_front() {
            None => None,
            Some(req) => {
                let launch = launch_for(req.side, angle_millirad, coin);
                let id = self.next_id;
                self.balls.push(BallEntity {
                    id,
                    ball: Ball { kind: req.kind },
                    position: Vec2i { x: 0, y: 0 },
                    spawned_at: self.frame,
                    delayed_force: Some(launch),
                    applied_force: None,
                });
                self.next_id = id + 1;
                self.timer = SpawnTimer { duration_us: SPAWN_COOLDOWN_US, elapsed_us: 0 };
                Some(id)
            },
        }
    }

    fn first_ball_y(&self) -> (r: Option<i64>)
        ensures
            r == first_ball_y(self@),
    {
        if self.balls.len() > 0 {
            Some(self.balls[0].position.y)
        } else {
            None
        }
    }

    /// Sets both paddles' velocities: the first player's follows the pointer,
    /// the other chases the first ball in the registry.
    pub fn move_paddles(&mut self, pressed: bool, pointer: Option<Vec2i>, dt_us: u64)
        requires
            positions_ok(old(self)@),
            pointer matches Some(t) ==> in_field(t),
        ensures
            final(self)@ == paddles_spec(old(self)@, pressed, pointer, dt_us),
    {
        let ball_y = self.first_ball_y();
        proof {
            if self.balls@.len() > 0 {
                assert(in_field(self.balls@[0].position));
            }
        }
        if self.paddle_a.first_player {
            steer_human(&mut self.paddle_a, pressed, pointer, dt_us);
        } else {
            steer_ai(&mut self.paddle_a, ball_y, dt_us);
        }
        if self.paddle_b.first_player {
            steer_human(&mut self.paddle_b, pressed, pointer, dt_us);
        } else {
            steer_ai(&mut self.paddle_b, ball_y, dt_us);
        }
    }

    /// Records a ball's position as the physics engine reports it; returns
    /// whether the ball is still in the registry.
    pub fn set_ball_position(&mut self, e: EntityId, p: Vec2i) -> (r: bool)
        requires
            old(self)@.wf(),
            in_field(p),
        ensures
            final(self)@.wf(),
            r == has_ball(old(self)@, e),
            r ==> final(self)@ == (WorldModel {
                balls: old(self)@.balls.update(
                    ball_index(old(self)@, e),
                    BallEntity { position: p, ..old(self)@.balls[ball_index(old(self)@, e)] },
                ),
                ..old(self)@
            }),
            !r ==> final(self)@ == old(self)@,
    {
        match self.find_ball(e) {
            None => false,
            Some(i) => {
                proof {
                    lemma_ball_index(self@, i as int);
                }
                let b = self.balls[i];
                self.balls.set(i, BallEntity { position: p, ..b });
                proof {
                    let o = old(self)@.balls;
                    assert forall|a: int| 0 <= a < self.balls@.len() implies #[trigger] self.balls@[a].id == o[a].id
                        && self.balls@[a].spawned_at == o[a].spawned_at
                        && self.balls@[a].delayed_force == o[a].delayed_force
                        && self.balls@[a].applied_force == o[a].applied_force by {}
                    assert forall|a: int, c: int| 0 <= a < c < self.balls@.len() implies self.balls@[a].id < self.balls@[c].id by {
                        assert(self.balls@[a].id == o[a].id && self.balls@[c].id == o[c].id);
                    }
                    assert forall|a: int| 0 <= a < self.balls@.len() implies force_ok(#[trigger] self.balls@[a], self.frame)
                        && in_field(self.balls@[a].position) by {
                        assert(force_ok(o[a], self.frame));
                    }
                }
                true
            },
        }
    }

    /// Records a paddle's position as the physics engine reports it; returns
    /// whether `e` names a paddle.
    pub fn set_paddle_position(&mut self, e: EntityId, p: Vec2i) -> (r: bool)
        requires
            old(self)@.wf(),
            in_field(p),
        ensures
            final(self)@.wf(),
            r == (e == PADDLE_A_ID || e == PADDLE_B_ID),
            e == PADDLE_A_ID ==> final(self)@ == (WorldModel { paddle_a: Paddle { position: p, ..old(self).paddle_a }, ..old(self)@ }),
            e == PADDLE_B_ID ==> final(self)@ == (WorldModel { paddle_b: Paddle { position: p, ..old(self).paddle_b }, ..old(self)@ }),
            !r ==> final(self)@ == old(self)@,
    {
        if e == PADDLE_A_ID {
            self.paddle_a.position = p;
            true
        } else if e == PADDLE_B_ID {
            self.paddle_b.position = p;
            true
        } else {
            false
        }
    }

    /// A fresh match: two goals and two paddles, scores at zero, nothing queued.
    pub fn new() -> (r: World)
        ensures
            r@.wf(),
            r@.frame == 0,
            r@.score == Score::new_spec(),
            r@.point_balls.0 == 0,
            r@.queue.len() == 0,
            r@.balls.len() == 0,
            r@.paddle_a.first_player && !r@.paddle_b.first_player,
            r@.paddle_a.side == Side::Left && r@.paddle_b.side == Side::Right,
            r@.goal_a.first_player && r@.goal_a.side == Side::Left,
            !r@.goal_b.first_player && r@.goal_b.side == Side::Right,
            r@.paddle_a.position == (Vec2i { x: (-PADDLE_START_X) as i64, y: 0 }),
            r@.paddle_b.position == (Vec2i { x: PADDLE_START_X, y: 0 }),
            r@.paddle_a.velocity == (Vec2i { x: 0, y: 0 }),
            r@.paddle_b.velocity == (Vec2i { x: 0, y: 0 }),
            r@.timer == (SpawnTimer { duration_us: 0, elapsed_us: 0 }),
            r@.bonus_elapsed_us == 0,
            r@.next_id == FIRST_BALL_ID,
    {
        let still = Vec2i { x: 0, y: 0 };
        World {
            score: Score::new(),
            point_balls: PointBallCount(0),
            queue: SpawnQueue::new(),
            timer: SpawnTimer::new(),
            bonus_elapsed_us: 0,
            paddle_a: Paddle {
                id: PADDLE_A_ID,
                first_player: true,
                side: Side::Left,
                position: Vec2i { x: -PADDLE_START_X, y: 0 },
                velocity: still,
            },
            paddle_b: Paddle {
                id: PADDLE_B_ID,
                first_player: false,
                side: Side::Right,
                position: Vec2i { x: PADDLE_START_X, y: 0 },
                velocity: still,
            },
            goal_a: Goal { id: GOAL_A_ID, first_player: true, side: Side::Left },
            goal_b: Goal { id: GOAL_B_ID, first_player: false, side: Side::Right },
            balls: Vec::new(),
            next_id: FIRST_BALL_ID,
            frame: 0,
        }
    }

    /// Runs one frame: deferred impulses, goals, the two spawn policies, the
    /// spawner, then the paddles.
    pub fn step(&mut self, input: &FrameInput)
        requires
            old(self)@.wf(),
            old(self).frame < u64::MAX,
            old(self).next_id < u64::MAX,
            input.angle_millirad < LAUNCH_CONE_MILLIRAD,
            input.pointer matches Some(t) ==> in_field(t),
        ensures
            final(self)@ == step_spec(old(self)@, *input),
            final(self)@.wf(),
    {
        proof {
            lemma_apply_forces_ok(self@);
        }
        self.apply_delayed_forces();
        proof {
            lemma_resolve_all_keeps(self@, input.collisions@);
        }
        self.check_goals(&input.collisions);
        self.replenish_point_ball(input.gold_roll);
        self.schedule_bonus(input.dt_us, input.bonus_roll);
        let ghost before_spawn = self@;
        self.spawn_ball(input.dt_us, input.zone_clear, input.angle_millirad, input.coin);
        proof {
            lemma_spawn_keeps(before_spawn, input.dt_us, input.zone_clear, input.angle_millirad, input.coin);
        }
        self.move_paddles(input.pressed, input.pointer, input.dt_us);
        self.frame = self.frame + 1;
        proof {
            lemma_step_wf(old(self)@, *input);
        }
    }
}

/// The world after one frame.
pub open spec fn step_spec(w: WorldModel, input: FrameInput) -> WorldModel {
    let w1 = apply_forces_spec(w);
    let w2 = resolve_all(w1, input.collisions@);
    let w3 = point_policy_spec(w2, input.gold_roll);
    let w4 = bonus_policy_spec(w3, input.dt_us, input.bonus_roll);
    let w5 = spawn_spec(w4, input.dt_us, input.zone_clear, input.angle_millirad, input.coin);
    let w6 = paddles_spec(w5, input.pressed, input.pointer, input.dt_us);
    WorldModel { frame: (w6.frame + 1) as u64, ..w6 }
}

/// The state in the middle of a frame, once the pending impulses are applied.
pub open spec fn mid_frame_ok(w: WorldModel) -> bool {
    &&& sides_ok(w)
    &&& ids_ok(w.balls, w.next_id)
    &&& positions_ok(w)
    &&& w.timer.wf()
    &&& w.goal_a.id == GOAL_A_ID && w.goal_b.id == GOAL_B_ID
    &&& w.paddle_a.id == PADDLE_A_ID && w.paddle_b.id == PADDLE_B_ID
    &&& forall|i: int| 0 <= i < w.balls.len() ==> applied_ok(#[trigger] w.balls[i], w.frame)
}

pub open spec fn applied_ok(b: BallEntity, frame: u64) -> bool {
    &&& b.spawned_at < frame
    &&& b.delayed_force is None
    &&& b.applied_force matches Some(f) && f.frame == b.spawned_at + 1
}

proof fn lemma_apply_forces_ok(w: WorldModel)
    requires
        w.wf(),
    ensures
        mid_frame_ok(apply_forces_spec(w)),
{
    let w1 = apply_forces_spec(w);
    assert forall|i: int| 0 <= i < w1.balls.len() implies applied_ok(#[trigger] w1.balls[i], w1.frame) by {
        assert(force_ok(w.balls[i], w.frame));
    }
    assert forall|i: int, j: int| 0 <= i < j < w1.balls.len() implies w1.balls[i].id < w1.balls[j].id by {
        assert(w1.balls[i].id == w.balls[i].id && w1.balls[j].id == w.balls[j].id);
    }
    assert forall|i: int| 0 <= i < w1.balls.len() implies FIRST_BALL_ID <= #[trigger] w1.balls[i].id < w1.next_id by {
        assert(w1.balls[i].id == w.balls[i].id);
    }
    assert forall|i: int| 0 <= i < w1.balls.len() implies in_field(#[trigger] w1.balls[i].position) by {
        assert(w1.balls[i].position == w.balls[i].position);
    }
}

proof fn lemma_resolve_one_keeps(w: WorldModel, c: Collision)
    requires
        mid_frame_ok(w),
    ensures
        mid_frame_ok(resolve_one(w, c)),
        resolve_one(w, c).frame == w.frame,
        resolve_one(w, c).next_id == w.next_id,
{
    if let Some((g, e)) = goal_pair(w, c) {
        let i = ball_index(w, e);
        let w1 = effect_spec(w, g, w.balls[i].ball.kind);
        assert(w1.balls == w.balls);
        lemma_remove_keeps_ids(w.balls, w.next_id, i);
        let r = w.balls.remove(i);
        assert forall|a: int| 0 <= a < r.len() implies applied_ok(#[trigger] r[a], w.frame) && in_field(r[a].position) by {
            let a0 = if a < i { a } else { a + 1 };
            assert(r[a] == w.balls[a0]);
        }
    }
}

proof fn lemma_resolve_all_keeps(w: WorldModel, cs: Seq<Collision>)
    requires
        mid_frame_ok(w),
    ensures
        mid_frame_ok(resolve_all(w, cs)),
        resolve_all(w, cs).frame == w.frame,
        resolve_all(w, cs).next_id == w.next_id,
    decreases cs.len(),
{
    if cs.len() > 0 {
        lemma_resolve_all_keeps(w, cs.drop_last());
        lemma_resolve_one_keeps(resolve_all(w, cs.drop_last()), cs.last());
    }
}

/// After the spawner, the state is as before the frame's end, but for the
/// ball it may have made.
pub open spec fn spawned_ok(w: WorldModel) -> bool {
    &&& sides_ok(w)
    &&& ids_ok(w.balls, w.next_id)
    &&& positions_ok(w)
    &&& w.timer.wf()
    &&& w.goal_a.id == GOAL_A_ID && w.goal_b.id == GOAL_B_ID
    &&& w.paddle_a.id == PADDLE_A_ID && w.paddle_b.id == PADDLE_B_ID
    &&& forces_ok(w.balls, (w.frame + 1) as u64)
}

proof fn lemma_spawn_keeps(w: WorldModel, dt_us: u64, zone_clear: bool, angle: u16, coin: bool)
    requires
        mid_frame_ok(w),
        w.frame < u64::MAX,
        w.next_id < u64::MAX,
    ensures
        spawned_ok(spawn_spec(w, dt_us, zone_clear, angle, coin)),
        spawn_spec(w, dt_us, zone_clear, angle, coin).frame == w.frame,
{
    let w1 = spawn_spec(w, dt_us, zone_clear, angle, coin);
    assert forall|i: int| 0 <= i < w.balls.len() implies force_ok(#[trigger] w.balls[i], (w.frame + 1) as u64) by {
        assert(applied_ok(w.balls[i], w.frame));
    }
    if w1.balls.len() > w.balls.len() {
        assert(w1.balls == w.balls.push(w1.balls.last()));
        assert forall|i: int| 0 <= i < w1.balls.len() implies force_ok(#[trigger] w1.balls[i], (w.frame + 1) as u64) by {
            if i < w.balls.len() {
                assert(w1.balls[i] == w.balls[i]);
            }
        }
        assert forall|i: int| 0 <= i < w1.balls.len() implies in_field(#[trigger] w1.balls[i].position) by {
            if i < w.balls.len() {
                assert(w1.balls[i] == w.balls[i]);
            }
        }
        assert forall|i: int| 0 <= i < w1.balls.len() implies FIRST_BALL_ID <= #[trigger] w1.balls[i].id < w1.next_id by {
            if i < w.balls.len() {
                assert(w1.balls[i] == w.balls[i]);
            }
        }
        assert forall|i: int, j: int| 0 <= i < j < w1.balls.len() implies w1.balls[i].id < w1.balls[j].id by {
            assert(w1.balls[i] == w.balls[i]);
            if j < w.balls.len() {
                assert(w1.balls[j] == w.balls[j]);
            }
        }
    }
}

proof fn lemma_paddles_keep(w: WorldModel, pressed: bool, pointer: Option<Vec2i>, dt_us: u64)
    requires
        spawned_ok(w),
    ensures
        spawned_ok(paddles_spec(w, pressed, pointer, dt_us)),
        paddles_spec(w, pressed, pointer, dt_us).frame == w.frame,
{
}

/// A frame keeps the world well formed.
pub proof fn lemma_step_wf(w: WorldModel, input: FrameInput)
    requires
        w.wf(),
        w.frame < u64::MAX,
        w.next_id < u64::MAX,
    ensures
        step_spec(w, input).wf(),
        step_spec(w, input).frame == w.frame + 1,
{
    let w1 = apply_forces_spec(w);
    lemma_apply_forces_ok(w);
    let w2 = resolve_all(w1, input.collisions@);
    lemma_resolve_all_keeps(w1, input.collisions@);
    let w3 = point_policy_spec(w2, input.gold_roll);
    let w4 = bonus_policy_spec(w3, input.dt_us, input.bonus_roll);
    assert(mid_frame_ok(w4));
    let w5 = spawn_spec(w4, input.dt_us, input.zone_clear, input.angle_millirad, input.coin);
    lemma_spawn_keeps(w4, input.dt_us, input.zone_clear, input.angle_millirad, input.coin);
    lemma_paddles_keep(w5, input.pressed, input.pointer, input.dt_us);
}

} // verus!
