use paddle_rally::chance::{coin_flip, frame_input, launch_angle, percent_roll};
use paddle_rally::control::{
    chase_velocity, clamp_paddle, isqrt, steer_ai, steer_human, LEFT_WALL, PADDLE_SPEED,
};
use paddle_rally::entities::{Ball, BallKind, Collision, Launch, Paddle, Side, Vec2i};
use paddle_rally::score::{PointBallCount, Score};
use paddle_rally::spawn::{
    launch_for, pick_bonus_kind, pick_point_kind, SpawnQueue, SpawnRequest, SpawnTimer,
    LAUNCH_CONE_MILLIRAD, SPAWN_COOLDOWN_US,
};
use paddle_rally::world::{FrameInput, World, FIRST_BALL_ID, GOAL_A_ID, GOAL_B_ID, PADDLE_A_ID};

const FRAME_US: u64 = 16_667;

fn quiet_frame(zone_clear: bool, collisions: Vec<Collision>) -> FrameInput {
    FrameInput {
        dt_us: FRAME_US,
        collisions,
        zone_clear,
        pressed: false,
        pointer: None,
        gold_roll: 50,
        bonus_roll: 50,
        angle_millirad: 100,
        coin: true,
    }
}

/// A world whose queue holds exactly `reqs` and whose point ball is accounted for.
fn world_with_queue(reqs: Vec<SpawnRequest>) -> World {
    let mut w = World::new();
    w.point_balls = PointBallCount(1);
    for r in reqs {
        w.queue.push_back(r);
    }
    w
}

fn spawn_one(w: &mut World, kind: BallKind) -> u64 {
    w.queue.push_front(SpawnRequest { kind, side: Side::Random });
    let before = w.balls.len();
    w.step(&quiet_frame(true, vec![]));
    assert_eq!(w.balls.len(), before + 1);
    w.balls[before].id
}

#[test]
fn opposite_side() {
    assert_eq!(Side::Left.opposite(), Side::Right);
    assert_eq!(Side::Right.opposite(), Side::Left);
    assert_eq!(Side::Random.opposite(), Side::Random);
}

#[test]
fn bonus_balls_are_smaller() {
    assert_eq!(Ball { kind: BallKind::Point }.get_radius(), 15000);
    assert_eq!(Ball { kind: BallKind::Gold }.get_radius(), 15000);
    assert_eq!(Ball { kind: BallKind::Multi }.get_radius(), 12750);
    assert_eq!(Ball { kind: BallKind::SwitchSide }.get_radius(), 12750);
}

#[test]
fn points_per_kind() {
    assert_eq!(BallKind::Point.points(), 1);
    assert_eq!(BallKind::Gold.points(), 3);
    assert_eq!(BallKind::Multi.points(), 0);
    assert_eq!(BallKind::SwitchSide.points(), 0);
}

#[test]
fn score_award_and_saturation() {
    let mut s = Score::new();
    s.award(true, 1);
    s.award(false, 3);
    s.award(true, 3);
    assert_eq!(s, Score { first_player: 4, second_player: 3 });
    let mut t = Score { first_player: u64::MAX - 1, second_player: 0 };
    t.award(true, 3);
    assert_eq!(t.first_player, u64::MAX);
}

#[test]
fn point_ball_count_never_underflows() {
    let mut c = PointBallCount(2);
    for _ in 0..5 {
        c.decrement();
    }
    assert_eq!(c, PointBallCount(0));
    c.decrement();
    assert_eq!(c.0, 0);
}

#[test]
fn queue_front_and_back() {
    let mut q = SpawnQueue::new();
    let a = SpawnRequest { kind: BallKind::Multi, side: Side::Random };
    let b = SpawnRequest { kind: BallKind::Point, side: Side::Left };
    let c = SpawnRequest { kind: BallKind::SwitchSide, side: Side::Right };
    q.push_back(a);
    q.push_back(c);
    q.push_front(b);
    assert_eq!(q.len(), 3);
    assert_eq!(q.peek(), Some(b));
    assert_eq!(q.pop_front(), Some(b));
    assert_eq!(q.pop_front(), Some(a));
    assert_eq!(q.pop_front(), Some(c));
    assert_eq!(q.pop_front(), None);
    assert_eq!(q.peek(), None);
}

#[test]
fn timer_stops_at_duration() {
    let mut t = SpawnTimer { duration_us: SPAWN_COOLDOWN_US, elapsed_us: 0 };
    t.tick(4_000);
    assert!(!t.finished());
    assert_eq!(t.elapsed_us, 4_000);
    t.tick(20_000);
    assert!(t.finished());
    assert_eq!(t.elapsed_us, SPAWN_COOLDOWN_US);
    assert!(SpawnTimer::new().finished());
}

#[test]
fn launch_direction_follows_preferred_side() {
    assert_eq!(launch_for(Side::Left, 10, false), Launch { angle_millirad: 10, toward: Side::Left });
    assert_eq!(launch_for(Side::Right, 10, true), Launch { angle_millirad: 10, toward: Side::Right });
    assert_eq!(launch_for(Side::Random, 7, true).toward, Side::Left);
    assert_eq!(launch_for(Side::Random, 7, false).toward, Side::Right);
}

#[test]
fn kind_rolls() {
    assert_eq!(pick_point_kind(0), BallKind::Gold);
    assert_eq!(pick_point_kind(1), BallKind::Gold);
    assert_eq!(pick_point_kind(2), BallKind::Point);
    assert_eq!(pick_point_kind(99), BallKind::Point);
    assert_eq!(pick_bonus_kind(19), BallKind::Multi);
    assert_eq!(pick_bonus_kind(20), BallKind::SwitchSide);
}

#[test]
fn random_draws_in_range() {
    for _ in 0..200 {
        assert!(percent_roll() < 100);
        assert!(launch_angle() < LAUNCH_CONE_MILLIRAD);
    }
    let heads = (0..200).filter(|_| coin_flip()).count();
    assert!(heads > 0 && heads < 200);
    let inp = frame_input(FRAME_US, vec![Collision { entity1: 1, entity2: 9 }], true, false, None);
    assert_eq!(inp.dt_us, FRAME_US);
    assert_eq!(inp.collisions.len(), 1);
    assert!(inp.zone_clear);
    assert!(inp.gold_roll < 100 && inp.bonus_roll < 100);
}

#[test]
fn integer_square_root() {
    assert_eq!(isqrt(0), 0);
    assert_eq!(isqrt(1), 1);
    assert_eq!(isqrt(15), 3);
    assert_eq!(isqrt(16), 4);
    assert_eq!(isqrt(2_500_000_000), 50_000);
    assert_eq!(isqrt(u64::MAX), 4_294_967_295);
}

#[test]
fn chase_reaches_target_when_close() {
    let v = chase_velocity(Vec2i { x: 0, y: 0 }, Vec2i { x: 30_000, y: 40_000 }, PADDLE_SPEED, 100_000);
    assert_eq!(v, Vec2i { x: 300_000, y: 400_000 });
}

#[test]
fn chase_is_capped_when_far() {
    let v = chase_velocity(Vec2i { x: 0, y: 0 }, Vec2i { x: -30_000, y: 40_000 }, PADDLE_SPEED, 1_000);
    assert_eq!(v, Vec2i { x: -3_000_000, y: 4_000_000 });
    let z = chase_velocity(Vec2i { x: 5, y: 5 }, Vec2i { x: 5, y: 5 }, PADDLE_SPEED, 1_000);
    assert_eq!(z, Vec2i { x: 0, y: 0 });
    let still = chase_velocity(Vec2i { x: 0, y: 0 }, Vec2i { x: 0, y: 10 }, 500_000, 0);
    assert_eq!(still, Vec2i { x: 0, y: 500_000 });
}

fn paddle_at(x: i64, y: i64, first_player: bool) -> Paddle {
    Paddle {
        id: PADDLE_A_ID,
        first_player,
        side: Side::Left,
        position: Vec2i { x, y },
        velocity: Vec2i { x: 7, y: 7 },
    }
}

#[test]
fn clamp_puts_paddle_back_on_wall() {
    let mut p = paddle_at(-700_000, 500_000, true);
    p.velocity = Vec2i { x: -10, y: 10 };
    clamp_paddle(&mut p);
    assert_eq!(p.position, Vec2i { x: LEFT_WALL, y: 360_000 });
    assert_eq!(p.velocity, Vec2i { x: 0, y: 0 });
    let mut q = paddle_at(-700_000, 0, true);
    q.velocity = Vec2i { x: 10, y: -3 };
    clamp_paddle(&mut q);
    assert_eq!(q.position, Vec2i { x: -700_000, y: 0 });
    assert_eq!(q.velocity, Vec2i { x: 10, y: -3 });
}

#[test]
fn human_paddle_stops_without_button() {
    let mut p = paddle_at(-500_000, 0, true);
    steer_human(&mut p, false, Some(Vec2i { x: 0, y: 0 }), FRAME_US);
    assert_eq!(p.velocity, Vec2i { x: 0, y: 0 });
    let mut q = paddle_at(-500_000, 0, true);
    steer_human(&mut q, true, None, FRAME_US);
    assert_eq!(q.velocity, Vec2i { x: 7, y: 7 });
    let mut r = paddle_at(-500_000, 0, true);
    steer_human(&mut r, true, Some(Vec2i { x: -500_000, y: 1_000 }), 1_000_000);
    assert_eq!(r.velocity, Vec2i { x: 0, y: 1_000 });
}

#[test]
fn ai_paddle_chases_ball_height() {
    let mut p = paddle_at(620_000, 0, false);
    steer_ai(&mut p, None, FRAME_US);
    assert_eq!(p.velocity, Vec2i { x: 7, y: 7 });
    steer_ai(&mut p, Some(-100_000), 1_000);
    assert_eq!(p.velocity, Vec2i { x: 0, y: -500_000 });
}

#[test]
fn switch_sides_inverts_and_restores() {
    let mut w = World::new();
    w.paddle_a.position = Vec2i { x: -600_000, y: 10 };
    w.paddle_b.position = Vec2i { x: 600_000, y: -20 };
    w.switch_sides();
    assert_eq!(w.paddle_a.side, Side::Right);
    assert_eq!(w.paddle_b.side, Side::Left);
    assert!(!w.goal_a.first_player);
    assert!(w.goal_b.first_player);
    assert_eq!(w.paddle_a.position, Vec2i { x: 600_000, y: -20 });
    assert_eq!(w.paddle_b.position, Vec2i { x: -600_000, y: 10 });
    w.switch_sides();
    assert_eq!(w.paddle_a.side, Side::Left);
    assert!(w.goal_a.first_player && !w.goal_b.first_player);
    assert_eq!(w.paddle_a.position, Vec2i { x: -600_000, y: 10 });
}

#[test]
fn queued_point_ball_spawns_and_launches_next_frame() {
    let mut w = world_with_queue(vec![SpawnRequest { kind: BallKind::Point, side: Side::Random }]);
    w.step(&quiet_frame(true, vec![]));
    assert_eq!(w.balls.len(), 1);
    let b = w.balls[0];
    assert_eq!(b.ball.kind, BallKind::Point);
    assert_eq!(b.position, Vec2i { x: 0, y: 0 });
    assert_eq!(b.spawned_at, 0);
    assert!(b.delayed_force.is_some());
    assert!(b.applied_force.is_none());
    assert_eq!(w.queue.len(), 0);
    w.step(&quiet_frame(true, vec![]));
    let b = w.balls[0];
    assert!(b.delayed_force.is_none());
    let f = b.applied_force.unwrap();
    assert_eq!(f.frame, 1);
    assert_eq!(f.launch.toward, Side::Left);
    w.step(&quiet_frame(true, vec![]));
    assert_eq!(w.balls[0].applied_force.unwrap().frame, 1);
}

#[test]
fn point_policy_enqueues_once() {
    let mut w = World::new();
    w.replenish_point_ball(50);
    w.replenish_point_ball(50);
    assert_eq!(w.queue.len(), 1);
    assert_eq!(w.point_balls, PointBallCount(1));
    assert_eq!(w.queue.peek(), Some(SpawnRequest { kind: BallKind::Point, side: Side::Random }));
    let mut g = World::new();
    g.queue.push_back(SpawnRequest { kind: BallKind::Multi, side: Side::Random });
    g.replenish_point_ball(1);
    assert_eq!(g.queue.peek(), Some(SpawnRequest { kind: BallKind::Gold, side: Side::Random }));
}

#[test]
fn gold_ball_scores_three_for_first_player() {
    let mut w = world_with_queue(vec![]);
    let id = spawn_one(&mut w, BallKind::Gold);
    assert_eq!(w.point_balls, PointBallCount(1));
    w.check_goals(&vec![Collision { entity1: id, entity2: GOAL_A_ID }]);
    assert_eq!(w.score, Score { first_player: 3, second_player: 0 });
    assert_eq!(w.balls.len(), 0);
    assert_eq!(w.point_balls, PointBallCount(0));
}

#[test]
fn point_ball_scores_one_for_second_player() {
    let mut w = world_with_queue(vec![]);
    let id = spawn_one(&mut w, BallKind::Point);
    w.check_goals(&vec![Collision { entity1: GOAL_B_ID, entity2: id }]);
    assert_eq!(w.score, Score { first_player: 0, second_player: 1 });
    assert_eq!(w.point_balls, PointBallCount(0));
}

#[test]
fn multi_ball_in_right_goal_queues_two_point_balls() {
    let mut w = world_with_queue(vec![SpawnRequest { kind: BallKind::SwitchSide, side: Side::Random }]);
    let id = spawn_one(&mut w, BallKind::Multi);
    w.check_goals(&vec![Collision { entity1: GOAL_B_ID, entity2: id }]);
    assert_eq!(w.balls.len(), 0);
    assert_eq!(w.queue.len(), 3);
    let right = SpawnRequest { kind: BallKind::Point, side: Side::Right };
    assert_eq!(w.queue.requests[0], right);
    assert_eq!(w.queue.requests[1], right);
    assert_eq!(w.queue.requests[2].kind, BallKind::SwitchSide);
    assert_eq!(w.score, Score::new());
}

#[test]
fn switch_ball_swaps_paddles() {
    let mut w = world_with_queue(vec![]);
    let id = spawn_one(&mut w, BallKind::SwitchSide);
    let (pa, pb) = (w.paddle_a.position, w.paddle_b.position);
    w.check_goals(&vec![Collision { entity1: id, entity2: GOAL_A_ID }]);
    assert_eq!(w.paddle_a.side, Side::Right);
    assert_eq!(w.paddle_a.position, pb);
    assert_eq!(w.paddle_b.position, pa);
    assert!(!w.goal_a.first_player && w.goal_b.first_player);
    assert_eq!(w.balls.len(), 0);
}

#[test]
fn repeated_event_for_despawned_ball_is_ignored() {
    let mut w = world_with_queue(vec![]);
    let id = spawn_one(&mut w, BallKind::Point);
    let e = Collision { entity1: id, entity2: GOAL_A_ID };
    w.check_goals(&vec![e, e, Collision { entity1: GOAL_B_ID, entity2: id }]);
    assert_eq!(w.score, Score { first_player: 1, second_player: 0 });
}

#[test]
fn non_goal_collisions_change_nothing() {
    let mut w = world_with_queue(vec![]);
    let id = spawn_one(&mut w, BallKind::Gold);
    w.check_goals(&vec![Collision { entity1: id, entity2: PADDLE_A_ID }, Collision { entity1: GOAL_A_ID, entity2: GOAL_B_ID }]);
    assert_eq!(w.score, Score::new());
    assert_eq!(w.balls.len(), 1);
}

#[test]
fn occupied_zone_holds_requests_in_order() {
    let first = SpawnRequest { kind: BallKind::Multi, side: Side::Left };
    let second = SpawnRequest { kind: BallKind::SwitchSide, side: Side::Right };
    let mut w = world_with_queue(vec![first, second]);
    for _ in 0..3 {
        w.step(&quiet_frame(false, vec![]));
        assert_eq!(w.balls.len(), 0);
        assert_eq!(w.queue.len(), 2);
    }
    w.step(&quiet_frame(true, vec![]));
    assert_eq!(w.balls.len(), 1);
    assert_eq!(w.balls[0].ball.kind, BallKind::Multi);
    assert_eq!(w.balls[0].delayed_force.unwrap().toward, Side::Left);
    assert_eq!(w.queue.peek(), Some(second));
}

#[test]
fn cooldown_delays_next_spawn() {
    let mut w = world_with_queue(vec![
        SpawnRequest { kind: BallKind::Point, side: Side::Random },
        SpawnRequest { kind: BallKind::Multi, side: Side::Random },
    ]);
    let mut inp = quiet_frame(true, vec![]);
    inp.dt_us = 4_000;
    w.step(&inp);
    assert_eq!(w.balls.len(), 1);
    w.step(&inp);
    w.step(&inp);
    assert_eq!(w.balls.len(), 1);
    w.step(&inp);
    assert_eq!(w.balls.len(), 2);
    assert_eq!(w.balls[1].id, FIRST_BALL_ID + 1);
}

#[test]
fn bonus_ball_every_eight_seconds() {
    let mut w = World::new();
    w.point_balls = PointBallCount(1);
    w.schedule_bonus(7_000_000, 10);
    assert_eq!(w.queue.len(), 0);
    w.schedule_bonus(1_000_000, 10);
    assert_eq!(w.queue.len(), 0);
    w.schedule_bonus(1, 10);
    assert_eq!(w.queue.peek(), Some(SpawnRequest { kind: BallKind::Multi, side: Side::Random }));
    assert_eq!(w.bonus_elapsed_us, 0);
    w.schedule_bonus(9_000_000, 90);
    assert_eq!(w.queue.requests[1].kind, BallKind::SwitchSide);
}

#[test]
fn frame_moves_both_paddles() {
    let mut w = world_with_queue(vec![]);
    let id = spawn_one(&mut w, BallKind::Point);
    assert!(w.set_ball_position(id, Vec2i { x: 100_000, y: 200_000 }));
    assert!(!w.set_ball_position(999, Vec2i { x: 0, y: 0 }));
    let mut inp = quiet_frame(false, vec![]);
    inp.pressed = true;
    inp.pointer = Some(Vec2i { x: -620_000, y: 50_000 });
    inp.dt_us = 1_000_000;
    w.step(&inp);
    assert_eq!(w.paddle_a.velocity, Vec2i { x: 0, y: 50_000 });
    assert_eq!(w.paddle_b.velocity, Vec2i { x: 0, y: 200_000 });
    assert!(w.set_paddle_position(PADDLE_A_ID, Vec2i { x: -600_000, y: 0 }));
    assert_eq!(w.paddle_a.position.x, -600_000);
}

fn speed2(v: Vec2i) -> i128 {
    (v.x as i128) * (v.x as i128) + (v.y as i128) * (v.y as i128)
}

#[test]
fn capped_speed_never_exceeds_top_speed() {
    let mut p = paddle_at(-500_000, 0, true);
    steer_human(&mut p, true, Some(Vec2i { x: -499_996, y: 4 }), 1);
    assert_eq!(p.velocity, Vec2i { x: 3_333_333, y: 3_333_333 });
    assert!(speed2(p.velocity) <= (PADDLE_SPEED as i128) * (PADDLE_SPEED as i128));
    let v = chase_velocity(Vec2i { x: 0, y: 0 }, Vec2i { x: 1, y: 1 }, PADDLE_SPEED, 0);
    assert_eq!(v, Vec2i { x: 2_500_000, y: 2_500_000 });
    assert!(speed2(v) <= (PADDLE_SPEED as i128) * (PADDLE_SPEED as i128));
}

#[test]
fn chase_never_overshoots_target() {
    for (dx, dy, dt) in [(7i64, -3i64, 1_000u64), (1_000, 2_000, 16_667), (-123_456, 7, 50_000), (5, 0, 999_999)] {
        let v = chase_velocity(Vec2i { x: 0, y: 0 }, Vec2i { x: dx, y: dy }, PADDLE_SPEED, dt);
        let d2 = (dx as i128) * (dx as i128) + (dy as i128) * (dy as i128);
        assert!(speed2(v) * (dt as i128) * (dt as i128) <= d2 * 1_000_000_000_000);
        assert!(speed2(v) <= (PADDLE_SPEED as i128) * (PADDLE_SPEED as i128));
    }
}

#[test]
fn sides_stay_paired_through_switches() {
    let mut w = world_with_queue(vec![]);
    for _ in 0..3 {
        let id = spawn_one(&mut w, BallKind::SwitchSide);
        w.check_goals(&vec![Collision { entity1: GOAL_B_ID, entity2: id }]);
        assert_ne!(w.paddle_a.side, w.paddle_b.side);
        assert_eq!(w.goal_a.first_player, w.goal_a.side == w.paddle_a.side);
        assert_eq!(w.goal_b.first_player, w.goal_b.side == w.paddle_a.side);
    }
    assert_eq!(w.paddle_a.side, Side::Right);
}

#[test]
fn scores_sum_over_event_sequence() {
    let mut w = world_with_queue(vec![]);
    let a = spawn_one(&mut w, BallKind::Gold);
    let b = spawn_one(&mut w, BallKind::Point);
    let c = spawn_one(&mut w, BallKind::Point);
    w.check_goals(&vec![
        Collision { entity1: a, entity2: GOAL_A_ID },
        Collision { entity1: GOAL_B_ID, entity2: b },
        Collision { entity1: c, entity2: GOAL_A_ID },
        Collision { entity1: a, entity2: GOAL_B_ID },
    ]);
    assert_eq!(w.score, Score { first_player: 4, second_player: 1 });
}
