//! Properties of the rules that hold over every input and every sequence of
//! events.
use vstd::prelude::*;
use crate::entities::{opposite_spec, points_spec, Collision, Side};
use crate::spawn::{timer_tick_spec, LAUNCH_CONE_MILLIRAD};
use crate::world::{
    ball_index, goal_pair, point_policy_spec, resolve_all, resolve_one, sides_ok, spawn_spec,
    step_spec, switch_spec, FrameInput, WorldModel,
};
use crate::control::in_field;

verus! {

/// A goal event raises the scoring player's counter by exactly the ball's
/// points (one for a point ball, three for a gold ball, none for a bonus
/// ball) and leaves the other counter alone; any other event changes no score.
pub proof fn lemma_goal_awards_points(w: WorldModel, c: Collision)
    requires
        w.score.first_player <= u64::MAX - 3,
        w.score.second_player <= u64::MAX - 3,
    ensures
        match goal_pair(w, c) {
            Some((g, e)) => {
                let k = w.balls[ball_index(w, e)].ball.kind;
                &&& resolve_one(w, c).score.first_player == w.score.first_player + (if g.first_player { points_spec(k) } else { 0 })
                &&& resolve_one(w, c).score.second_player == w.score.second_player + (if g.first_player { 0 } else { points_spec(k) })
            },
            None => resolve_one(w, c).score == w.score,
        },
{
}

proof fn lemma_resolve_one_monotone(w: WorldModel, c: Collision)
    ensures
        resolve_one(w, c).score.first_player >= w.score.first_player,
        resolve_one(w, c).score.second_player >= w.score.second_player,
{
}

/// Over any sequence of collision events neither score ever goes down.
pub proof fn lemma_scores_never_decrease(w: WorldModel, cs: Seq<Collision>)
    ensures
        resolve_all(w, cs).score.first_player >= w.score.first_player,
        resolve_all(w, cs).score.second_player >= w.score.second_player,
    decreases cs.len(),
{
    if cs.len() > 0 {
        lemma_scores_never_decrease(w, cs.drop_last());
        lemma_resolve_one_monotone(resolve_all(w, cs.drop_last()), cs.last());
    }
}

/// A side switch inverts both paddles' sides and both goals' owners and
/// swaps the paddles' positions; a second switch restores sides, owners and
/// positions.
pub proof fn lemma_switch_inverts(w: WorldModel)
    ensures
        switch_spec(w).paddle_a.side == opposite_spec(w.paddle_a.side),
        switch_spec(w).paddle_b.side == opposite_spec(w.paddle_b.side),
        w.paddle_a.side != Side::Random ==> switch_spec(w).paddle_a.side != w.paddle_a.side,
        w.paddle_b.side != Side::Random ==> switch_spec(w).paddle_b.side != w.paddle_b.side,
        switch_spec(w).goal_a.first_player == !w.goal_a.first_player,
        switch_spec(w).goal_b.first_player == !w.goal_b.first_player,
        switch_spec(w).paddle_a.position == w.paddle_b.position,
        switch_spec(w).paddle_b.position == w.paddle_a.position,
        switch_spec(w).paddle_a.velocity == w.paddle_a.velocity,
        switch_spec(w).paddle_b.velocity == w.paddle_b.velocity,
        switch_spec(switch_spec(w)).paddle_a == w.paddle_a,
        switch_spec(switch_spec(w)).paddle_b == w.paddle_b,
        switch_spec(switch_spec(w)).goal_a == w.goal_a,
        switch_spec(switch_spec(w)).goal_b == w.goal_b,
        sides_ok(w) ==> sides_ok(switch_spec(w)),
        sides_ok(w) ==> {
            ||| switch_spec(w).paddle_a.side == Side::Left && switch_spec(w).paddle_b.side == Side::Right
            ||| switch_spec(w).paddle_a.side == Side::Right && switch_spec(w).paddle_b.side == Side::Left
        },
{
}

/// Over any sequence of collision events the paddles keep holding the two
/// sides, and each goal keeps belonging to the player whose paddle is there.
pub proof fn lemma_sides_stay_paired(w: WorldModel, cs: Seq<Collision>)
    requires
        sides_ok(w),
    ensures
        sides_ok(resolve_all(w, cs)),
    decreases cs.len(),
{
    if cs.len() > 0 {
        lemma_sides_stay_paired(w, cs.drop_last());
    }
}

/// Points that event `c` brings the first player (`first`) or the second.
pub open spec fn event_points(w: WorldModel, c: Collision, first: bool) -> nat {
    match goal_pair(w, c) {
        Some((g, e)) => if g.first_player == first {
            points_spec(w.balls[ball_index(w, e)].ball.kind) as nat
        } else {
            0
        },
        None => 0,
    }
}

/// Points that the events `cs`, taken in order, bring one player.
pub open spec fn points_won(w: WorldModel, cs: Seq<Collision>, first: bool) -> nat
    decreases cs.len(),
{
    if cs.len() == 0 {
        0
    } else {
        points_won(w, cs.drop_last(), first) + event_points(resolve_all(w, cs.drop_last()), cs.last(), first)
    }
}

/// Over a sequence of events each score grows by exactly the sum of the
/// points of the balls that entered that player's goals (one per point
/// ball, three per gold ball), as long as the counters cannot saturate.
pub proof fn lemma_scores_sum_points(w: WorldModel, cs: Seq<Collision>)
    requires
        w.score.first_player + 3 * cs.len() <= u64::MAX,
        w.score.second_player + 3 * cs.len() <= u64::MAX,
    ensures
        resolve_all(w, cs).score.first_player == w.score.first_player + points_won(w, cs, true),
        resolve_all(w, cs).score.second_player == w.score.second_player + points_won(w, cs, false),
        points_won(w, cs, true) <= 3 * cs.len(),
        points_won(w, cs, false) <= 3 * cs.len(),
    decreases cs.len(),
{
    if cs.len() > 0 {
        let prev = cs.drop_last();
        lemma_scores_sum_points(w, prev);
        let v = resolve_all(w, prev);
        lemma_goal_awards_points(v, cs.last());
    }
}

/// With no scoring ball about, two runs of the point-ball policy queue one
/// request, not two: the first sets the count to one.
pub proof fn lemma_point_policy_once(w: WorldModel, roll1: u8, roll2: u8)
    ensures
        point_policy_spec(point_policy_spec(w, roll1), roll2) == point_policy_spec(w, roll1),
        w.point_balls.0 == 0 ==> point_policy_spec(w, roll1).queue.len() == w.queue.len() + 1,
        w.point_balls.0 != 0 ==> point_policy_spec(w, roll1) == w,
{
}

/// No ball is made while the spawn zone is occupied, and the request then
/// stays queued; a ball that is made comes from the front request, which
/// leaves the queue while the rest keep their order. With the zone clear, a
/// finished cooldown and a request waiting, a ball is made.
pub proof fn lemma_spawn_order(w: WorldModel, dt_us: u64, zone_clear: bool, angle: u16, coin: bool)
    ensures
        !zone_clear ==> spawn_spec(w, dt_us, zone_clear, angle, coin).balls == w.balls
            && spawn_spec(w, dt_us, zone_clear, angle, coin).queue == w.queue,
        spawn_spec(w, dt_us, zone_clear, angle, coin).balls.len() != w.balls.len() ==> {
            let r = spawn_spec(w, dt_us, zone_clear, angle, coin);
            &&& zone_clear
            &&& r.balls.len() == w.balls.len() + 1
            &&& r.balls.drop_last() == w.balls
            &&& r.balls.last().ball.kind == w.queue[0].kind
            &&& r.queue == w.queue.drop_first()
        },
        ({
            let t = timer_tick_spec(w.timer, dt_us);
            zone_clear && t.elapsed_us >= t.duration_us && w.queue.len() > 0
        }) ==> spawn_spec(w, dt_us, zone_clear, angle, coin).balls.len() == w.balls.len() + 1,
{
    let r = spawn_spec(w, dt_us, zone_clear, angle, coin);
    if r.balls.len() != w.balls.len() {
        assert(r.balls.drop_last() =~= w.balls);
    }
}

/// Each ball gets its launch impulse exactly once, in the frame after the one
/// that made it: after a frame, a ball made in it still carries the impulse,
/// unapplied, and every older ball had it applied in the frame after its own.
pub proof fn lemma_launch_after_one_frame(w: WorldModel, input: FrameInput)
    requires
        w.wf(),
        w.frame < u64::MAX,
        w.next_id < u64::MAX,
        input.angle_millirad < LAUNCH_CONE_MILLIRAD,
        input.pointer matches Some(t) ==> in_field(t),
    ensures
        step_spec(w, input).wf(),
        forall|i: int| 0 <= i < step_spec(w, input).balls.len() ==> {
            let b = #[trigger] step_spec(w, input).balls[i];
            &&& b.spawned_at <= w.frame
            &&& b.spawned_at == w.frame ==> b.delayed_force is Some && b.applied_force is None
            &&& b.spawned_at < w.frame ==> b.delayed_force is None && (b.applied_force matches Some(f) && f.frame == b.spawned_at + 1)
        },
{
    crate::world::lemma_step_wf(w, input);
    let r = step_spec(w, input);
    assert forall|i: int| 0 <= i < r.balls.len() implies {
        let b = #[trigger] r.balls[i];
        &&& b.spawned_at <= w.frame
        &&& b.spawned_at == w.frame ==> b.delayed_force is Some && b.applied_force is None
        &&& b.spawned_at < w.frame ==> b.delayed_force is None && (b.applied_force matches Some(f) && f.frame == b.spawned_at + 1)
    } by {
        assert(crate::world::force_ok(r.balls[i], r.frame));
    }
}

/// The world after the spawner has run once per tick of `ticks`, each tick
/// giving the time step, whether the spawn zone was clear, the launch angle
/// and the coin.
pub open spec fn spawn_ticks(w: WorldModel, ticks: Seq<(u64, bool, u16, bool)>) -> WorldModel
    decreases ticks.len(),
{
    if ticks.len() == 0 {
        w
    } else {
        let p = spawn_ticks(w, ticks.drop_last());
        let t = ticks.last();
        spawn_spec(p, t.0, t.1, t.2, t.3)
    }
}

/// Across any run of ticks the spawner serves the queue in order: the balls
/// it makes are appended after the existing ones, their kinds are the
/// queue's first requests in queue order, exactly those requests have left
/// the queue, and no ball is made on a tick whose zone is occupied.
pub proof fn lemma_spawn_fifo(w: WorldModel, ticks: Seq<(u64, bool, u16, bool)>)
    ensures
        ({
            let r = spawn_ticks(w, ticks);
            let k = r.balls.len() - w.balls.len();
            &&& w.balls.len() <= r.balls.len()
            &&& k <= w.queue.len()
            &&& r.balls.take(w.balls.len() as int) == w.balls
            &&& forall|i: int| 0 <= i < k ==> #[trigger] r.balls[w.balls.len() + i].ball.kind == w.queue[i].kind
            &&& r.queue == w.queue.skip(k)
        }),
        ticks.len() > 0 && !ticks.last().1 ==> spawn_ticks(w, ticks).balls == spawn_ticks(w, ticks.drop_last()).balls,
    decreases ticks.len(),
{
    if ticks.len() > 0 {
        let prev = ticks.drop_last();
        lemma_spawn_fifo(w, prev);
        let p = spawn_ticks(w, prev);
        let t = ticks.last();
        let r = spawn_ticks(w, ticks);
        let n = w.balls.len();
        let k = p.balls.len() - n;
        lemma_spawn_order(p, t.0, t.1, t.2, t.3);
        if r.balls.len() != p.balls.len() {
            assert(p.queue.len() > 0);
            assert(p.queue[0] == w.queue[k]);
            assert(r.queue =~= w.queue.skip(k + 1));
            assert(r.balls.take(n as int) =~= w.balls) by {
                assert forall|i: int| 0 <= i < n implies r.balls[i] == w.balls[i] by {
                    assert(r.balls[i] == p.balls[i]);
                    assert(p.balls.take(n as int)[i] == w.balls[i]);
                }
            }
            assert forall|i: int| 0 <= i < k + 1 implies #[trigger] r.balls[n + i].ball.kind == w.queue[i].kind by {
                if i < k {
                    assert(r.balls[n + i] == p.balls[n + i]);
                }
            }
        } else {
            assert(r.balls == p.balls);
        }
    } else {
        assert(w.balls.take(w.balls.len() as int) =~= w.balls);
        assert(w.queue.skip(0) =~= w.queue);
    }
}

} // verus!
