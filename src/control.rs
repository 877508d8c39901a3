use vstd::prelude::*;
use crate::entities::{Paddle, Vec2i};

verus! {

/// Every coordinate on the field lies within this bound, in milli-pixels.
pub const COORD_LIMIT: i64 = 1_000_000_000;

/// Top speed of the pointer-steered paddle, in milli-pixels per second.
pub const PADDLE_SPEED: u64 = 5_000_000;

/// Top speed of the autonomous paddle, in milli-pixels per second.
pub const PADDLE_SPEED_AI: u64 = 500_000;

/// Largest top speed a caller may ask for, in milli-pixels per second.
pub const SPEED_LIMIT: u64 = 1_000_000_000;

/// Microseconds in a second.
pub const MICROS: u64 = 1_000_000;

/// Region the first player's paddle may move in, and the walls it is put back
/// on when it leaves that region moving outward (milli-pixels).
pub const P1_LEFT_BOUND: i64 = -625_000;
pub const P1_RIGHT_BOUND: i64 = -335_000;
pub const P1_TOP_BOUND: i64 = 420_000;
pub const P1_BOTTOM_BOUND: i64 = -420_000;
pub const LEFT_WALL: i64 = -640_000;
pub const RIGHT_WALL: i64 = -320_000;
pub const TOP_WALL: i64 = 360_000;
pub const BOTTOM_WALL: i64 = -360_000;

pub open spec fn in_field(p: Vec2i) -> bool {
    -COORD_LIMIT <= p.x <= COORD_LIMIT && -COORD_LIMIT <= p.y <= COORD_LIMIT
}

/// `n`'s integer square root: the largest `r` with `r * r <= n`.
pub open spec fn is_floor_sqrt(r: int, n: int) -> bool {
    0 <= r && r * r <= n && n < (r + 1) * (r + 1)
}

pub open spec fn floor_sqrt(n: int) -> int {
    choose|r: int| is_floor_sqrt(r, n)
}

/// The smallest `r` with `n <= r * r`: dividing by it never lengthens a vector.
pub open spec fn ceil_sqrt(n: int) -> int {
    let s = floor_sqrt(n);
    if s * s == n {
        s
    } else {
        s + 1
    }
}

/// `a * num / den`, rounded toward zero.
pub open spec fn scale_spec(a: int, num: int, den: int) -> int {
    if a >= 0 {
        a * num / den
    } else {
        -((-a) * num / den)
    }
}

pub open spec fn dist2(d: Vec2i) -> int {
    d.x * d.x + d.y * d.y
}

/// Whether the whole offset `d` can be covered within `dt_us` at `max_speed`.
pub open spec fn reachable(d: Vec2i, max_speed: int, dt_us: int) -> bool {
    dt_us > 0 && dist2(d) * (MICROS * MICROS) <= (max_speed * dt_us) * (max_speed * dt_us)
}

/// Velocity that moves from `from` toward `to`: the offset's direction, at the
/// speed that reaches the target in `dt_us`, capped at `max_speed`. Under the
/// cap the offset is divided by its length rounded up, so that the speed
/// stays within the cap.
pub open spec fn chase_spec(from: Vec2i, to: Vec2i, max_speed: int, dt_us: int) -> Vec2i {
    let d = Vec2i { x: (to.x - from.x) as i64, y: (to.y - from.y) as i64 };
    if d.x == 0 && d.y == 0 {
        Vec2i { x: 0, y: 0 }
    } else if reachable(d, max_speed, dt_us) {
        Vec2i {
            x: scale_spec(d.x as int, MICROS as int, dt_us) as i64,
            y: scale_spec(d.y as int, MICROS as int, dt_us) as i64,
        }
    } else {
        let len = ceil_sqrt(dist2(d));
        Vec2i {
            x: scale_spec(d.x as int, max_speed, len) as i64,
            y: scale_spec(d.y as int, max_speed, len) as i64,
        }
    }
}

/// Squared distance from `from` to `to`.
pub open spec fn offset2(from: Vec2i, to: Vec2i) -> int {
    (to.x - from.x) * (to.x - from.x) + (to.y - from.y) * (to.y - from.y)
}

proof fn lemma_scale_bounds(a: int, num: int, den: int)
    requires
        0 <= num,
        0 < den,
    ensures
        scale_spec(a, num, den) * scale_spec(a, num, den) * (den * den) <= (a * a) * (num * num),
        a >= 0 ==> 0 <= scale_spec(a, num, den) <= a * num,
        a < 0 ==> a * num <= scale_spec(a, num, den) <= 0,
{
    let m = if a >= 0 { a } else { -a };
    let x = m * num;
    assert(x >= 0) by (nonlinear_arith)
        requires
            m >= 0,
            num >= 0,
            x == m * num,
    ;
    let q = x / den;
    vstd::arithmetic::div_mod::lemma_fundamental_div_mod(x, den);
    vstd::arithmetic::div_mod::lemma_mod_pos_bound(x, den);
    assert(0 <= q * den <= x) by (nonlinear_arith)
        requires
            x == den * q + x % den,
            0 <= x % den < den,
            den > 0,
            x >= 0,
    ;
    assert(0 <= q <= x) by (nonlinear_arith)
        requires
            0 <= q * den <= x,
            den > 0,
    ;
    assert(q * q * (den * den) <= x * x) by (nonlinear_arith)
        requires
            0 <= q * den <= x,
    ;
    assert(x * x == (a * a) * (num * num)) by (nonlinear_arith)
        requires
            x == m * num,
            m == a || m == -a,
    ;
    let sc = scale_spec(a, num, den);
    assert(sc == q || sc == -q);
    assert(sc * sc * (den * den) == q * q * (den * den)) by (nonlinear_arith)
        requires
            sc == q || sc == -q,
    ;
    if a < 0 {
        assert(a * num == -x) by (nonlinear_arith)
            requires
                x == m * num,
                m == -a,
        ;
    }
}

/// The chasing velocity never exceeds the top speed, and never carries the
/// paddle past its target within the frame.
pub proof fn lemma_chase_bounds(from: Vec2i, to: Vec2i, max_speed: int, dt_us: int)
    requires
        in_field(from),
        in_field(to),
        0 <= max_speed <= SPEED_LIMIT,
        0 <= dt_us,
    ensures
        dist2(chase_spec(from, to, max_speed, dt_us)) <= max_speed * max_speed,
        dist2(chase_spec(from, to, max_speed, dt_us)) * (dt_us * dt_us) <= offset2(from, to) * (MICROS * MICROS),
{
    let d = Vec2i { x: (to.x - from.x) as i64, y: (to.y - from.y) as i64 };
    let v = chase_spec(from, to, max_speed, dt_us);
    let n = dist2(d);
    assert(n == offset2(from, to));
    assert(n >= 0) by (nonlinear_arith)
        requires
            n == d.x * d.x + d.y * d.y,
    ;
    let mm = MICROS as int * MICROS as int;
    if d.x == 0 && d.y == 0 {
        assert(dist2(v) == 0);
        assert(max_speed * max_speed >= 0) by (nonlinear_arith);
        assert(n * mm >= 0) by (nonlinear_arith)
            requires
                n >= 0,
                mm >= 0,
        ;
    } else if reachable(d, max_speed, dt_us) {
        let (sx, sy) = (scale_spec(d.x as int, MICROS as int, dt_us), scale_spec(d.y as int, MICROS as int, dt_us));
        lemma_scale_bounds(d.x as int, MICROS as int, dt_us);
        lemma_scale_bounds(d.y as int, MICROS as int, dt_us);
        assert(v.x == sx && v.y == sy);
        let t = dt_us * dt_us;
        assert(dist2(v) * t <= n * mm) by (nonlinear_arith)
            requires
                sx * sx * t <= (d.x * d.x) * (1_000_000int * 1_000_000int),
                sy * sy * t <= (d.y * d.y) * (1_000_000int * 1_000_000int),
                dist2(v) == sx * sx + sy * sy,
                n == d.x * d.x + d.y * d.y,
                mm == 1_000_000int * 1_000_000int,
        ;
        assert(dist2(v) <= max_speed * max_speed) by (nonlinear_arith)
            requires
                dist2(v) * t <= n * mm,
                n * mm <= (max_speed * dt_us) * (max_speed * dt_us),
                t == dt_us * dt_us,
                dt_us > 0,
        ;
    } else {
        let len = ceil_sqrt(n);
        let s = floor_sqrt(n);
        assert(n >= 1) by (nonlinear_arith)
            requires
                n == d.x * d.x + d.y * d.y,
                d.x != 0 || d.y != 0,
        ;
        lemma_floor_sqrt_exists(n);
        assert(is_floor_sqrt(s, n));
        assert(n <= len * len && len >= 1) by (nonlinear_arith)
            requires
                0 <= s,
                s * s <= n,
                n < (s + 1) * (s + 1),
                n >= 1,
                len == (if s * s == n { s } else { s + 1 }),
        ;
        let (sx, sy) = (scale_spec(d.x as int, max_speed, len), scale_spec(d.y as int, max_speed, len));
        lemma_scale_bounds(d.x as int, max_speed, len);
        lemma_scale_bounds(d.y as int, max_speed, len);
        assert(-2_000_000_000_000_000_000 <= sx <= 2_000_000_000_000_000_000) by (nonlinear_arith)
            requires
                d.x >= 0 ==> 0 <= sx <= d.x * max_speed,
                d.x < 0 ==> d.x * max_speed <= sx <= 0,
                -2_000_000_000 <= d.x <= 2_000_000_000,
                0 <= max_speed <= 1_000_000_000,
        ;
        assert(-2_000_000_000_000_000_000 <= sy <= 2_000_000_000_000_000_000) by (nonlinear_arith)
            requires
                d.y >= 0 ==> 0 <= sy <= d.y * max_speed,
                d.y < 0 ==> d.y * max_speed <= sy <= 0,
                -2_000_000_000 <= d.y <= 2_000_000_000,
                0 <= max_speed <= 1_000_000_000,
        ;
        assert(v.x == sx && v.y == sy);
        let l2 = len * len;
        let s2 = max_speed * max_speed;
        assert(dist2(v) * l2 <= n * s2) by (nonlinear_arith)
            requires
                sx * sx * l2 <= (d.x * d.x) * s2,
                sy * sy * l2 <= (d.y * d.y) * s2,
                dist2(v) == sx * sx + sy * sy,
                n == d.x * d.x + d.y * d.y,
        ;
        assert(dist2(v) <= s2) by (nonlinear_arith)
            requires
                dist2(v) * l2 <= n * s2,
                n <= l2,
                l2 >= 1,
                s2 >= 0,
        ;
        let t = dt_us * dt_us;
        assert(dist2(v) >= 0) by (nonlinear_arith)
            requires
                dist2(v) == sx * sx + sy * sy,
        ;
        assert(dist2(v) * t <= n * mm) by (nonlinear_arith)
            requires
                dist2(v) <= s2,
                dist2(v) >= 0,
                t >= 0,
                t == dt_us * dt_us,
                dt_us >= 0,
                n >= 0,
                mm >= 0,
                s2 == max_speed * max_speed,
                dt_us > 0 ==> n * mm > (max_speed * dt_us) * (max_speed * dt_us),
        ;
    }
}

proof fn lemma_floor_sqrt_exists(n: int)
    requires
        n >= 0,
    ensures
        exists|r: int| is_floor_sqrt(r, n),
    decreases n,
{
    if n == 0 {
        assert(is_floor_sqrt(0, 0));
    } else {
        let m = n - 1;
        lemma_floor_sqrt_exists(m);
        let r = choose|r: int| is_floor_sqrt(r, m);
        if (r + 1) * (r + 1) == n {
            assert(is_floor_sqrt(r + 1, n)) by (nonlinear_arith)
                requires
                    (r + 1) * (r + 1) == n,
                    r >= 0,
            ;
        } else {
            assert(is_floor_sqrt(r, n));
        }
    }
}

proof fn lemma_floor_sqrt_unique(r: int, n: int)
    requires
        is_floor_sqrt(r, n),
    ensures
        floor_sqrt(n) == r,
{
    let s = floor_sqrt(n);
    assert(is_floor_sqrt(s, n));
    if s < r {
        assert((s + 1) * (s + 1) <= r * r) by (nonlinear_arith)
            requires
                0 <= s < r,
        ;
    } else if s > r {
        assert((r + 1) * (r + 1) <= s * s) by (nonlinear_arith)
            requires
                0 <= r < s,
        ;
    }
}

/// The integer square root of `n`.
pub fn isqrt(n: u64) -> (r: u64)
    ensures
        is_floor_sqrt(r as int, n as int),
        r == floor_sqrt(n as int),
{
    let mut lo: u64 = 0;
    let mut hi: u64 = 4_294_967_296;
    assert(hi * hi > u64::MAX) by (nonlinear_arith)
        requires
            hi == 4_294_967_296u64,
    ;
    while hi - lo > 1
        invariant
            lo < hi <= 4_294_967_296,
            lo * lo <= n,
            n < hi * hi,
        decreases hi - lo,
    {
        let mid: u64 = lo + (hi - lo) / 2;
        assert(mid * mid < 18_446_744_073_709_551_616) by (nonlinear_arith)
            requires
                mid < 4_294_967_296,
        ;
        if mid * mid <= n {
            lo = mid;
        } else {
            hi = mid;
        }
    }
    proof {
        assert(hi == lo + 1);
        lemma_floor_sqrt_unique(lo as int, n as int);
    }
    lo
}

/// `a * num / den`, rounded toward zero.
pub fn scale(a: i64, num: u64, den: u64) -> (r: i64)
    requires
        -2 * COORD_LIMIT <= a <= 2 * COORD_LIMIT,
        num <= SPEED_LIMIT,
        den > 0,
    ensures
        r == scale_spec(a as int, num as int, den as int),
{
    let m: u64 = if a >= 0 { a as u64 } else { (0 - a) as u64 };
    assert(m * num <= 2_000_000_000_000_000_000) by (nonlinear_arith)
        requires
            m <= 2_000_000_000,
            num <= 1_000_000_000,
    ;
    let p: u64 = m * num;
    let q: u64 = p / den;
    assert(q <= p) by (nonlinear_arith)
        requires
            q == p / den,
            den > 0,
    ;
    if a >= 0 {
        q as i64
    } else {
        0 - (q as i64)
    }
}

/// The velocity that chases `to` from `from` (see `chase_spec`).
pub fn chase_velocity(from: Vec2i, to: Vec2i, max_speed: u64, dt_us: u64) -> (r: Vec2i)
    requires
        in_field(from),
        in_field(to),
        max_speed <= SPEED_LIMIT,
    ensures
        r == chase_spec(from, to, max_speed as int, dt_us as int),
        dist2(r) <= max_speed * max_speed,
        dist2(r) * (dt_us * dt_us) <= offset2(from, to) * (MICROS * MICROS),
{
    proof {
        lemma_chase_bounds(from, to, max_speed as int, dt_us as int);
    }
    let d = Vec2i { x: to.x - from.x, y: to.y - from.y };
    if d.x == 0 && d.y == 0 {
        return Vec2i { x: 0, y: 0 };
    }
    let ax: u64 = if d.x >= 0 { d.x as u64 } else { (0 - d.x) as u64 };
    let ay: u64 = if d.y >= 0 { d.y as u64 } else { (0 - d.y) as u64 };
    assert(ax * ax + ay * ay <= 8_000_000_000_000_000_000) by (nonlinear_arith)
        requires
            ax <= 2_000_000_000,
            ay <= 2_000_000_000,
    ;
    let n: u64 = ax * ax + ay * ay;
    assert(n == dist2(d)) by (nonlinear_arith)
        requires
            n == ax * ax + ay * ay,
            ax == d.x || ax == -d.x,
            ay == d.y || ay == -d.y,
    ;
    // Reach of the paddle this frame, scaled by a million.
    assert((max_speed as u128) * (dt_us as u128) <= 1_000_000_000u128 * 18_446_744_073_709_551_615u128)
        by (nonlinear_arith)
        requires
            max_speed <= 1_000_000_000u64,
    ;
    let reach: u128 = (max_speed as u128) * (dt_us as u128);
    let lhs: u128 = (n as u128) * 1_000_000_000_000u128;
    let fits: bool = if dt_us == 0 {
        false
    } else if reach > 4_000_000_000_000_000 {
        assert(lhs < reach * reach) by (nonlinear_arith)
            requires
                lhs == n * 1_000_000_000_000,
                n <= 8_000_000_000_000_000_000,
                reach > 4_000_000_000_000_000,
        ;
        true
    } else {
        assert(reach * reach <= 16_000_000_000_000_000_000_000_000_000_000) by (nonlinear_arith)
            requires
                reach <= 4_000_000_000_000_000,
        ;
        lhs <= reach * reach
    };
    assert(fits == reachable(d, max_speed as int, dt_us as int));
    if fits {
        Vec2i { x: scale(d.x, MICROS, dt_us), y: scale(d.y, MICROS, dt_us) }
    } else {
        assert(n >= 1) by (nonlinear_arith)
            requires
                n == ax * ax + ay * ay,
                ax > 0 || ay > 0,
        ;
        let root = isqrt(n);
        assert(root * root <= 18_446_744_073_709_551_615u64);
        assert(root < 4_294_967_296u64) by (nonlinear_arith)
            requires
                root * root <= 18_446_744_073_709_551_615u64,
        ;
        let len: u64 = if root * root == n {
            assert(root > 0) by (nonlinear_arith)
                requires
                    n >= 1,
                    root * root == n,
            ;
            root
        } else {
            root + 1
        };
        assert(len == ceil_sqrt(n as int));
        Vec2i { x: scale(d.x, max_speed, len), y: scale(d.y, max_speed, len) }
    }
}

/// One axis of the boundary pass: a paddle past a bound and still moving
/// outward stops on that axis and is put back on the wall coordinate.
pub open spec fn clamp_axis_spec(p: i64, v: i64, lo_bound: i64, lo_wall: i64, hi_bound: i64, hi_wall: i64) -> (i64, i64) {
    let (pl, vl) = if p < lo_bound && v < 0 { (lo_wall, 0i64) } else { (p, v) };
    if pl > hi_bound && vl > 0 { (hi_wall, 0i64) } else { (pl, vl) }
}

pub fn clamp_axis(p: i64, v: i64, lo_bound: i64, lo_wall: i64, hi_bound: i64, hi_wall: i64) -> (r: (i64, i64))
    ensures
        r == clamp_axis_spec(p, v, lo_bound, lo_wall, hi_bound, hi_wall),
{
    let mut p = p;
    let mut v = v;
    if p < lo_bound && v < 0 {
        v = 0;
        p = lo_wall;
    }
    if p > hi_bound && v > 0 {
        p = hi_wall;
        v = 0;
    }
    (p, v)
}

/// The first player's paddle after the boundary pass.
pub open spec fn clamp_paddle_spec(pd: Paddle) -> Paddle {
    let (x, vx) = clamp_axis_spec(pd.position.x, pd.velocity.x, P1_LEFT_BOUND, LEFT_WALL, P1_RIGHT_BOUND, RIGHT_WALL);
    let (y, vy) = clamp_axis_spec(pd.position.y, pd.velocity.y, P1_BOTTOM_BOUND, BOTTOM_WALL, P1_TOP_BOUND, TOP_WALL);
    Paddle { position: Vec2i { x, y }, velocity: Vec2i { x: vx, y: vy }, ..pd }
}

/// Keeps the first player's paddle inside its region.
pub fn clamp_paddle(pd: &mut Paddle)
    ensures
        *final(pd) == clamp_paddle_spec(*old(pd)),
{
    let (x, vx) = clamp_axis(pd.position.x, pd.velocity.x, P1_LEFT_BOUND, LEFT_WALL, P1_RIGHT_BOUND, RIGHT_WALL);
    let (y, vy) = clamp_axis(pd.position.y, pd.velocity.y, P1_BOTTOM_BOUND, BOTTOM_WALL, P1_TOP_BOUND, TOP_WALL);
    pd.position = Vec2i { x, y };
    pd.velocity = Vec2i { x: vx, y: vy };
}

/// The pointer-steered paddle after one frame: stopped while the button is up,
/// unchanged without a pointer target, else chasing the target and clamped.
pub open spec fn steer_human_spec(pd: Paddle, pressed: bool, target: Option<Vec2i>, dt_us: u64) -> Paddle {
    if !pressed {
        Paddle { velocity: Vec2i { x: 0, y: 0 }, ..pd }
    } else {
        match target {
            None => pd,
            Some(t) => clamp_paddle_spec(
                Paddle { velocity: chase_spec(pd.position, t, PADDLE_SPEED as int, dt_us as int), ..pd },
            ),
        }
    }
}

/// The autonomous paddle after one frame: chasing the height of the first
/// ball, or unchanged when there is none.
pub open spec fn steer_ai_spec(pd: Paddle, ball_y: Option<i64>, dt_us: u64) -> Paddle {
    match ball_y {
        None => pd,
        Some(y) => Paddle {
            velocity: chase_spec(pd.position, Vec2i { x: pd.position.x, y }, PADDLE_SPEED_AI as int, dt_us as int),
            ..pd
        },
    }
}

/// The boundary pass only stops axes, so it never speeds a paddle up.
pub proof fn lemma_clamp_slows(pd: Paddle)
    ensures
        dist2(clamp_paddle_spec(pd).velocity) <= dist2(pd.velocity),
{
    let v = pd.velocity;
    let c = clamp_paddle_spec(pd).velocity;
    assert(c.x == v.x || c.x == 0);
    assert(c.y == v.y || c.y == 0);
    assert(dist2(c) <= dist2(v)) by (nonlinear_arith)
        requires
            c.x == v.x || c.x == 0,
            c.y == v.y || c.y == 0,
    ;
}

/// Speed and reach of the paddle after steering toward `t`: at most
/// `max_speed`, and never past the target within `dt_us`.
pub open spec fn capped_toward(v: Vec2i, from: Vec2i, t: Vec2i, max_speed: int, dt_us: int) -> bool {
    &&& dist2(v) <= max_speed * max_speed
    &&& dist2(v) * (dt_us * dt_us) <= offset2(from, t) * (MICROS * MICROS)
}

pub fn steer_human(pd: &mut Paddle, pressed: bool, target: Option<Vec2i>, dt_us: u64)
    requires
        in_field(old(pd).position),
        target matches Some(t) ==> in_field(t),
    ensures
        *final(pd) == steer_human_spec(*old(pd), pressed, target, dt_us),
        pressed && target is Some ==> capped_toward(
            final(pd).velocity,
            old(pd).position,
            target.unwrap(),
            PADDLE_SPEED as int,
            dt_us as int,
        ),
{
    if !pressed {
        pd.velocity = Vec2i { x: 0, y: 0 };
        return;
    }
    match target {
        None => {},
        Some(t) => {
            pd.velocity = chase_velocity(pd.position, t, PADDLE_SPEED, dt_us);
            let ghost before = *pd;
            clamp_paddle(pd);
            proof {
                lemma_clamp_slows(before);
                let a = dist2(pd.velocity);
                let b = dist2(before.velocity);
                let tt = dt_us as int * dt_us as int;
                assert(tt >= 0) by (nonlinear_arith)
                    requires
                        tt == dt_us as int * dt_us as int,
                ;
                assert(a * tt <= b * tt) by (nonlinear_arith)
                    requires
                        a <= b,
                        tt >= 0,
                ;
            }
        },
    }
}

pub fn steer_ai(pd: &mut Paddle, ball_y: Option<i64>, dt_us: u64)
    requires
        in_field(old(pd).position),
        ball_y matches Some(y) ==> -COORD_LIMIT <= y <= COORD_LIMIT,
    ensures
        *final(pd) == steer_ai_spec(*old(pd), ball_y, dt_us),
        ball_y is Some ==> capped_toward(
            final(pd).velocity,
            old(pd).position,
            Vec2i { x: old(pd).position.x, y: ball_y.unwrap() },
            PADDLE_SPEED_AI as int,
            dt_us as int,
        ),
{
    match ball_y {
        None => {},
        Some(y) => {
            pd.velocity = chase_velocity(pd.position, Vec2i { x: pd.position.x, y }, PADDLE_SPEED_AI, dt_us);
        },
    }
}

} // verus!
