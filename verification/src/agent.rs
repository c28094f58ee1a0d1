//! Agents and the navigation stepper: each tick an agent with a destination
//! turns to face it, advances along that facing, and drops the destination
//! once it lies inside the arrival tolerance box around the new position.

use vstd::prelude::*;
use crate::geom::{
    box_contains, box_contains_point, div_trunc, isqrt_u64, lemma_div_trunc_le,
    lemma_div_trunc_magnitude, lemma_sqrt_floor_bounds, sqrt_floor, Vec2i, STEP_LIMIT,
    TICK_MILLIS_LIMIT, WORLD_LIMIT,
};

verus! {

/// Half-extent of the arrival tolerance box around an agent's position; a
/// destination anywhere in that box counts as reached.
pub const ARRIVE_HALF_EXTENT: i64 = 10;

/// How many world units an agent covers per second of tick time.
pub const AGENT_SPEED: i64 = 1_000;

/// The distance one tick covers: the agent speed over the tick duration,
/// never negative and capped by the per-tick step limit.
pub fn step_length_for_millis(dt_millis: i64) -> (r: i64)
    requires
        0 <= dt_millis <= TICK_MILLIS_LIMIT,
    ensures
        r == crate::geom::clamp_spec(AGENT_SPEED * dt_millis / 1000, 0, STEP_LIMIT as int),
        0 <= r <= STEP_LIMIT,
{
    let raw: i64 = AGENT_SPEED * dt_millis;
    let units: i64 = (raw as u64 / 1000) as i64;
    crate::geom::clamp_i64(units, 0, STEP_LIMIT)
}

/// A navigating sprite: a display name and, while it is under way, the point
/// it was ordered to.  An absent destination means the agent is idle.
#[derive(Debug)]
pub struct Agent {
    pub name: String,
    pub destination: Option<Vec2i>,
}

/// A transient visual entity standing at one active destination point;
/// exactly one exists per distinct destination currently navigated to.
#[derive(Clone, Copy, Debug, PartialEq, Eq, Structural)]
pub struct DestinationMarker {
    pub position: Vec2i,
}

/// The spatial record kept per handle, apart from the entities themselves:
/// a position and a facing.  The facing is stored as the un-normalized
/// heading vector; a rendering shell that wants an angle takes the
/// arc-tangent of `heading.y` over `heading.x`.
#[derive(Clone, Copy, Debug, PartialEq, Eq, Structural)]
pub struct Transform {
    pub translation: Vec2i,
    pub heading: Vec2i,
}

/// Squared distance between two points.
pub open spec fn dist_sq(p: Vec2i, d: Vec2i) -> int {
    (d.x - p.x) * (d.x - p.x) + (d.y - p.y) * (d.y - p.y)
}

/// The displacement one tick adds to a position `p` headed for `d`: `step`
/// world units along the heading `d - p`, rounded toward zero per axis.  A
/// zero heading moves nowhere, whatever the step.
pub open spec fn step_displacement(p: Vec2i, d: Vec2i, step: int) -> (int, int) {
    let dx = d.x - p.x;
    let dy = d.y - p.y;
    let len = sqrt_floor(dx * dx + dy * dy);
    if len == 0 {
        (0, 0)
    } else {
        (div_trunc(step * dx, len), div_trunc(step * dy, len))
    }
}

/// After stepping from `p` toward `d`, the destination lies inside the
/// arrival tolerance box around the new position.
pub open spec fn arrives(p: Vec2i, d: Vec2i, step: int) -> bool {
    let nx = p.x + step_displacement(p, d, step).0;
    let ny = p.y + step_displacement(p, d, step).1;
    &&& nx - ARRIVE_HALF_EXTENT <= d.x <= nx + ARRIVE_HALF_EXTENT
    &&& ny - ARRIVE_HALF_EXTENT <= d.y <= ny + ARRIVE_HALF_EXTENT
}

/// One tick's displacement never exceeds the step length on either axis, it
/// points toward the destination, and it keeps the position inside the world
/// box that positions live in.
pub proof fn lemma_step_displacement_bounds(p: Vec2i, d: Vec2i, step: int)
    requires
        p.in_bounds(WORLD_LIMIT + STEP_LIMIT),
        d.in_bounds(WORLD_LIMIT as int),
        0 <= step <= STEP_LIMIT,
    ensures
        -step <= step_displacement(p, d, step).0 <= step,
        -step <= step_displacement(p, d, step).1 <= step,
        d.x - p.x >= 0 ==> step_displacement(p, d, step).0 >= 0,
        d.x - p.x <= 0 ==> step_displacement(p, d, step).0 <= 0,
        d.y - p.y >= 0 ==> step_displacement(p, d, step).1 >= 0,
        d.y - p.y <= 0 ==> step_displacement(p, d, step).1 <= 0,
        -(WORLD_LIMIT + STEP_LIMIT) <= p.x + step_displacement(p, d, step).0 <= WORLD_LIMIT
            + STEP_LIMIT,
        -(WORLD_LIMIT + STEP_LIMIT) <= p.y + step_displacement(p, d, step).1 <= WORLD_LIMIT
            + STEP_LIMIT,
{
    let dx = d.x - p.x;
    let dy = d.y - p.y;
    let s = dx * dx + dy * dy;
    assert(0 <= dx * dx && 0 <= dy * dy) by (nonlinear_arith);
    lemma_sqrt_floor_bounds(s);
    let len = sqrt_floor(s);
    if len != 0 {
        assert(-len <= dx <= len) by (nonlinear_arith)
            requires dx * dx <= s, s < (len + 1) * (len + 1), 0 <= len;
        assert(-len <= dy <= len) by (nonlinear_arith)
            requires dy * dy <= s, s < (len + 1) * (len + 1), 0 <= len;
        assert(-(step * len) <= step * dx <= step * len) by (nonlinear_arith)
            requires 0 <= step, -len <= dx <= len;
        assert(-(step * len) <= step * dy <= step * len) by (nonlinear_arith)
            requires 0 <= step, -len <= dy <= len;
        lemma_div_trunc_le(step * dx, len, step);
        lemma_div_trunc_le(step * dy, len, step);
        assert(dx >= 0 ==> step * dx >= 0) by (nonlinear_arith)
            requires 0 <= step;
        assert(dx <= 0 ==> step * dx <= 0) by (nonlinear_arith)
            requires 0 <= step;
        assert(dy >= 0 ==> step * dy >= 0) by (nonlinear_arith)
            requires 0 <= step;
        assert(dy <= 0 ==> step * dy <= 0) by (nonlinear_arith)
            requires 0 <= step;
        lemma_div_trunc_magnitude(step * dx, len);
        lemma_div_trunc_magnitude(step * dy, len);
    }
}

/// An agent already inside the arrival tolerance box of its destination, and
/// stepping no further than its remaining distance, ends the step still
/// inside the box: the tick will clear the destination.
pub proof fn lemma_tolerance_step_arrives(p: Vec2i, d: Vec2i, step: int)
    requires
        p.in_bounds(WORLD_LIMIT + STEP_LIMIT),
        d.in_bounds(WORLD_LIMIT as int),
        0 <= step <= STEP_LIMIT,
        d.x - ARRIVE_HALF_EXTENT <= p.x <= d.x + ARRIVE_HALF_EXTENT,
        d.y - ARRIVE_HALF_EXTENT <= p.y <= d.y + ARRIVE_HALF_EXTENT,
        dist_sq(p, d) == 0 || step <= sqrt_floor(dist_sq(p, d)),
    ensures
        arrives(p, d, step),
{
    let dx = d.x - p.x;
    let dy = d.y - p.y;
    let s = dx * dx + dy * dy;
    assert(0 <= dx * dx && 0 <= dy * dy) by (nonlinear_arith);
    lemma_sqrt_floor_bounds(s);
    let len = sqrt_floor(s);
    if s == 0 {
        assert(dx == 0 && dy == 0) by (nonlinear_arith)
            requires dx * dx + dy * dy == 0;
        assert(len == 0);
    } else {
        if len != 0 {
            let mx: int = if dx >= 0 { dx } else { -dx };
            let my: int = if dy >= 0 { dy } else { -dy };
            assert(-(mx * len) <= step * dx <= mx * len) by (nonlinear_arith)
                requires 0 <= step <= len, -mx <= dx <= mx, 0 <= mx;
            assert(-(my * len) <= step * dy <= my * len) by (nonlinear_arith)
                requires 0 <= step <= len, -my <= dy <= my, 0 <= my;
            lemma_div_trunc_le(step * dx, len, mx);
            lemma_div_trunc_le(step * dy, len, my);
            assert(dx >= 0 ==> step * dx >= 0) by (nonlinear_arith)
                requires 0 <= step;
            assert(dx <= 0 ==> step * dx <= 0) by (nonlinear_arith)
                requires 0 <= step;
            assert(dy >= 0 ==> step * dy >= 0) by (nonlinear_arith)
                requires 0 <= step;
            assert(dy <= 0 ==> step * dy <= 0) by (nonlinear_arith)
                requires 0 <= step;
            lemma_div_trunc_magnitude(step * dx, len);
            lemma_div_trunc_magnitude(step * dy, len);
        }
    }
}

/// Advance a navigating transform one tick toward `dest`: face the heading
/// `dest - translation`, then move `step` units along it, rounded toward
/// zero per axis.
pub fn step_transform(t: &mut Transform, dest: Vec2i, step: i64)
    requires
        old(t).translation.in_bounds(WORLD_LIMIT + STEP_LIMIT),
        dest.in_bounds(WORLD_LIMIT as int),
        0 <= step <= STEP_LIMIT,
    ensures
        final(t).heading.x == dest.x - old(t).translation.x,
        final(t).heading.y == dest.y - old(t).translation.y,
        final(t).translation.x == old(t).translation.x + step_displacement(
            old(t).translation,
            dest,
            step as int,
        ).0,
        final(t).translation.y == old(t).translation.y + step_displacement(
            old(t).translation,
            dest,
            step as int,
        ).1,
        final(t).translation.in_bounds(WORLD_LIMIT + STEP_LIMIT),
{
    proof {
        lemma_step_displacement_bounds(old(t).translation, dest, step as int);
    }
    let p = t.translation;
    let dx: i64 = dest.x - p.x;
    let dy: i64 = dest.y - p.y;
    t.heading = Vec2i { x: dx, y: dy };
    proof {
        assert(dx * dx + dy * dy <= 8_820_000_000_000_000_000i64) by (nonlinear_arith)
            requires -2_100_000_000 <= dx <= 2_100_000_000, -2_100_000_000 <= dy <= 2_100_000_000;
        assert(0 <= dx * dx && 0 <= dy * dy) by (nonlinear_arith);
    }
    let dxs: i64 = dx * dx;
    let dys: i64 = dy * dy;
    let s: i64 = dxs + dys;
    let len_u: u64 = isqrt_u64(s as u64);
    if len_u > 0 {
        proof {
            assert(len_u <= 3_000_000_000u64) by (nonlinear_arith)
                requires
                    len_u * len_u <= 8_820_000_000_000_000_000u64;
        }
        let len: i64 = len_u as i64;
        proof {
            assert(-4_000_000_000_000_000_000 <= step * dx <= 4_000_000_000_000_000_000)
                by (nonlinear_arith)
                requires 0 <= step <= 1_000_000, -2_100_000_000 <= dx <= 2_100_000_000;
            assert(-4_000_000_000_000_000_000 <= step * dy <= 4_000_000_000_000_000_000)
                by (nonlinear_arith)
                requires 0 <= step <= 1_000_000, -2_100_000_000 <= dy <= 2_100_000_000;
        }
        let ox: i64 = crate::geom::mul3_div_trunc(step, dx, 1, len);
        let oy: i64 = crate::geom::mul3_div_trunc(step, dy, 1, len);
        t.translation = Vec2i { x: p.x + ox, y: p.y + oy };
    }
}

/// One navigation tick for one agent: if it has a destination, face it, step
/// toward it, and clear the destination once it sits inside the arrival
/// tolerance box around the new position.  An idle agent is untouched.
pub fn step_agent(agent: &mut Agent, t: &mut Transform, step: i64)
    requires
        old(t).translation.in_bounds(WORLD_LIMIT + STEP_LIMIT),
        old(agent).destination is Some ==> old(agent).destination.unwrap().in_bounds(
            WORLD_LIMIT as int,
        ),
        0 <= step <= STEP_LIMIT,
    ensures
        old(agent).destination is None ==> *final(agent) == *old(agent) && *final(t) == *old(t),
        old(agent).destination is Some ==> {
            let d = old(agent).destination.unwrap();
            let p = old(t).translation;
            &&& final(t).heading.x == d.x - p.x
            &&& final(t).heading.y == d.y - p.y
            &&& final(t).translation.x == p.x + step_displacement(p, d, step as int).0
            &&& final(t).translation.y == p.y + step_displacement(p, d, step as int).1
            &&& final(agent).name == old(agent).name
            &&& final(agent).destination == (if arrives(p, d, step as int) {
                None::<Vec2i>
            } else {
                Some(d)
            })
        },
        final(t).translation.in_bounds(WORLD_LIMIT + STEP_LIMIT),
{
    match agent.destination {
        None => {},
        Some(dest) => {
            step_transform(t, dest, step);
            let reached = box_contains_point(
                t.translation,
                ARRIVE_HALF_EXTENT,
                ARRIVE_HALF_EXTENT,
                dest,
            );
            if reached {
                agent.destination = None;
            }
        },
    }
}

} // verus!
