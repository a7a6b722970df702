//! Movement integration: the speed counters, the step of a body's position
//! and the clamp that keeps every body inside its room's walls.
use vstd::prelude::*;

use crate::entity::{Body, MoveAction, Sight, Speed, SPEED_STEPS};
use crate::geom::{
    abs, normalize_or_zero, normalized, Form, Vec2, COORD_MAX, ROOM_HEIGHT, ROOM_WIDTH, WALL_SIZE,
};

verus! {

/// Top speed of a body, in length units per millisecond.
pub const PLAYER_MAX_SPEED: i64 = 650;

/// Longest frame the simulation steps over, in milliseconds.
pub const MAX_DT: i64 = 60_000;

pub open spec fn clamp(v: int, lo: int, hi: int) -> int {
    if v < lo {
        lo
    } else if v > hi {
        hi
    } else {
        v
    }
}

/// The counter after one frame: pushed by twice the input, then slowed by one
/// toward zero, then held to the allowed steps.
pub open spec fn next_speed(counter: int, input: int) -> int {
    let pushed = counter + 2 * input;
    let slowed = if pushed < 0 {
        pushed + 1
    } else if pushed > 0 {
        pushed - 1
    } else {
        0
    };
    clamp(slowed, -(SPEED_STEPS as int), SPEED_STEPS as int)
}

/// Distance covered along an axis in `dt` milliseconds at `counter` steps.
pub open spec fn advance(counter: int, dt: int) -> int {
    counter * dt * (PLAYER_MAX_SPEED as int / SPEED_STEPS as int)
}

/// The lowest and highest coordinates a shape's centre may take in a room.
pub open spec fn x_low(form: Form) -> int {
    WALL_SIZE + form.half_width()
}

pub open spec fn x_high(form: Form) -> int {
    ROOM_WIDTH - WALL_SIZE - form.half_width()
}

pub open spec fn y_low(form: Form) -> int {
    WALL_SIZE + form.half_height()
}

pub open spec fn y_high(form: Form) -> int {
    ROOM_HEIGHT - WALL_SIZE - form.half_height()
}

/// The shape at `p` stays clear of all four walls.
pub open spec fn inside_walls(p: Vec2, form: Form) -> bool {
    &&& x_low(form) <= p.x <= x_high(form)
    &&& y_low(form) <= p.y <= y_high(form)
}

/// `p` moved to the nearest point where the shape clears the walls.
pub open spec fn clamped(p: Vec2, form: Form) -> Vec2 {
    Vec2 {
        x: clamp(p.x as int, x_low(form), x_high(form)) as i64,
        y: clamp(p.y as int, y_low(form), y_high(form)) as i64,
    }
}

/// The speed counter of one axis after a frame with this input.
pub fn update_speed(counter: i32, input: i32) -> (r: i32)
    requires
        -SPEED_STEPS <= counter <= SPEED_STEPS,
        -1 <= input <= 1,
    ensures
        r == next_speed(counter as int, input as int),
        -SPEED_STEPS <= r <= SPEED_STEPS,
{
    let mut c = counter + 2 * input;
    if c < 0 {
        c += 1;
    } else if c > 0 {
        c -= 1;
    }
    if c < -SPEED_STEPS {
        c = -SPEED_STEPS;
    } else if c > SPEED_STEPS {
        c = SPEED_STEPS;
    }
    c
}

pub fn clamp_i64(v: i64, lo: i64, hi: i64) -> (r: i64)
    requires
        lo <= hi,
    ensures
        r == clamp(v as int, lo as int, hi as int),
        lo <= r <= hi,
{
    if v < lo {
        lo
    } else if v > hi {
        hi
    } else {
        v
    }
}

/// Moves `position` to the nearest point where `form` clears the walls.
pub fn clamp_to_walls(position: Vec2, form: &Form) -> (r: Vec2)
    requires
        form.wf(),
    ensures
        r == clamped(position, *form),
        inside_walls(r, *form),
        r.wf(),
{
    let xr = form.x_r();
    let yr = form.y_r();
    Vec2 {
        x: clamp_i64(position.x, WALL_SIZE + xr, ROOM_WIDTH - WALL_SIZE - xr),
        y: clamp_i64(position.y, WALL_SIZE + yr, ROOM_HEIGHT - WALL_SIZE - yr),
    }
}

pub open spec fn action_wf(action: MoveAction) -> bool {
    &&& -1 <= action.move_direction.0 <= 1
    &&& -1 <= action.move_direction.1 <= 1
    &&& abs(action.sight.x as int) <= 2 * COORD_MAX
    &&& abs(action.sight.y as int) <= 2 * COORD_MAX
}

/// `after` is `before` after one frame of motion by `action` over `dt`.
pub open spec fn moved(before: Body, after: Body, action: MoveAction, dt: int) -> bool {
    &&& (after.sight.0.x as int, after.sight.0.y as int) == normalized(
        action.sight.x as int,
        action.sight.y as int,
    )
    &&& after.speed.x == next_speed(before.speed.x as int, action.move_direction.0 as int)
    &&& after.speed.y == next_speed(before.speed.y as int, action.move_direction.1 as int)
    &&& after.position.0 == clamped(
        Vec2 {
            x: (before.position.0.x + advance(after.speed.x as int, dt)) as i64,
            y: (before.position.0.y + advance(after.speed.y as int, dt)) as i64,
        },
        before.form,
    )
    &&& after.form == before.form
    &&& after.room == before.room
    &&& after.phrase == before.phrase
}

/// Integrates one frame of a body's motion: the sight is replaced by the
/// requested direction, normalised; each speed counter takes the input; the
/// position advances by the counters over `dt` and is clamped to the walls.
pub fn move_body(body: &mut Body, action: &MoveAction, dt: i64)
    requires
        old(body).wf(),
        action_wf(*action),
        0 <= dt <= MAX_DT,
    ensures
        final(body).wf(),
        (final(body).sight.0.x as int, final(body).sight.0.y as int) == normalized(
            action.sight.x as int,
            action.sight.y as int,
        ),
        final(body).speed.x == next_speed(old(body).speed.x as int, action.move_direction.0 as int),
        final(body).speed.y == next_speed(old(body).speed.y as int, action.move_direction.1 as int),
        final(body).position.0 == clamped(
            Vec2 {
                x: (old(body).position.0.x + advance(final(body).speed.x as int, dt as int)) as i64,
                y: (old(body).position.0.y + advance(final(body).speed.y as int, dt as int)) as i64,
            },
            old(body).form,
        ),
        inside_walls(final(body).position.0, final(body).form),
        final(body).form == old(body).form,
        final(body).room == old(body).room,
        final(body).phrase == old(body).phrase,
        moved(*old(body), *final(body), *action, dt as int),
{
    body.sight = Sight(normalize_or_zero(action.sight));
    let sx = update_speed(body.speed.x, action.move_direction.0);
    let sy = update_speed(body.speed.y, action.move_direction.1);
    body.speed = Speed { x: sx, y: sy };
    let step = PLAYER_MAX_SPEED / (SPEED_STEPS as i64);
    proof {
        assert(abs(sx * dt * step) <= 10 * MAX_DT * 65) by (nonlinear_arith)
            requires
                -10 <= sx <= 10,
                0 <= dt <= MAX_DT,
                step == 65,
        ;
        assert(abs(sy * dt * step) <= 10 * MAX_DT * 65) by (nonlinear_arith)
            requires
                -10 <= sy <= 10,
                0 <= dt <= MAX_DT,
                step == 65,
        ;
    }
    let moved = Vec2 {
        x: body.position.0.x + (sx as i64) * dt * step,
        y: body.position.0.y + (sy as i64) * dt * step,
    };
    body.position.0 = clamp_to_walls(moved, &body.form);
}

} // verus!
