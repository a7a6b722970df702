//! Collision resolution: every pair of bodies that share a room is pushed
//! apart along the line between their centres, each by half the overlap;
//! crates push bodies out by the whole overlap and never move.
use vstd::prelude::*;

use crate::entity::{ItemCrate, Room};
use crate::geom::{abs, length, norm2, sqrt, Form, Vec2};
use crate::motion::{clamp_to_walls, clamped, x_high, x_low, y_high, y_low};

verus! {

/// The part of a body that collisions read: where it is, its shape and room.
#[derive(Clone, Copy, Debug, PartialEq, Eq, Structural)]
pub struct Footprint {
    pub position: Vec2,
    pub form: Form,
    pub room: Room,
}

/// Most bodies, and most crates, that one pass resolves.
pub const MAX_BODIES: usize = 100_000;

/// Largest correction one pair contributes along an axis.
pub const MAX_SHIFT: i64 = 400_001;

impl Footprint {
    pub open spec fn wf(self) -> bool {
        self.position.wf() && self.form.wf()
    }
}

/// `v / l` rounded away from zero, for `l > 0`.
pub open spec fn div_away(v: int, l: int) -> int {
    if v >= 0 {
        (v + l - 1) / l
    } else {
        -((-v + l - 1) / l)
    }
}

/// The correction that a shape at `a` receives from an overlap with a shape
/// at `b`: along `a - b`, of length `depth(overlap)`, rounded away from zero;
/// none where they do not overlap or share a centre.
pub open spec fn push_out(a: Vec2, a_form: Form, b: Vec2, b_form: Form, whole: bool) -> (int, int) {
    let dx = a.x - b.x;
    let dy = a.y - b.y;
    let l = length(dx, dy);
    let size = a_form.extent(dx, dy) + b_form.extent(dx, dy);
    let depth = if whole {
        size - l
    } else {
        (size - l + 1) / 2
    };
    if l == 0 || size <= l {
        (0, 0)
    } else {
        (div_away(dx * depth, l), div_away(dy * depth, l))
    }
}

/// Sum of the corrections body `i` receives from bodies `0..n`.
pub open spec fn body_shift(bodies: Seq<Footprint>, i: int, n: int) -> (int, int)
    decreases n,
{
    if n <= 0 {
        (0, 0)
    } else {
        let rest = body_shift(bodies, i, n - 1);
        let j = n - 1;
        if j == i || bodies[j].room != bodies[i].room {
            rest
        } else {
            let s = push_out(
                bodies[i].position,
                bodies[i].form,
                bodies[j].position,
                bodies[j].form,
                false,
            );
            (rest.0 + s.0, rest.1 + s.1)
        }
    }
}

/// Sum of the corrections body `b` receives from crates `0..n`.
pub open spec fn crate_shift(b: Footprint, crates: Seq<ItemCrate>, n: int) -> (int, int)
    decreases n,
{
    if n <= 0 {
        (0, 0)
    } else {
        let rest = crate_shift(b, crates, n - 1);
        let c = crates[n - 1];
        if c.room != b.room {
            rest
        } else {
            let s = push_out(b.position, b.form, c.position.0, c.form, true);
            (rest.0 + s.0, rest.1 + s.1)
        }
    }
}

/// Where body `i` stands after the pass: moved by all its corrections, then
/// clamped to the walls.
pub open spec fn resolved(bodies: Seq<Footprint>, crates: Seq<ItemCrate>, i: int) -> Vec2 {
    let s = body_shift(bodies, i, bodies.len() as int);
    let c = crate_shift(bodies[i], crates, crates.len() as int);
    clamped(
        Vec2 {
            x: (bodies[i].position.x + s.0 + c.0) as i64,
            y: (bodies[i].position.y + s.1 + c.1) as i64,
        },
        bodies[i].form,
    )
}

pub open spec fn crate_wf(c: ItemCrate) -> bool {
    c.position.0.wf() && c.form.wf()
}

fn div_away_exec(v: i64, l: i64) -> (r: i64)
    requires
        l > 0,
        abs(v as int) <= 0x10_0000_0000_0000,
        l <= 0x1_0000_0000,
    ensures
        r == div_away(v as int, l as int),
{
    if v >= 0 {
        (v + l - 1) / l
    } else {
        -((-v + l - 1) / l)
    }
}

proof fn lemma_div_away_bound(v: int, l: int, m: int)
    requires
        l > 0,
        m >= 0,
        abs(v) <= m * l,
    ensures
        abs(div_away(v, l)) <= m,
{
    if v >= 0 {
        assert((v + l - 1) / l <= m) by (nonlinear_arith)
            requires
                l > 0,
                0 <= v <= m * l,
        ;
        assert((v + l - 1) / l >= 0) by (nonlinear_arith)
            requires
                l > 0,
                v >= 0,
        ;
    } else {
        assert((-v + l - 1) / l <= m) by (nonlinear_arith)
            requires
                l > 0,
                0 <= -v <= m * l,
        ;
        assert((-v + l - 1) / l >= 0) by (nonlinear_arith)
            requires
                l > 0,
                -v >= 0,
        ;
    }
}

proof fn lemma_scaled_bound(x: int, depth: int, l: int)
    requires
        abs(x) <= l,
        0 < depth <= MAX_SHIFT,
        0 <= l <= 0x8000_0000,
    ensures
        abs(x * depth) <= MAX_SHIFT * l,
        abs(x * depth) <= 0x10_0000_0000_0000,
{
    let a = abs(x);
    assert(a * depth <= MAX_SHIFT * l && a * depth >= 0) by (nonlinear_arith)
        requires
            0 <= a <= l,
            0 < depth <= MAX_SHIFT,
    ;
    assert(MAX_SHIFT * l <= 0x10_0000_0000_0000) by (nonlinear_arith)
        requires
            0 <= l <= 0x8000_0000,
    ;
    if x < 0 {
        assert(x * depth == -(a * depth)) by (nonlinear_arith)
            requires
                a == -x,
        ;
    }
}

/// The correction a shape at `a` receives from one at `b`, by `push_out`.
pub fn push_out_exec(a: Vec2, a_form: &Form, b: Vec2, b_form: &Form, whole: bool) -> (r: (
    i64,
    i64,
))
    requires
        a.wf(),
        b.wf(),
        a_form.wf(),
        b_form.wf(),
    ensures
        (r.0 as int, r.1 as int) == push_out(a, *a_form, b, *b_form, whole),
        abs(r.0 as int) <= MAX_SHIFT,
        abs(r.1 as int) <= MAX_SHIFT,
{
    let d = Vec2 { x: a.x - b.x, y: a.y - b.y };
    let l = d.length();
    let size = a_form.direction_len(d) + b_form.direction_len(d);
    if l == 0 || size <= l {
        return (0, 0);
    }
    let depth = if whole {
        size - l
    } else {
        (size - l + 1) / 2
    };
    proof {
        crate::geom::lemma_length_bound(d.x as int, d.y as int);
        assert(0 < depth <= MAX_SHIFT);
        lemma_scaled_bound(d.x as int, depth as int, l as int);
        lemma_scaled_bound(d.y as int, depth as int, l as int);
        lemma_div_away_bound(d.x * depth, l as int, MAX_SHIFT as int);
        lemma_div_away_bound(d.y * depth, l as int, MAX_SHIFT as int);
    }
    (div_away_exec(d.x * depth, l), div_away_exec(d.y * depth, l))
}

/// Resolves the overlaps among `bodies` and between them and `crates`, and
/// returns where each body stands afterwards, in order. Bodies in different
/// rooms never interact; a body never pushes itself.
pub fn collide(bodies: &Vec<Footprint>, crates: &Vec<ItemCrate>) -> (r: Vec<Vec2>)
    requires
        bodies.len() <= MAX_BODIES,
        crates.len() <= MAX_BODIES,
        forall|i: int| 0 <= i < bodies.len() ==> (#[trigger] bodies@[i]).wf(),
        forall|i: int| 0 <= i < crates.len() ==> crate_wf(#[trigger] crates@[i]),
    ensures
        r.len() == bodies.len(),
        forall|i: int| 0 <= i < bodies.len() ==> #[trigger] r@[i] == resolved(bodies@, crates@, i),
        forall|i: int| 0 <= i < bodies.len() ==> (#[trigger] r@[i]).wf(),
{
    let mut out: Vec<Vec2> = Vec::new();
    let n = bodies.len();
    let mut i: usize = 0;
    while i < n
        invariant
            n == bodies.len(),
            n <= MAX_BODIES,
            crates.len() <= MAX_BODIES,
            0 <= i <= n,
            out.len() == i,
            forall|k: int| 0 <= k < bodies.len() ==> (#[trigger] bodies@[k]).wf(),
            forall|k: int| 0 <= k < crates.len() ==> crate_wf(#[trigger] crates@[k]),
            forall|k: int| 0 <= k < i ==> #[trigger] out@[k] == resolved(bodies@, crates@, k),
            forall|k: int| 0 <= k < i ==> (#[trigger] out@[k]).wf(),
        decreases n - i,
    {
        let me = bodies[i];
        let mut sx: i64 = 0;
        let mut sy: i64 = 0;
        let mut j: usize = 0;
        while j < n
            invariant
                n == bodies.len(),
                n <= MAX_BODIES,
                0 <= i < n,
                0 <= j <= n,
                me == bodies@[i as int],
                forall|k: int| 0 <= k < bodies.len() ==> (#[trigger] bodies@[k]).wf(),
                (sx as int, sy as int) == body_shift(bodies@, i as int, j as int),
                abs(sx as int) <= j * MAX_SHIFT,
                abs(sy as int) <= j * MAX_SHIFT,
            decreases n - j,
        {
            let other = bodies[j];
            if j != i && other.room == me.room {
                let s = push_out_exec(me.position, &me.form, other.position, &other.form, false);
                sx = sx + s.0;
                sy = sy + s.1;
            }
            j += 1;
        }
        let mut cx: i64 = 0;
        let mut cy: i64 = 0;
        let mut k: usize = 0;
        while k < crates.len()
            invariant
                crates.len() <= MAX_BODIES,
                0 <= k <= crates.len(),
                me.wf(),
                forall|q: int| 0 <= q < crates.len() ==> crate_wf(#[trigger] crates@[q]),
                (cx as int, cy as int) == crate_shift(me, crates@, k as int),
                abs(cx as int) <= k * MAX_SHIFT,
                abs(cy as int) <= k * MAX_SHIFT,
            decreases crates.len() - k,
        {
            let c = &crates[k];
            if c.room == me.room {
                let s = push_out_exec(me.position, &me.form, c.position.0, &c.form, true);
                cx = cx + s.0;
                cy = cy + s.1;
            }
            k += 1;
        }
        let moved = Vec2 { x: me.position.x + sx + cx, y: me.position.y + sy + cy };
        let p = clamp_to_walls(moved, &me.form);
        out.push(p);
        i += 1;
    }
    out
}

proof fn lemma_div_away_neg(v: int, l: int)
    requires
        l > 0,
    ensures
        div_away(-v, l) == -div_away(v, l),
{
    if v == 0 {
        assert((0 + l - 1) / l == 0) by (nonlinear_arith)
            requires
                l > 0,
        ;
    }
}

proof fn lemma_neg_square(x: int)
    ensures
        (-x) * (-x) == x * x,
{
    assert((-x) * (-x) == x * x) by (nonlinear_arith);
}

/// Seen from the other body, the overlap correction is the same, reversed.
proof fn lemma_push_out_antisymmetric(a: Vec2, af: Form, b: Vec2, bf: Form)
    ensures
        push_out(b, bf, a, af, false).0 == -push_out(a, af, b, bf, false).0,
        push_out(b, bf, a, af, false).1 == -push_out(a, af, b, bf, false).1,
{
    let dx = a.x - b.x;
    let dy = a.y - b.y;
    lemma_neg_square(dx);
    lemma_neg_square(dy);
    assert(norm2(-dx, -dy) == norm2(dx, dy));
    assert(length(-dx, -dy) == length(dx, dy));
    assert(af.extent(-dx, -dy) == af.extent(dx, dy));
    assert(bf.extent(-dx, -dy) == bf.extent(dx, dy));
    let l = length(dx, dy);
    let size = af.extent(dx, dy) + bf.extent(dx, dy);
    let depth = (size - l + 1) / 2;
    if !(l == 0 || size <= l) {
        assert((-dx) * depth == -(dx * depth)) by (nonlinear_arith);
        assert((-dy) * depth == -(dy * depth)) by (nonlinear_arith);
        lemma_div_away_neg(dx * depth, l);
        lemma_div_away_neg(dy * depth, l);
    }
}

/// Each axis of the pushed-apart difference grows at least in proportion.
proof fn lemma_axis_grows(dc: int, depth: int, l: int)
    requires
        l > 0,
        depth >= 0,
    ensures
        abs(dc + 2 * div_away(dc * depth, l)) * l >= abs(dc) * (l + 2 * depth),
{
    let a = abs(dc);
    let x = a * depth;
    assert(x >= 0) by (nonlinear_arith)
        requires
            a >= 0,
            depth >= 0,
            x == a * depth,
    ;
    let q = (x + l - 1) / l;
    assert(q * l >= x && q >= 0) by (nonlinear_arith)
        requires
            l > 0,
            x >= 0,
            q == (x + l - 1) / l,
    ;
    assert((l - 1) / l == 0) by (nonlinear_arith)
        requires
            l > 0,
    ;
    if dc >= 0 {
        assert(dc * depth == x) by (nonlinear_arith)
            requires
                a == dc,
                x == a * depth,
        ;
        assert(div_away(dc * depth, l) == q);
    } else {
        assert(dc * depth == -x) by (nonlinear_arith)
            requires
                a == -dc,
                x == a * depth,
        ;
        assert(div_away(dc * depth, l) == -q);
    }
    assert(abs(dc + 2 * div_away(dc * depth, l)) == a + 2 * q);
    assert((a + 2 * q) * l >= a * (l + 2 * depth)) by (nonlinear_arith)
        requires
            q * l >= a * depth,
            a >= 0,
            l > 0,
    ;
}

/// Collision law. Two bodies that share a room with nothing else, at
/// distinct centres, end the pass at least as far apart as the sum of their
/// extents along the line between them, whenever the walls leave the
/// corrected positions alone.
pub proof fn lemma_pair_separated(a: Footprint, b: Footprint)
    requires
        a.wf(),
        b.wf(),
        a.room == b.room,
        a.position != b.position,
        ({
            let s = push_out(a.position, a.form, b.position, b.form, false);
            &&& x_low(a.form) <= a.position.x + s.0 <= x_high(a.form)
            &&& y_low(a.form) <= a.position.y + s.1 <= y_high(a.form)
            &&& x_low(b.form) <= b.position.x - s.0 <= x_high(b.form)
            &&& y_low(b.form) <= b.position.y - s.1 <= y_high(b.form)
        }),
    ensures
        ({
            let bodies = seq![a, b];
            let ra = resolved(bodies, Seq::empty(), 0);
            let rb = resolved(bodies, Seq::empty(), 1);
            let dx = a.position.x - b.position.x;
            let dy = a.position.y - b.position.y;
            length(ra.x - rb.x, ra.y - rb.y) >= a.form.extent(dx, dy) + b.form.extent(dx, dy)
        }),
{
    let bodies = seq![a, b];
    let s = push_out(a.position, a.form, b.position, b.form, false);
    lemma_push_out_antisymmetric(a.position, a.form, b.position, b.form);
    assert(body_shift(bodies, 0, 2) == s) by {
        reveal_with_fuel(body_shift, 3);
    }
    assert(body_shift(bodies, 1, 2) == (-s.0, -s.1)) by {
        reveal_with_fuel(body_shift, 3);
    }
    let dx = a.position.x - b.position.x;
    let dy = a.position.y - b.position.y;
    let l = length(dx, dy);
    let size = a.form.extent(dx, dy) + b.form.extent(dx, dy);
    let nx = dx + 2 * s.0;
    let ny = dy + 2 * s.1;
    let ra = resolved(bodies, Seq::empty(), 0);
    let rb = resolved(bodies, Seq::empty(), 1);
    assert(ra.x - rb.x == nx && ra.y - rb.y == ny);
    let n2 = norm2(nx, ny);
    assert(n2 >= 0) by (nonlinear_arith)
        requires
            n2 == nx * nx + ny * ny,
    ;
    crate::geom::lemma_sqrt_is_root(n2 as nat);
    let d2 = norm2(dx, dy);
    assert(d2 >= 0) by (nonlinear_arith)
        requires
            d2 == dx * dx + dy * dy,
    ;
    crate::geom::lemma_sqrt_is_root(d2 as nat);
    if dx != 0 {
        assert(dx * dx >= 1 && dy * dy >= 0) by (nonlinear_arith)
            requires
                dx != 0,
        ;
    } else {
        assert(dy != 0);
        assert(dy * dy >= 1 && dx * dx >= 0) by (nonlinear_arith)
            requires
                dy != 0,
        ;
    }
    if l == 0 {
        assert((l + 1) * (l + 1) == 1) by (nonlinear_arith)
            requires
                l == 0,
        ;
    }
    assert(l > 0);
    let m: int = if size <= l { l } else { l + 2 * ((size - l + 1) / 2) };
    assert(m >= size);
    if size > l {
        let depth = (size - l + 1) / 2;
        lemma_axis_grows(dx, depth, l);
        lemma_axis_grows(dy, depth, l);
        let ax = abs(dx);
        let ay = abs(dy);
        let bx = abs(nx);
        let by = abs(ny);
        assert(bx * bx == nx * nx && by * by == ny * ny && ax * ax == dx * dx && ay * ay == dy
            * dy) by (nonlinear_arith)
            requires
                bx == abs(nx),
                by == abs(ny),
                ax == abs(dx),
                ay == abs(dy),
        ;
        assert(s.0 == div_away(dx * depth, l) && s.1 == div_away(dy * depth, l));
        assert(m == l + 2 * depth);
        assert(bx * bx + by * by >= m * m) by (nonlinear_arith)
            requires
                bx * l >= ax * m,
                by * l >= ay * m,
                ax >= 0,
                ay >= 0,
                m >= 0,
                l > 0,
                ax * ax + ay * ay >= l * l,
        ;
    } else {
        assert(s == (0int, 0int));
    }
    let r = sqrt(n2 as nat) as int;
    assert(n2 >= m * m);
    if r < size {
        assert((r + 1) * (r + 1) <= m * m) by (nonlinear_arith)
            requires
                0 <= r,
                r + 1 <= m,
        ;
    }
}

} // verus!
