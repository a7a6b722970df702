//! Fixed-point plane geometry: vectors, integer square roots and shapes.
use vstd::prelude::*;

verus! {

/// Height of a room, in length units.
pub const ROOM_HEIGHT: i64 = 1_000_000;

/// Width of a room (16:9 of its height), in length units.
pub const ROOM_WIDTH: i64 = 1_777_777;

/// Thickness of the walls around a room.
pub const WALL_SIZE: i64 = 20_000;

/// Radius that the player's and the enemies' shapes are scaled from.
pub const PLAYER_RADIUS: i64 = 25_000;

/// Radius of a thrown projectile.
pub const BALL_RADIUS: i64 = 10_000;

/// Extra reach of a sword slash beyond touching.
pub const SLASH_LEN: i64 = 20_000;

/// Largest magnitude a coordinate may have, so that squares stay in range.
pub const COORD_MAX: i64 = 0x2000_0000;

/// Largest half-size of a shape.
pub const FORM_MAX: i64 = 100_000;

/// Length of a unit direction vector.
pub const UNIT: i64 = 1000;

/// A point or a vector of the plane.
#[derive(Clone, Copy, Debug, PartialEq, Eq, Structural)]
pub struct Vec2 {
    pub x: i64,
    pub y: i64,
}

pub open spec fn in_coord(v: int) -> bool {
    -COORD_MAX <= v <= COORD_MAX
}

pub open spec fn abs(v: int) -> int {
    if v < 0 { -v } else { v }
}

/// `r` is the integer square root of `n`.
pub open spec fn is_root(n: int, r: int) -> bool {
    0 <= r && r * r <= n < (r + 1) * (r + 1)
}

/// The integer square root, counted up from zero.
pub open spec fn sqrt(n: nat) -> nat
    decreases n,
{
    if n == 0 {
        0
    } else {
        let r = sqrt((n - 1) as nat);
        if (r + 1) * (r + 1) <= n { r + 1 } else { r }
    }
}

pub proof fn lemma_sqrt_is_root(n: nat)
    ensures
        is_root(n as int, sqrt(n) as int),
    decreases n,
{
    if n > 0 {
        lemma_sqrt_is_root((n - 1) as nat);
        let r = sqrt((n - 1) as nat) as int;
        if (r + 1) * (r + 1) <= n {
            assert((r + 2) * (r + 2) == (r + 1) * (r + 1) + 2 * r + 3) by (nonlinear_arith);
        }
    }
}

pub proof fn lemma_root_unique(n: int, a: int, b: int)
    requires
        is_root(n, a),
        is_root(n, b),
    ensures
        a == b,
{
    if a < b {
        assert((a + 1) * (a + 1) <= b * b) by (nonlinear_arith)
            requires
                0 <= a,
                a + 1 <= b,
        ;
    } else if b < a {
        assert((b + 1) * (b + 1) <= a * a) by (nonlinear_arith)
            requires
                0 <= b,
                b + 1 <= a,
        ;
    }
}

pub proof fn lemma_square_monotone(a: int, b: int)
    requires
        0 <= a <= b,
    ensures
        a * a <= b * b,
{
    assert(a * a <= b * b) by (nonlinear_arith)
        requires
            0 <= a <= b,
    ;
}

/// Integer square root, by bisection.
pub fn isqrt(n: u64) -> (r: u64)
    requires
        n <= 0x4000_0000_0000_0000,
    ensures
        r as nat == sqrt(n as nat),
        is_root(n as int, r as int),
{
    let mut lo: u64 = 0;
    let mut hi: u64 = 0x8000_0001;
    assert(hi * hi > n) by (nonlinear_arith)
        requires
            hi == 0x8000_0001,
            n <= 0x4000_0000_0000_0000,
    ;
    while lo + 1 < hi
        invariant
            lo < hi <= 0x8000_0001,
            lo * lo <= n,
            n < hi * hi,
        decreases hi - lo,
    {
        let mid: u64 = lo + (hi - lo) / 2;
        assert(mid * mid <= 0x8000_0001 * 0x8000_0001) by (nonlinear_arith)
            requires
                mid < 0x8000_0001,
        ;
        if mid * mid <= n {
            lo = mid;
        } else {
            hi = mid;
        }
    }
    proof {
        lemma_sqrt_is_root(n as nat);
        lemma_root_unique(n as int, lo as int, sqrt(n as nat) as int);
    }
    lo
}

/// Squared length of a vector.
pub open spec fn norm2(x: int, y: int) -> int {
    x * x + y * y
}

/// Length of a vector, rounded down.
pub open spec fn length(x: int, y: int) -> int {
    sqrt(norm2(x, y) as nat) as int
}

/// Integer division rounded toward zero, for a positive divisor.
pub open spec fn div_trunc(a: int, b: int) -> int {
    if a >= 0 { a / b } else { -((-a) / b) }
}

pub proof fn lemma_norm2_bound(x: int, y: int)
    requires
        abs(x) <= 2 * COORD_MAX,
        abs(y) <= 2 * COORD_MAX,
    ensures
        0 <= x * x <= 0x1000_0000_0000_0000,
        0 <= y * y <= 0x1000_0000_0000_0000,
        0 <= norm2(x, y) <= 0x2000_0000_0000_0000,
{
    assert(x * x <= 0x1000_0000_0000_0000 && x * x >= 0) by (nonlinear_arith)
        requires
            abs(x) <= 0x4000_0000,
    ;
    assert(y * y <= 0x1000_0000_0000_0000 && y * y >= 0) by (nonlinear_arith)
        requires
            abs(y) <= 0x4000_0000,
    ;
}

pub proof fn lemma_length_bound(x: int, y: int)
    requires
        abs(x) <= 2 * COORD_MAX,
        abs(y) <= 2 * COORD_MAX,
    ensures
        abs(x) <= length(x, y) <= 0x8000_0000,
        abs(y) <= length(x, y),
{
    lemma_norm2_bound(x, y);
    let n = norm2(x, y);
    lemma_sqrt_is_root(n as nat);
    let r = length(x, y);
    if r > 0x8000_0000 {
        lemma_square_monotone(0x8000_0000, r);
    }
    if abs(x) > r {
        lemma_square_monotone(r + 1, abs(x));
        assert(abs(x) * abs(x) == x * x) by (nonlinear_arith);
        assert(y * y >= 0) by (nonlinear_arith);
    }
    if abs(y) > r {
        lemma_square_monotone(r + 1, abs(y));
        assert(abs(y) * abs(y) == y * y) by (nonlinear_arith);
        assert(x * x >= 0) by (nonlinear_arith);
    }
}

impl Vec2 {
    pub open spec fn wf(self) -> bool {
        in_coord(self.x as int) && in_coord(self.y as int)
    }

    pub fn new(x: i64, y: i64) -> (r: Vec2)
        ensures
            r.x == x && r.y == y,
    {
        Vec2 { x, y }
    }

    /// Length of the vector, rounded down.
    pub fn length(&self) -> (r: i64)
        requires
            abs(self.x as int) <= 2 * COORD_MAX,
            abs(self.y as int) <= 2 * COORD_MAX,
        ensures
            r == length(self.x as int, self.y as int),
            0 <= r <= 0x8000_0000,
    {
        proof {
            lemma_norm2_bound(self.x as int, self.y as int);
            lemma_length_bound(self.x as int, self.y as int);
        }
        let n = (self.x * self.x + self.y * self.y) as u64;
        isqrt(n) as i64
    }

    /// Distance between two points, rounded down.
    pub fn distance(&self, other: &Vec2) -> (r: i64)
        requires
            self.wf(),
            other.wf(),
        ensures
            r == length(self.x - other.x, self.y - other.y),
            0 <= r <= 0x8000_0000,
    {
        let d = Vec2 { x: self.x - other.x, y: self.y - other.y };
        d.length()
    }
}

/// The vector scaled to length `UNIT` (rounded toward zero), or zero.
pub open spec fn normalized(x: int, y: int) -> (int, int) {
    let l = length(x, y);
    if l == 0 {
        (0, 0)
    } else {
        (div_trunc(x * UNIT, l), div_trunc(y * UNIT, l))
    }
}

pub proof fn lemma_div_trunc_bound(a: int, b: int, m: int)
    requires
        b > 0,
        abs(a) <= m * b,
        m >= 0,
    ensures
        abs(div_trunc(a, b)) <= m,
{
    if a >= 0 {
        assert(a / b <= m) by (nonlinear_arith)
            requires
                b > 0,
                a <= m * b,
                a >= 0,
        ;
        assert(a / b >= 0) by (nonlinear_arith)
            requires
                b > 0,
                a >= 0,
        ;
    } else {
        assert((-a) / b <= m) by (nonlinear_arith)
            requires
                b > 0,
                -a <= m * b,
                -a >= 0,
        ;
        assert((-a) / b >= 0) by (nonlinear_arith)
            requires
                b > 0,
                -a >= 0,
        ;
    }
}

/// Integer division rounded toward zero.
pub fn div_toward_zero(a: i64, b: i64) -> (r: i64)
    requires
        b > 0,
        a > i64::MIN,
    ensures
        r == div_trunc(a as int, b as int),
{
    if a >= 0 {
        a / b
    } else {
        -((-a) / b)
    }
}

/// Scales a vector to length `UNIT`; the zero vector stays zero.
pub fn normalize_or_zero(v: Vec2) -> (r: Vec2)
    requires
        abs(v.x as int) <= 2 * COORD_MAX,
        abs(v.y as int) <= 2 * COORD_MAX,
    ensures
        (r.x as int, r.y as int) == normalized(v.x as int, v.y as int),
        abs(r.x as int) <= UNIT,
        abs(r.y as int) <= UNIT,
{
    let l = v.length();
    proof {
        lemma_length_bound(v.x as int, v.y as int);
    }
    if l == 0 {
        Vec2 { x: 0, y: 0 }
    } else {
        proof {
            assert(abs(v.x * UNIT) <= UNIT * l) by (nonlinear_arith)
                requires
                    abs(v.x as int) <= l,
            ;
            assert(abs(v.y * UNIT) <= UNIT * l) by (nonlinear_arith)
                requires
                    abs(v.y as int) <= l,
            ;
            lemma_div_trunc_bound(v.x * UNIT, l as int, UNIT as int);
            lemma_div_trunc_bound(v.y * UNIT, l as int, UNIT as int);
        }
        Vec2 { x: div_toward_zero(v.x * UNIT, l), y: div_toward_zero(v.y * UNIT, l) }
    }
}

/// The point lies within the room's outline.
pub open spec fn in_room(p: Vec2) -> bool {
    0 <= p.x <= ROOM_WIDTH && 0 <= p.y <= ROOM_HEIGHT
}

/// A body's silhouette, centred on its position.
#[derive(Clone, Copy, Debug, PartialEq, Eq, Structural)]
pub enum Form {
    Circle { radius: i64 },
    /// A rectangle given by its half-width and half-height.
    Rect { width: i64, height: i64 },
}

pub proof fn lemma_length_le_sum(x: int, y: int)
    ensures
        length(x, y) <= abs(x) + abs(y),
{
    let n = norm2(x, y);
    assert(n >= 0) by (nonlinear_arith)
        requires
            n == x * x + y * y,
    ;
    lemma_sqrt_is_root(n as nat);
    let l = length(x, y);
    let a = abs(x);
    let b = abs(y);
    assert(a * a == x * x && b * b == y * y) by (nonlinear_arith)
        requires
            a == abs(x),
            b == abs(y),
    ;
    if l > a + b {
        assert(false) by (nonlinear_arith)
            requires
                l > a + b,
                a >= 0,
                b >= 0,
                l * l <= a * a + b * b,
        ;
    }
}

impl Form {
    pub open spec fn wf(self) -> bool {
        match self {
            Form::Circle { radius } => 0 <= radius <= FORM_MAX,
            Form::Rect { width, height } => 0 <= width <= FORM_MAX && 0 <= height <= FORM_MAX,
        }
    }

    /// Extent of the shape along the x axis.
    pub open spec fn half_width(self) -> int {
        match self {
            Form::Circle { radius } => radius as int,
            Form::Rect { width, .. } => width as int,
        }
    }

    /// Extent of the shape along the y axis.
    pub open spec fn half_height(self) -> int {
        match self {
            Form::Circle { radius } => radius as int,
            Form::Rect { height, .. } => height as int,
        }
    }

    /// Distance from the centre to the boundary along the direction `(x, y)`,
    /// rounded down: the radius of a circle; for a rectangle, the smaller of
    /// the two ratios width / |cos| and height / |sin|, where
    /// width / |cos| = width * |(x, y)| / |x|. The zero direction meets the
    /// rectangle at its height.
    pub open spec fn extent(self, x: int, y: int) -> int {
        match self {
            Form::Circle { radius } => radius as int,
            Form::Rect { width, height } => {
                let n = norm2(x, y);
                if width * abs(y) < height * abs(x) {
                    sqrt((width * width * n) as nat) as int / abs(x)
                } else if y != 0 {
                    sqrt((height * height * n) as nat) as int / abs(y)
                } else {
                    height as int
                }
            },
        }
    }

    pub fn x_r(&self) -> (r: i64)
        ensures
            r == self.half_width(),
    {
        match self {
            Form::Circle { radius } => *radius,
            Form::Rect { width, .. } => *width,
        }
    }

    pub fn y_r(&self) -> (r: i64)
        ensures
            r == self.half_height(),
    {
        match self {
            Form::Circle { radius } => *radius,
            Form::Rect { height, .. } => *height,
        }
    }

    /// How far the shape reaches along the direction `n`.
    pub fn direction_len(&self, n: Vec2) -> (r: i64)
        requires
            self.wf(),
            abs(n.x as int) <= 2 * COORD_MAX,
            abs(n.y as int) <= 2 * COORD_MAX,
        ensures
            r == self.extent(n.x as int, n.y as int),
            0 <= r <= 2 * FORM_MAX,
    {
        match self {
            Form::Circle { radius } => *radius,
            Form::Rect { width, height } => {
                let w = *width;
                let h = *height;
                let ax: i64 = if n.x < 0 { -n.x } else { n.x };
                let ay: i64 = if n.y < 0 { -n.y } else { n.y };
                proof {
                    lemma_norm2_bound(n.x as int, n.y as int);
                    assert(w * ay <= FORM_MAX * 0x4000_0000) by (nonlinear_arith)
                        requires 0 <= w <= FORM_MAX, 0 <= ay <= 0x4000_0000;
                    assert(h * ax <= FORM_MAX * 0x4000_0000) by (nonlinear_arith)
                        requires 0 <= h <= FORM_MAX, 0 <= ax <= 0x4000_0000;
                    assert(w * ay >= 0 && h * ax >= 0) by (nonlinear_arith)
                        requires 0 <= w, 0 <= h, 0 <= ax, 0 <= ay;
                }
                proof {
                    assert(ax * ax == n.x * n.x && ay * ay == n.y * n.y) by (nonlinear_arith)
                        requires
                            ax == abs(n.x as int),
                            ay == abs(n.y as int),
                    ;
                }
                let n2 = (n.x * n.x + n.y * n.y) as u64;
                if w * ay < h * ax {
                    proof {
                        assert(ax > 0) by (nonlinear_arith)
                            requires
                                w * ay < h * ax,
                                w * ay >= 0,
                                ax >= 0,
                        ;
                    }
                    ratio_along(w, h, ax, ay, n2)
                } else if ay != 0 {
                    ratio_along(h, w, ay, ax, n2)
                } else {
                    h
                }
            },
        }
    }
}

/// Integer square root of a wide number, by bisection.
pub fn isqrt_wide(n: u128) -> (r: u128)
    requires
        n <= 0x4000_0000_0000_0000_0000_0000_0000_0000,
    ensures
        r as nat == sqrt(n as nat),
        is_root(n as int, r as int),
{
    let mut lo: u128 = 0;
    let mut hi: u128 = 0x8000_0000_0000_0001;
    assert(hi * hi > n) by (nonlinear_arith)
        requires
            hi == 0x8000_0000_0000_0001,
            n <= 0x4000_0000_0000_0000_0000_0000_0000_0000,
    ;
    while lo + 1 < hi
        invariant
            lo < hi <= 0x8000_0000_0000_0001,
            lo * lo <= n,
            n < hi * hi,
        decreases hi - lo,
    {
        let mid: u128 = lo + (hi - lo) / 2;
        assert(mid * mid <= 0x8000_0000_0000_0001 * 0x8000_0000_0000_0001) by (nonlinear_arith)
            requires
                mid < 0x8000_0000_0000_0001,
        ;
        if mid * mid <= n {
            lo = mid;
        } else {
            hi = mid;
        }
    }
    proof {
        lemma_sqrt_is_root(n as nat);
        lemma_root_unique(n as int, lo as int, sqrt(n as nat) as int);
    }
    lo
}

/// A root is no larger than any number whose square is at least the radicand.
proof fn lemma_root_le(n: int, r: int, b: int)
    requires
        is_root(n, r),
        b >= 0,
        n <= b * b,
    ensures
        r <= b,
{
    if r > b {
        assert(b * b < r * r) by (nonlinear_arith)
            requires
                0 <= b < r,
        ;
    }
}

/// `side * |(a, b)| / a`, rounded down, for `side * b <= other * a`: at most
/// `side + other`.
fn ratio_along(side: i64, other: i64, a: i64, b: i64, n2: u64) -> (r: i64)
    requires
        0 <= side <= FORM_MAX,
        0 <= other <= FORM_MAX,
        0 < a <= 0x4000_0000,
        0 <= b <= 0x4000_0000,
        n2 == a * a + b * b,
        side * b <= other * a,
    ensures
        r == sqrt((side * side * n2) as nat) as int / (a as int),
        0 <= r <= side + other,
{
    proof {
        assert(side * side <= 0x4_0000_0000 && side * side >= 0) by (nonlinear_arith)
            requires
                0 <= side <= FORM_MAX,
        ;
        assert(a * a + b * b <= 0x2000_0000_0000_0000) by (nonlinear_arith)
            requires
                0 < a <= 0x4000_0000,
                0 <= b <= 0x4000_0000,
        ;
        assert((side * side) * n2 <= 0x4_0000_0000 * 0x2000_0000_0000_0000 && (side * side) * n2
            >= 0) by (nonlinear_arith)
            requires
                0 <= side * side <= 0x4_0000_0000,
                0 <= n2 <= 0x2000_0000_0000_0000,
        ;
    }
    let big = (side as u128) * (side as u128) * (n2 as u128);
    let root = isqrt_wide(big);
    proof {
        let bound = side * (a + b);
        assert(big <= bound * bound) by (nonlinear_arith)
            requires
                big == side * side * (a * a + b * b),
                bound == side * (a + b),
                side >= 0,
                a > 0,
                b >= 0,
        ;
        assert(bound >= 0) by (nonlinear_arith)
            requires
                bound == side * (a + b),
                side >= 0,
                a > 0,
                b >= 0,
        ;
        lemma_root_le(big as int, root as int, bound);
        assert((root as int) / (a as int) <= side + other) by (nonlinear_arith)
            requires
                0 <= root <= side * (a + b),
                side * b <= other * a,
                a > 0,
                side >= 0,
        ;
        assert((root as int) / (a as int) >= 0) by (nonlinear_arith)
            requires
                root >= 0,
                a > 0,
        ;
    }
    (root / (a as u128)) as i64
}

/// The floor of a root over `b` is the one `q` with `q * b` squared at most
/// the radicand and `(q + 1) * b` squared above it.
proof fn lemma_root_over(big: int, b: int)
    requires
        big >= 0,
        b > 0,
    ensures
        ({
            let q = sqrt(big as nat) as int / b;
            &&& (q * b) * (q * b) <= big
            &&& big < ((q + 1) * b) * ((q + 1) * b)
        }),
{
    lemma_sqrt_is_root(big as nat);
    let r = sqrt(big as nat) as int;
    let q = r / b;
    assert(q * b <= r && r < (q + 1) * b && q >= 0) by (nonlinear_arith)
        requires
            q == r / b,
            b > 0,
            r >= 0,
    ;
    assert((q * b) * (q * b) <= r * r) by (nonlinear_arith)
        requires
            0 <= q * b <= r,
    ;
    assert((r + 1) * (r + 1) <= ((q + 1) * b) * ((q + 1) * b)) by (nonlinear_arith)
        requires
            0 <= r + 1 <= (q + 1) * b,
    ;
}

proof fn lemma_over_unique(big: int, b: int, q1: int, q2: int)
    requires
        b > 0,
        q1 >= 0,
        q2 >= 0,
        (q1 * b) * (q1 * b) <= big < ((q1 + 1) * b) * ((q1 + 1) * b),
        (q2 * b) * (q2 * b) <= big < ((q2 + 1) * b) * ((q2 + 1) * b),
    ensures
        q1 == q2,
{
    if q1 < q2 {
        assert(((q1 + 1) * b) * ((q1 + 1) * b) <= (q2 * b) * (q2 * b)) by (nonlinear_arith)
            requires
                b > 0,
                0 <= q1 + 1 <= q2,
        ;
    } else if q2 < q1 {
        assert(((q2 + 1) * b) * ((q2 + 1) * b) <= (q1 * b) * (q1 * b)) by (nonlinear_arith)
            requires
                b > 0,
                0 <= q2 + 1 <= q1,
        ;
    }
}

/// Scaling the radicand by `k * k` and the divisor by `k` keeps the ratio.
proof fn lemma_ratio_scales(big: int, b: int, k: int)
    requires
        big >= 0,
        b > 0,
        k > 0,
    ensures
        sqrt((k * k * big) as nat) as int / (k * b) == sqrt(big as nat) as int / b,
{
    let kb = k * b;
    let kbig = k * k * big;
    assert(kb > 0 && kbig >= 0) by (nonlinear_arith)
        requires
            b > 0,
            k > 0,
            big >= 0,
            kb == k * b,
            kbig == k * k * big,
    ;
    lemma_root_over(big, b);
    lemma_root_over(kbig, kb);
    let q = sqrt(big as nat) as int / b;
    let q2 = sqrt(kbig as nat) as int / kb;
    assert(q >= 0 && q2 >= 0) by (nonlinear_arith)
        requires
            q == sqrt(big as nat) as int / b,
            q2 == sqrt(kbig as nat) as int / kb,
            b > 0,
            kb > 0,
    ;
    assert((q * kb) * (q * kb) <= kbig && kbig < ((q + 1) * kb) * ((q + 1) * kb)) by (
    nonlinear_arith)
        requires
            (q * b) * (q * b) <= big,
            big < ((q + 1) * b) * ((q + 1) * b),
            kb == k * b,
            kbig == k * k * big,
            k > 0,
    ;
    lemma_over_unique(kbig, kb, q, q2);
}

/// A rectangle's or a circle's extent depends on the direction only, not on
/// the length of the vector that gives it.
pub proof fn lemma_extent_direction_only(form: Form, x: int, y: int, k: int)
    requires
        form.wf(),
        k > 0,
    ensures
        form.extent(k * x, k * y) == form.extent(x, y),
{
    if let Form::Rect { width, height } = form {
        let w = width as int;
        let h = height as int;
        let n = norm2(x, y);
        assert(norm2(k * x, k * y) == k * k * n) by (nonlinear_arith)
            requires
                n == x * x + y * y,
        ;
        assert(abs(k * x) == k * abs(x) && abs(k * y) == k * abs(y)) by (nonlinear_arith)
            requires
                k > 0,
        ;
        assert(n >= 0) by (nonlinear_arith)
            requires
                n == x * x + y * y,
        ;
        assert((w * (k * abs(y)) < h * (k * abs(x))) == (w * abs(y) < h * abs(x))) by (
        nonlinear_arith)
            requires
                k > 0,
        ;
        assert(w * w * (k * k * n) == k * k * (w * w * n)) by (nonlinear_arith);
        assert(h * h * (k * k * n) == k * k * (h * h * n)) by (nonlinear_arith);
        assert(w * w * n >= 0 && h * h * n >= 0) by (nonlinear_arith)
            requires
                n >= 0,
        ;
        assert((k * y != 0) == (y != 0)) by (nonlinear_arith)
            requires
                k > 0,
        ;
        if w * abs(y) < h * abs(x) {
            assert(abs(x) > 0) by (nonlinear_arith)
                requires
                    w * abs(y) < h * abs(x),
                    abs(x) >= 0,
                    w >= 0,
                    abs(y) >= 0,
            ;
            lemma_ratio_scales(w * w * n, abs(x), k);
        } else if y != 0 {
            lemma_ratio_scales(h * h * n, abs(y), k);
        }
    }
}

/// One step along an axis toward a target coordinate.
pub open spec fn step_toward(from: int, to: int) -> int {
    if from > to {
        -1
    } else if from < to {
        1
    } else {
        0
    }
}

/// Distance under which a walker counts as arrived.
pub const ARRIVED: i64 = 37_500;

/// A body's position in its room.
#[derive(Clone, Copy, Debug, PartialEq, Eq, Structural)]
pub struct Position(pub Vec2);

impl Position {
    /// The discrete move direction toward `target`: none once within
    /// `ARRIVED` of it, else one step per axis toward it.
    pub open spec fn move_to_spec(self, target: Vec2) -> (i32, i32) {
        if length(self.0.x - target.x, self.0.y - target.y) < ARRIVED {
            (0i32, 0i32)
        } else {
            (
                step_toward(self.0.x as int, target.x as int) as i32,
                step_toward(self.0.y as int, target.y as int) as i32,
            )
        }
    }

    pub fn move_to(&self, position: Vec2) -> (r: (i32, i32))
        requires
            self.0.wf(),
            position.wf(),
        ensures
            r == self.move_to_spec(position),
            -1 <= r.0 <= 1 && -1 <= r.1 <= 1,
    {
        let mut move_direction: (i32, i32) = (0, 0);
        if self.0.distance(&position) < ARRIVED {
            return move_direction;
        }
        if self.0.y > position.y {
            move_direction.1 = -1;
        } else if self.0.y < position.y {
            move_direction.1 = 1;
        }
        if self.0.x > position.x {
            move_direction.0 = -1;
        } else if self.0.x < position.x {
            move_direction.0 = 1;
        }
        move_direction
    }
}

} // verus!
