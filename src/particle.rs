//! One particle: its state and the four per-frame operations on it.
use crate::fixed::{ceil_sqrt, div_trunc, mul_div, sqrt_ceil, SCALE};
use crate::fixed::{
    lemma_ceil_sqrt, lemma_div_trunc_bound, lemma_div_trunc_sign, lemma_div_trunc_square,
    lemma_div_trunc_strict,
};
use rand::Rng;
use vstd::prelude::*;

verus! {

/// Canvas width in pixels; a pointer beyond it exerts no pull.
pub const SCREEN_WIDTH: i32 = 800;

/// Canvas height in pixels; a pointer beyond it exerts no pull.
pub const SCREEN_HEIGHT: i32 = 800;

/// Friction factor applied every frame (0.99), in fixed-point units.
pub const FRICTION: i64 = 990_000;

/// Smallest distance (half a pixel) that the attraction divides by.
pub const MIN_DIST: i64 = 500_000;

/// Largest magnitude of a position component: the widest canvas there is.
pub const POS_LIMIT: i64 = 2_147_483_647_000_000;

/// Largest magnitude of a velocity component between frames.
pub const VEL_LIMIT: i64 = 281_474_976_710_656;

/// A point or a velocity, in fixed-point units (see `SCALE`).
#[derive(Clone, Copy, Debug, PartialEq, Eq, Structural)]
pub struct Vector2 {
    pub x: i64,
    pub y: i64,
}

/// A massless point with a position and a velocity.
#[derive(Clone, Copy, Debug, PartialEq, Eq, Structural)]
pub struct Particle {
    pub pos: Vector2,
    pub vel: Vector2,
}

pub open spec fn abs(v: int) -> int {
    if v < 0 {
        -v
    } else {
        v
    }
}

/// `v` held to the interval `[0, hi]`.
pub open spec fn clamp(v: int, hi: int) -> int {
    if v < 0 {
        0
    } else if v > hi {
        hi
    } else {
        v
    }
}

/// Whether the pointer lies on the canvas, borders included.
pub open spec fn on_canvas(p: Vector2) -> bool {
    &&& 0 <= p.x <= SCREEN_WIDTH * SCALE
    &&& 0 <= p.y <= SCREEN_HEIGHT * SCALE
}

/// Distance from `a` to `b`, rounded up.
pub open spec fn distance(a: Vector2, b: Vector2) -> int {
    let dx = a.x - b.x;
    let dy = a.y - b.y;
    ceil_sqrt(dx * dx + dy * dy)
}

/// Unit vector (scaled by `SCALE`) pointing from `b` to `a`; the zero vector
/// where the two coincide. The offset is divided by the distance rounded up
/// and each quotient rounded towards zero, so the vector is never longer than
/// one pixel.
pub open spec fn normal(a: Vector2, b: Vector2) -> (int, int) {
    let dx = a.x - b.x;
    let dy = a.y - b.y;
    let d = distance(a, b);
    if d == 0 {
        (dx, dy)
    } else {
        (div_trunc(dx * SCALE, d), div_trunc(dy * SCALE, d))
    }
}

/// The change of velocity that a pointer at `p` gives a particle at `pos`:
/// the normal divided by the distance, the distance floored at `MIN_DIST`.
pub open spec fn pull(pos: Vector2, p: Vector2) -> (int, int) {
    let d = if distance(pos, p) < MIN_DIST {
        MIN_DIST as int
    } else {
        distance(pos, p)
    };
    let n = normal(pos, p);
    (-div_trunc(n.0 * SCALE, d), -div_trunc(n.1 * SCALE, d))
}

/// One component of a velocity after friction with factor `amount`.
pub open spec fn damped(v: int, amount: int) -> int {
    div_trunc(v * amount, SCALE as int)
}

/// Both components of `v` no larger than `m` in magnitude.
pub open spec fn bounded(v: Vector2, m: int) -> bool {
    abs(v.x as int) <= m && abs(v.y as int) <= m
}

/// The distance is at least each coordinate difference, at most their sum,
/// and zero exactly where the points coincide.
pub(crate) proof fn lemma_distance(a: Vector2, b: Vector2)
    ensures
        abs(a.x - b.x) <= distance(a, b) <= abs(a.x - b.x) + abs(a.y - b.y),
        abs(a.y - b.y) <= distance(a, b),
        distance(a, b) == 0 <==> a == b,
{
    let dx = a.x - b.x;
    let dy = a.y - b.y;
    let n = dx * dx + dy * dy;
    assert(dx * dx >= 0 && dy * dy >= 0) by (nonlinear_arith);
    let s = abs(dx) + abs(dy);
    assert(n <= s * s) by (nonlinear_arith)
        requires
            n == dx * dx + dy * dy,
            s == abs(dx) + abs(dy),
    ;
    lemma_ceil_sqrt(n, s);
    let r = distance(a, b);
    assert(abs(dx) <= r) by (nonlinear_arith)
        requires
            r >= 0,
            dx * dx <= n <= r * r,
    ;
    assert(abs(dy) <= r) by (nonlinear_arith)
        requires
            r >= 0,
            dy * dy <= n <= r * r,
    ;
    assert(n == 0 ==> dx == 0 && dy == 0) by (nonlinear_arith)
        requires
            n == dx * dx + dy * dy,
    ;
}

/// Each component of the normal is at most one pixel in magnitude.
proof fn lemma_normal_bound(a: Vector2, b: Vector2)
    ensures
        abs(normal(a, b).0) <= SCALE,
        abs(normal(a, b).1) <= SCALE,
{
    lemma_distance(a, b);
    let d = distance(a, b);
    if d != 0 {
        let dx = a.x - b.x;
        let dy = a.y - b.y;
        assert(-(d * SCALE) <= dx * SCALE <= d * SCALE) by (nonlinear_arith)
            requires
                abs(dx) <= d,
        ;
        assert(-(d * SCALE) <= dy * SCALE <= d * SCALE) by (nonlinear_arith)
            requires
                abs(dy) <= d,
        ;
        lemma_div_trunc_bound(dx * SCALE, d, SCALE as int);
        lemma_div_trunc_bound(dy * SCALE, d, SCALE as int);
    }
}

/// The normal is at most one pixel long.
pub proof fn lemma_normal_length(a: Vector2, b: Vector2)
    ensures
        normal(a, b).0 * normal(a, b).0 + normal(a, b).1 * normal(a, b).1 <= SCALE * SCALE,
{
    lemma_distance(a, b);
    let d = distance(a, b);
    let dx = a.x - b.x;
    let dy = a.y - b.y;
    let n = normal(a, b);
    if d != 0 {
        let m = dx * dx + dy * dy;
        assert(dx * dx >= 0 && dy * dy >= 0) by (nonlinear_arith);
        lemma_ceil_sqrt(m, 0);
        lemma_div_trunc_square(dx * SCALE, d);
        lemma_div_trunc_square(dy * SCALE, d);
        assert(n.0 * n.0 + n.1 * n.1 <= SCALE * SCALE) by (nonlinear_arith)
            requires
                n.0 * n.0 * (d * d) <= (dx * SCALE) * (dx * SCALE),
                n.1 * n.1 * (d * d) <= (dy * SCALE) * (dy * SCALE),
                dx * dx + dy * dy <= d * d,
                d > 0,
        ;
    }
}

/// The pull is at most two pixels per frame long: the distance floor caps the
/// acceleration.
pub proof fn lemma_pull_length(pos: Vector2, p: Vector2)
    ensures
        pull(pos, p).0 * pull(pos, p).0 + pull(pos, p).1 * pull(pos, p).1 <= 4 * SCALE * SCALE,
{
    lemma_normal_length(pos, p);
    let d = if distance(pos, p) < MIN_DIST {
        MIN_DIST as int
    } else {
        distance(pos, p)
    };
    let n = normal(pos, p);
    let q = pull(pos, p);
    lemma_div_trunc_square(n.0 * SCALE, d);
    lemma_div_trunc_square(n.1 * SCALE, d);
    let t0 = div_trunc(n.0 * SCALE, d);
    assert(q.0 * q.0 == t0 * t0) by (nonlinear_arith)
        requires
            q.0 == -t0,
    ;
    let t1 = div_trunc(n.1 * SCALE, d);
    assert(q.1 * q.1 == t1 * t1) by (nonlinear_arith)
        requires
            q.1 == -t1,
    ;
    assert(q.0 * q.0 + q.1 * q.1 <= 4 * SCALE * SCALE) by (nonlinear_arith)
        requires
            q.0 * q.0 * (d * d) <= (n.0 * SCALE) * (n.0 * SCALE),
            q.1 * q.1 * (d * d) <= (n.1 * SCALE) * (n.1 * SCALE),
            n.0 * n.0 + n.1 * n.1 <= SCALE * SCALE,
            d >= MIN_DIST,
    ;
}

/// Each component of the pull is at most two pixels per frame in magnitude.
proof fn lemma_pull_bound(pos: Vector2, p: Vector2)
    ensures
        abs(pull(pos, p).0) <= 2 * SCALE,
        abs(pull(pos, p).1) <= 2 * SCALE,
{
    lemma_distance(pos, p);
    lemma_normal_bound(pos, p);
    let d = if distance(pos, p) < MIN_DIST {
        MIN_DIST as int
    } else {
        distance(pos, p)
    };
    let n = normal(pos, p);
    assert(-(d * (2 * SCALE)) <= n.0 * SCALE <= d * (2 * SCALE)) by (nonlinear_arith)
        requires
            abs(n.0) <= SCALE,
            d >= MIN_DIST,
    ;
    assert(-(d * (2 * SCALE)) <= n.1 * SCALE <= d * (2 * SCALE)) by (nonlinear_arith)
        requires
            abs(n.1) <= SCALE,
            d >= MIN_DIST,
    ;
    lemma_div_trunc_bound(n.0 * SCALE, d, 2 * SCALE);
    lemma_div_trunc_bound(n.1 * SCALE, d, 2 * SCALE);
}

/// Relies on rand's `Rng::gen_range` on the thread-local generator: a value
/// drawn from `lo..hi` (it panics on an empty range).
#[verifier::external_body]
fn random_in(lo: i64, hi: i64) -> (r: i64)
    requires
        lo < hi,
    ensures
        lo <= r < hi,
{
    rand::thread_rng().gen_range(lo..hi)
}

/// A friction factor strictly between zero and one.
pub open spec fn valid_friction(amount: int) -> bool {
    0 < amount < SCALE
}

/// Where a fresh particle may start on a canvas of `w` by `h` pixels: a
/// position short of the last pixel and a velocity in `[-1, 1)` per axis.
pub open spec fn spawned(q: Particle, w: int, h: int) -> bool {
    &&& 0 <= q.pos.x < (w - 1) * SCALE
    &&& 0 <= q.pos.y < (h - 1) * SCALE
    &&& -SCALE <= q.vel.x < SCALE
    &&& -SCALE <= q.vel.y < SCALE
}

/// The particle after one frame: pulled towards `pointer`, damped by
/// `amount`, then moved and held to a `w` by `h` canvas.
pub open spec fn stepped(q: Particle, pointer: Vector2, amount: int, w: int, h: int) -> Particle {
    let pv = if on_canvas(pointer) {
        pull(q.pos, pointer)
    } else {
        (0, 0)
    };
    let vx = damped(q.vel.x + pv.0, amount);
    let vy = damped(q.vel.y + pv.1, amount);
    Particle {
        pos: Vector2 {
            x: clamp(q.pos.x + vx, w * SCALE) as i64,
            y: clamp(q.pos.y + vy, h * SCALE) as i64,
        },
        vel: Vector2 { x: vx as i64, y: vy as i64 },
    }
}

impl Particle {
    /// Components within the bounds that all arithmetic on them relies on.
    pub open spec fn wf(self) -> bool {
        &&& abs(self.pos.x as int) <= POS_LIMIT
        &&& abs(self.pos.y as int) <= POS_LIMIT
        &&& abs(self.vel.x as int) <= VEL_LIMIT
        &&& abs(self.vel.y as int) <= VEL_LIMIT
    }

    /// Distance from this particle to `other_pos`, rounded up.
    fn get_dist(&self, other_pos: &Vector2) -> (r: i64)
        requires
            bounded(self.pos, POS_LIMIT as int),
            bounded(*other_pos, POS_LIMIT as int),
        ensures
            r == distance(self.pos, *other_pos),
    {
        let dx: i64 = self.pos.x - other_pos.x;
        let dy: i64 = self.pos.y - other_pos.y;
        let ax: u128 = if dx < 0 { (-dx) as u128 } else { dx as u128 };
        let ay: u128 = if dy < 0 { (-dy) as u128 } else { dy as u128 };
        proof {
            assert(ax * ax <= 0x100_0000_0000_0000_0000_0000_0000 && ay * ay
                <= 0x100_0000_0000_0000_0000_0000_0000) by (nonlinear_arith)
                requires
                    ax <= 0x10_0000_0000_0000,
                    ay <= 0x10_0000_0000_0000,
            ;
            assert(ax * ax == dx * dx && ay * ay == dy * dy) by (nonlinear_arith)
                requires
                    ax == abs(dx as int),
                    ay == abs(dy as int),
            ;
            lemma_distance(self.pos, *other_pos);
        }
        let r = sqrt_ceil(ax * ax + ay * ay);
        r as i64
    }

    /// Unit vector (scaled by `SCALE`) from `other_pos` towards this particle.
    fn get_normal(&self, other_pos: &Vector2) -> (r: Vector2)
        requires
            bounded(self.pos, POS_LIMIT as int),
            bounded(*other_pos, POS_LIMIT as int),
        ensures
            r.x == normal(self.pos, *other_pos).0,
            r.y == normal(self.pos, *other_pos).1,
            r.x * r.x + r.y * r.y <= SCALE * SCALE,
    {
        proof {
            lemma_normal_length(self.pos, *other_pos);
        }
        let dist = self.get_dist(other_pos);
        let dx: i64 = self.pos.x - other_pos.x;
        let dy: i64 = self.pos.y - other_pos.y;
        if dist == 0 {
            return Vector2 { x: dx, y: dy };
        }
        proof {
            lemma_distance(self.pos, *other_pos);
            lemma_normal_bound(self.pos, *other_pos);
        }
        Vector2 { x: mul_div(dx, SCALE, dist), y: mul_div(dy, SCALE, dist) }
    }

    /// Bends the velocity towards `pos_to_attract`, unless it lies off the
    /// canvas.
    pub fn attract(&mut self, pos_to_attract: &Vector2)
        requires
            old(self).wf(),
        ensures
            final(self).pos == old(self).pos,
            on_canvas(*pos_to_attract) ==> final(self).vel.x == old(self).vel.x + pull(
                old(self).pos,
                *pos_to_attract,
            ).0 && final(self).vel.y == old(self).vel.y + pull(old(self).pos, *pos_to_attract).1,
            !on_canvas(*pos_to_attract) ==> final(self).vel == old(self).vel,
            (final(self).vel.x - old(self).vel.x) * (final(self).vel.x - old(self).vel.x) + (
            final(self).vel.y - old(self).vel.y) * (final(self).vel.y - old(self).vel.y) <= 4
                * SCALE * SCALE,
            bounded(final(self).vel, VEL_LIMIT + 2 * SCALE),
    {
        proof {
            lemma_pull_length(self.pos, *pos_to_attract);
        }
        if pos_to_attract.x < 0 || pos_to_attract.x > SCREEN_WIDTH as i64 * SCALE {
            return;
        }
        if pos_to_attract.y < 0 || pos_to_attract.y > SCREEN_HEIGHT as i64 * SCALE {
            return;
        }
        let dist = self.get_dist(pos_to_attract).max(MIN_DIST);
        let normal = self.get_normal(pos_to_attract);
        proof {
            lemma_pull_bound(self.pos, *pos_to_attract);
            lemma_normal_bound(self.pos, *pos_to_attract);
            assert(-(SCALE * SCALE) <= normal.x * SCALE <= SCALE * SCALE) by (nonlinear_arith)
                requires
                    abs(normal.x as int) <= SCALE,
            ;
            assert(-(SCALE * SCALE) <= normal.y * SCALE <= SCALE * SCALE) by (nonlinear_arith)
                requires
                    abs(normal.y as int) <= SCALE,
            ;
        }
        self.vel.x = self.vel.x - mul_div(normal.x, SCALE, dist);
        self.vel.y = self.vel.y - mul_div(normal.y, SCALE, dist);
    }

    /// A particle at a random position and velocity on a `screen_width` by
    /// `screen_height` canvas.
    pub fn new(screen_width: &i32, screen_height: &i32) -> (r: Particle)
        requires
            *screen_width > 1,
            *screen_height > 1,
        ensures
            spawned(r, *screen_width as int, *screen_height as int),
            r.wf(),
    {
        Particle {
            pos: Vector2 {
                x: random_in(0, (*screen_width as i64 - 1) * SCALE),
                y: random_in(0, (*screen_height as i64 - 1) * SCALE),
            },
            vel: Vector2 { x: random_in(-SCALE, SCALE), y: random_in(-SCALE, SCALE) },
        }
    }

    /// Gives the particle a fresh random position and velocity.
    pub fn randomize(&mut self, screen_width: &i32, screen_height: &i32)
        requires
            *screen_width > 1,
            *screen_height > 1,
        ensures
            spawned(*final(self), *screen_width as int, *screen_height as int),
            final(self).wf(),
    {
        self.pos = Vector2 {
            x: random_in(0, (*screen_width as i64 - 1) * SCALE),
            y: random_in(0, (*screen_height as i64 - 1) * SCALE),
        };
        self.vel = Vector2 { x: random_in(-SCALE, SCALE), y: random_in(-SCALE, SCALE) };
    }

    /// Multiplies both velocity components by `amount`.
    pub fn do_friction(&mut self, amount: i64)
        requires
            valid_friction(amount as int),
        ensures
            final(self).pos == old(self).pos,
            final(self).vel.x == damped(old(self).vel.x as int, amount as int),
            final(self).vel.y == damped(old(self).vel.y as int, amount as int),
    {
        proof {
            lemma_damped_bound(self.vel.x as int, amount as int);
            lemma_damped_bound(self.vel.y as int, amount as int);
        }
        self.vel.x = mul_div(self.vel.x, amount, SCALE);
        self.vel.y = mul_div(self.vel.y, amount, SCALE);
    }

    /// Moves the particle by its velocity, then holds it to the canvas.
    pub fn apply_velocity(&mut self, screen_width: &i32, screen_height: &i32)
        requires
            old(self).wf(),
            *screen_width > 0,
            *screen_height > 0,
        ensures
            final(self).vel == old(self).vel,
            final(self).pos.x == clamp(
                old(self).pos.x + old(self).vel.x,
                *screen_width as int * SCALE,
            ),
            final(self).pos.y == clamp(
                old(self).pos.y + old(self).vel.y,
                *screen_height as int * SCALE,
            ),
            0 <= final(self).pos.x <= *screen_width as int * SCALE,
            0 <= final(self).pos.y <= *screen_height as int * SCALE,
            final(self).wf(),
    {
        let max_x: i64 = *screen_width as i64 * SCALE;
        let max_y: i64 = *screen_height as i64 * SCALE;
        self.pos.x = self.pos.x + self.vel.x;
        self.pos.y = self.pos.y + self.vel.y;
        if self.pos.x < 0 {
            self.pos.x = 0;
        }
        if self.pos.x > max_x {
            self.pos.x = max_x;
        }
        if self.pos.y < 0 {
            self.pos.y = 0;
        }
        if self.pos.y > max_y {
            self.pos.y = max_y;
        }
    }
}

/// Friction never grows a velocity component, and keeps its sign.
proof fn lemma_damped_bound(v: int, amount: int)
    requires
        valid_friction(amount),
    ensures
        abs(damped(v, amount)) <= abs(v),
        v != 0 ==> abs(damped(v, amount)) < abs(v),
        v >= 0 ==> damped(v, amount) >= 0,
        v <= 0 ==> damped(v, amount) <= 0,
{
    assert(-(SCALE * abs(v)) <= v * amount <= SCALE * abs(v)) by (nonlinear_arith)
        requires
            0 < amount < SCALE,
    ;
    lemma_div_trunc_bound(v * amount, SCALE as int, abs(v));
    if v != 0 {
        assert(-(SCALE * abs(v)) < v * amount < SCALE * abs(v)) by (nonlinear_arith)
            requires
                0 < amount < SCALE,
                v != 0,
        ;
        lemma_div_trunc_strict(v * amount, SCALE as int, abs(v));
    }
    assert(v >= 0 ==> v * amount >= 0) by (nonlinear_arith)
        requires
            amount > 0,
    ;
    assert(v <= 0 ==> v * amount <= 0) by (nonlinear_arith)
        requires
            amount > 0,
    ;
    lemma_div_trunc_sign(v * amount, SCALE as int);
}

/// Friction brings a velocity component raised by at most one pull back
/// within `VEL_LIMIT`.
proof fn lemma_damped_limit(v: int, amount: int)
    requires
        valid_friction(amount),
        abs(v) <= VEL_LIMIT + 2 * SCALE,
    ensures
        abs(damped(v, amount)) <= VEL_LIMIT,
{
    assert(-(SCALE * VEL_LIMIT) <= v * amount <= SCALE * VEL_LIMIT) by (nonlinear_arith)
        requires
            0 < amount <= SCALE - 1,
            -(VEL_LIMIT + 2 * SCALE) <= v <= VEL_LIMIT + 2 * SCALE,
    ;
    lemma_div_trunc_bound(v * amount, SCALE as int, VEL_LIMIT as int);
}

impl Particle {
    /// One frame of the particle: attract, friction, then integrate, in that
    /// order, on the canvas whose bounds also gate the attraction.
    pub fn update(
        &mut self,
        pointer: &Vector2,
        friction: i64,
        screen_width: &i32,
        screen_height: &i32,
    )
        requires
            old(self).wf(),
            valid_friction(friction as int),
            *screen_width == SCREEN_WIDTH,
            *screen_height == SCREEN_HEIGHT,
        ensures
            *final(self) == stepped(
                *old(self),
                *pointer,
                friction as int,
                *screen_width as int,
                *screen_height as int,
            ),
            final(self).wf(),
            0 <= final(self).pos.x <= *screen_width as int * SCALE,
            0 <= final(self).pos.y <= *screen_height as int * SCALE,
    {
        self.attract(pointer);
        let ghost attracted = *self;
        self.do_friction(friction);
        proof {
            lemma_damped_limit(attracted.vel.x as int, friction as int);
            lemma_damped_limit(attracted.vel.y as int, friction as int);
        }
        self.apply_velocity(screen_width, screen_height);
    }

    /// The canvas pixel under the particle: its position truncated to whole
    /// pixels.
    pub fn pixel(&self) -> (r: (i32, i32))
        requires
            self.wf(),
        ensures
            r.0 == div_trunc(self.pos.x as int, SCALE as int),
            r.1 == div_trunc(self.pos.y as int, SCALE as int),
    {
        proof {
            lemma_div_trunc_bound(self.pos.x as int, SCALE as int, 2_147_483_647);
            lemma_div_trunc_bound(self.pos.y as int, SCALE as int, 2_147_483_647);
        }
        (mul_div(self.pos.x, 1, SCALE) as i32, mul_div(self.pos.y, 1, SCALE) as i32)
    }
}

impl Vector2 {
    /// The point at whole pixel coordinates `(x, y)`.
    pub fn from_pixels(x: i32, y: i32) -> (r: Vector2)
        ensures
            r.x == x * SCALE,
            r.y == y * SCALE,
    {
        Vector2 { x: x as i64 * SCALE, y: y as i64 * SCALE }
    }
}

} // verus!
