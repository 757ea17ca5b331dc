//! Laws that the per-frame operations obey.
use crate::field::frame;
use crate::fixed::{div_trunc, lemma_div_trunc_at_least, lemma_div_trunc_sign, SCALE};
use crate::particle::{
    abs, clamp, damped, distance, lemma_distance, normal, on_canvas, pull, valid_friction,
    Particle, Vector2, MIN_DIST,
};
use vstd::arithmetic::power::pow;
use vstd::prelude::*;

verus! {

/// A velocity component after `k` frames of friction with factor `amount`.
pub open spec fn damped_times(v: int, amount: int, k: nat) -> int
    decreases k,
{
    if k == 0 {
        v
    } else {
        damped(damped_times(v, amount, (k - 1) as nat), amount)
    }
}

/// The magnitude of a damped component is the magnitude of the undamped one
/// times the factor, rounded down.
proof fn lemma_damped_abs(v: int, amount: int)
    requires
        valid_friction(amount),
    ensures
        abs(damped(v, amount)) == (abs(v) * amount) / (SCALE as int),
{
    if v < 0 {
        assert(-(v * amount) == (-v) * amount) by (nonlinear_arith);
    }
}

/// Friction decays a velocity geometrically. After `k` frames of friction
/// alone a component of magnitude `|v|` has magnitude at most `|v| * a^k`, and
/// falls short of it by less than `k` fixed-point units, where `a` is the
/// factor as a fraction of one.
pub proof fn lemma_friction_decay(v: int, amount: int, k: nat)
    requires
        valid_friction(amount),
    ensures
        pow(SCALE as int, k) * abs(damped_times(v, amount, k)) <= pow(amount, k) * abs(v),
        pow(amount, k) * abs(v) <= pow(SCALE as int, k) * (abs(damped_times(v, amount, k)) + k),
    decreases k,
{
    vstd::arithmetic::power::lemma_pow_positive(SCALE as int, k);
    vstd::arithmetic::power::lemma_pow_positive(amount, k);
    if k == 0 {
        vstd::arithmetic::power::lemma_pow0(SCALE as int);
        vstd::arithmetic::power::lemma_pow0(amount);
    } else {
        let j = (k - 1) as nat;
        lemma_friction_decay(v, amount, j);
        vstd::arithmetic::power::lemma_pow_positive(SCALE as int, j);
        vstd::arithmetic::power::lemma_pow_positive(amount, j);
        vstd::arithmetic::power::lemma_pow_adds(SCALE as int, j, 1);
        vstd::arithmetic::power::lemma_pow_adds(amount, j, 1);
        vstd::arithmetic::power::lemma_pow1(SCALE as int);
        vstd::arithmetic::power::lemma_pow1(amount);
        let f = abs(damped_times(v, amount, j));
        let g = abs(damped_times(v, amount, k));
        lemma_damped_abs(damped_times(v, amount, j), amount);
        vstd::arithmetic::div_mod::lemma_fundamental_div_mod(f * amount, SCALE as int);
        vstd::arithmetic::div_mod::lemma_mod_pos_bound(f * amount, SCALE as int);
        let sk = pow(SCALE as int, j);
        let ak = pow(amount, j);
        let av = abs(v);
        assert(SCALE * g <= f * amount < SCALE * g + SCALE);
        assert(sk * SCALE * g <= ak * amount * av) by (nonlinear_arith)
            requires
                sk * f <= ak * av,
                SCALE * g <= f * amount,
                sk > 0,
                amount > 0,
                f >= 0,
        ;
        assert(ak * amount * av <= sk * SCALE * (g + k)) by (nonlinear_arith)
            requires
                ak * av <= sk * (f + j),
                f * amount < SCALE * g + SCALE,
                k == j + 1,
                0 < amount < SCALE,
                sk > 0,
                ak > 0,
                f >= 0,
        ;
    }
}

/// While the pointer is on the canvas, its pull points towards it: each
/// component of the change of velocity has the sign of the pointer's offset
/// from the particle, so their dot product is never negative. For a particle
/// on the canvas the product is zero only where the particle sits on the
/// pointer.
pub proof fn lemma_pull_towards_pointer(pos: Vector2, p: Vector2)
    requires
        on_canvas(p),
    ensures
        pull(pos, p).0 * (p.x - pos.x) >= 0,
        pull(pos, p).1 * (p.y - pos.y) >= 0,
        pos == p ==> pull(pos, p) == (0int, 0int),
        on_canvas(pos) && pos != p ==> pull(pos, p).0 * (p.x - pos.x) + pull(pos, p).1 * (p.y
            - pos.y) > 0,
{
    lemma_distance(pos, p);
    let dx = pos.x - p.x;
    let dy = pos.y - p.y;
    let dist = distance(pos, p);
    let d = if dist < MIN_DIST {
        MIN_DIST as int
    } else {
        dist
    };
    let n = normal(pos, p);
    if dist != 0 {
        lemma_div_trunc_sign(dx * SCALE, dist);
        lemma_div_trunc_sign(dy * SCALE, dist);
        assert(dx >= 0 ==> dx * SCALE >= 0) by (nonlinear_arith);
        assert(dx <= 0 ==> dx * SCALE <= 0) by (nonlinear_arith);
        assert(dy >= 0 ==> dy * SCALE >= 0) by (nonlinear_arith);
        assert(dy <= 0 ==> dy * SCALE <= 0) by (nonlinear_arith);
    }
    assert(n.0 >= 0 ==> n.0 * SCALE >= 0) by (nonlinear_arith);
    assert(n.0 <= 0 ==> n.0 * SCALE <= 0) by (nonlinear_arith);
    assert(n.1 >= 0 ==> n.1 * SCALE >= 0) by (nonlinear_arith);
    assert(n.1 <= 0 ==> n.1 * SCALE <= 0) by (nonlinear_arith);
    lemma_div_trunc_sign(n.0 * SCALE, d);
    lemma_div_trunc_sign(n.1 * SCALE, d);
    let q = pull(pos, p);
    assert(q.0 * (p.x - pos.x) >= 0) by (nonlinear_arith)
        requires
            dx >= 0 ==> q.0 <= 0,
            dx <= 0 ==> q.0 >= 0,
            dx == pos.x - p.x,
    ;
    assert(q.1 * (p.y - pos.y) >= 0) by (nonlinear_arith)
        requires
            dy >= 0 ==> q.1 <= 0,
            dy <= 0 ==> q.1 >= 0,
            dy == pos.y - p.y,
    ;
    if on_canvas(pos) && pos != p {
        assert(dist <= 1600 * SCALE);
        if abs(dx) >= abs(dy) {
            lemma_pull_component_nonzero(dx, dist, d);
            assert(q.0 != 0);
            assert(q.0 * (p.x - pos.x) > 0) by (nonlinear_arith)
                requires
                    dx >= 0 ==> q.0 <= 0,
                    dx <= 0 ==> q.0 >= 0,
                    dx == pos.x - p.x,
                    q.0 != 0,
            ;
        } else {
            lemma_pull_component_nonzero(dy, dist, d);
            assert(q.1 != 0);
            assert(q.1 * (p.y - pos.y) > 0) by (nonlinear_arith)
                requires
                    dy >= 0 ==> q.1 <= 0,
                    dy <= 0 ==> q.1 >= 0,
                    dy == pos.y - p.y,
                    q.1 != 0,
            ;
        }
    }
}

/// The larger coordinate difference, at most 800 pixels, yields a pull
/// component of at least one unit.
proof fn lemma_pull_component_nonzero(c: int, dist: int, d: int)
    requires
        0 < dist <= 2 * abs(c),
        dist <= 1600 * SCALE,
        d == if dist < MIN_DIST {
            MIN_DIST as int
        } else {
            dist
        },
    ensures
        div_trunc(div_trunc(c * SCALE, dist) * SCALE, d) != 0,
{
    assert(dist * (SCALE / 2) <= c * SCALE || c * SCALE <= -(dist * (SCALE / 2)))
        by (nonlinear_arith)
        requires
            0 < dist <= 2 * abs(c),
    ;
    lemma_div_trunc_at_least(c * SCALE, dist, SCALE / 2);
    let n = div_trunc(c * SCALE, dist);
    assert(d * 1 <= n * SCALE || n * SCALE <= -(d * 1)) by (nonlinear_arith)
        requires
            n >= SCALE / 2 || n <= -(SCALE / 2),
            0 < d <= 1600 * SCALE,
    ;
    lemma_div_trunc_at_least(n * SCALE, d, 1);
}

/// Holding a coordinate to the canvas a second time changes nothing.
pub proof fn lemma_clamp_idempotent(v: int, hi: int)
    requires
        hi >= 0,
    ensures
        clamp(clamp(v, hi), hi) == clamp(v, hi),
{
}

/// The field reordered by `perm`: its `i`-th particle is `field[perm[i]]`.
pub open spec fn permuted(field: Seq<Particle>, perm: Seq<int>) -> Seq<Particle> {
    Seq::new(perm.len(), |i: int| field[perm[i]])
}

/// Particles do not interact: reordering the field by `perm`, running a
/// frame, and restoring the order with `inv`, which undoes `perm`, gives the
/// field that the frame gives without reordering.
pub proof fn lemma_frame_permutation_invariant(
    field: Seq<Particle>,
    perm: Seq<int>,
    inv: Seq<int>,
    pointer: Vector2,
    amount: int,
    w: int,
    h: int,
)
    requires
        perm.len() == field.len(),
        inv.len() == field.len(),
        forall|i: int| 0 <= i < perm.len() ==> 0 <= #[trigger] perm[i] < field.len(),
        forall|i: int|
            0 <= i < inv.len() ==> 0 <= #[trigger] inv[i] < field.len() && perm[inv[i]] == i,
    ensures
        permuted(frame(permuted(field, perm), pointer, amount, w, h), inv) == frame(
            field,
            pointer,
            amount,
            w,
            h,
        ),
{
    let lhs = permuted(frame(permuted(field, perm), pointer, amount, w, h), inv);
    let rhs = frame(field, pointer, amount, w, h);
    assert forall|i: int| 0 <= i < field.len() implies #[trigger] lhs[i] == rhs[i] by {
        assert(perm[inv[i]] == i);
    }
    assert(lhs =~= rhs);
}

/// The field after each pointer of `trace` in turn, one frame per pointer.
pub open spec fn run(
    field: Seq<Particle>,
    trace: Seq<Vector2>,
    amount: int,
    w: int,
    h: int,
) -> Seq<Particle>
    decreases trace.len(),
{
    if trace.len() == 0 {
        field
    } else {
        frame(run(field, trace.drop_last(), amount, w, h), trace.last(), amount, w, h)
    }
}

/// Each frame's field is a function of the field before it and the pointer:
/// two runs from the same field over the same pointer trace agree on every
/// frame.
pub proof fn lemma_run_deterministic(
    a: Seq<Particle>,
    b: Seq<Particle>,
    trace: Seq<Vector2>,
    amount: int,
    w: int,
    h: int,
)
    requires
        a == b,
    ensures
        forall|k: int|
            0 <= k <= trace.len() ==> #[trigger] run(a, trace.take(k), amount, w, h) == run(
                b,
                trace.take(k),
                amount,
                w,
                h,
            ),
{
}

} // verus!
