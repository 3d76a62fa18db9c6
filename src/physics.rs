use vstd::prelude::*;

use crate::fixed::{abs, div_trunc, floor_sqrt, isqrt, lemma_div_trunc_bound, lemma_floor_sqrt_covers, trunc_div};
use crate::fixed::SCALE;
use crate::particle::{sat_add, Particle, Position, Velocity, Vec2};
use crate::settings::Settings;

verus! {

/// The smallest `r` with `r * r >= n`.
pub open spec fn ceil_sqrt(n: int) -> int {
    let r = floor_sqrt(n);
    if r * r == n {
        r
    } else {
        r + 1
    }
}

/// `v` scaled down to length `max` (rounding each component toward zero) if
/// it is longer than that, else `v` itself.
pub open spec fn clamp_length_spec(v: Vec2, max: int) -> Vec2 {
    let n = v.x * v.x + v.y * v.y;
    if n <= max * max {
        v
    } else {
        let len = ceil_sqrt(n);
        Vec2 { x: div_trunc(v.x * max, len) as i64, y: div_trunc(v.y * max, len) as i64 }
    }
}

/// Clamps the length of `v` to `max`.
pub fn clamp_length(v: Vec2, max: i64) -> (r: Vec2)
    requires
        max >= 0,
    ensures
        r == clamp_length_spec(v, max as int),
        r.x * r.x + r.y * r.y <= max * max || r == v,
{
    let x = v.x as i128;
    let y = v.y as i128;
    let m = max as i128;
    assert(0 <= x * x <= 0x4000_0000_0000_0000_0000_0000_0000_0000) by (nonlinear_arith)
        requires
            -0x8000_0000_0000_0000 <= x <= 0x7fff_ffff_ffff_ffff,
    ;
    assert(0 <= y * y <= 0x4000_0000_0000_0000_0000_0000_0000_0000) by (nonlinear_arith)
        requires
            -0x8000_0000_0000_0000 <= y <= 0x7fff_ffff_ffff_ffff,
    ;
    assert(m * m <= 0x4000_0000_0000_0000_0000_0000_0000_0000) by (nonlinear_arith)
        requires
            0 <= m <= 0x7fff_ffff_ffff_ffff,
    ;
    let xx: i128 = x * x;
    let yy: i128 = y * y;
    let n: u128 = xx as u128 + yy as u128;
    if n <= (m * m) as u128 {
        return v;
    }
    let r64 = isqrt(n);
    let r: u128 = r64 as u128;
    assert(r * r <= n);
    let len: i128 = if r * r == n { r as i128 } else { r as i128 + 1 };
    assert(len * len >= n) by (nonlinear_arith)
        requires
            len == r || len == r + 1,
            r * r == n || len == r + 1,
            n < (r + 1) * (r + 1),
            r >= 0,
    ;
    proof {
        lemma_floor_sqrt_covers(x as int, y as int);
        assert(len >= 1);
        assert(abs(x as int) <= len && abs(y as int) <= len);
        assert(abs(x * m) <= m * len && abs(y * m) <= m * len) by (nonlinear_arith)
            requires
                abs(x as int) <= len,
                abs(y as int) <= len,
                m >= 0,
        ;
        assert(abs(x * m) <= 0x4000_0000_0000_0000_0000_0000_0000_0000) by (nonlinear_arith)
            requires
                -0x8000_0000_0000_0000 <= x <= 0x7fff_ffff_ffff_ffff,
                0 <= m <= 0x7fff_ffff_ffff_ffff,
        ;
        assert(abs(y * m) <= 0x4000_0000_0000_0000_0000_0000_0000_0000) by (nonlinear_arith)
            requires
                -0x8000_0000_0000_0000 <= y <= 0x7fff_ffff_ffff_ffff,
                0 <= m <= 0x7fff_ffff_ffff_ffff,
        ;
        lemma_div_trunc_bound(x * m, len as int, m as int);
        lemma_div_trunc_bound(y * m, len as int, m as int);
    }
    let rx = trunc_div(x * m, len);
    let ry = trunc_div(y * m, len);
    proof {
        let fx = abs(rx as int);
        let fy = abs(ry as int);
        assert(abs(x * m) == abs(x as int) * m && abs(y * m) == abs(y as int) * m) by (nonlinear_arith)
            requires
                m >= 0,
        ;
        assert(abs(x as int) * abs(x as int) == x * x && abs(y as int) * abs(y as int) == y * y) by (nonlinear_arith);
        assert(fx * len <= abs(x as int) * m) by (nonlinear_arith)
            requires
                fx * len <= abs(x * m),
                abs(x * m) == abs(x as int) * m,
        ;
        assert(fx * fx + fy * fy <= m * m) by (nonlinear_arith)
            requires
                fx * len <= abs(x as int) * m,
                fy * len <= abs(y as int) * m,
                fx >= 0,
                fy >= 0,
                len >= 1,
                m >= 0,
                len * len >= n,
                n == abs(x as int) * abs(x as int) + abs(y as int) * abs(y as int),
        ;
        assert(fx * fx == rx * rx && fy * fy == ry * ry) by (nonlinear_arith)
            requires
                fx == rx || fx == -rx,
                fy == ry || fy == -ry,
        ;
    }
    Vec2 { x: rx as i64, y: ry as i64 }
}

/// `v` scaled by the drag coefficient, each component rounded toward zero.
pub open spec fn drag_spec(v: Vec2, drag: int) -> Vec2 {
    Vec2 { x: div_trunc(v.x * drag, SCALE as int) as i64, y: div_trunc(v.y * drag, SCALE as int) as i64 }
}

/// A particle after one integration step: its velocity clamped to the speed
/// limit, its position moved by that velocity, and the velocity then damped.
pub open spec fn integrated(p: Particle, s: Settings) -> Particle {
    let v = clamp_length_spec(p.velocity.0, s.max_velocity as int);
    Particle {
        position: Position(sat_add(p.position.0, v)),
        velocity: Velocity(drag_spec(v, s.drag_coef as int)),
        ..p
    }
}

fn drag_component(c: i64, drag: i64) -> (r: i64)
    requires
        0 <= drag <= SCALE,
    ensures
        r as int == div_trunc(c * drag, SCALE as int),
{
    proof {
        assert(abs(c * drag) <= abs(c as int) * SCALE) by (nonlinear_arith)
            requires
                0 <= drag <= SCALE,
        ;
        assert(abs(c * drag) <= 0x8000_0000_0000_0000 * SCALE) by (nonlinear_arith)
            requires
                0 <= drag <= SCALE,
                -0x8000_0000_0000_0000 <= c <= 0x7fff_ffff_ffff_ffff,
        ;
        lemma_div_trunc_bound(c * drag, SCALE as int, abs(c as int));
        if c >= 0 {
            assert(c * drag >= 0) by (nonlinear_arith)
                requires
                    c >= 0,
                    drag >= 0,
            ;
        } else {
            assert(c * drag <= 0) by (nonlinear_arith)
                requires
                    c < 0,
                    drag >= 0,
            ;
        }
    }
    let q = trunc_div(c as i128 * drag as i128, SCALE as i128);
    q as i64
}

/// One integration step of a single particle.
pub fn integrate(p: Particle, settings: &Settings) -> (r: Particle)
    requires
        settings.wf(),
    ensures
        r == integrated(p, *settings),
{
    let v = clamp_length(p.velocity.0, settings.max_velocity);
    let pos = p.position.0.saturating_add(v);
    let d = Vec2 { x: drag_component(v.x, settings.drag_coef), y: drag_component(v.y, settings.drag_coef) };
    Particle { position: Position(pos), velocity: Velocity(d), ..p }
}

/// Advances every particle by one integration step.
pub fn apply_velocity(settings: &Settings, particles: &mut Vec<Particle>)
    requires
        settings.wf(),
    ensures
        final(particles)@.len() == old(particles)@.len(),
        forall|i: int|
            0 <= i < old(particles)@.len() ==> #[trigger] final(particles)@[i] == integrated(
                old(particles)@[i],
                *settings,
            ),
{
    let n = particles.len();
    let mut i: usize = 0;
    while i < n
        invariant
            i <= n,
            n == old(particles)@.len(),
            particles@.len() == n,
            settings.wf(),
            forall|k: int| 0 <= k < i ==> #[trigger] particles@[k] == integrated(old(particles)@[k], *settings),
            forall|k: int| i <= k < n ==> #[trigger] particles@[k] == old(particles)@[k],
        decreases n - i,
    {
        let p = integrate(particles[i], settings);
        particles.set(i, p);
        i += 1;
    }
}

} // verus!
