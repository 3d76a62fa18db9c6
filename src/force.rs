use vstd::prelude::*;

use crate::chunks::Chunks;
use crate::fixed::{
    abs, div_trunc, floor_sqrt, is_floor_sqrt, isqrt, lemma_div_trunc_bound, lemma_floor_sqrt_covers,
    lemma_floor_sqrt_exists, lemma_square_monotone, trunc_div, SCALE,
};
use crate::particle::{sat_add, GroupId, Particle, Position, Vec2, Velocity};
use crate::physics::clamp_length_spec;
use crate::rules::Rules;
use crate::settings::{Settings, LIMIT};

verus! {

/// The force modifier for a pair whose squared distance is `n` and whose
/// distance, rounded down, is `dist`. The branches compare the exact
/// distance: the repulsive ramp applies up to the repulsion range
/// (inclusive), then a triangular attraction profile that peaks at half the
/// cutoff; the ramps themselves use `dist`.
pub open spec fn modifier(n: int, dist: int, rep_range: int, rep_force: int, attraction: int, max_dist: int) -> int {
    if rep_range > 0 && n <= rep_range * rep_range {
        div_trunc(rep_force * dist, rep_range)
    } else {
        let half = max_dist / 2;
        if n < half * half {
            div_trunc(attraction * dist, half)
        } else {
            div_trunc(attraction * (dist - half), half)
        }
    }
}

/// Squared distance between two positions.
pub open spec fn sq_distance(p: Vec2, o: Vec2) -> int {
    let dx = p.x - o.x;
    let dy = p.y - o.y;
    dx * dx + dy * dy
}

/// Distance between two positions, rounded down to a whole step.
pub open spec fn distance(p: Vec2, o: Vec2) -> int {
    floor_sqrt(sq_distance(p, o))
}

/// Whether a pair at squared distance `n` interacts: not coincident, not
/// beyond the cutoff, and the cutoff spans at least two steps.
pub open spec fn interacts(n: int, max_dist: int) -> bool {
    n != 0 && n <= max_dist * max_dist && max_dist / 2 != 0
}

/// Force on a particle of group `g` at `p` from one at `o` of group `og`.
pub open spec fn pair_force_spec(p: Vec2, g: int, o: Vec2, og: int, rules: &Rules, s: &Settings) -> Vec2 {
    let dx = p.x - o.x;
    let dy = p.y - o.y;
    let n = sq_distance(p, o);
    let dist = distance(p, o);
    if !interacts(n, s.max_dist as int) {
        Vec2 { x: 0, y: 0 }
    } else {
        let m = modifier(
            n,
            dist,
            rules.rep_range@[g] as int,
            rules.rep_force@[g] as int,
            rules.attraction(g, og) as int,
            s.max_dist as int,
        );
        let strength = div_trunc(s.g * m, SCALE as int);
        Vec2 { x: (-div_trunc(dx * strength, dist)) as i64, y: (-div_trunc(dy * strength, dist)) as i64 }
    }
}

/// The accumulator after adding, with saturation, the force from each entry of `es`.
pub open spec fn entries_force(
    acc: Vec2,
    es: Seq<(Position, GroupId)>,
    p: Vec2,
    g: int,
    rules: &Rules,
    s: &Settings,
) -> Vec2
    decreases es.len(),
{
    if es.len() == 0 {
        acc
    } else {
        let e = es.last();
        sat_add(entries_force(acc, es.drop_last(), p, g, rules, s), pair_force_spec(p, g, e.0.0, e.1.0 as int, rules, s))
    }
}

/// The force accumulated over the entries of the cells `cs`, in order.
pub open spec fn cells_force(grid: &Chunks, cs: Seq<int>, p: Vec2, g: int, rules: &Rules, s: &Settings) -> Vec2
    decreases cs.len(),
{
    if cs.len() == 0 {
        Vec2 { x: 0, y: 0 }
    } else {
        entries_force(cells_force(grid, cs.drop_last(), p, g, rules, s), grid.cells()[cs.last()], p, g, rules, s)
    }
}

/// The combined force on a particle of group `g` at `p`: the sum over every
/// entry of the 3x3 block of cells around its own.
pub open spec fn force_on_spec(grid: &Chunks, p: Vec2, g: int, rules: &Rules, s: &Settings) -> Vec2 {
    cells_force(grid, grid.around(p.x as int, p.y as int), p, g, rules, s)
}

/// Largest magnitude of a strength, `g * modifier / SCALE`.
pub open spec fn strength_bound() -> int {
    2 * (LIMIT as int) * (LIMIT as int) / (SCALE as int) + 1
}

/// If `a * a < b * b` then `a < b`.
proof fn lemma_square_lt(a: int, b: int)
    requires
        a >= 0,
        b >= 0,
        a * a < b * b,
    ensures
        a < b,
{
    if a >= b {
        lemma_square_monotone(b, a);
    }
}

proof fn lemma_modifier_bound(n: int, dist: int, rr: int, rf: int, a: int, md: int)
    requires
        is_floor_sqrt(n, dist),
        1 <= n <= md * md,
        md >= 0,
        md / 2 != 0,
        abs(rf) <= LIMIT,
        abs(a) <= LIMIT,
    ensures
        1 <= dist <= md,
        abs(modifier(n, dist, rr, rf, a, md)) <= 2 * LIMIT,
{
    let half = md / 2;
    assert(dist >= 1) by (nonlinear_arith)
        requires
            is_floor_sqrt(n, dist),
            n >= 1,
    {
        if dist == 0 {
            assert((dist + 1) * (dist + 1) == 1);
        }
    }
    if dist > md {
        lemma_square_monotone(md + 1, dist);
        assert((md + 1) * (md + 1) > md * md) by (nonlinear_arith)
            requires
                md >= 0,
        ;
    }
    if rr > 0 && n <= rr * rr {
        if dist > rr {
            lemma_square_monotone(rr + 1, dist);
            assert((rr + 1) * (rr + 1) > rr * rr) by (nonlinear_arith)
                requires
                    rr >= 0,
            ;
        }
        assert(abs(rf * dist) <= abs(rf) * rr) by (nonlinear_arith)
            requires
                1 <= dist <= rr,
        ;
        lemma_div_trunc_bound(rf * dist, rr, abs(rf));
    } else {
        if n < half * half {
            if dist >= half {
                lemma_square_monotone(half, dist);
            }
            assert(abs(a * dist) <= abs(a) * half) by (nonlinear_arith)
                requires
                    1 <= dist < half,
            ;
            lemma_div_trunc_bound(a * dist, half, abs(a));
        } else {
            lemma_square_lt(half, dist + 1);
            assert(abs(a * (dist - half)) <= 2 * abs(a) * half) by (nonlinear_arith)
                requires
                    half <= dist <= md,
                    md <= 2 * half + 1,
                    half >= 1,
            ;
            lemma_div_trunc_bound(a * (dist - half), half, 2 * abs(a));
        }
    }
}

/// Force on a particle of group `group` at `pos` from one of group
/// `other_group` at `other`.
pub fn pair_force(pos: Vec2, group: usize, other: Vec2, other_group: usize, rules: &Rules, settings: &Settings) -> (r: Vec2)
    requires
        rules.wf(),
        settings.wf(),
        group < rules.groups(),
        other_group < rules.groups(),
    ensures
        r == pair_force_spec(pos, group as int, other, other_group as int, rules, settings),
        abs(r.x as int) <= strength_bound(),
        abs(r.y as int) <= strength_bound(),
{
    let dx: i128 = pos.x as i128 - other.x as i128;
    let dy: i128 = pos.y as i128 - other.y as i128;
    let md: i128 = settings.max_dist as i128;
    proof {
        lemma_floor_sqrt_covers(dx as int, dy as int);
    }
    if dx > md || dx < -md || dy > md || dy < -md || md / 2 == 0 {
        proof {
            if md / 2 != 0 {
                assert(dx * dx + dy * dy > md * md) by (nonlinear_arith)
                    requires
                        dx > md || dx < -md || dy > md || dy < -md,
                        md >= 0,
                ;
            }
        }
        return Vec2 { x: 0, y: 0 };
    }
    assert(0 <= dx * dx <= 0x100_0000_0000_0000_0000 && 0 <= dy * dy <= 0x100_0000_0000_0000_0000) by (nonlinear_arith)
        requires
            -md <= dx <= md,
            -md <= dy <= md,
            md <= 0x10_0000_0000,
    ;
    let n: u128 = (dx * dx + dy * dy) as u128;
    let ni: i128 = n as i128;
    assert(0 <= md * md <= 0x100_0000_0000_0000_0000 && 0 <= (md / 2) * (md / 2) <= md * md) by (nonlinear_arith)
        requires
            0 <= md <= 0x10_0000_0000,
    ;
    if ni == 0 || ni > md * md {
        return Vec2 { x: 0, y: 0 };
    }
    let dist: i128 = isqrt(n) as i128;
    proof {
        lemma_floor_sqrt_exists(n as int);
        lemma_modifier_bound(
            n as int,
            dist as int,
            rules.rep_range@[group as int] as int,
            rules.rep_force@[group as int] as int,
            rules.attraction(group as int, other_group as int) as int,
            md as int,
        );
    }
    let rr: i128 = rules.rep_range[group] as i128;
    let rf: i128 = rules.rep_force[group] as i128;
    let a: i128 = rules.attractions[group][other_group] as i128;
    let half: i128 = md / 2;
    proof {
        assert(-LIMIT <= rules.attraction(group as int, other_group as int) <= LIMIT);
        assert(-LIMIT <= rules.rep_force@[group as int] <= LIMIT);
        assert(abs(rf * dist) <= LIMIT * LIMIT && abs(a * dist) <= LIMIT * LIMIT && abs(a * (dist - half)) <= LIMIT * LIMIT)
            by (nonlinear_arith)
            requires
                abs(rf as int) <= LIMIT,
                abs(a as int) <= LIMIT,
                1 <= dist <= md,
                0 <= half <= dist || dist < half,
                half == md / 2,
                md <= LIMIT,
        ;
    }
    assert(rr * rr <= 0x4000_0000_0000_0000_0000_0000_0000_0000) by (nonlinear_arith)
        requires
            -0x8000_0000_0000_0000 <= rr <= 0x7fff_ffff_ffff_ffff,
    ;
    let m: i128 = if rr > 0 && ni <= rr * rr {
        trunc_div(rf * dist, rr)
    } else if ni < half * half {
        trunc_div(a * dist, half)
    } else {
        trunc_div(a * (dist - half), half)
    };
    let gg: i128 = settings.g as i128;
    proof {
        assert(abs(gg * m) <= 2 * LIMIT * LIMIT) by (nonlinear_arith)
            requires
                abs(gg as int) <= LIMIT,
                abs(m as int) <= 2 * LIMIT,
        ;
        lemma_div_trunc_bound(gg * m, SCALE as int, strength_bound());
    }
    let strength: i128 = trunc_div(gg * m, SCALE as i128);
    proof {
        assert(abs(dx * strength) <= abs(strength as int) * dist && abs(dy * strength) <= abs(strength as int) * dist)
            by (nonlinear_arith)
            requires
                abs(dx as int) <= dist,
                abs(dy as int) <= dist,
        ;
        assert(abs(strength as int) * dist <= strength_bound() * LIMIT) by (nonlinear_arith)
            requires
                abs(strength as int) <= strength_bound(),
                1 <= dist <= LIMIT,
        ;
        lemma_div_trunc_bound(dx * strength, dist as int, abs(strength as int));
        lemma_div_trunc_bound(dy * strength, dist as int, abs(strength as int));
    }
    let fx = trunc_div(dx * strength, dist);
    let fy = trunc_div(dy * strength, dist);
    Vec2 { x: (-fx) as i64, y: (-fy) as i64 }
}

/// The combined force on a particle of group `group` at `pos`, accumulated
/// with saturation over the 3x3 block of cells around its own.
pub fn force_on(grid: &Chunks, pos: Vec2, group: usize, rules: &Rules, settings: &Settings) -> (r: Vec2)
    requires
        grid.wf(),
        grid.groups_below(rules.groups()),
        rules.wf(),
        settings.wf(),
        group < rules.groups(),
    ensures
        r == force_on_spec(grid, pos, group as int, rules, settings),
{
    let cs = grid.neighbour_cells(pos.x, pos.y);
    let ghost around = grid.around(pos.x as int, pos.y as int);
    let mut acc = Vec2::zero();
    let mut c: usize = 0;
    while c < cs.len()
        invariant
            c <= cs@.len(),
            grid.wf(),
            grid.groups_below(rules.groups()),
            rules.wf(),
            settings.wf(),
            group < rules.groups(),
            cs@.len() == around.len(),
            forall|j: int| 0 <= j < cs@.len() ==> cs@[j] as int == #[trigger] around[j],
            forall|j: int| 0 <= j < cs@.len() ==> cs@[j] < grid.chunks@.len(),
            acc == cells_force(grid, around.take(c as int), pos, group as int, rules, settings),
        decreases cs@.len() - c,
    {
        let idx = cs[c];
        let chunk = &grid.chunks[idx];
        let ghost start = acc;
        let ghost es = grid.cells()[idx as int];
        assert(chunk.particles@ == es);
        let mut k: usize = 0;
        while k < chunk.particles.len()
            invariant
                k <= es.len(),
                chunk.particles@ == es,
                idx < grid.chunks@.len(),
                es == grid.cells()[idx as int],
                grid.wf(),
                grid.groups_below(rules.groups()),
                rules.wf(),
                settings.wf(),
                group < rules.groups(),
                acc == entries_force(start, es.take(k as int), pos, group as int, rules, settings),
            decreases es.len() - k,
        {
            let e = chunk.particles[k];
            assert(e == grid.cells()[idx as int][k as int]);
            let f = pair_force(pos, group, e.0.0, e.1.0, rules, settings);
            acc = acc.saturating_add(f);
            proof {
                let next = es.take(k + 1);
                assert(next.drop_last() =~= es.take(k as int));
                assert(next.last() == e);
            }
            k += 1;
        }
        proof {
            assert(es.take(es.len() as int) =~= es);
            let next = around.take(c + 1);
            assert(next.drop_last() =~= around.take(c as int));
            assert(next.last() == idx as int);
        }
        c += 1;
    }
    assert(around.take(cs@.len() as int) =~= around);
    acc
}

/// A particle once the force of its neighbourhood, clamped to the speed
/// limit, is added to its velocity.
pub open spec fn forced(p: Particle, grid: &Chunks, rules: &Rules, s: &Settings) -> Particle {
    let f = force_on_spec(grid, p.position.0, p.group_id.0 as int, rules, s);
    Particle { velocity: Velocity(sat_add(p.velocity.0, clamp_length_spec(f, s.max_velocity as int))), ..p }
}

} // verus!
