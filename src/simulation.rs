use vstd::prelude::*;

use crate::chunking::{lemma_filled_groups, sort_into_chunks};
use crate::chunks::Chunks;
use crate::fixed::{abs, floor_sqrt, is_floor_sqrt, lemma_floor_sqrt_unique, sat, saturate, SCALE};
use crate::force::{force_on, forced, modifier, pair_force_spec, sq_distance};
use crate::physics::{apply_velocity, clamp_length, integrated};
use crate::rules::{random_between, Rules};
use crate::particle::{GroupId, Particle, Position, Vec2, Velocity};
use crate::settings::{EdgeMode, Settings, LIMIT};

verus! {

/// Half the world's width, in world units: the world spans `[-WORLD_WIDTH, WORLD_WIDTH)`.
pub const WORLD_WIDTH: i64 = 800;

/// Half the world's height, in world units.
pub const WORLD_HEIGHT: i64 = 600;

/// `sign(p) * m`, for the edge formulas (`p` is never zero there).
pub open spec fn signed(p: int, m: int) -> int {
    if p > 0 {
        m
    } else {
        -m
    }
}

/// Position and velocity along one axis once the edge policy is applied
/// against the bound `b`.
pub open spec fn edge_axis(p: int, v: int, b: int, mode: EdgeMode) -> (int, int) {
    if abs(p) <= b {
        (p, v)
    } else {
        match mode {
            EdgeMode::WRAP => (sat(-(signed(p, 2 * b) - p)), v),
            EdgeMode::BOUNCE => (sat(signed(p, 2 * b) - p), sat(-v)),
            EdgeMode::STOP => (signed(p, b), 0),
        }
    }
}

/// A particle once the edge policy is applied on both axes.
pub open spec fn resolved(p: Particle, mode: EdgeMode, bx: int, by: int) -> Particle {
    let (px, vx) = edge_axis(p.position.0.x as int, p.velocity.0.x as int, bx, mode);
    let (py, vy) = edge_axis(p.position.0.y as int, p.velocity.0.y as int, by, mode);
    Particle {
        position: Position(Vec2 { x: px as i64, y: py as i64 }),
        velocity: Velocity(Vec2 { x: vx as i64, y: vy as i64 }),
        ..p
    }
}

fn edge_axis_exec(p: i64, v: i64, b: i64, mode: EdgeMode) -> (r: (i64, i64))
    requires
        0 <= b <= LIMIT,
    ensures
        r.0 as int == edge_axis(p as int, v as int, b as int, mode).0,
        r.1 as int == edge_axis(p as int, v as int, b as int, mode).1,
{
    let pw = p as i128;
    let bw = b as i128;
    if -bw <= pw && pw <= bw {
        return (p, v);
    }
    let twice: i128 = if pw > 0 { 2 * bw } else { -(2 * bw) };
    let once: i128 = if pw > 0 { bw } else { -bw };
    match mode {
        EdgeMode::WRAP => (saturate(-(twice - pw)), v),
        EdgeMode::BOUNCE => (saturate(twice - pw), saturate(-(v as i128))),
        EdgeMode::STOP => (once as i64, 0),
    }
}

/// Applies the edge policy `mode` to a particle, against the bounds `bx`
/// and `by`.
pub fn resolve_edge(p: Particle, mode: EdgeMode, bx: i64, by: i64) -> (r: Particle)
    requires
        0 <= bx <= LIMIT,
        0 <= by <= LIMIT,
    ensures
        r == resolved(p, mode, bx as int, by as int),
{
    let (px, vx) = edge_axis_exec(p.position.0.x, p.velocity.0.x, bx, mode);
    let (py, vy) = edge_axis_exec(p.position.0.y, p.velocity.0.y, by, mode);
    Particle { position: Position(Vec2 { x: px, y: py }), velocity: Velocity(Vec2 { x: vx, y: vy }), ..p }
}

/// The world's bounds in fixed-point steps.
pub open spec fn bound_x() -> int {
    WORLD_WIDTH * SCALE
}

pub open spec fn bound_y() -> int {
    WORLD_HEIGHT * SCALE
}

/// Applies the configured edge policy to every particle.
pub fn update_edge(settings: &Settings, particles: &mut Vec<Particle>)
    ensures
        final(particles)@.len() == old(particles)@.len(),
        forall|i: int|
            0 <= i < old(particles)@.len() ==> #[trigger] final(particles)@[i] == resolved(
                old(particles)@[i],
                settings.edge_mode,
                bound_x(),
                bound_y(),
            ),
{
    let bx: i64 = WORLD_WIDTH * SCALE;
    let by: i64 = WORLD_HEIGHT * SCALE;
    let n = particles.len();
    let mut i: usize = 0;
    while i < n
        invariant
            i <= n,
            n == old(particles)@.len(),
            particles@.len() == n,
            bx == bound_x(),
            by == bound_y(),
            forall|k: int|
                0 <= k < i ==> #[trigger] particles@[k] == resolved(
                    old(particles)@[k],
                    settings.edge_mode,
                    bound_x(),
                    bound_y(),
                ),
            forall|k: int| i <= k < n ==> #[trigger] particles@[k] == old(particles)@[k],
        decreases n - i,
    {
        let p = resolve_edge(particles[i], settings.edge_mode, bx, by);
        particles.set(i, p);
        i += 1;
    }
}

/// Under the wrap policy, a particle that overshot a bound by less than twice
/// that bound ends within the bounds on both axes.
pub proof fn lemma_wrap_stays_within_bounds(p: Particle, bx: int, by: int)
    requires
        0 <= bx,
        0 <= by,
        abs(p.position.0.x as int) <= 3 * bx,
        abs(p.position.0.y as int) <= 3 * by,
    ensures
        abs(resolved(p, EdgeMode::WRAP, bx, by).position.0.x as int) <= bx,
        abs(resolved(p, EdgeMode::WRAP, bx, by).position.0.y as int) <= by,
{
}

/// Every particle's group is below `n`.
pub open spec fn groups_below(ps: Seq<Particle>, n: nat) -> bool {
    forall|i: int| 0 <= i < ps.len() ==> (#[trigger] ps[i]).group_id.0 < n
}

/// Adds to every particle's velocity the clamped force of its neighbourhood,
/// read from the grid's snapshot.
pub fn update_rules(chunks: &Chunks, rules: &Rules, settings: &Settings, particles: &mut Vec<Particle>)
    requires
        chunks.wf(),
        chunks.groups_below(rules.groups()),
        rules.wf(),
        settings.wf(),
        groups_below(old(particles)@, rules.groups()),
    ensures
        final(particles)@.len() == old(particles)@.len(),
        forall|i: int|
            0 <= i < old(particles)@.len() ==> #[trigger] final(particles)@[i] == forced(
                old(particles)@[i],
                chunks,
                rules,
                settings,
            ),
{
    let n = particles.len();
    let mut i: usize = 0;
    while i < n
        invariant
            i <= n,
            n == old(particles)@.len(),
            particles@.len() == n,
            chunks.wf(),
            chunks.groups_below(rules.groups()),
            rules.wf(),
            settings.wf(),
            groups_below(old(particles)@, rules.groups()),
            forall|k: int| 0 <= k < i ==> #[trigger] particles@[k] == forced(old(particles)@[k], chunks, rules, settings),
            forall|k: int| i <= k < n ==> #[trigger] particles@[k] == old(particles)@[k],
        decreases n - i,
    {
        let p = particles[i];
        assert(p == old(particles)@[i as int]);
        let f = force_on(chunks, p.position.0, p.group_id.0, rules, settings);
        let c = clamp_length(f, settings.max_velocity);
        let q = Particle { velocity: Velocity(p.velocity.0.saturating_add(c)), ..p };
        particles.set(i, q);
        i += 1;
    }
}

/// Short-range repulsion phase; repulsion is part of the force field, so
/// this phase leaves every particle as it is.
pub fn update_repulsion(settings: &Settings, particles: &mut Vec<Particle>)
    ensures
        final(particles)@ == old(particles)@,
{
}

/// A pair that coincides, or whose distance exceeds the cutoff, exerts no
/// force.
pub proof fn lemma_no_force_out_of_range(p: Vec2, g: int, o: Vec2, og: int, rules: &Rules, s: &Settings)
    requires
        sq_distance(p, o) == 0 || sq_distance(p, o) > s.max_dist * s.max_dist,
    ensures
        pair_force_spec(p, g, o, og, rules, s) == (Vec2 { x: 0, y: 0 }),
{
}

/// A pair exactly the repulsion range apart falls in the repulsive branch:
/// its rounded distance is the range itself, and the modifier equals the full
/// repulsion force.
pub proof fn lemma_repulsion_range_inclusive(rep_range: int, rep_force: int, attraction: int, max_dist: int)
    requires
        rep_range > 0,
    ensures
        floor_sqrt(rep_range * rep_range) == rep_range,
        modifier(rep_range * rep_range, rep_range, rep_range, rep_force, attraction, max_dist) == rep_force,
{
    let dist = rep_range;
    assert(is_floor_sqrt(dist * dist, dist)) by (nonlinear_arith)
        requires
            dist > 0,
    ;
    lemma_floor_sqrt_unique(dist * dist, dist);
    let q = abs(rep_force * dist) / abs(dist);
    assert(abs(rep_force * dist) == abs(rep_force) * dist) by (nonlinear_arith)
        requires
            dist > 0,
    ;
    vstd::arithmetic::div_mod::lemma_div_by_multiple(abs(rep_force), dist);
    assert((rep_force * dist < 0) == (rep_force < 0)) by (nonlinear_arith)
        requires
            dist > 0,
    ;
}

/// Cells needed along an axis of half-extent `extent` for a cutoff `max_dist`:
/// `ceil(2 * extent / max_dist)`, or a single cell when the cutoff is zero.
pub open spec fn cells_along(extent: int, max_dist: int) -> int {
    if max_dist <= 0 {
        1
    } else {
        (2 * extent + max_dist - 1) / max_dist
    }
}

fn cells_along_exec(extent: i64, max_dist: i64) -> (r: usize)
    requires
        0 <= extent <= WORLD_WIDTH * SCALE,
        0 <= max_dist <= LIMIT,
    ensures
        r as int == cells_along(extent as int, max_dist as int),
        r <= 2 * WORLD_WIDTH * SCALE,
{
    if max_dist <= 0 {
        return 1;
    }
    let q: i64 = (2 * extent + max_dist - 1) / max_dist;
    assert(q <= 2 * extent) by (nonlinear_arith)
        requires
            q == (2 * extent + max_dist - 1) as int / max_dist as int,
            max_dist >= 1,
            extent >= 0,
    ;
    q as usize
}

/// The group of each particle a restart spawns: `amount[0]` particles of
/// group 0, then `amount[1]` of group 1, and so on, over the first `n` groups.
pub open spec fn spawn_layout(amount: Seq<usize>, n: int) -> Seq<int>
    decreases n,
{
    if n <= 0 {
        Seq::empty()
    } else {
        spawn_layout(amount, n - 1) + Seq::new(amount[n - 1] as nat, |k: int| n - 1)
    }
}

/// A particle as a restart spawns it: at rest, of group `g`, inside the world.
pub open spec fn spawned(p: Particle, g: int) -> bool {
    &&& p.group_id.0 == g
    &&& p.velocity.0 == Vec2::zero_spec()
    &&& -bound_x() <= p.position.0.x < bound_x()
    &&& -bound_y() <= p.position.0.y < bound_y()
}

/// Rebuilds the world for new rules: a grid sized to the cutoff distance, and
/// for each group its amount of particles at random positions, at rest; the
/// grid is filled from them.
pub fn configure(rules: &Rules, settings: &Settings) -> (r: (Chunks, Vec<Particle>))
    requires
        rules.wf(),
        settings.wf(),
        cells_along(bound_x(), settings.max_dist as int) * cells_along(bound_y(), settings.max_dist as int)
            <= usize::MAX,
    ensures
        r.0.wf(),
        r.0.width == cells_along(bound_x(), settings.max_dist as int),
        r.0.height == cells_along(bound_y(), settings.max_dist as int),
        r.0.size == settings.max_dist,
        r.0.cells() == r.0.filled(r.1@),
        r.0.groups_below(rules.groups()),
        r.1@.len() == spawn_layout(rules.amount@, rules.groups() as int).len(),
        forall|k: int|
            0 <= k < r.1@.len() ==> spawned(#[trigger] r.1@[k], spawn_layout(rules.amount@, rules.groups() as int)[k]),
{
    let bx: i64 = WORLD_WIDTH * SCALE;
    let by: i64 = WORLD_HEIGHT * SCALE;
    let w = cells_along_exec(bx, settings.max_dist);
    let h = cells_along_exec(by, settings.max_dist);
    let mut chunks = Chunks::new(w, h, settings.max_dist as u64);
    let mut particles: Vec<Particle> = Vec::new();
    let groups = rules.amount.len();
    let mut g: usize = 0;
    while g < groups
        invariant
            g <= groups,
            groups == rules.groups(),
            rules.wf(),
            bx == bound_x(),
            by == bound_y(),
            particles@.len() == spawn_layout(rules.amount@, g as int).len(),
            forall|k: int|
                0 <= k < particles@.len() ==> spawned(#[trigger] particles@[k], spawn_layout(rules.amount@, g as int)[k]),
        decreases groups - g,
    {
        let count = rules.amount[g];
        let ghost before = particles@;
        let ghost layout = spawn_layout(rules.amount@, g as int);
        let mut j: usize = 0;
        while j < count
            invariant
                j <= count,
                bx == bound_x(),
                by == bound_y(),
                particles@.len() == before.len() + j,
                before.len() == layout.len(),
                forall|k: int| 0 <= k < before.len() ==> #[trigger] particles@[k] == before[k],
                forall|k: int| 0 <= k < before.len() ==> spawned(#[trigger] before[k], layout[k]),
                forall|k: int| before.len() <= k < particles@.len() ==> spawned(#[trigger] particles@[k], g as int),
            decreases count - j,
        {
            let x = random_between(-bx, bx);
            let y = random_between(-by, by);
            particles.push(Particle::new(Position(Vec2::new(x, y)), GroupId(g)));
            j += 1;
        }
        proof {
            let next = spawn_layout(rules.amount@, g + 1);
            assert(next == layout + Seq::new(count as nat, |k: int| g as int));
            assert forall|k: int| 0 <= k < particles@.len() implies spawned(#[trigger] particles@[k], next[k]) by {
                if k < before.len() {
                    assert(particles@[k] == before[k]);
                }
            }
        }
        g += 1;
    }
    proof {
        let layout = spawn_layout(rules.amount@, groups as int);
        assert forall|i: int| 0 <= i < particles@.len() implies (#[trigger] particles@[i]).group_id.0 < rules.groups() by {
            lemma_layout_groups(rules.amount@, groups as int, i);
        }
    }
    sort_into_chunks(&mut chunks, &particles);
    proof {
        lemma_filled_groups(&chunks, particles@, rules.groups());
    }
    (chunks, particles)
}

proof fn lemma_layout_groups(amount: Seq<usize>, n: int, i: int)
    requires
        0 <= i < spawn_layout(amount, n).len(),
    ensures
        0 <= spawn_layout(amount, n)[i] < n,
    decreases n,
{
    if n > 0 {
        let prev = spawn_layout(amount, n - 1);
        if i < prev.len() {
            lemma_layout_groups(amount, n - 1, i);
        }
    }
}

/// A particle after one tick: forces from the snapshot, then the edge
/// policy, then integration.
pub open spec fn stepped(p: Particle, grid: &Chunks, rules: &Rules, s: &Settings) -> Particle {
    integrated(resolved(forced(p, grid, rules, s), s.edge_mode, bound_x(), bound_y()), *s)
}

/// One tick of the pipeline: force field (from the grid's snapshot), edges,
/// integration, and the grid rebuilt from the new positions.
pub fn tick(chunks: &mut Chunks, rules: &Rules, settings: &Settings, particles: &mut Vec<Particle>)
    requires
        old(chunks).wf(),
        old(chunks).groups_below(rules.groups()),
        rules.wf(),
        settings.wf(),
        groups_below(old(particles)@, rules.groups()),
    ensures
        final(particles)@.len() == old(particles)@.len(),
        forall|i: int|
            0 <= i < old(particles)@.len() ==> #[trigger] final(particles)@[i] == stepped(
                old(particles)@[i],
                old(chunks),
                rules,
                settings,
            ),
        final(chunks).wf(),
        final(chunks).same_shape(old(chunks)),
        final(chunks).cells() == old(chunks).filled(final(particles)@),
        final(chunks).groups_below(rules.groups()),
        groups_below(final(particles)@, rules.groups()),
{
    update_rules(chunks, rules, settings, particles);
    update_edge(settings, particles);
    apply_velocity(settings, particles);
    assert forall|i: int| 0 <= i < particles@.len() implies (#[trigger] particles@[i]).group_id.0 < rules.groups() by {
        assert(particles@[i].group_id == old(particles)@[i].group_id);
    }
    sort_into_chunks(chunks, particles);
    proof {
        lemma_filled_groups(old(chunks), particles@, rules.groups());
    }
}

} // verus!
