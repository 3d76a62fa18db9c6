use particle_life::chunking::sort_into_chunks;
use particle_life::chunks::Chunks;
use particle_life::fixed::{isqrt, SCALE};
use particle_life::force::{force_on, pair_force};
use particle_life::particle::{GroupId, Particle, Position, Vec2, Velocity};
use particle_life::physics::{apply_velocity, clamp_length, integrate};
use particle_life::rules::{palette, Color, Rules};
use particle_life::settings::{EdgeMode, Settings};
use particle_life::simulation::{
    configure, resolve_edge, tick, update_edge, update_repulsion, update_rules, WORLD_HEIGHT, WORLD_WIDTH,
};

fn one_group_rules(attraction: i64) -> Rules {
    Rules::new(vec![2], vec![vec![attraction]], vec![palette(0)], vec![15 * SCALE], vec![-SCALE])
}

fn at(x: i64, y: i64, group: usize) -> Particle {
    Particle::new(Position(Vec2::new(x, y)), GroupId(group))
}

fn moving(x: i64, y: i64, vx: i64, vy: i64) -> Particle {
    let mut p = at(x, y, 0);
    p.velocity = Velocity(Vec2::new(vx, vy));
    p
}

fn bound_x() -> i64 {
    WORLD_WIDTH * SCALE
}

fn bound_y() -> i64 {
    WORLD_HEIGHT * SCALE
}

#[test]
fn integer_square_roots() {
    assert_eq!(isqrt(0), 0);
    assert_eq!(isqrt(1), 1);
    assert_eq!(isqrt(15), 3);
    assert_eq!(isqrt(16), 4);
    assert_eq!(isqrt(17), 4);
    assert_eq!(isqrt(u128::MAX), u64::MAX);
}

#[test]
fn default_settings() {
    let s = Settings::default();
    assert_eq!(s.g, 98_000);
    assert_eq!(s.drag_coef, 650_000);
    assert_eq!(s.max_dist, 80 * SCALE);
    assert_eq!(s.max_velocity, 20 * SCALE);
    assert_eq!(s.edge_mode, EdgeMode::WRAP);
}

#[test]
fn repulsion_between_two_particles_at_distance_ten() {
    let rules = one_group_rules(0);
    let settings = Settings::default();
    let a = Vec2::new(10 * SCALE, 0);
    let b = Vec2::new(0, 0);
    // modifier -1 * 10 / 15 = -0.666666, strength 0.098 * 0.666666 = 0.065333
    assert_eq!(pair_force(a, 0, b, 0, &rules, &settings), Vec2::new(65_333, 0));
    assert_eq!(pair_force(b, 0, a, 0, &rules, &settings), Vec2::new(-65_333, 0));
}

#[test]
fn repulsion_scenario_through_the_force_phase() {
    let rules = one_group_rules(0);
    let settings = Settings::default();
    let mut grid = Chunks::new(20, 15, (80 * SCALE) as u64);
    let mut ps = vec![at(10 * SCALE, 0, 0), at(0, 0, 0)];
    sort_into_chunks(&mut grid, &ps);
    update_rules(&grid, &rules, &settings, &mut ps);
    assert_eq!(ps[0].velocity.0, Vec2::new(65_333, 0));
    assert_eq!(ps[1].velocity.0, Vec2::new(-65_333, 0));
    assert_eq!(ps[0].position.0, Vec2::new(10 * SCALE, 0));
}

#[test]
fn repulsion_range_boundary_is_repulsive() {
    let rules = one_group_rules(SCALE);
    let settings = Settings::default();
    let a = Vec2::new(15 * SCALE, 0);
    let b = Vec2::new(0, 0);
    // The full repulsion force -1; the attraction branch would give 15/40.
    assert_eq!(pair_force(a, 0, b, 0, &rules, &settings), Vec2::new(98_000, 0));
}

#[test]
fn attraction_profile() {
    let rules = one_group_rules(SCALE);
    let settings = Settings::default();
    let o = Vec2::new(0, 0);
    // Rising edge: 20 / 40 of the attraction.
    assert_eq!(pair_force(Vec2::new(0, 20 * SCALE), 0, o, 0, &rules, &settings), Vec2::new(0, -49_000));
    // At the cutoff: (80 - 40) / 40 of the attraction.
    assert_eq!(pair_force(Vec2::new(80 * SCALE, 0), 0, o, 0, &rules, &settings), Vec2::new(-98_000, 0));
    // At the midpoint: (40 - 40) / 40.
    assert_eq!(pair_force(Vec2::new(-40 * SCALE, 0), 0, o, 0, &rules, &settings), Vec2::new(0, 0));
}

#[test]
fn no_force_when_coincident_or_beyond_cutoff() {
    let rules = one_group_rules(SCALE);
    let settings = Settings::default();
    let o = Vec2::new(3, 4);
    assert_eq!(pair_force(o, 0, o, 0, &rules, &settings), Vec2::new(0, 0));
    assert_eq!(pair_force(Vec2::new(3 + 80 * SCALE + 1, 4), 0, o, 0, &rules, &settings), Vec2::new(0, 0));
    assert_eq!(pair_force(Vec2::new(3 + 60 * SCALE, 4 + 60 * SCALE), 0, o, 0, &rules, &settings), Vec2::new(0, 0));
    assert_eq!(pair_force(Vec2::new(i64::MAX, i64::MIN), 0, o, 0, &rules, &settings), Vec2::new(0, 0));
}

#[test]
fn zero_cutoff_means_no_interactions() {
    let rules = one_group_rules(SCALE);
    let mut settings = Settings::default();
    settings.max_dist = 0;
    assert_eq!(pair_force(Vec2::new(1, 0), 0, Vec2::new(0, 0), 0, &rules, &settings), Vec2::new(0, 0));
    settings.max_dist = 1;
    assert_eq!(pair_force(Vec2::new(1, 0), 0, Vec2::new(0, 0), 0, &rules, &settings), Vec2::new(0, 0));
}

#[test]
fn attractions_are_directional() {
    let rules = Rules::new(
        vec![1, 1],
        vec![vec![0, SCALE], vec![-SCALE, 0]],
        vec![palette(0), palette(1)],
        vec![15 * SCALE, 15 * SCALE],
        vec![-SCALE, -SCALE],
    );
    let settings = Settings::default();
    let a = Vec2::new(20 * SCALE, 0);
    let b = Vec2::new(0, 0);
    assert_eq!(pair_force(a, 0, b, 1, &rules, &settings), Vec2::new(-49_000, 0));
    assert_eq!(pair_force(b, 1, a, 0, &rules, &settings), Vec2::new(-49_000, 0));
}

#[test]
fn clamp_scales_long_vectors() {
    assert_eq!(clamp_length(Vec2::new(25 * SCALE, 0), 20 * SCALE), Vec2::new(20 * SCALE, 0));
    assert_eq!(clamp_length(Vec2::new(30 * SCALE, -40 * SCALE), 10 * SCALE), Vec2::new(6 * SCALE, -8 * SCALE));
    assert_eq!(clamp_length(Vec2::new(3, 4), 5), Vec2::new(3, 4));
    assert_eq!(clamp_length(Vec2::new(i64::MIN, i64::MIN), 0), Vec2::new(0, 0));
}

#[test]
fn integrator_clamps_before_moving() {
    let settings = Settings::default();
    let mut ps = vec![moving(0, 0, 25 * SCALE, 0)];
    apply_velocity(&settings, &mut ps);
    assert_eq!(ps[0].position.0, Vec2::new(20 * SCALE, 0));
    assert_eq!(ps[0].velocity.0, Vec2::new(13 * SCALE, 0));
    let q = integrate(moving(SCALE, 2 * SCALE, 3 * SCALE, -4 * SCALE), &settings);
    assert_eq!(q.position.0, Vec2::new(4 * SCALE, -2 * SCALE));
    assert_eq!(q.velocity.0, Vec2::new(1_950_000, -2_600_000));
}

#[test]
fn bounce_reflects_position_and_velocity() {
    let p = resolve_edge(moving(810 * SCALE, 0, 5 * SCALE, 0), EdgeMode::BOUNCE, bound_x(), bound_y());
    assert_eq!(p.position.0, Vec2::new(790 * SCALE, 0));
    assert_eq!(p.velocity.0, Vec2::new(-5 * SCALE, 0));
    let mut settings = Settings::default();
    settings.edge_mode = EdgeMode::BOUNCE;
    let mut ps = vec![moving(810 * SCALE, -610 * SCALE, 5 * SCALE, -2 * SCALE)];
    update_edge(&settings, &mut ps);
    assert_eq!(ps[0].position.0, Vec2::new(790 * SCALE, -590 * SCALE));
    assert_eq!(ps[0].velocity.0, Vec2::new(-5 * SCALE, 2 * SCALE));
}

#[test]
fn wrap_moves_to_the_opposite_edge() {
    let p = resolve_edge(moving(810 * SCALE, -601 * SCALE, 5, 6), EdgeMode::WRAP, bound_x(), bound_y());
    assert_eq!(p.position.0, Vec2::new(-790 * SCALE, 599 * SCALE));
    assert_eq!(p.velocity.0, Vec2::new(5, 6));
    let inside = moving(800 * SCALE, -600 * SCALE, 1, 1);
    assert_eq!(resolve_edge(inside, EdgeMode::WRAP, bound_x(), bound_y()), inside);
}

#[test]
fn wrap_stays_within_bounds() {
    for x in [-2400, -1601, -801, 801, 1200, 2399] {
        for y in [-1800, -700, 0, 601, 1799] {
            let p = resolve_edge(moving(x * SCALE, y * SCALE, 0, 0), EdgeMode::WRAP, bound_x(), bound_y());
            assert!(p.position.0.x.abs() <= bound_x());
            assert!(p.position.0.y.abs() <= bound_y());
        }
    }
}

#[test]
fn stop_pins_to_the_edge() {
    let p = resolve_edge(moving(-900 * SCALE, 10, -7, 3), EdgeMode::STOP, bound_x(), bound_y());
    assert_eq!(p.position.0, Vec2::new(-800 * SCALE, 10));
    assert_eq!(p.velocity.0, Vec2::new(0, 3));
}

#[test]
fn repulsion_phase_changes_nothing() {
    let settings = Settings::default();
    let mut ps = vec![moving(1, 2, 3, 4)];
    update_repulsion(&settings, &mut ps);
    assert_eq!(ps, vec![moving(1, 2, 3, 4)]);
}

#[test]
fn random_rules_follow_the_generation_contract() {
    let rules = Rules::random(4);
    assert_eq!(rules.amount, vec![1000; 4]);
    assert_eq!(rules.rep_range, vec![15 * SCALE; 4]);
    assert_eq!(rules.rep_force, vec![-SCALE; 4]);
    assert_eq!(rules.attractions.len(), 4);
    for row in &rules.attractions {
        assert_eq!(row.len(), 4);
        for &a in row {
            assert!(-SCALE <= a && a < SCALE);
        }
    }
    assert_eq!(rules.colors[0], Color { hue: 349, saturation: 100, lightness: 60, alpha: 100 });
    assert_eq!(rules.colors[3].hue, 53);
    assert_eq!(palette(5).hue, 223);
}

#[test]
fn grid_cells_are_offset_to_the_world_corner() {
    let grid = Chunks::new(20, 15, (80 * SCALE) as u64);
    assert_eq!(grid.chunks.len(), 300);
    assert_eq!(grid.cell_index(-800 * SCALE, -600 * SCALE), 0);
    assert_eq!(grid.cell_index(0, 0), 150);
    assert_eq!(grid.cell_index(-1, 0), 149);
    assert_eq!(grid.cell_index(799 * SCALE, 599 * SCALE), 299);
    assert_eq!(grid.cell_index(i64::MAX, i64::MIN), 19);
    assert!(grid.get_chunk(5, 5).is_some());
    assert!(Chunks::new(0, 3, 10).get_chunk(5, 5).is_none());
}

#[test]
fn neighbourhood_is_the_block_within_the_grid() {
    let grid = Chunks::new(20, 15, (80 * SCALE) as u64);
    assert_eq!(grid.neighbour_cells(0, 0), vec![129, 149, 169, 130, 150, 170, 131, 151, 171]);
    assert_eq!(grid.neighbour_cells(-800 * SCALE, -600 * SCALE), vec![0, 20, 1, 21]);
    assert_eq!(grid.get_chunks_around(0, 0).len(), 9);
    assert_eq!(grid.get_chunks_around(-800 * SCALE, -600 * SCALE).len(), 4);
}

#[test]
fn insert_and_clear() {
    let mut grid = Chunks::new(20, 15, (80 * SCALE) as u64);
    grid.insert_particle(Position(Vec2::new(0, 0)), GroupId(2));
    assert_eq!(grid.chunks[150].particles, vec![(Position(Vec2::new(0, 0)), GroupId(2))]);
    assert_eq!(grid.get_chunk(1, 1).unwrap().particles.len(), 1);
    grid.clear();
    assert!(grid.chunks.iter().all(|c| c.particles.is_empty()));
    assert_eq!(grid.chunks.len(), 300);
}

#[test]
fn rebuilding_twice_gives_the_same_grid() {
    let mut grid = Chunks::new(20, 15, (80 * SCALE) as u64);
    let ps = vec![at(1, 1, 0), at(-500 * SCALE, 30 * SCALE, 1), at(2, 3, 1), at(799 * SCALE, -599 * SCALE, 0)];
    sort_into_chunks(&mut grid, &ps);
    let once: Vec<_> = grid.chunks.iter().map(|c| c.particles.clone()).collect();
    sort_into_chunks(&mut grid, &ps);
    let twice: Vec<_> = grid.chunks.iter().map(|c| c.particles.clone()).collect();
    assert_eq!(once, twice);
    assert_eq!(once[150].len(), 2);
    assert_eq!(once.iter().map(|c| c.len()).sum::<usize>(), 4);
}

#[test]
fn force_on_sums_the_neighbourhood() {
    let rules = one_group_rules(0);
    let settings = Settings::default();
    let mut grid = Chunks::new(20, 15, (80 * SCALE) as u64);
    let ps = vec![at(0, 0, 0), at(10 * SCALE, 0, 0), at(-10 * SCALE, 0, 0), at(0, 10 * SCALE, 0)];
    sort_into_chunks(&mut grid, &ps);
    assert_eq!(force_on(&grid, Vec2::new(0, 0), 0, &rules, &settings), Vec2::new(0, -65_333));
}

#[test]
fn restart_spawns_every_group_at_rest() {
    let rules = Rules::random(4);
    let settings = Settings::default();
    let (grid, ps) = configure(&rules, &settings);
    assert_eq!(grid.width, 20);
    assert_eq!(grid.height, 15);
    assert_eq!(grid.size, (80 * SCALE) as u64);
    assert_eq!(ps.len(), 4000);
    for (k, p) in ps.iter().enumerate() {
        assert_eq!(p.group_id, GroupId(k / 1000));
        assert_eq!(p.velocity.0, Vec2::new(0, 0));
        assert!(-bound_x() <= p.position.0.x && p.position.0.x < bound_x());
        assert!(-bound_y() <= p.position.0.y && p.position.0.y < bound_y());
    }
    assert!(ps.iter().any(|p| p.position.0.x != ps[0].position.0.x));
    assert!(ps.iter().any(|p| p.position.0.y != -bound_y()));
    assert_eq!(grid.chunks.iter().map(|c| c.particles.len()).sum::<usize>(), 4000);
}

#[test]
fn tick_runs_the_whole_pipeline() {
    let rules = one_group_rules(0);
    let settings = Settings::default();
    let mut grid = Chunks::new(20, 15, (80 * SCALE) as u64);
    let mut ps = vec![at(10 * SCALE, 0, 0), at(0, 0, 0)];
    sort_into_chunks(&mut grid, &ps);
    tick(&mut grid, &rules, &settings, &mut ps);
    assert_eq!(ps[0].position.0, Vec2::new(10 * SCALE + 65_333, 0));
    assert_eq!(ps[0].velocity.0, Vec2::new(42_466, 0));
    assert_eq!(ps[1].position.0, Vec2::new(-65_333, 0));
    assert_eq!(grid.chunks[150].particles.len(), 1);
    assert_eq!(grid.chunks[149].particles.len(), 1);
}

#[test]
fn rule_of_one_group() {
    let rules = Rules::new(
        vec![3, 7],
        vec![vec![1, 2], vec![-3, 4]],
        vec![palette(0), palette(1)],
        vec![15 * SCALE, 9],
        vec![-SCALE, -2],
    );
    let r = rules.rule(1);
    assert_eq!(r.amount, 7);
    assert_eq!(r.attractions, vec![-3, 4]);
    assert_eq!(r.color, palette(1));
    assert_eq!(r.repulsion_range, 9);
    assert_eq!(r.repulsion_force, -2);
}

#[test]
fn no_force_just_beyond_cutoff() {
    let rules = one_group_rules(SCALE);
    let settings = Settings::default();
    let o = Vec2::new(0, 0);
    // 80 units and one step apart: the true distance exceeds the cutoff.
    assert_eq!(pair_force(Vec2::new(80 * SCALE, 1), 0, o, 0, &rules, &settings), Vec2::new(0, 0));
    assert_eq!(pair_force(Vec2::new(1, -80 * SCALE), 0, o, 0, &rules, &settings), Vec2::new(0, 0));
    let mut grid = Chunks::new(20, 15, (80 * SCALE) as u64);
    let mut ps = vec![at(0, 0, 0), at(80 * SCALE, 1, 0)];
    sort_into_chunks(&mut grid, &ps);
    update_rules(&grid, &rules, &settings, &mut ps);
    assert_eq!(ps[0].velocity.0, Vec2::new(0, 0));
    assert_eq!(ps[1].velocity.0, Vec2::new(0, 0));
}

#[test]
fn just_beyond_repulsion_range_is_attractive() {
    let rules = one_group_rules(SCALE);
    let settings = Settings::default();
    // 15 units and one step apart: attraction 15 / 40 of full strength.
    let f = pair_force(Vec2::new(15 * SCALE, 1), 0, Vec2::new(0, 0), 0, &rules, &settings);
    assert_eq!(f, Vec2::new(-36_750, 0));
}
