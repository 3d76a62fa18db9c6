use vstd::prelude::*;

use crate::fixed::SCALE;

verus! {

/// Largest magnitude, in fixed-point steps, of a distance, speed or force
/// coefficient; it keeps every intermediate product of a tick within `i128`.
pub const LIMIT: i64 = 0x10_0000_0000;

/// What happens to a particle that leaves the world.
#[derive(Clone, Copy, PartialEq, Eq, Structural, Debug)]
pub enum EdgeMode {
    WRAP,
    BOUNCE,
    STOP,
}

/// Global tunables, all in fixed-point steps.
#[derive(Clone, Copy, PartialEq, Eq, Structural, Debug)]
pub struct Settings {
    /// Global force scale.
    pub g: i64,
    /// Nominal particle mass; no force law reads it.
    pub mass: i64,
    /// Share of the velocity kept after each tick, `SCALE` being all of it.
    pub drag_coef: i64,
    /// Force cutoff distance and grid cell size.
    pub max_dist: i64,
    /// Speed clamp.
    pub max_velocity: i64,
    pub edge_mode: EdgeMode,
}

impl Settings {
    pub open spec fn wf(&self) -> bool {
        &&& -LIMIT <= self.g <= LIMIT
        &&& 0 <= self.drag_coef <= SCALE
        &&& 0 <= self.max_dist <= LIMIT
        &&& 0 <= self.max_velocity <= LIMIT
    }
}

impl Default for Settings {
    fn default() -> (r: Settings)
        ensures
            r.wf(),
            r.g == 98_000,
            r.mass == SCALE,
            r.drag_coef == 650_000,
            r.max_dist == 80 * SCALE,
            r.max_velocity == 20 * SCALE,
            r.edge_mode == EdgeMode::WRAP,
    {
        Settings {
            g: 98_000,
            mass: SCALE,
            drag_coef: 650_000,
            max_dist: 80 * SCALE,
            max_velocity: 20 * SCALE,
            edge_mode: EdgeMode::WRAP,
        }
    }
}

} // verus!
