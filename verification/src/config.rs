//! Simulation configuration: caps, speeds, intervals and damage values.
//!
//! Times are in milliseconds, distances in world units, and speeds in
//! world units per second.

use vstd::prelude::*;
use crate::geom::COORD_LIMIT;

verus! {

/// Scale of a bullet's stored aim direction: the aim vector is scaled
/// to this length before per-bullet jitter is added, so a jitter of
/// `DIR_SCALE` corresponds to an offset of one length unit on an axis.
pub const DIR_SCALE: u64 = 1_000;

/// Upper bound accepted for one tick's elapsed time (milliseconds) and
/// for configured speeds; it keeps `speed * dt` within `u64` range.
pub const TIME_LIMIT: u64 = 1_000_000;

#[derive(Clone, Copy)]
pub struct SimConfig {
    /// Greatest number of enemies alive at once.
    pub population_cap: usize,
    /// Greatest number of enemies spawned by one spawn pass.
    pub spawn_per_wave: usize,
    /// Milliseconds between spawn passes.
    pub spawn_interval_ms: u64,
    /// Health a new enemy starts with.
    pub enemy_health: i64,
    /// Enemy homing speed, units per second.
    pub enemy_speed: u64,
    /// Player movement speed, units per second.
    pub player_speed: u64,
    /// Bullet speed, units per second.
    pub bullet_speed: u64,
    /// Health subtracted from an enemy per bullet hit.
    pub bullet_damage: i64,
    /// Bullets older than this many milliseconds are expired.
    pub bullet_lifetime_ms: u64,
    /// Cooldown between shots, milliseconds.
    pub fire_interval_ms: u64,
    /// Bullets spawned per shot, each with its own jitter.
    pub bullets_per_shot: usize,
    /// Per-axis bound of the random jitter added to a bullet's
    /// direction, in `DIR_SCALE` units.
    pub bullet_jitter: i64,
    /// Radius around a bullet within which enemies are damaged.
    pub hit_radius: i64,
    /// Health subtracted from the player per enemy contact event.
    pub contact_damage: i64,
    /// New enemies appear on a ring around the player no closer than
    /// this distance (less at most two units of integer rounding, and
    /// only as long as the ring fits inside the world).
    pub spawn_dist_min: u64,
    /// ... and never farther than this distance.
    pub spawn_dist_max: u64,
    /// Milliseconds between spatial-index rebuilds.
    pub index_refresh_ms: u64,
    /// Health the player starts with.
    pub player_max_health: i64,
}

impl SimConfig {
    /// Bounds under which every tick computation stays in range.
    pub open spec fn wf(self) -> bool {
        &&& 0 < self.enemy_health
        &&& 0 <= self.bullet_damage
        &&& 0 <= self.contact_damage <= 1_000_000
        &&& 0 < self.player_max_health
        &&& self.enemy_speed <= TIME_LIMIT
        &&& self.player_speed <= TIME_LIMIT
        &&& self.bullet_speed <= TIME_LIMIT
        &&& 0 <= self.hit_radius <= COORD_LIMIT
        &&& 3 <= self.spawn_dist_min <= self.spawn_dist_max <= COORD_LIMIT
        &&& 0 < self.bullet_jitter <= 1_000_000
        &&& 0 < self.bullets_per_shot <= 1_000_000
        &&& self.spawn_per_wave <= usize::MAX - 1
        &&& 0 < self.fire_interval_ms
        &&& 0 < self.spawn_interval_ms
        &&& 0 < self.index_refresh_ms
        &&& 0 < self.bullet_lifetime_ms
    }

    /// A ready-made configuration: up to 100 000 enemies, waves of
    /// 2 000 every second, five bullets per 100 ms shot, one second of
    /// bullet life. Distances are measured in thousandths of a game
    /// unit (one game unit is 1 000 coordinate units), so per-tick
    /// movement keeps three decimal places: at 60 frames per second an
    /// enemy's 60 units/s come to 960 coordinate units per frame. The
    /// hit radius is 50 game units, the spawn ring 2 048 to 4 096.
    pub fn standard() -> (c: SimConfig)
        ensures
            c.wf(),
            c.population_cap == 100_000,
            c.spawn_per_wave == 2_000,
            c.spawn_interval_ms == 1_000,
            c.enemy_health == 100,
            c.bullet_damage == 100,
            c.bullet_lifetime_ms == 1_000,
            c.fire_interval_ms == 100,
            c.bullets_per_shot == 5,
            c.enemy_speed == 60_000,
            c.player_speed == 120_000,
            c.bullet_speed == 600_000,
            c.hit_radius == 50_000,
            c.spawn_dist_min == 2_048_000,
            c.spawn_dist_max == 4_096_000,
    {
        SimConfig {
            population_cap: 100_000,
            spawn_per_wave: 2_000,
            spawn_interval_ms: 1_000,
            enemy_health: 100,
            enemy_speed: 60_000,
            player_speed: 120_000,
            bullet_speed: 600_000,
            bullet_damage: 100,
            bullet_lifetime_ms: 1_000,
            fire_interval_ms: 100,
            bullets_per_shot: 5,
            bullet_jitter: 1_000,
            hit_radius: 50_000,
            contact_damage: 1,
            spawn_dist_min: 2_048_000,
            spawn_dist_max: 4_096_000,
            index_refresh_ms: 200,
            player_max_health: 100,
        }
    }
}

} // verus!
