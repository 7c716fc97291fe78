//! Player state: position, health and movement state. The core moves
//! the player by the input collaborator's intent vector, applies
//! contact damage reported for enemy collisions, and raises the
//! depleted signal that drives the game-over transition.

use vstd::prelude::*;
use crate::geom::{Vec2, in_world, step_along_spec, step_along, COORD_LIMIT};
use crate::config::SimConfig;
use crate::combat::damaged;

verus! {

/// Whether the player is moving, for presentation (animation) only.
#[derive(Clone, Copy, PartialEq, Eq, Structural, Debug)]
pub enum PlayerState {
    Idle,
    Moving,
}

/// The player: position, health and movement state.
#[derive(Clone, Copy, PartialEq, Eq, Structural, Debug)]
pub struct Player {
    pub pos: Vec2,
    pub health: i64,
    pub state: PlayerState,
}

impl Player {
    /// The player's position stays inside the world range.
    pub open spec fn wf(self) -> bool {
        in_world(self.pos)
    }

    /// A player at the world origin with full health, idle.
    pub fn new(cfg: &SimConfig) -> (p: Player)
        requires
            cfg.wf(),
        ensures
            p.wf(),
            p.pos == (Vec2 { x: 0, y: 0 }),
            p.health == cfg.player_max_health,
            p.state == PlayerState::Idle,
    {
        Player { pos: Vec2 { x: 0, y: 0 }, health: cfg.player_max_health, state: PlayerState::Idle }
    }

    /// One movement pass: step by `step` units along the normalized
    /// intent vector; a zero intent moves nothing and sets the state to
    /// idle, any other intent to moving. Health is untouched. The
    /// caller converts elapsed time to whole units as
    /// `speed * dt / 1000` and carries the sub-unit remainder forward
    /// (see `Simulation::tick`).
    pub fn move_tick(&mut self, intent: Vec2, step: u64)
        requires
            old(self).wf(),
            step <= COORD_LIMIT,
            -2 * COORD_LIMIT <= intent.x <= 2 * COORD_LIMIT,
            -2 * COORD_LIMIT <= intent.y <= 2 * COORD_LIMIT,
        ensures
            final(self).wf(),
            final(self).health == old(self).health,
            final(self).pos == step_along_spec(old(self).pos, intent, step as int),
            final(self).state == (if intent.x == 0 && intent.y == 0 {
                PlayerState::Idle
            } else {
                PlayerState::Moving
            }),
    {
        self.pos = step_along(self.pos, intent, step);
        self.state = if intent.x == 0 && intent.y == 0 {
            PlayerState::Idle
        } else {
            PlayerState::Moving
        };
    }

    /// Apply `hits` enemy-contact events: each subtracts
    /// `contact_damage` from the player's health, saturating at the
    /// lowest `i64`.
    pub fn apply_contact_hits(&mut self, hits: u64, cfg: &SimConfig)
        requires
            old(self).wf(),
            cfg.wf(),
            hits <= 1_000_000_000,
        ensures
            final(self).wf(),
            final(self).pos == old(self).pos,
            final(self).state == old(self).state,
            final(self).health == damaged(
                old(self).health as int,
                cfg.contact_damage as int,
                hits as nat,
            ) as i64,
    {
        assert(cfg.contact_damage * (hits as i64) <= 1_000_000_000_000_000) by (nonlinear_arith)
            requires
                0 <= cfg.contact_damage <= 1_000_000,
                0 <= hits as i64 <= 1_000_000_000,
        ;
        assert(0 <= cfg.contact_damage * (hits as i64)) by (nonlinear_arith)
            requires
                0 <= cfg.contact_damage,
                0 <= hits as i64,
        ;
        let total: i64 = cfg.contact_damage * (hits as i64);
        if self.health >= i64::MIN + total {
            self.health = self.health - total;
        } else {
            self.health = i64::MIN;
        }
    }

    /// The game-over condition: the player's health is depleted.
    pub fn depleted(&self) -> (b: bool)
        ensures
            b == (self.health <= 0),
    {
        self.health <= 0
    }
}

} // verus!
