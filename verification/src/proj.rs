//! Bullet lifecycle: rate-limited firing with per-bullet spread,
//! position integration along a re-normalized direction, and age
//! expiry. A bullet is never consumed by a hit (it pierces); it dies
//! only by age.

use vstd::prelude::*;
use crate::geom::{
    Vec2, in_world, step_along_spec, step_along, scaled_offset, scaled_offset_x, scaled_offset_y,
    abs_val, COORD_LIMIT,
};
use crate::config::{SimConfig, DIR_SCALE, TIME_LIMIT};
use crate::rng::rand_range_i64;

verus! {

broadcast use vstd::seq_lib::group_filter_ensures;

/// One bullet: position, a (not necessarily unit) direction, and the
/// time it was fired, in milliseconds.
#[derive(Clone, Copy, PartialEq, Eq, Structural, Debug)]
pub struct Bullet {
    pub pos: Vec2,
    pub dir: Vec2,
    pub spawn_time: u64,
}

/// A bullet whose position and direction stay within the ranges the
/// movement arithmetic needs.
pub open spec fn bullet_ok(b: Bullet) -> bool {
    &&& in_world(b.pos)
    &&& -2 * COORD_LIMIT <= b.dir.x <= 2 * COORD_LIMIT
    &&& -2 * COORD_LIMIT <= b.dir.y <= 2 * COORD_LIMIT
}

/// `a + b` saturating at `u64::MAX`.
pub open spec fn sat_add_u64(a: u64, b: u64) -> u64 {
    if a + b > u64::MAX {
        u64::MAX
    } else {
        (a + b) as u64
    }
}

/// The bullets still alive at time `now`: those whose lifetime has not
/// yet passed since they were fired.
pub open spec fn live_pred(lifetime: u64, now: u64) -> spec_fn(Bullet) -> bool {
    |b: Bullet| b.spawn_time + lifetime > now
}

/// The base direction of a shot fired from `origin` at `aim`: the aim
/// vector scaled to length `DIR_SCALE` (zero if `aim == origin`).
pub open spec fn base_dir_x(origin: Vec2, aim: Vec2) -> int {
    scaled_offset_x(aim.x - origin.x, aim.y - origin.y, DIR_SCALE as int)
}

pub open spec fn base_dir_y(origin: Vec2, aim: Vec2) -> int {
    scaled_offset_y(aim.x - origin.x, aim.y - origin.y, DIR_SCALE as int)
}

/// The projectile set and the weapon's cooldown stopwatch.
pub struct Projectiles {
    bullets: Vec<Bullet>,
    cooldown_ms: u64,
}

impl Projectiles {
    /// The live bullets, in firing order.
    pub closed spec fn bullets_seq(self) -> Seq<Bullet> {
        self.bullets@
    }

    /// Milliseconds accumulated since the last shot (saturating).
    pub closed spec fn cooldown(self) -> u64 {
        self.cooldown_ms
    }

    /// Every bullet is within the movement arithmetic's ranges.
    pub open spec fn wf(self) -> bool {
        forall|i: int| 0 <= i < self.bullets_seq().len() ==> bullet_ok(#[trigger] self.bullets_seq()[i])
    }

    /// No bullets; the weapon starts ready to fire as soon as the
    /// cooldown has accumulated once.
    pub fn new() -> (p: Projectiles)
        ensures
            p.wf(),
            p.bullets_seq() == Seq::<Bullet>::empty(),
            p.cooldown() == 0,
    {
        Projectiles { bullets: Vec::new(), cooldown_ms: 0 }
    }

    /// Number of live bullets.
    pub fn bullet_count(&self) -> (n: usize)
        ensures
            n == self.bullets_seq().len(),
    {
        self.bullets.len()
    }

    /// The live bullets, for collision resolution and rendering.
    pub fn bullet_list(&self) -> (r: &Vec<Bullet>)
        ensures
            r@ == self.bullets_seq(),
    {
        &self.bullets
    }

    /// One trigger pass. The cooldown stopwatch advances by `dt_ms`;
    /// while the trigger is held and the cooldown has reached
    /// `fire_interval_ms`, the stopwatch resets and `bullets_per_shot`
    /// bullets leave `origin` toward `aim`, each with its direction
    /// jittered independently by at most `bullet_jitter` per axis.
    pub fn fire_tick(
        &mut self,
        trigger_held: bool,
        origin: Vec2,
        aim: Vec2,
        now_ms: u64,
        dt_ms: u64,
        cfg: &SimConfig,
    ) -> (fired: usize)
        requires
            old(self).wf(),
            cfg.wf(),
            in_world(origin),
            in_world(aim),
            dt_ms <= TIME_LIMIT,
        ensures
            final(self).wf(),
            fired == (if trigger_held && sat_add_u64(old(self).cooldown(), dt_ms)
                >= cfg.fire_interval_ms {
                cfg.bullets_per_shot as int
            } else {
                0
            }),
            fired == 0 ==> final(self).bullets_seq() == old(self).bullets_seq()
                && final(self).cooldown() == sat_add_u64(old(self).cooldown(), dt_ms),
            fired > 0 ==> final(self).cooldown() == 0,
            final(self).bullets_seq().len() == old(self).bullets_seq().len() + fired,
            forall|i: int|
                0 <= i < old(self).bullets_seq().len() ==> final(self).bullets_seq()[i]
                    == old(self).bullets_seq()[i],
            forall|i: int|
                old(self).bullets_seq().len() <= i < final(self).bullets_seq().len() ==> {
                    let b = #[trigger] final(self).bullets_seq()[i];
                    &&& b.spawn_time == now_ms
                    &&& b.pos == origin
                    &&& abs_val(b.dir.x - base_dir_x(origin, aim)) <= cfg.bullet_jitter
                    &&& abs_val(b.dir.y - base_dir_y(origin, aim)) <= cfg.bullet_jitter
                },
    {
        let elapsed: u64 = if self.cooldown_ms <= u64::MAX - dt_ms {
            self.cooldown_ms + dt_ms
        } else {
            u64::MAX
        };
        if !(trigger_held && elapsed >= cfg.fire_interval_ms) {
            self.cooldown_ms = elapsed;
            return 0;
        }
        self.cooldown_ms = 0;
        let (bx, by) = scaled_offset(aim.x - origin.x, aim.y - origin.y, DIR_SCALE);
        let n = cfg.bullets_per_shot;
        let ghost old_bullets = self.bullets@;
        let mut k: usize = 0;
        while k < n
            invariant
                k <= n,
                n <= 1_000_000,
                cfg.wf(),
                in_world(origin),
                bx == base_dir_x(origin, aim),
                by == base_dir_y(origin, aim),
                -1_000 <= bx <= 1_000,
                -1_000 <= by <= 1_000,
                self.cooldown_ms == 0,
                self.bullets@.len() == old_bullets.len() + k,
                forall|i: int| 0 <= i < old_bullets.len() ==> self.bullets@[i] == old_bullets[i],
                forall|i: int|
                    old_bullets.len() <= i < self.bullets@.len() ==> {
                        let b = #[trigger] self.bullets@[i];
                        &&& bullet_ok(b)
                        &&& b.spawn_time == now_ms
                        &&& b.pos == origin
                        &&& abs_val(b.dir.x - bx) <= cfg.bullet_jitter
                        &&& abs_val(b.dir.y - by) <= cfg.bullet_jitter
                    },
            decreases n - k,
        {
            let jx = rand_range_i64(-cfg.bullet_jitter, cfg.bullet_jitter + 1);
            let jy = rand_range_i64(-cfg.bullet_jitter, cfg.bullet_jitter + 1);
            let b = Bullet {
                pos: origin,
                dir: Vec2 { x: bx + jx, y: by + jy },
                spawn_time: now_ms,
            };
            self.bullets.push(b);
            k = k + 1;
        }
        proof {
            assert forall|i: int|
                0 <= i < self.bullets@.len() implies bullet_ok(#[trigger] self.bullets@[i]) by {
                if i < old_bullets.len() {
                    assert(bullet_ok(old(self).bullets_seq()[i]));
                }
            }
        }
        n
    }

    /// One integration pass: every bullet moves one step of magnitude
    /// `step` along its re-normalized direction; a zero direction moves
    /// nothing. The caller converts elapsed time to whole units as
    /// `speed * dt / 1000` and carries the sub-unit remainder forward
    /// (see `Simulation::tick`).
    pub fn advance_tick(&mut self, step: u64)
        requires
            old(self).wf(),
            step <= COORD_LIMIT,
        ensures
            final(self).wf(),
            final(self).bullets_seq().len() == old(self).bullets_seq().len(),
            final(self).cooldown() == old(self).cooldown(),
            forall|i: int|
                0 <= i < old(self).bullets_seq().len() ==> final(self).bullets_seq()[i] == (Bullet {
                    pos: step_along_spec(
                        old(self).bullets_seq()[i].pos,
                        old(self).bullets_seq()[i].dir,
                        step as int,
                    ),
                    ..old(self).bullets_seq()[i]
                }),
    {
        let ghost old_bullets = self.bullets@;
        let n = self.bullets.len();
        let mut i: usize = 0;
        while i < n
            invariant
                n == self.bullets@.len(),
                n == old_bullets.len(),
                i <= n,
                step <= COORD_LIMIT,
                self.cooldown_ms == old(self).cooldown(),
                old_bullets == old(self).bullets_seq(),
                old(self).wf(),
                forall|j: int| i <= j < n ==> self.bullets@[j] == old_bullets[j],
                forall|j: int|
                    0 <= j < i ==> self.bullets@[j] == (Bullet {
                        pos: step_along_spec(old_bullets[j].pos, old_bullets[j].dir, step as int),
                        ..old_bullets[j]
                    }),
                forall|j: int| 0 <= j < i ==> bullet_ok(#[trigger] self.bullets@[j]),
            decreases n - i,
        {
            let b = self.bullets[i];
            assert(bullet_ok(b)) by {
                assert(old(self).bullets_seq()[i as int] == b);
            }
            let np = step_along(b.pos, b.dir, step);
            self.bullets[i] = Bullet { pos: np, dir: b.dir, spawn_time: b.spawn_time };
            i = i + 1;
        }
    }

    /// One expiry pass at time `now_ms`: every bullet whose age has
    /// reached `bullet_lifetime_ms` is destroyed, hits or no hits; the
    /// survivors keep their order. A bullet fired at time `T` is gone
    /// from every pass at time `now >= T + bullet_lifetime_ms`.
    pub fn expire_tick(&mut self, now_ms: u64, cfg: &SimConfig)
        requires
            old(self).wf(),
            cfg.wf(),
        ensures
            final(self).wf(),
            final(self).cooldown() == old(self).cooldown(),
            final(self).bullets_seq() == old(self).bullets_seq().filter(
                live_pred(cfg.bullet_lifetime_ms, now_ms),
            ),
            forall|i: int|
                0 <= i < final(self).bullets_seq().len()
                    ==> (#[trigger] final(self).bullets_seq()[i]).spawn_time
                    + cfg.bullet_lifetime_ms > now_ms,
    {
        let ghost old_bullets = self.bullets@;
        let ghost pred = live_pred(cfg.bullet_lifetime_ms, now_ms);
        let mut kept: Vec<Bullet> = Vec::new();
        let n = self.bullets.len();
        let mut i: usize = 0;
        while i < n
            invariant
                n == self.bullets@.len(),
                self.bullets@ == old_bullets,
                i <= n,
                old(self).wf(),
                old_bullets == old(self).bullets_seq(),
                pred == live_pred(cfg.bullet_lifetime_ms, now_ms),
                kept@ == old_bullets.take(i as int).filter(pred),
            decreases n - i,
        {
            let b = self.bullets[i];
            let ghost pre_kept = kept@;
            let live = (b.spawn_time as u128 + cfg.bullet_lifetime_ms as u128) > now_ms as u128;
            if live {
                kept.push(b);
            }
            proof {
                assert(old_bullets.take(i as int + 1) =~= old_bullets.take(i as int).push(b));
                old_bullets.take(i as int).lemma_filter_push(b, pred);
                assert(old_bullets.take(i as int).push(b).filter(pred) == if pred(b) {
                    old_bullets.take(i as int).filter(pred).push(b)
                } else {
                    old_bullets.take(i as int).filter(pred)
                });
                assert(live == pred(b));
            }
            i = i + 1;
        }
        proof {
            assert(old_bullets.take(n as int) =~= old_bullets);
            assert forall|i2: int| 0 <= i2 < kept@.len() implies bullet_ok(
                #[trigger] kept@[i2],
            ) && kept@[i2].spawn_time + cfg.bullet_lifetime_ms > now_ms by {
                old_bullets.lemma_filter_pred(pred, i2);
                assert(old_bullets.filter(pred).contains(kept@[i2]));
                old_bullets.lemma_filter_contains_rev(pred, kept@[i2]);
                let w = choose|w: int| 0 <= w < old_bullets.len() && old_bullets[w] == kept@[i2];
                assert(bullet_ok(old(self).bullets_seq()[w]));
            }
        }
        self.bullets = kept;
    }
}

} // verus!
