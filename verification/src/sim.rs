//! The simulation loop: one tick advances every system once, in a
//! fixed, deterministic order — player movement, enemy spawning and
//! steering, firing, bullet integration, the periodic index rebuild,
//! collision resolution, and finally the despawn and expiry passes.
//! The one-tick latency between a kill and its despawn, and the bounded
//! staleness of the spatial index between rebuilds, are by design.

use vstd::prelude::*;
use vstd::multiset::Multiset;
use crate::geom::{Vec2, in_world, step_toward_spec, step_along_spec, abs_val, COORD_LIMIT};
use crate::config::{SimConfig, TIME_LIMIT};
use crate::pop::{Population, spawn_quota};
use crate::proj::{Projectiles, Bullet, sat_add_u64, live_pred, base_dir_x, base_dir_y};
use crate::index::EnemyKdTree;
use crate::player::{Player, PlayerState};
use crate::combat::{resolve_tick, damaged, total_hits, lemma_damaged_bounds};

verus! {

/// What one tick consumes from the outside collaborators: the clock's
/// elapsed time, the input device's movement intent and trigger state,
/// the cursor's world position, and the enemy-contact events the
/// presentation layer detected on the player.
pub struct TickInput {
    pub dt_ms: u64,
    pub move_intent: Vec2,
    pub trigger_held: bool,
    pub aim_target: Vec2,
    pub contact_hits: u64,
}

/// What one tick emits for the presentation layer: the handles
/// despawned this tick, how many enemies spawned and bullets fired, and
/// the game-over signal.
pub struct TickOutput {
    pub despawned: Vec<u64>,
    pub spawned: usize,
    pub fired: usize,
    pub player_depleted: bool,
}

/// The whole simulation state.
pub struct Simulation {
    cfg: SimConfig,
    pop: Population,
    proj: Projectiles,
    tree: EnemyKdTree,
    player: Player,
    now_ms: u64,
    spawn_acc: u64,
    rebuild_acc: u64,
    enemy_carry: u64,
    player_carry: u64,
    bullet_carry: u64,
}

/// The bullet sequence after one integration step of magnitude `step`:
/// every bullet moved along its own direction, nothing else changed.
pub open spec fn advanced_seq(bs: Seq<Bullet>, step: int) -> Seq<Bullet> {
    bs.map_values(
        |b: Bullet|
            Bullet { pos: step_along_spec(b.pos, b.dir, step), dir: b.dir, spawn_time: b.spawn_time },
    )
}

/// A bullet as it stands after being fired at time `t` from `origin`
/// toward `aim` and integrated once by `step`: its direction is the
/// scaled aim jittered by at most `jitter` per axis, its position one
/// step from the origin along that direction.
pub open spec fn shot_bullet(
    b: Bullet,
    origin: Vec2,
    aim: Vec2,
    t: u64,
    step: int,
    jitter: int,
) -> bool {
    &&& b.spawn_time == t
    &&& abs_val(b.dir.x - base_dir_x(origin, aim)) <= jitter
    &&& abs_val(b.dir.y - base_dir_y(origin, aim)) <= jitter
    &&& b.pos == step_along_spec(origin, b.dir, step)
}

impl Simulation {
    pub closed spec fn config(self) -> SimConfig {
        self.cfg
    }

    pub closed spec fn enemies(self) -> Population {
        self.pop
    }

    pub closed spec fn bullets(self) -> Seq<Bullet> {
        self.proj.bullets_seq()
    }

    pub closed spec fn weapon_cooldown(self) -> u64 {
        self.proj.cooldown()
    }

    pub closed spec fn tree_contents(self) -> Multiset<(i64, i64, u64)> {
        self.tree.contents()
    }

    pub closed spec fn the_player(self) -> Player {
        self.player
    }

    pub closed spec fn now(self) -> u64 {
        self.now_ms
    }

    pub closed spec fn spawn_elapsed(self) -> u64 {
        self.spawn_acc
    }

    pub closed spec fn rebuild_elapsed(self) -> u64 {
        self.rebuild_acc
    }

    /// Sub-unit movement owed to the enemies, in thousandths of a unit.
    pub closed spec fn enemy_move_carry(self) -> u64 {
        self.enemy_carry
    }

    /// ... to the player.
    pub closed spec fn player_move_carry(self) -> u64 {
        self.player_carry
    }

    /// ... to the bullets.
    pub closed spec fn bullet_move_carry(self) -> u64 {
        self.bullet_carry
    }

    /// All component invariants, plus: no bullet has outlived its
    /// lifetime at the current simulation time.
    pub closed spec fn wf(self) -> bool {
        &&& self.cfg.wf()
        &&& self.pop.wf()
        &&& self.proj.wf()
        &&& self.tree.wf()
        &&& self.player.wf()
        &&& self.pop.count() <= self.cfg.population_cap
        &&& self.enemy_carry < 1000
        &&& self.player_carry < 1000
        &&& self.bullet_carry < 1000
        &&& forall|i: int|
            0 <= i < self.proj.bullets_seq().len() ==> (#[trigger] self.proj.bullets_seq()[i]).spawn_time
                + self.cfg.bullet_lifetime_ms > self.now_ms
    }

    /// A fresh world: no enemies, no bullets, an empty index, the
    /// player at the origin with full health, all clocks at zero.
    pub fn new(cfg: SimConfig) -> (s: Simulation)
        requires
            cfg.wf(),
        ensures
            s.wf(),
            s.config() == cfg,
            s.enemies().count() == 0,
            s.bullets() == Seq::<Bullet>::empty(),
            s.tree_contents() == Multiset::<(i64, i64, u64)>::empty(),
            s.the_player().health == cfg.player_max_health,
            s.the_player().pos == (Vec2 { x: 0, y: 0 }),
            s.the_player().state == PlayerState::Idle,
            s.now() == 0,
            s.spawn_elapsed() == 0,
            s.rebuild_elapsed() == 0,
            s.weapon_cooldown() == 0,
            s.enemy_move_carry() == 0,
            s.player_move_carry() == 0,
            s.bullet_move_carry() == 0,
    {
        Simulation {
            cfg,
            pop: Population::new(),
            proj: Projectiles::new(),
            tree: EnemyKdTree::new(),
            player: Player::new(&cfg),
            now_ms: 0,
            spawn_acc: 0,
            rebuild_acc: 0,
            enemy_carry: 0,
            player_carry: 0,
            bullet_carry: 0,
        }
    }

    /// Bullet expiry law: once the simulation clock has reached
    /// `t + bullet_lifetime_ms`, no bullet fired at time `t` is in the
    /// projectile set, no matter how many hits it scored.
    pub proof fn lemma_bullet_expiry(&self, t: u64)
        requires
            self.wf(),
            t + self.config().bullet_lifetime_ms <= self.now(),
        ensures
            forall|i: int|
                0 <= i < self.bullets().len() ==> (#[trigger] self.bullets()[i]).spawn_time != t,
    {
    }

    /// The current simulation time, milliseconds.
    pub fn current_time(&self) -> (t: u64)
        ensures
            t == self.now(),
    {
        self.now_ms
    }

    /// Number of living enemies, for the debug display.
    pub fn enemy_count(&self) -> (n: usize)
        requires
            self.wf(),
        ensures
            n == self.enemies().count(),
    {
        self.pop.live_count()
    }

    /// The player's state, for rendering.
    pub fn get_player(&self) -> (p: Player)
        ensures
            p == self.the_player(),
    {
        self.player
    }

    /// The record of the enemy with handle `h`, if it is alive.
    pub fn get_enemy(&self, h: u64) -> (r: Option<crate::pop::Enemy>)
        requires
            self.wf(),
        ensures
            r == (if self.enemies().is_live(h as int) {
                Some(self.enemies().enemy_at(h as int))
            } else {
                None::<crate::pop::Enemy>
            }),
    {
        self.pop.get_enemy(h)
    }

    /// The live bullets, for rendering.
    pub fn bullet_snapshot(&self) -> (r: &Vec<Bullet>)
        ensures
            r@ == self.bullets(),
    {
        self.proj.bullet_list()
    }

    /// The living enemies, one `(handle, record)` pair each, for
    /// rendering.
    pub fn enemy_snapshot(&self) -> (out: Vec<(u64, crate::pop::Enemy)>)
        requires
            self.wf(),
        ensures
            out@.len() == self.enemies().count(),
            forall|k: int|
                0 <= k < out@.len() ==> self.enemies().is_live(#[trigger] out@[k].0 as int)
                    && out@[k].1 == self.enemies().enemy_at(out@[k].0 as int),
            forall|j: int|
                self.enemies().is_live(j) ==> exists|k: int|
                    0 <= k < out@.len() && #[trigger] out@[k].0 == j as u64,
    {
        self.pop.enemy_list()
    }

    /// One simulation tick.
    ///
    /// The contract pins down, against the pre-tick state:
    /// - the clock, the spawn and rebuild accumulators, the cooldown
    ///   stopwatch and the three sub-unit movement carries;
    /// - the spawn count (the cap is never passed; at the cap nothing
    ///   spawns) and the shot count (cooldown gating);
    /// - that no surviving enemy gained health, that every surviving
    ///   enemy has positive health, and where the player and each
    ///   surviving enemy moved (one homing step toward the player, of
    ///   this tick's carried whole units of travel);
    /// - that the surviving projectile set is exactly the old bullets
    ///   advanced one step plus this tick's shots, filtered by expiry,
    ///   and that every surviving enemy's health equals its pre-tick
    ///   (or spawn) health less `bullet_damage` per hit those bullets
    ///   scored against the index snapshot in force — only the shots'
    ///   random spread is left open, bounded by the jitter box;
    /// - that between rebuilds the index snapshot is frozen, and that a
    ///   rebuild captures exactly one `(position, handle)` point per
    ///   living enemy;
    /// - the player's health after contact damage and the game-over
    ///   signal.
    pub fn tick(&mut self, input: TickInput) -> (out: TickOutput)
        requires
            old(self).wf(),
            input.dt_ms <= TIME_LIMIT,
            -2 * COORD_LIMIT <= input.move_intent.x <= 2 * COORD_LIMIT,
            -2 * COORD_LIMIT <= input.move_intent.y <= 2 * COORD_LIMIT,
            in_world(input.aim_target),
            input.contact_hits <= 1_000_000_000,
        ensures
            final(self).wf(),
            final(self).config() == old(self).config(),
            final(self).now() == sat_add_u64(old(self).now(), input.dt_ms),
            // spawn pass: quota on the timer, nothing otherwise
            out.spawned == (if sat_add_u64(old(self).spawn_elapsed(), input.dt_ms) >= old(self).config().spawn_interval_ms {
                spawn_quota(
                    old(self).enemies().count() as int,
                    old(self).config().population_cap as int,
                    old(self).config().spawn_per_wave as int,
                )
            } else {
                0
            }),
            final(self).spawn_elapsed() == (if sat_add_u64(
                old(self).spawn_elapsed(),
                input.dt_ms,
            ) >= old(self).config().spawn_interval_ms {
                0
            } else {
                sat_add_u64(old(self).spawn_elapsed(), input.dt_ms)
            }),
            // the population cap is never passed
            final(self).enemies().count() <= old(self).config().population_cap,
            // population bookkeeping
            final(self).enemies().count() + out.despawned@.len() == old(self).enemies().count()
                + out.spawned,
            out.despawned@.no_duplicates(),
            forall|w: int|
                0 <= w < out.despawned@.len() ==> !final(self).enemies().is_live(
                    #[trigger] out.despawned@[w] as int,
                ),
            // health is monotonically non-increasing across the tick
            forall|j: int|
                old(self).enemies().is_live(j) && final(self).enemies().is_live(j) ==> final(self).enemies().enemy_at(j).health <= old(self).enemies().enemy_at(j).health,
            // the despawn pass ran: no dead enemy survives the tick
            forall|j: int|
                final(self).enemies().is_live(j) ==> final(self).enemies().enemy_at(j).health > 0,
            // an enemy spawned this tick starts from the configured
            // health and can only have lost some since
            forall|j: int|
                final(self).enemies().is_live(j) && !old(self).enemies().is_live(j) ==> final(self).enemies().enemy_at(j).health <= old(self).config().enemy_health,
            // homing: every enemy that crossed the tick took one step
            // toward the player's new position, of this tick's whole
            // units of travel (the sub-unit remainder is carried)
            forall|j: int|
                old(self).enemies().is_live(j) && final(self).enemies().is_live(j) ==> final(self).enemies().enemy_at(j).pos == step_toward_spec(
                    old(self).enemies().enemy_at(j).pos,
                    final(self).the_player().pos,
                    ((old(self).enemy_move_carry() + old(self).config().enemy_speed
                        * input.dt_ms) / 1000) as int,
                ),
            final(self).enemy_move_carry() == (old(self).enemy_move_carry() + old(
                self,
            ).config().enemy_speed * input.dt_ms) % 1000,
            // the player moved by the intent vector, by the same rule
            final(self).the_player().pos == step_along_spec(
                old(self).the_player().pos,
                input.move_intent,
                ((old(self).player_move_carry() + old(self).config().player_speed
                    * input.dt_ms) / 1000) as int,
            ),
            final(self).the_player().state == (if input.move_intent.x == 0
                && input.move_intent.y == 0 {
                PlayerState::Idle
            } else {
                PlayerState::Moving
            }),
            final(self).player_move_carry() == (old(self).player_move_carry() + old(
                self,
            ).config().player_speed * input.dt_ms) % 1000,
            final(self).bullet_move_carry() == (old(self).bullet_move_carry() + old(
                self,
            ).config().bullet_speed * input.dt_ms) % 1000,
            // firing: gated by the cooldown stopwatch, which resets on
            // a shot and accumulates otherwise
            out.fired == (if input.trigger_held && sat_add_u64(
                old(self).weapon_cooldown(),
                input.dt_ms,
            ) >= old(self).config().fire_interval_ms {
                old(self).config().bullets_per_shot as int
            } else {
                0
            }),
            final(self).weapon_cooldown() == (if out.fired > 0 {
                0
            } else {
                sat_add_u64(old(self).weapon_cooldown(), input.dt_ms)
            }),
            // bullet expiry: no surviving bullet has reached its lifetime
            forall|i: int|
                0 <= i < final(self).bullets().len() ==> (#[trigger] final(self).bullets()[i]).spawn_time + old(self).config().bullet_lifetime_ms > final(self).now(),
            // index staleness: frozen between rebuilds ...
            sat_add_u64(old(self).rebuild_elapsed(), input.dt_ms) < old(self).config().index_refresh_ms ==> final(self).tree_contents() == old(self).tree_contents() && final(self).rebuild_elapsed() == sat_add_u64(
                old(self).rebuild_elapsed(),
                input.dt_ms,
            ),
            // ... and a rebuild captures one point per living enemy,
            // at the position it holds for the rest of the tick
            sat_add_u64(old(self).rebuild_elapsed(), input.dt_ms) >= old(self).config().index_refresh_ms ==> {
                &&& final(self).rebuild_elapsed() == 0
                &&& forall|j: int|
                    final(self).enemies().is_live(j) ==> final(self).tree_contents().count(
                        (
                            final(self).enemies().enemy_at(j).pos.x,
                            final(self).enemies().enemy_at(j).pos.y,
                            j as u64,
                        ),
                    ) == 1
                &&& forall|p: (i64, i64, u64)|
                    final(self).tree_contents().contains(p) ==> p.2 < final(self).enemies().arena_len() && (final(self).enemies().is_live(p.2 as int) ==> p.0
                        == final(self).enemies().enemy_at(p.2 as int).pos.x && p.1 == final(self).enemies().enemy_at(p.2 as int).pos.y)
            },
            // player: contact damage, then the game-over signal
            final(self).the_player().health == damaged(
                old(self).the_player().health as int,
                old(self).config().contact_damage as int,
                input.contact_hits as nat,
            ) as i64,
            out.player_depleted == (final(self).the_player().health <= 0),
            // bullets and damage: the surviving projectile set consists
            // of the old bullets advanced one step plus this tick's
            // shots (their random spread bounded by the jitter box),
            // filtered by expiry; and every surviving enemy's health
            // reflects exactly the hits of those bullets against the
            // index snapshot in force this tick
            exists|shots: Seq<Bullet>|
                #![trigger shots.len()]
                {
                    let bstep = (old(self).bullet_move_carry() + old(self).config().bullet_speed
                        * input.dt_ms) / 1000;
                    let now2 = sat_add_u64(old(self).now(), input.dt_ms);
                    let mid = advanced_seq(old(self).bullets(), bstep as int) + shots;
                    &&& shots.len() == out.fired
                    &&& (forall|i: int|
                        0 <= i < shots.len() ==> shot_bullet(
                            #[trigger] shots[i],
                            final(self).the_player().pos,
                            input.aim_target,
                            now2,
                            bstep as int,
                            old(self).config().bullet_jitter as int,
                        ))
                    &&& final(self).bullets() == mid.filter(
                        live_pred(old(self).config().bullet_lifetime_ms, now2),
                    )
                    &&& (forall|j: int|
                        final(self).enemies().is_live(j) ==> final(self).enemies().enemy_at(
                            j,
                        ).health == damaged(
                            (if old(self).enemies().is_live(j) {
                                old(self).enemies().enemy_at(j).health as int
                            } else {
                                old(self).config().enemy_health as int
                            }),
                            old(self).config().bullet_damage as int,
                            total_hits(
                                mid,
                                final(self).tree_contents(),
                                j as u64,
                                old(self).config().hit_radius as int,
                            ),
                        ) as i64)
                },
    {
        let dt = input.dt_ms;
        let cfg = self.cfg;
        let now2: u64 = if self.now_ms <= u64::MAX - dt {
            self.now_ms + dt
        } else {
            u64::MAX
        };
        self.now_ms = now2;

        // input application: the player moves first, by this tick's
        // whole units of travel, the sub-unit remainder carried over
        assert(cfg.player_speed * dt <= 1_000_000_000_000) by (nonlinear_arith)
            requires
                cfg.player_speed <= 1_000_000,
                dt <= 1_000_000,
        ;
        let ptotal: u64 = self.player_carry + cfg.player_speed * dt;
        let pstep: u64 = ptotal / 1000;
        self.player_carry = ptotal % 1000;
        self.player.move_tick(input.move_intent, pstep);

        // spawn pass, on its own timer
        let spawn_elapsed: u64 = if self.spawn_acc <= u64::MAX - dt {
            self.spawn_acc + dt
        } else {
            u64::MAX
        };
        let spawned: usize;
        if spawn_elapsed >= cfg.spawn_interval_ms {
            spawned = self.pop.spawn_tick(self.player.pos, &cfg);
            self.spawn_acc = 0;
        } else {
            spawned = 0;
            self.spawn_acc = spawn_elapsed;
        }

        // steering: every enemy homes on the player
        assert(cfg.enemy_speed * dt <= 1_000_000_000_000) by (nonlinear_arith)
            requires
                cfg.enemy_speed <= 1_000_000,
                dt <= 1_000_000,
        ;
        let etotal: u64 = self.enemy_carry + cfg.enemy_speed * dt;
        let estep: u64 = etotal / 1000;
        self.enemy_carry = etotal % 1000;
        self.pop.steer_tick(self.player.pos, estep);

        // firing, then bullet integration
        let fired = self.proj.fire_tick(
            input.trigger_held,
            self.player.pos,
            input.aim_target,
            now2,
            dt,
            &cfg,
        );
        let ghost post_fire = self.proj.bullets_seq();
        assert(cfg.bullet_speed * dt <= 1_000_000_000_000) by (nonlinear_arith)
            requires
                cfg.bullet_speed <= 1_000_000,
                dt <= 1_000_000,
        ;
        let btotal: u64 = self.bullet_carry + cfg.bullet_speed * dt;
        let bstep: u64 = btotal / 1000;
        self.bullet_carry = btotal % 1000;
        self.proj.advance_tick(bstep);

        // periodic index rebuild from the current enemy positions
        let rebuild_elapsed: u64 = if self.rebuild_acc <= u64::MAX - dt {
            self.rebuild_acc + dt
        } else {
            u64::MAX
        };
        if rebuild_elapsed >= cfg.index_refresh_ms {
            let entries = self.pop.index_entries();
            self.tree.rebuild(&entries);
            self.rebuild_acc = 0;
        } else {
            self.rebuild_acc = rebuild_elapsed;
        }
        let ghost pop_mid = self.pop;

        // collision resolution against the (possibly stale) index
        proof {
            assert forall|k: int| 0 <= k < self.proj.bullets_seq().len() implies in_world(
                #[trigger] self.proj.bullets_seq()[k].pos,
            ) by {}
        }
        let ghost bullets_mid = self.proj.bullets_seq();
        resolve_tick(&mut self.pop, self.proj.bullet_list(), &self.tree, &cfg);

        // player contact damage and the game-over check
        self.player.apply_contact_hits(input.contact_hits, &cfg);
        let depleted = self.player.depleted();

        // lifecycle passes: despawn the dead, expire old bullets
        let despawned = self.pop.despawn_tick();
        self.proj.expire_tick(now2, &cfg);

        proof {
            // health never increases across the tick, and an enemy
            // spawned this tick starts from the configured health
            assert forall|j: int| self.pop.is_live(j) implies self.pop.enemy_at(j).health <= (
            if old(self).enemies().is_live(j) {
                old(self).enemies().enemy_at(j).health as int
            } else {
                cfg.enemy_health as int
            }) by {
                pop_mid.lemma_arena_bound();
                lemma_damaged_bounds(
                    pop_mid.enemy_at(j).health as int,
                    cfg.bullet_damage as int,
                    total_hits(bullets_mid, self.tree.contents(), j as u64, cfg.hit_radius as int),
                );
            }
            // witness for the bullet-set and damage linkage: the shots
            // fired this tick, as they stood after integration
            let pre_fire = old(self).bullets();
            let shots = bullets_mid.skip(pre_fire.len() as int);
            assert(bullets_mid =~= advanced_seq(post_fire, bstep as int));
            assert(bullets_mid =~= advanced_seq(pre_fire, bstep as int) + shots);
            assert forall|i: int| 0 <= i < shots.len() implies shot_bullet(
                #[trigger] shots[i],
                self.player.pos,
                input.aim_target,
                now2,
                bstep as int,
                cfg.bullet_jitter as int,
            ) by {
                assert(shots[i] == bullets_mid[pre_fire.len() + i]);
                assert(post_fire[pre_fire.len() + i].pos == self.player.pos);
            }
            assert(shots.len() == fired as int);
        }

        TickOutput { despawned, spawned, fired, player_depleted: depleted }
    }
}

} // verus!
