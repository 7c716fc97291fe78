//! Enemy population: an arena of enemy records keyed by stable integer
//! handles with a free-list for slot reuse. Spawning is capped, steering
//! homes every enemy on the player, and a despawn pass removes the dead.

use vstd::prelude::*;
use crate::geom::{Vec2, in_world, in_world_margin, step_toward_spec, step_toward, dist_sq, abs_val, COORD_LIMIT};
use crate::config::SimConfig;
use crate::index::{IndexEntry, entries_multiset, entry_triple};
use crate::rng::rand_range_i64;

verus! {

broadcast use vstd::multiset::group_multiset_axioms, vstd::seq_lib::group_to_multiset_ensures;

/// One enemy: a position and its remaining health.
#[derive(Clone, Copy, PartialEq, Eq, Structural, Debug)]
pub struct Enemy {
    pub pos: Vec2,
    pub health: i64,
}

/// Number of occupied slots of an arena snapshot.
pub open spec fn occ_count(s: Seq<Option<Enemy>>) -> nat
    decreases s.len(),
{
    if s.len() == 0 {
        0
    } else {
        occ_count(s.drop_last()) + (if s.last() is Some {
            1nat
        } else {
            0nat
        })
    }
}

proof fn lemma_occ_count_le(s: Seq<Option<Enemy>>)
    ensures
        occ_count(s) <= s.len(),
    decreases s.len(),
{
    if s.len() > 0 {
        lemma_occ_count_le(s.drop_last());
    }
}

proof fn lemma_occ_count_push(s: Seq<Option<Enemy>>, v: Option<Enemy>)
    ensures
        occ_count(s.push(v)) == occ_count(s) + (if v is Some {
            1int
        } else {
            0int
        }),
{
    assert(s.push(v).drop_last() =~= s);
}

proof fn lemma_occ_count_update(s: Seq<Option<Enemy>>, i: int, v: Option<Enemy>)
    requires
        0 <= i < s.len(),
    ensures
        occ_count(s.update(i, v)) == occ_count(s) - (if s[i] is Some {
            1int
        } else {
            0int
        }) + (if v is Some {
            1int
        } else {
            0int
        }),
    decreases s.len(),
{
    if i == s.len() - 1 {
        assert(s.update(i, v).drop_last() =~= s.drop_last());
        assert(s.update(i, v).last() == v);
    } else {
        assert(s.update(i, v).drop_last() =~= s.drop_last().update(i, v));
        lemma_occ_count_update(s.drop_last(), i, v);
    }
}

/// The enemy arena.
pub struct Population {
    slots: Vec<Option<Enemy>>,
    free: Vec<usize>,
    live: usize,
}

impl Population {
    /// The arena's slots, as a snapshot sequence.
    pub closed spec fn slots_seq(self) -> Seq<Option<Enemy>> {
        self.slots@
    }

    /// Number of slots ever allocated (live or free).
    pub open spec fn arena_len(self) -> nat {
        self.slots_seq().len()
    }

    /// Handle `h` currently names a living enemy.
    pub open spec fn is_live(self, h: int) -> bool {
        0 <= h < self.arena_len() && self.slots_seq()[h] is Some
    }

    /// The record of the living enemy with handle `h`.
    pub open spec fn enemy_at(self, h: int) -> Enemy
        recommends
            self.is_live(h),
    {
        self.slots_seq()[h]->Some_0
    }

    /// Number of living enemies.
    pub open spec fn count(self) -> nat {
        occ_count(self.slots_seq())
    }

    /// Internal consistency: the live counter matches the slots, the
    /// free list holds exactly the empty slots, and every living enemy
    /// is inside the world.
    pub closed spec fn wf(self) -> bool {
        &&& self.live == occ_count(self.slots@)
        &&& self.free@.no_duplicates()
        &&& forall|k: int|
            0 <= k < self.free@.len() ==> self.free@[k] < self.slots@.len() && self.slots@[(
            self.free@[k] as int)] is None
        &&& forall|i: int|
            0 <= i < self.slots@.len() && self.slots@[i] is None ==> self.free@.contains(i as usize)
        &&& forall|i: int|
            0 <= i < self.slots@.len() && #[trigger] self.slots@[i] is Some ==> in_world(
                self.slots@[i]->Some_0.pos,
            )
    }

    /// An empty population.
    pub fn new() -> (p: Population)
        ensures
            p.wf(),
            p.count() == 0,
            p.arena_len() == 0,
    {
        Population { slots: Vec::new(), free: Vec::new(), live: 0 }
    }

    /// Handles fit machine words: the arena is at most `usize::MAX`
    /// slots.
    pub proof fn lemma_arena_bound(&self)
        ensures
            self.arena_len() <= usize::MAX,
    {
        assert(self.slots.len() == self.slots@.len());
    }

    /// Number of living enemies.
    pub fn live_count(&self) -> (n: usize)
        requires
            self.wf(),
        ensures
            n == self.count(),
    {
        self.live
    }

    /// Store a new enemy, reusing a free slot when one exists; returns
    /// its handle.
    fn insert_enemy(&mut self, e: Enemy) -> (h: usize)
        requires
            old(self).wf(),
            in_world(e.pos),
            old(self).count() < usize::MAX,
        ensures
            final(self).wf(),
            !old(self).is_live(h as int),
            final(self).is_live(h as int),
            final(self).enemy_at(h as int) == e,
            final(self).count() == old(self).count() + 1,
            old(self).arena_len() <= final(self).arena_len(),
            forall|j: int|
                0 <= j < old(self).arena_len() && j != h ==> final(self).slots_seq()[j] == old(self).slots_seq()[j],
            forall|j: int| old(self).is_live(j) ==> final(self).is_live(j) && j != h,
            forall|j: int| final(self).is_live(j) ==> old(self).is_live(j) || j == h,
    {
        proof {
            lemma_occ_count_le(self.slots@);
        }
        let ghost old_slots = self.slots@;
        let ghost old_free = self.free@;
        let reuse = self.free.pop();
        match reuse {
            Some(h) => {
                proof {
                    assert(old_free[old_free.len() - 1] == h);
                    assert(old_free.contains(h));
                    lemma_occ_count_update(old_slots, h as int, Some(e));
                }
                self.slots[h] = Some(e);
                self.live = self.live + 1;
                proof {
                    assert(self.slots.len() == self.slots@.len());
                    assert forall|i: int|
                        0 <= i < self.slots@.len() && self.slots@[i] is None implies self.free@.contains(
                        i as usize,
                    ) by {
                        assert(old_slots[i] is None);
                        assert(old_free.contains(i as usize));
                        let k = choose|k: int| 0 <= k < old_free.len() && old_free[k] == i as usize;
                        assert(old_free[k] == i as usize);
                        assert(i as usize as int == i);
                        assert(k != old_free.len() - 1);
                        assert(self.free@[k] == i as usize);
                    }
                }
                h
            },
            None => {
                let h = self.slots.len();
                proof {
                    lemma_occ_count_push(old_slots, Some(e));
                    assert(forall|i: int|
                        0 <= i < old_slots.len() ==> !(old_slots[i] is None));
                }
                self.slots.push(Some(e));
                self.live = self.live + 1;
                h
            },
        }
    }
}

} // verus!


verus! {

/// Number of enemies one spawn pass creates: nothing at or above the
/// cap, otherwise up to `per_wave`, clamped so the cap is never passed.
pub open spec fn spawn_quota(count: int, cap: int, per_wave: int) -> int {
    if count >= cap {
        0
    } else if cap - count < per_wave {
        cap - count
    } else {
        per_wave
    }
}

/// Health after taking `d` damage, saturating at the lowest `i64`.
pub open spec fn sat_sub(h: int, d: int) -> int {
    if h - d < i64::MIN {
        i64::MIN as int
    } else {
        h - d
    }
}

/// Occupancy count only depends on which slots are occupied.
proof fn lemma_occ_count_same(s1: Seq<Option<Enemy>>, s2: Seq<Option<Enemy>>)
    requires
        s1.len() == s2.len(),
        forall|j: int| 0 <= j < s1.len() ==> (s1[j] is Some <==> s2[j] is Some),
    ensures
        occ_count(s1) == occ_count(s2),
    decreases s1.len(),
{
    if s1.len() > 0 {
        assert(s1.last() is Some <==> s2.last() is Some);
        lemma_occ_count_same(s1.drop_last(), s2.drop_last());
    }
}

impl Population {
    /// A position on the ring around `player`: a distance `d` drawn
    /// from `[spawn_dist_min, spawn_dist_max]` and a lattice point of
    /// the circle of radius `d` (a random abscissa and the matching
    /// integer ordinate, with a random sign). The result is never
    /// farther than `spawn_dist_max`, and — as long as the ring fits
    /// inside the world around the player, so that clamping does not
    /// interfere — never closer than `spawn_dist_min - 2` (up to two
    /// units are lost to the integer square root).
    fn spawn_position(player: Vec2, cfg: &SimConfig) -> (p: Vec2)
        requires
            cfg.wf(),
            in_world(player),
        ensures
            in_world(p),
            dist_sq(player, p) <= cfg.spawn_dist_max * cfg.spawn_dist_max,
            in_world_margin(player, cfg.spawn_dist_max as int) ==> dist_sq(player, p) >= (
            cfg.spawn_dist_min - 2) * (cfg.spawn_dist_min - 2),
    {
        let dist = rand_range_i64(cfg.spawn_dist_min as i64, cfg.spawn_dist_max as i64 + 1);
        let u = rand_range_i64(-dist, dist + 1);
        let flip = rand_range_i64(0, 2);
        assert(0 <= (dist as int) * (dist as int) <= 1_000_000_000_000_000_000 && 0 <= (u as int)
            * (u as int) <= (dist as int) * (dist as int)) by (nonlinear_arith)
            requires
                0 <= dist as int <= 1_000_000_000,
                -(dist as int) <= u as int <= dist as int,
        ;
        let w64: u64 = crate::geom::isqrt64((dist * dist - u * u) as u64);
        proof {
            crate::geom::lemma_isqrt_square(dist as nat);
            crate::geom::lemma_isqrt_mono(((dist * dist - u * u) as u64) as nat, (dist * dist) as nat);
        }
        let w: i64 = w64 as i64;
        let oy: i64 = if flip == 0 {
            w
        } else {
            -w
        };
        let x = crate::geom::clamp_to_world(player.x + u);
        let y = crate::geom::clamp_to_world(player.y + oy);
        proof {
            let d = dist as int;
            let ui = u as int;
            let wi = w as int;
            // the lattice circle point lies within the drawn distance
            // and misses it by less than two units
            assert(ui * ui + wi * wi <= d * d);
            assert((wi + 1) * (wi + 1) == wi * wi + 2 * wi + 1) by (nonlinear_arith);
            assert(ui * ui + wi * wi > d * d - 2 * wi - 1);
            assert((d - 2) * (d - 2) <= d * d - 2 * d - 1) by (nonlinear_arith)
                requires
                    d >= 3,
            ;
            assert(oy as int == wi || oy as int == -wi);
            assert((oy as int) * (oy as int) == wi * wi) by (nonlinear_arith)
                requires
                    oy as int == wi || oy as int == -wi,
            ;
            // clamping only shrinks each axis gap
            assert(abs_val(x - player.x) <= abs_val(ui));
            assert(abs_val(y - player.y) <= abs_val(oy as int));
            assert((x - player.x) * (x - player.x) + (y - player.y) * (y - player.y) <= ui * ui
                + (oy as int) * (oy as int)) by (nonlinear_arith)
                requires
                    abs_val(x - player.x) <= abs_val(ui),
                    abs_val(y - player.y) <= abs_val(oy as int),
            ;
            assert(dist_sq(player, Vec2 { x, y }) <= d * d);
            assert(d * d <= cfg.spawn_dist_max * cfg.spawn_dist_max) by (nonlinear_arith)
                requires
                    3 <= d <= cfg.spawn_dist_max,
            ;
            // with the ring inside the world, the clamp is the
            // identity and the exact circle distance survives
            if in_world_margin(player, cfg.spawn_dist_max as int) {
                assert(x == player.x + ui && y == player.y + oy);
                assert(dist_sq(player, Vec2 { x, y }) == ui * ui + (oy as int) * (oy as int))
                    by (nonlinear_arith)
                    requires
                        x - player.x == ui,
                        y - player.y == oy as int,
                        dist_sq(player, Vec2 { x, y }) == (x - player.x) * (x - player.x) + (y
                            - player.y) * (y - player.y),
                ;
                assert((cfg.spawn_dist_min - 2) * (cfg.spawn_dist_min - 2) <= (d - 2) * (d - 2))
                    by (nonlinear_arith)
                    requires
                        1 <= cfg.spawn_dist_min - 2 <= d - 2,
                ;
            }
        }
        Vec2 { x, y }
    }

    /// Store one enemy at a chosen position with the given starting
    /// health, and return its handle. The spawn pass uses this with
    /// ring-sampled positions; it is also the way a driver sets up a
    /// known world.
    pub fn spawn_at(&mut self, pos: Vec2, health: i64) -> (h: usize)
        requires
            old(self).wf(),
            in_world(pos),
            old(self).count() < usize::MAX,
        ensures
            final(self).wf(),
            !old(self).is_live(h as int),
            final(self).is_live(h as int),
            final(self).enemy_at(h as int) == (Enemy { pos, health }),
            final(self).count() == old(self).count() + 1,
            forall|j: int|
                old(self).is_live(j) ==> final(self).is_live(j) && j != h && final(self).enemy_at(j) == old(self).enemy_at(j),
            forall|j: int| final(self).is_live(j) ==> old(self).is_live(j) || j == h,
    {
        self.insert_enemy(Enemy { pos, health })
    }

    /// The record of the enemy with handle `h`, if it is alive.
    pub fn get_enemy(&self, h: u64) -> (r: Option<Enemy>)
        requires
            self.wf(),
        ensures
            r == (if self.is_live(h as int) {
                Some(self.enemy_at(h as int))
            } else {
                None::<Enemy>
            }),
    {
        if h >= self.slots.len() as u64 {
            return None;
        }
        self.slots[h as usize]
    }

    /// One spawn pass: create up to `spawn_per_wave` enemies on a ring
    /// around the player, never passing the population cap; at or above
    /// the cap nothing spawns. Every enemy already alive is untouched.
    pub fn spawn_tick(&mut self, player: Vec2, cfg: &SimConfig) -> (spawned: usize)
        requires
            old(self).wf(),
            cfg.wf(),
            in_world(player),
        ensures
            final(self).wf(),
            spawned == spawn_quota(
                old(self).count() as int,
                cfg.population_cap as int,
                cfg.spawn_per_wave as int,
            ),
            final(self).count() == old(self).count() + spawned,
            old(self).count() <= cfg.population_cap ==> final(self).count()
                <= cfg.population_cap,
            forall|j: int|
                old(self).is_live(j) ==> final(self).is_live(j) && final(self).enemy_at(j)
                    == old(self).enemy_at(j),
            forall|j: int|
                final(self).is_live(j) && !old(self).is_live(j) ==> final(self).enemy_at(
                    j,
                ).health == cfg.enemy_health && in_world(final(self).enemy_at(j).pos)
                    && dist_sq(player, final(self).enemy_at(j).pos) <= cfg.spawn_dist_max
                    * cfg.spawn_dist_max && (in_world_margin(player, cfg.spawn_dist_max as int)
                    ==> dist_sq(player, final(self).enemy_at(j).pos) >= (cfg.spawn_dist_min - 2)
                    * (cfg.spawn_dist_min - 2)),
    {
        let count = self.live_count();
        if count >= cfg.population_cap {
            return 0;
        }
        let mut quota: usize = cfg.population_cap - count;
        if quota > cfg.spawn_per_wave {
            quota = cfg.spawn_per_wave;
        }
        let mut k: usize = 0;
        while k < quota
            invariant
                self.wf(),
                cfg.wf(),
                in_world(player),
                k <= quota,
                count == old(self).count(),
                count + quota <= cfg.population_cap,
                self.count() == count + k,
                forall|j: int|
                    old(self).is_live(j) ==> self.is_live(j) && self.enemy_at(j) == old(self).enemy_at(j),
                forall|j: int|
                    self.is_live(j) && !old(self).is_live(j) ==> self.enemy_at(j).health
                        == cfg.enemy_health && in_world(self.enemy_at(j).pos) && dist_sq(
                        player,
                        self.enemy_at(j).pos,
                    ) <= cfg.spawn_dist_max * cfg.spawn_dist_max && (in_world_margin(
                        player,
                        cfg.spawn_dist_max as int,
                    ) ==> dist_sq(player, self.enemy_at(j).pos) >= (cfg.spawn_dist_min - 2) * (
                    cfg.spawn_dist_min - 2)),
            decreases quota - k,
        {
            let pos = Self::spawn_position(player, cfg);
            let _ = self.insert_enemy(Enemy { pos, health: cfg.enemy_health });
            k = k + 1;
        }
        quota
    }

    /// One steering pass: every living enemy takes one step of
    /// magnitude `step` toward the player; health and liveness are
    /// untouched. The caller converts elapsed time to whole units as
    /// `speed * dt / 1000` and carries the sub-unit remainder forward
    /// (see `Simulation::tick`), so movement is frame-rate independent
    /// even at ticks shorter than one unit of travel.
    pub fn steer_tick(&mut self, player: Vec2, step: u64)
        requires
            old(self).wf(),
            in_world(player),
            step <= COORD_LIMIT,
        ensures
            final(self).wf(),
            final(self).arena_len() == old(self).arena_len(),
            final(self).count() == old(self).count(),
            forall|j: int| final(self).is_live(j) <==> old(self).is_live(j),
            forall|j: int|
                old(self).is_live(j) ==> final(self).enemy_at(j) == (Enemy {
                    pos: step_toward_spec(old(self).enemy_at(j).pos, player, step as int),
                    health: old(self).enemy_at(j).health,
                }),
            // every enemy at least `step` away closes in: its squared
            // distance to the player never grows, and its Manhattan
            // distance shrinks by at least `step - 1`
            forall|j: int|
                old(self).is_live(j) && step <= crate::geom::isqrt(
                    dist_sq(old(self).enemy_at(j).pos, player) as nat,
                ) ==> dist_sq(#[trigger] final(self).enemy_at(j).pos, player) <= dist_sq(
                    old(self).enemy_at(j).pos,
                    player,
                ) && abs_val(player.x - final(self).enemy_at(j).pos.x) + abs_val(
                    player.y - final(self).enemy_at(j).pos.y,
                ) <= abs_val(player.x - old(self).enemy_at(j).pos.x) + abs_val(
                    player.y - old(self).enemy_at(j).pos.y,
                ) - step + 1,
    {
        let ghost old_slots = self.slots@;
        let n = self.slots.len();
        let mut i: usize = 0;
        while i < n
            invariant
                n == self.slots@.len(),
                n == old_slots.len(),
                i <= n,
                in_world(player),
                step <= COORD_LIMIT,
                self.free@ == old(self).free_seq(),
                self.live == old(self).live_field(),
                old_slots == old(self).slots_seq(),
                old(self).wf(),
                forall|j: int| i <= j < n ==> self.slots@[j] == old_slots[j],
                forall|j: int|
                    0 <= j < i ==> self.slots@[j] == (match old_slots[j] {
                        Some(e) => Some(
                            Enemy {
                                pos: step_toward_spec(e.pos, player, step as int),
                                health: e.health,
                            },
                        ),
                        None => None,
                    }),
            decreases n - i,
        {
            let cur = self.slots[i];
            match cur {
                Some(e) => {
                    assert(old(self).is_live(i as int));
                    assert(in_world(e.pos)) by {
                        assert(old(self).slots_seq()[i as int] is Some);
                    }
                    let np = step_toward(e.pos, player, step);
                    self.slots[i] = Some(Enemy { pos: np, health: e.health });
                },
                None => {},
            }
            i = i + 1;
        }
        proof {
            lemma_occ_count_same(self.slots@, old_slots);
            assert forall|j: int| final(self).is_live(j) <==> old(self).is_live(j) by {}
            assert forall|j: int|
                old(self).is_live(j) && step <= crate::geom::isqrt(
                    dist_sq(old(self).enemy_at(j).pos, player) as nat,
                ) implies dist_sq(#[trigger] final(self).enemy_at(j).pos, player) <= dist_sq(
                old(self).enemy_at(j).pos,
                player,
            ) && abs_val(player.x - final(self).enemy_at(j).pos.x) + abs_val(
                player.y - final(self).enemy_at(j).pos.y,
            ) <= abs_val(player.x - old(self).enemy_at(j).pos.x) + abs_val(
                player.y - old(self).enemy_at(j).pos.y,
            ) - step + 1 by {
                assert(in_world(old(self).enemy_at(j).pos)) by {
                    assert(old(self).slots_seq()[j] is Some);
                }
                crate::geom::lemma_step_toward_progress(
                    old(self).enemy_at(j).pos,
                    player,
                    step as int,
                );
            }
        }
    }

    /// Despawn pass: remove every enemy whose health is at or below
    /// zero; every other enemy is untouched. Returns the handles of the
    /// removed enemies.
    pub fn despawn_tick(&mut self) -> (removed: Vec<u64>)
        requires
            old(self).wf(),
        ensures
            final(self).wf(),
            final(self).arena_len() == old(self).arena_len(),
            forall|j: int|
                final(self).is_live(j) <==> (old(self).is_live(j) && old(self).enemy_at(
                    j,
                ).health > 0),
            forall|j: int|
                final(self).is_live(j) ==> final(self).enemy_at(j) == old(self).enemy_at(j),
            forall|u: u64|
                removed@.contains(u) <==> (old(self).is_live(u as int) && old(self).enemy_at(
                    u as int,
                ).health <= 0),
            removed@.no_duplicates(),
            final(self).count() == old(self).count() - removed@.len(),
    {
        let ghost old_slots = self.slots@;
        let mut removed: Vec<u64> = Vec::new();
        let n = self.slots.len();
        let mut i: usize = 0;
        while i < n
            invariant
                n == self.slots@.len(),
                n == old_slots.len(),
                i <= n,
                old_slots == old(self).slots_seq(),
                old(self).wf(),
                self.wf(),
                n <= usize::MAX,
                forall|j: int| i <= j < n ==> self.slots@[j] == old_slots[j],
                forall|j: int|
                    0 <= j < i ==> self.slots@[j] == (if old_slots[j] is Some && old_slots[j]
                        ->Some_0.health <= 0 {
                        None
                    } else {
                        old_slots[j]
                    }),
                forall|u: u64|
                    removed@.contains(u) <==> (0 <= u < i && old_slots[u as int] is Some
                        && old_slots[u as int]->Some_0.health <= 0),
                removed@.no_duplicates(),
                self.count() == old(self).count() - removed@.len(),
            decreases n - i,
        {
            let ghost pre_slots = self.slots@;
            let ghost pre_free = self.free@;
            let ghost pre_removed = removed@;
            let cur = self.slots[i];
            match cur {
                Some(e) => {
                    if e.health <= 0 {
                        proof {
                            lemma_occ_count_update(pre_slots, i as int, None);
                            assert(!pre_removed.contains(i as u64));
                            assert(forall|j: int|
                                0 <= j < pre_slots.len() && pre_slots[j] is None
                                    ==> pre_free.contains(j as usize));
                            assert(!pre_free.contains(i)) by {
                                if pre_free.contains(i) {
                                    let k = choose|k: int|
                                        0 <= k < pre_free.len() && pre_free[k] == i;
                                    assert(pre_slots[i as int] is None);
                                }
                            }
                        }
                        self.slots[i] = None;
                        self.free.push(i);
                        self.live = self.live - 1;
                        removed.push(i as u64);
                        proof {
                            assert forall|u: u64|
                                removed@.contains(u) <==> (0 <= u < i + 1 && old_slots[u as int]
                                    is Some && old_slots[u as int]->Some_0.health <= 0) by {
                                assert(removed@ == pre_removed.push(i as u64));
                                if removed@.contains(u) {
                                    let k = choose|k: int|
                                        0 <= k < removed@.len() && removed@[k] == u;
                                    if k < pre_removed.len() {
                                        assert(pre_removed.contains(u));
                                    } else {
                                        assert(u == i as u64);
                                    }
                                } else {
                                }
                                if (0 <= u < i + 1 && old_slots[u as int] is Some && old_slots[
                                u as int]->Some_0.health <= 0) {
                                    if u < i {
                                        assert(pre_removed.contains(u));
                                        let k = choose|k: int|
                                            0 <= k < pre_removed.len() && pre_removed[k] == u;
                                        assert(removed@[k] == u);
                                    } else {
                                        assert(removed@[removed@.len() - 1] == i as u64);
                                    }
                                    assert(removed@.contains(u));
                                }
                            }
                            assert forall|j: int|
                                0 <= j < self.slots@.len() && self.slots@[j] is None implies self.free@.contains(
                                j as usize,
                            ) by {
                                if j != i {
                                    assert(pre_slots[j] is None);
                                    assert(pre_free.contains(j as usize));
                                    let k = choose|k: int|
                                        0 <= k < pre_free.len() && pre_free[k] == j as usize;
                                    assert(self.free@ == pre_free.push(i));
                                    assert(self.free@[k] == j as usize);
                                } else {
                                    assert(self.free@[self.free@.len() - 1] == i);
                                }
                            }
                        }
                    }
                },
                None => {},
            }
            i = i + 1;
        }
        removed
    }

    /// Apply `amount` damage to the enemy with handle `h`, if it is
    /// alive; a stale or unknown handle is ignored. Health saturates at
    /// the lowest `i64` and never increases.
    pub fn damage_enemy(&mut self, h: u64, amount: i64) -> (hit: bool)
        requires
            old(self).wf(),
            0 <= amount,
        ensures
            final(self).wf(),
            hit == old(self).is_live(h as int),
            final(self).arena_len() == old(self).arena_len(),
            final(self).count() == old(self).count(),
            forall|j: int| final(self).is_live(j) <==> old(self).is_live(j),
            forall|j: int|
                old(self).is_live(j) && j != h ==> final(self).enemy_at(j) == old(self).enemy_at(j),
            old(self).is_live(h as int) ==> final(self).enemy_at(h as int) == (Enemy {
                pos: old(self).enemy_at(h as int).pos,
                health: sat_sub(old(self).enemy_at(h as int).health as int, amount as int) as i64,
            }),
    {
        if h >= self.slots.len() as u64 {
            return false;
        }
        let idx = h as usize;
        let cur = self.slots[idx];
        match cur {
            Some(e) => {
                let nh: i64 = if e.health >= i64::MIN + amount {
                    e.health - amount
                } else {
                    i64::MIN
                };
                proof {
                    lemma_occ_count_update(self.slots@, idx as int, Some(Enemy { pos: e.pos, health: nh }));
                }
                self.slots[idx] = Some(Enemy { pos: e.pos, health: nh });
                true
            },
            None => false,
        }
    }

    /// The `(position, handle)` snapshot of the living enemies, for an
    /// index rebuild: one entry per living handle, carrying its current
    /// position.
    pub fn index_entries(&self) -> (out: Vec<IndexEntry>)
        requires
            self.wf(),
        ensures
            forall|k: int|
                0 <= k < out@.len() ==> {
                    let e = #[trigger] out@[k];
                    &&& self.is_live(e.handle as int)
                    &&& e.pos == self.enemy_at(e.handle as int).pos
                    &&& in_world(e.pos)
                },
            forall|j: int|
                self.is_live(j) ==> entries_multiset(out@).count(
                    (self.enemy_at(j).pos.x, self.enemy_at(j).pos.y, j as u64),
                ) == 1,
            forall|p: (i64, i64, u64)|
                entries_multiset(out@).contains(p) ==> self.is_live(p.2 as int) && p.0
                    == self.enemy_at(p.2 as int).pos.x && p.1 == self.enemy_at(p.2 as int).pos.y,
    {
        proof {
            self.lemma_arena_bound();
        }
        let mut out: Vec<IndexEntry> = Vec::new();
        let n = self.slots.len();
        let mut i: usize = 0;
        while i < n
            invariant
                n == self.slots@.len(),
                i <= n,
                self.wf(),
                forall|k: int|
                    0 <= k < out@.len() ==> {
                        let e = #[trigger] out@[k];
                        &&& e.handle < i
                        &&& self.is_live(e.handle as int)
                        &&& e.pos == self.enemy_at(e.handle as int).pos
                    },
                forall|j: int|
                    0 <= j < i && self.is_live(j) ==> entries_multiset(out@).count(
                        (self.enemy_at(j).pos.x, self.enemy_at(j).pos.y, j as u64),
                    ) == 1,
                forall|p: (i64, i64, u64)|
                    entries_multiset(out@).contains(p) ==> p.2 < i && self.is_live(p.2 as int)
                        && p.0 == self.enemy_at(p.2 as int).pos.x && p.1 == self.enemy_at(
                        p.2 as int,
                    ).pos.y,
            decreases n - i,
        {
            let cur = self.slots[i];
            match cur {
                Some(e) => {
                    let ghost pre_out = out@;
                    let entry = IndexEntry { pos: e.pos, handle: i as u64 };
                    out.push(entry);
                    proof {
                        let f = |x: IndexEntry| entry_triple(x);
                        assert(out@.map_values(f) =~= pre_out.map_values(f).push(
                            entry_triple(entry),
                        ));
                        assert(entries_multiset(out@) == entries_multiset(pre_out).insert(
                            entry_triple(entry),
                        ));
                        assert(entries_multiset(pre_out).count(entry_triple(entry)) == 0) by {
                            if entries_multiset(pre_out).contains(entry_triple(entry)) {
                            }
                        }
                        assert forall|p: (i64, i64, u64)|
                            entries_multiset(out@).contains(p) implies p.2 < i + 1
                            && self.is_live(p.2 as int) && p.0 == self.enemy_at(
                            p.2 as int,
                        ).pos.x && p.1 == self.enemy_at(p.2 as int).pos.y by {
                            if p != entry_triple(entry) {
                                assert(entries_multiset(pre_out).contains(p));
                            }
                        }
                    }
                },
                None => {},
            }
            i = i + 1;
        }
        out
    }

    /// A read-only snapshot of the living enemies for the presentation
    /// layer: one `(handle, record)` pair per living enemy.
    pub fn enemy_list(&self) -> (out: Vec<(u64, Enemy)>)
        requires
            self.wf(),
        ensures
            out@.len() == self.count(),
            forall|k: int|
                0 <= k < out@.len() ==> self.is_live(#[trigger] out@[k].0 as int) && out@[k].1
                    == self.enemy_at(out@[k].0 as int),
            forall|j: int|
                self.is_live(j) ==> exists|k: int| 0 <= k < out@.len() && #[trigger] out@[k].0
                    == j as u64,
    {
        proof {
            self.lemma_arena_bound();
        }
        let mut out: Vec<(u64, Enemy)> = Vec::new();
        let n = self.slots.len();
        let mut i: usize = 0;
        while i < n
            invariant
                n == self.slots@.len(),
                i <= n,
                self.wf(),
                out@.len() == occ_count(self.slots@.take(i as int)),
                forall|k: int|
                    0 <= k < out@.len() ==> self.is_live(#[trigger] out@[k].0 as int) && out@[k].1
                        == self.enemy_at(out@[k].0 as int),
                forall|j: int|
                    0 <= j < i && self.is_live(j) ==> exists|k: int|
                        0 <= k < out@.len() && #[trigger] out@[k].0 == j as u64,
            decreases n - i,
        {
            let ghost pre_out = out@;
            let ghost pre_len = out@.len();
            let cur = self.slots[i];
            match cur {
                Some(e) => {
                    out.push((i as u64, e));
                    proof {
                        assert(out@[pre_len as int].0 == i as u64);
                    }
                },
                None => {},
            }
            proof {
                assert(self.slots@.take(i as int + 1).drop_last() =~= self.slots@.take(i as int));
                assert(self.slots@.take(i as int + 1).last() == self.slots@[i as int]);
                assert forall|j: int| 0 <= j < i + 1 && self.is_live(j) implies exists|k: int|
                    0 <= k < out@.len() && #[trigger] out@[k].0 == j as u64 by {
                    if j < i {
                        let k = choose|k: int|
                            0 <= k < pre_out.len() && #[trigger] pre_out[k].0 == j as u64;
                        assert(out@[k].0 == j as u64);
                    } else {
                        assert(out@[pre_len as int].0 == j as u64);
                    }
                }
            }
            i = i + 1;
        }
        proof {
            assert(self.slots@.take(n as int) =~= self.slots@);
        }
        out
    }

    /// The free list, for internal proofs.
    spec fn free_seq(self) -> Seq<usize> {
        self.free@
    }

    /// The live counter, for internal proofs.
    spec fn live_field(self) -> usize {
        self.live
    }
}

} // verus!
