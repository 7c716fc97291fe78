//! Collision resolution: every live bullet queries the spatial index
//! for enemies within the hit radius and applies damage to each handle
//! that is still alive; stale handles of enemies that died or were
//! removed since the last rebuild are silently ignored. A bullet is not
//! consumed by hits — it damages everything in range on every pass.

use vstd::prelude::*;
use vstd::multiset::Multiset;
use crate::geom::in_world;
use crate::config::SimConfig;
use crate::pop::{Population, Enemy, sat_sub};
use crate::proj::Bullet;
use crate::index::{EnemyKdTree, IndexEntry, entries_multiset, entry_triple, within_pred};

verus! {

broadcast use vstd::multiset::group_multiset_axioms, vstd::seq_lib::group_to_multiset_ensures;

/// Selects the indexed triples that carry handle `h`.
pub open spec fn handle_pred(h: u64) -> spec_fn((i64, i64, u64)) -> bool {
    |p: (i64, i64, u64)| p.2 == h
}

/// How many indexed points with handle `h` lie within `r` of bullet
/// `b`: the number of damage applications `b` causes to that enemy in
/// one resolution pass.
pub open spec fn bullet_hits(
    contents: Multiset<(i64, i64, u64)>,
    b: Bullet,
    h: u64,
    r: int,
) -> nat {
    contents.filter(within_pred(b.pos, r)).filter(handle_pred(h)).len()
}

/// Damage applications enemy `h` receives from all bullets of `bs` in
/// one resolution pass against the snapshot `contents`.
pub open spec fn total_hits(
    bs: Seq<Bullet>,
    contents: Multiset<(i64, i64, u64)>,
    h: u64,
    r: int,
) -> nat
    decreases bs.len(),
{
    if bs.len() == 0 {
        0
    } else {
        total_hits(bs.drop_last(), contents, h, r) + bullet_hits(contents, bs.last(), h, r)
    }
}

/// Health after `n` hits of `d` damage each, saturating at the lowest
/// `i64`.
pub open spec fn damaged(h0: int, d: int, n: nat) -> int {
    if h0 - d * n < i64::MIN {
        i64::MIN as int
    } else {
        h0 - d * n
    }
}

/// Damage never heals: the health after any number of hits is at most
/// the health before, and stays in `i64` range.
pub proof fn lemma_damaged_bounds(h0: int, d: int, n: nat)
    requires
        0 <= d,
        i64::MIN <= h0 <= i64::MAX,
    ensures
        i64::MIN <= damaged(h0, d, n) <= h0,
{
    assert(0 <= d * n) by (nonlinear_arith)
        requires
            0 <= d,
    ;
}

/// `damaged` stays in `i64` range and one more hit is one saturating
/// subtraction.
proof fn lemma_damaged_step(h0: int, d: int, n: nat)
    requires
        0 <= d,
        i64::MIN <= h0 <= i64::MAX,
    ensures
        i64::MIN <= damaged(h0, d, n) <= h0,
        sat_sub(damaged(h0, d, n), d) == damaged(h0, d, (n + 1) as nat),
{
    assert(0 <= d * n) by (nonlinear_arith)
        requires
            0 <= d,
    ;
    assert(d * ((n + 1) as nat) == d * n + d) by (nonlinear_arith);
}

/// How many entries of `s` carry handle `h`.
pub open spec fn count_handle(s: Seq<IndexEntry>, h: u64) -> nat
    decreases s.len(),
{
    if s.len() == 0 {
        0
    } else {
        count_handle(s.drop_last(), h) + (if s.last().handle == h {
            1nat
        } else {
            0nat
        })
    }
}

/// Counting a handle in an entry sequence counts it in the multiset the
/// sequence stands for.
proof fn lemma_count_by_handle(s: Seq<IndexEntry>, h: u64)
    ensures
        entries_multiset(s).filter(handle_pred(h)).len() == count_handle(s, h),
    decreases s.len(),
{
    if s.len() == 0 {
        assert forall|p: (i64, i64, u64)| true implies #[trigger] entries_multiset(s).count(p)
            == 0 by {
            if entries_multiset(s).count(p) > 0 {
                assert(s.map_values(|e: IndexEntry| entry_triple(e)).contains(p));
            }
        }
        assert(entries_multiset(s) =~= Multiset::<(i64, i64, u64)>::empty());
        assert(entries_multiset(s).filter(handle_pred(h)) =~= Multiset::<(i64, i64, u64)>::empty());
    } else {
        let s0 = s.drop_last();
        let e = s.last();
        lemma_count_by_handle(s0, h);
        let f = |x: IndexEntry| entry_triple(x);
        assert(s.map_values(f) =~= s0.map_values(f).push(entry_triple(e)));
        assert(entries_multiset(s) == entries_multiset(s0).insert(entry_triple(e)));
        if handle_pred(h)(entry_triple(e)) {
            assert(entries_multiset(s).filter(handle_pred(h)) =~= entries_multiset(s0).filter(
                handle_pred(h),
            ).insert(entry_triple(e)));
        } else {
            assert(entries_multiset(s).filter(handle_pred(h)) =~= entries_multiset(s0).filter(
                handle_pred(h),
            ));
        }
    }
}

/// One collision-resolution pass: for every bullet, query the index
/// within the configured hit radius around the bullet's position and
/// subtract `bullet_damage` from every returned enemy that is still
/// alive. Each live enemy ends with its health lowered by exactly
/// `bullet_damage` per (bullet, indexed point) pair in range. Liveness
/// is untouched: the dead are collected by the next despawn pass. With
/// no bullets or an empty index the pass is a no-op.
pub fn resolve_tick(
    pop: &mut Population,
    bullets: &Vec<Bullet>,
    tree: &EnemyKdTree,
    cfg: &SimConfig,
)
    requires
        old(pop).wf(),
        tree.wf(),
        cfg.wf(),
        forall|k: int| 0 <= k < bullets@.len() ==> in_world(#[trigger] bullets@[k].pos),
    ensures
        final(pop).wf(),
        final(pop).arena_len() == old(pop).arena_len(),
        final(pop).count() == old(pop).count(),
        forall|j: int| final(pop).is_live(j) <==> old(pop).is_live(j),
        forall|j: int|
            old(pop).is_live(j) ==> final(pop).enemy_at(j) == (Enemy {
                pos: old(pop).enemy_at(j).pos,
                health: damaged(
                    old(pop).enemy_at(j).health as int,
                    cfg.bullet_damage as int,
                    total_hits(bullets@, tree.contents(), j as u64, cfg.hit_radius as int),
                ) as i64,
            }),
{
    let d = cfg.bullet_damage;
    let r = cfg.hit_radius;
    let ghost contents = tree.contents();
    let n = bullets.len();
    proof {
        assert forall|j: int| old(pop).is_live(j) implies pop.enemy_at(j) == (Enemy {
            pos: old(pop).enemy_at(j).pos,
            health: damaged(
                old(pop).enemy_at(j).health as int,
                d as int,
                total_hits(bullets@.take(0), contents, j as u64, r as int),
            ) as i64,
        }) by {
            assert(bullets@.take(0).len() == 0);
            assert(total_hits(bullets@.take(0), contents, j as u64, r as int) == 0);
            let h0 = old(pop).enemy_at(j).health as int;
            assert(damaged(h0, d as int, 0) == h0);
        }
    }
    let mut i: usize = 0;
    while i < n
        invariant
            n == bullets@.len(),
            i <= n,
            tree.wf(),
            cfg.wf(),
            pop.wf(),
            d == cfg.bullet_damage,
            r == cfg.hit_radius,
            contents == tree.contents(),
            forall|k: int| 0 <= k < n ==> in_world(#[trigger] bullets@[k].pos),
            old(pop).wf(),
            pop.arena_len() == old(pop).arena_len(),
            pop.count() == old(pop).count(),
            forall|j: int| pop.is_live(j) <==> old(pop).is_live(j),
            forall|j: int|
                old(pop).is_live(j) ==> pop.enemy_at(j) == (Enemy {
                    pos: old(pop).enemy_at(j).pos,
                    health: damaged(
                        old(pop).enemy_at(j).health as int,
                        d as int,
                        total_hits(bullets@.take(i as int), contents, j as u64, r as int),
                    ) as i64,
                }),
        decreases n - i,
    {
        let b = bullets[i];
        let hits = tree.query_radius(b.pos, r);
        let ghost t0 = |j: int| total_hits(bullets@.take(i as int), contents, j as u64, r as int);
        let m = hits.len();
        let mut k: usize = 0;
        while k < m
            invariant
                m == hits@.len(),
                k <= m,
                pop.wf(),
                old(pop).wf(),
                0 <= d,
                t0 == (|j: int| total_hits(
                    bullets@.take(i as int),
                    contents,
                    j as u64,
                    r as int,
                )),
                pop.arena_len() == old(pop).arena_len(),
                pop.count() == old(pop).count(),
                forall|j: int| pop.is_live(j) <==> old(pop).is_live(j),
                forall|j: int|
                    old(pop).is_live(j) ==> pop.enemy_at(j) == (Enemy {
                        pos: old(pop).enemy_at(j).pos,
                        health: damaged(
                            old(pop).enemy_at(j).health as int,
                            d as int,
                            (t0(j) + count_handle(hits@.take(k as int), j as u64)) as nat,
                        ) as i64,
                    }),
            decreases m - k,
        {
            let e = hits[k];
            let ghost pre_pop = *pop;
            let _ = pop.damage_enemy(e.handle, d);
            proof {
                assert(hits@.take(k as int + 1).drop_last() =~= hits@.take(k as int));
                assert(hits@.take(k as int + 1).last() == e);
                assert forall|j: int| old(pop).is_live(j) implies pop.enemy_at(j) == (Enemy {
                    pos: old(pop).enemy_at(j).pos,
                    health: damaged(
                        old(pop).enemy_at(j).health as int,
                        d as int,
                        (t0(j) + count_handle(hits@.take(k as int + 1), j as u64)) as nat,
                    ) as i64,
                }) by {
                    old(pop).lemma_arena_bound();
                    let h0 = old(pop).enemy_at(j).health as int;
                    let nn = (t0(j) + count_handle(hits@.take(k as int), j as u64)) as nat;
                    lemma_damaged_step(h0, d as int, nn);
                    if j == e.handle as int {
                        assert(pre_pop.is_live(e.handle as int));
                        assert(count_handle(hits@.take(k as int + 1), j as u64) == count_handle(
                            hits@.take(k as int),
                            j as u64,
                        ) + 1);
                        assert(pop.enemy_at(j).health == sat_sub(
                            damaged(h0, d as int, nn),
                            d as int,
                        ) as i64);
                    } else {
                        assert(e.handle != j as u64);
                        assert(count_handle(hits@.take(k as int + 1), j as u64) == count_handle(
                            hits@.take(k as int),
                            j as u64,
                        ));
                    }
                }
            }
            k = k + 1;
        }
        proof {
            assert(hits@.take(m as int) =~= hits@);
            assert(bullets@.take(i as int + 1).drop_last() =~= bullets@.take(i as int));
            assert(bullets@.take(i as int + 1).last() == b);
            assert forall|j: int| old(pop).is_live(j) implies pop.enemy_at(j) == (Enemy {
                pos: old(pop).enemy_at(j).pos,
                health: damaged(
                    old(pop).enemy_at(j).health as int,
                    d as int,
                    total_hits(bullets@.take(i as int + 1), contents, j as u64, r as int),
                ) as i64,
            }) by {
                old(pop).lemma_arena_bound();
                lemma_count_by_handle(hits@, j as u64);
                assert(entries_multiset(hits@) == contents.filter(within_pred(b.pos, r as int)));
                assert(count_handle(hits@, j as u64) == bullet_hits(
                    contents,
                    b,
                    j as u64,
                    r as int,
                ));
                assert(total_hits(bullets@.take(i as int + 1), contents, j as u64, r as int)
                    == t0(j) + bullet_hits(contents, b, j as u64, r as int));
            }
        }
        i = i + 1;
    }
    proof {
        assert(bullets@.take(n as int) =~= bullets@);
    }
}

} // verus!
