//! The spatial index over living enemies: a k-d tree of
//! `(position, handle)` pairs, rebuilt wholesale on a timer and queried
//! by radius during collision resolution. The tree itself comes from
//! the `kd_tree` crate; its contents are modelled as a multiset of
//! `(x, y, handle)` triples.

use vstd::prelude::*;
use vstd::multiset::Multiset;
use crate::geom::{Vec2, in_world, COORD_LIMIT};

verus! {

broadcast use vstd::multiset::group_multiset_axioms, vstd::seq_lib::group_to_multiset_ensures;

/// Holds the `kd_tree` crate's two-dimensional tree of
/// `([x, y], handle)` items. The tree is opaque to the verifier; what
/// it stores is modelled by [`kd_points`] and pinned down by the
/// contracts of [`kd_build`] and [`kd_within_strict`].
#[verifier::external_body]
pub struct KdStore {
    tree: kd_tree::KdTree2<([i64; 2], u64)>,
}

/// One indexed point: an enemy's position and its handle.
#[derive(Clone, Copy, PartialEq, Eq, Structural, Debug)]
pub struct IndexEntry {
    pub pos: Vec2,
    pub handle: u64,
}

/// An entry as the plain triple the index contents are modelled with.
pub open spec fn entry_triple(e: IndexEntry) -> (i64, i64, u64) {
    (e.pos.x, e.pos.y, e.handle)
}

/// The multiset of triples a sequence of entries stands for.
pub open spec fn entries_multiset(s: Seq<IndexEntry>) -> Multiset<(i64, i64, u64)> {
    s.map_values(|e: IndexEntry| entry_triple(e)).to_multiset()
}

/// The indexed triple lies within Euclidean distance `r` of `c`.
pub open spec fn triple_within(p: (i64, i64, u64), c: Vec2, r: int) -> bool {
    (c.x - p.0) * (c.x - p.0) + (c.y - p.1) * (c.y - p.1) <= r * r
}

/// ... within strict distance `r` of `c` (squared comparison).
pub open spec fn triple_within_strict(p: (i64, i64, u64), c: Vec2, r: int) -> bool {
    (c.x - p.0) * (c.x - p.0) + (c.y - p.1) * (c.y - p.1) < r * r
}

/// The triple's coordinates lie inside the world range.
pub open spec fn triple_in_world(p: (i64, i64, u64)) -> bool {
    &&& -COORD_LIMIT <= p.0 <= COORD_LIMIT
    &&& -COORD_LIMIT <= p.1 <= COORD_LIMIT
}

/// What the k-d tree holds, as a multiset of `(x, y, handle)` triples.
pub uninterp spec fn kd_points(t: KdStore) -> Multiset<(i64, i64, u64)>;

/// Relies on `kd_tree::KdTreeN::build`: the tree is a reordering of the
/// given items — it holds exactly the points it was built from.
#[verifier::external_body]
fn kd_build(entries: &Vec<IndexEntry>) -> (t: KdStore)
    ensures
        kd_points(t) == entries_multiset(entries@),
{
    KdStore {
        tree: kd_tree::KdTree2::build(
            entries.iter().map(|e| ([e.pos.x, e.pos.y], e.handle)).collect(),
        ),
    }
}

/// Relies on `kd_tree::KdSliceN::within_radius`: it returns exactly the
/// stored items whose squared Euclidean distance from the query point is
/// strictly below `radius * radius`. The coordinate bounds keep its
/// internal `i64` squared-distance arithmetic from overflowing.
#[verifier::external_body]
fn kd_within_strict(t: &KdStore, cx: i64, cy: i64, radius: i64) -> (res: Vec<IndexEntry>)
    requires
        0 <= radius <= 2_000_000_000,
        -COORD_LIMIT <= cx <= COORD_LIMIT,
        -COORD_LIMIT <= cy <= COORD_LIMIT,
        forall|p: (i64, i64, u64)| kd_points(*t).contains(p) ==> triple_in_world(p),
    ensures
        entries_multiset(res@) == kd_points(*t).filter(
            strict_pred(Vec2 { x: cx, y: cy }, radius as int),
        ),
{
    t.tree
        .within_radius(&[cx, cy], radius)
        .into_iter()
        .map(|e| IndexEntry { pos: Vec2 { x: e.0[0], y: e.0[1] }, handle: e.1 })
        .collect()
}

/// The radius predicate used by queries: within Euclidean distance `r`
/// of `c`, by squared comparison.
pub open spec fn within_pred(c: Vec2, r: int) -> spec_fn((i64, i64, u64)) -> bool {
    |p: (i64, i64, u64)| triple_within(p, c, r)
}

/// The predicate the raw tree query answers: strictly closer than `r`.
pub open spec fn strict_pred(c: Vec2, r: int) -> spec_fn((i64, i64, u64)) -> bool {
    |p: (i64, i64, u64)| triple_within_strict(p, c, r)
}

/// Every triple of a multiset built from in-world entries is in-world.
proof fn lemma_entries_in_world(s: Seq<IndexEntry>)
    requires
        forall|k: int| 0 <= k < s.len() ==> in_world(#[trigger] s[k].pos),
    ensures
        forall|p: (i64, i64, u64)| entries_multiset(s).contains(p) ==> triple_in_world(p),
{
    let m = s.map_values(|e: IndexEntry| entry_triple(e));
    assert forall|p: (i64, i64, u64)| entries_multiset(s).contains(p) implies triple_in_world(
        p,
    ) by {
        assert(m.to_multiset().count(p) > 0);
        assert(m.contains(p));
        let k = choose|k: int| 0 <= k < m.len() && m[k] == p;
        assert(in_world(s[k].pos));
    }
}

/// The members of an entry sequence carry the triples of its multiset.
proof fn lemma_entry_seq_members(s: Seq<IndexEntry>)
    ensures
        forall|k: int|
            0 <= k < s.len() ==> entries_multiset(s).contains(#[trigger] entry_triple(s[k])),
{
    let m = s.map_values(|e: IndexEntry| entry_triple(e));
    assert forall|k: int|
        0 <= k < s.len() implies entries_multiset(s).contains(entry_triple(s[k])) by {
        assert(m[k] == entry_triple(s[k]));
        assert(m.contains(m[k]));
        assert(m.to_multiset().count(m[k]) > 0);
    }
}

/// Filtering at distance `r` inside a strict filter at `r + 1` is the
/// same as filtering at distance `r` alone.
proof fn lemma_filter_within_of_strict(m: Multiset<(i64, i64, u64)>, c: Vec2, r: int)
    requires
        0 <= r,
    ensures
        m.filter(strict_pred(c, r + 1)).filter(within_pred(c, r)) == m.filter(within_pred(c, r)),
{
    assert((r + 1) * (r + 1) > r * r) by (nonlinear_arith)
        requires
            r >= 0,
    ;
    assert forall|p: (i64, i64, u64)| true implies #[trigger] m.filter(
        strict_pred(c, r + 1),
    ).filter(within_pred(c, r)).count(p) == m.filter(within_pred(c, r)).count(p) by {
        assert(within_pred(c, r)(p) ==> strict_pred(c, r + 1)(p));
    }
    assert(m.filter(strict_pred(c, r + 1)).filter(within_pred(c, r)) =~= m.filter(
        within_pred(c, r),
    ));
}

/// The spatial index over living enemies. Its contents reflect the
/// enemy positions as of the last rebuild, not the current tick:
/// queries between rebuilds answer from that snapshot.
pub struct EnemyKdTree {
    store: KdStore,
}

impl EnemyKdTree {
    /// The indexed snapshot: a multiset of `(x, y, handle)` triples.
    pub closed spec fn contents(self) -> Multiset<(i64, i64, u64)> {
        kd_points(self.store)
    }

    /// Every indexed point lies inside the world range.
    pub open spec fn wf(self) -> bool {
        forall|p: (i64, i64, u64)| self.contents().contains(p) ==> triple_in_world(p)
    }

    /// An empty index.
    pub fn new() -> (t: EnemyKdTree)
        ensures
            t.wf(),
            t.contents() == Multiset::<(i64, i64, u64)>::empty(),
    {
        let entries: Vec<IndexEntry> = Vec::new();
        let store = kd_build(&entries);
        proof {
            assert forall|p: (i64, i64, u64)| true implies #[trigger] entries_multiset(
                entries@,
            ).count(p) == 0 by {
                let m = entries@.map_values(|e: IndexEntry| entry_triple(e));
                if m.to_multiset().count(p) > 0 {
                    assert(m.contains(p));
                }
            }
            assert(entries_multiset(entries@) =~= Multiset::<(i64, i64, u64)>::empty());
        }
        EnemyKdTree { store }
    }

    /// Replace the index contents wholly with the given
    /// `(position, handle)` snapshot.
    pub fn rebuild(&mut self, entries: &Vec<IndexEntry>)
        requires
            forall|k: int| 0 <= k < entries@.len() ==> in_world(#[trigger] entries@[k].pos),
        ensures
            final(self).wf(),
            final(self).contents() == entries_multiset(entries@),
    {
        self.store = kd_build(entries);
        proof {
            lemma_entries_in_world(entries@);
        }
    }

    /// All indexed points within Euclidean distance `radius` of
    /// `center`: exactly the triples of the snapshot whose squared
    /// distance is at most `radius * radius`, stale or not. An empty
    /// index yields an empty result.
    pub fn query_radius(&self, center: Vec2, radius: i64) -> (out: Vec<IndexEntry>)
        requires
            self.wf(),
            in_world(center),
            0 <= radius <= COORD_LIMIT,
        ensures
            entries_multiset(out@) == self.contents().filter(within_pred(center, radius as int)),
            forall|k: int|
                0 <= k < out@.len() ==> triple_within(
                    #[trigger] entry_triple(out@[k]),
                    center,
                    radius as int,
                ) && self.contents().contains(entry_triple(out@[k])),
    {
        let raw = kd_within_strict(&self.store, center.x, center.y, radius + 1);
        proof {
            assert(Vec2 { x: center.x, y: center.y } == center);
            assert forall|k: int| 0 <= k < raw@.len() implies in_world(
                #[trigger] raw@[k].pos,
            ) by {
                lemma_entry_seq_members(raw@);
                let t = entry_triple(raw@[k]);
                assert(entries_multiset(raw@).contains(t));
                let f = strict_pred(center, radius as int + 1);
                assert(entries_multiset(raw@) == self.contents().filter(f));
                assert(self.contents().filter(f).count(t) > 0);
                assert(self.contents().count(t) > 0);
                assert(self.contents().contains(t));
                assert(triple_in_world(t));
            }
        }
        assert((radius as int) * (radius as int) <= 1_000_000_000_000_000_000)
            by (nonlinear_arith)
            requires
                0 <= radius as int <= 1_000_000_000,
        ;
        let rsq: u64 = (radius as u64) * (radius as u64);
        let mut out: Vec<IndexEntry> = Vec::new();
        let mut i: usize = 0;
        while i < raw.len()
            invariant
                i <= raw@.len(),
                rsq == (radius as int) * (radius as int),
                0 <= radius <= COORD_LIMIT,
                in_world(center),
                forall|k: int| 0 <= k < raw@.len() ==> in_world(#[trigger] raw@[k].pos),
                entries_multiset(out@) == entries_multiset(raw@.take(i as int)).filter(
                    within_pred(center, radius as int),
                ),
            decreases raw@.len() - i,
        {
            let e = raw[i];
            let ghost pre_out = out@;
            let ghost pre_take = raw@.take(i as int);
            let d = crate::geom::dist_sq_exec(e.pos, center);
            if d <= rsq {
                out.push(e);
            }
            proof {
                assert(raw@.take(i as int + 1) =~= pre_take.push(e));
                let f = |x: IndexEntry| entry_triple(x);
                assert(raw@.take(i as int + 1).map_values(f) =~= pre_take.map_values(f).push(
                    entry_triple(e),
                ));
                assert(entries_multiset(raw@.take(i as int + 1)) == entries_multiset(
                    pre_take,
                ).insert(entry_triple(e)));
                if d <= rsq {
                    assert(out@.map_values(f) =~= pre_out.map_values(f).push(entry_triple(e)));
                    assert(entries_multiset(out@) == entries_multiset(pre_out).insert(
                        entry_triple(e),
                    ));
                    assert(within_pred(center, radius as int)(entry_triple(e)));
                    assert(entries_multiset(raw@.take(i as int + 1)).filter(
                        within_pred(center, radius as int),
                    ) =~= entries_multiset(pre_take).filter(within_pred(center, radius as int))
                        .insert(entry_triple(e)));
                } else {
                    assert(!within_pred(center, radius as int)(entry_triple(e)));
                    assert(entries_multiset(raw@.take(i as int + 1)).filter(
                        within_pred(center, radius as int),
                    ) =~= entries_multiset(pre_take).filter(within_pred(center, radius as int)));
                }
            }
            i = i + 1;
        }
        proof {
            assert(raw@.take(raw@.len() as int) =~= raw@);
            lemma_filter_within_of_strict(
                self.contents(),
                center,
                radius as int,
            );
            assert(entries_multiset(out@) == self.contents().filter(
                within_pred(center, radius as int),
            ));
            lemma_entry_seq_members(out@);
            assert forall|k: int| 0 <= k < out@.len() implies triple_within(
                #[trigger] entry_triple(out@[k]),
                center,
                radius as int,
            ) && self.contents().contains(entry_triple(out@[k])) by {
                assert(entries_multiset(out@).contains(entry_triple(out@[k])));
                assert(self.contents().filter(within_pred(center, radius as int)).contains(
                    entry_triple(out@[k]),
                ));
                assert(within_pred(center, radius as int)(entry_triple(out@[k])));
            }
        }
        out
    }
}

} // verus!
