use shooter_core::geom::Vec2;
use shooter_core::index::{EnemyKdTree, IndexEntry};

fn grid_entries() -> Vec<IndexEntry> {
    let mut out = Vec::new();
    let mut handle = 0u64;
    for x in (-20..=20).step_by(5) {
        for y in (-20..=20).step_by(5) {
            out.push(IndexEntry {
                pos: Vec2 { x, y },
                handle,
            });
            handle += 1;
        }
    }
    out
}

fn brute_force_handles(entries: &[IndexEntry], c: Vec2, r: i64) -> Vec<u64> {
    let mut out: Vec<u64> = entries
        .iter()
        .filter(|e| {
            let dx = (c.x - e.pos.x) as i128;
            let dy = (c.y - e.pos.y) as i128;
            dx * dx + dy * dy <= (r as i128) * (r as i128)
        })
        .map(|e| e.handle)
        .collect();
    out.sort();
    out
}

#[test]
fn query_radius_matches_brute_force() {
    let entries = grid_entries();
    let mut tree = EnemyKdTree::new();
    tree.rebuild(&entries);
    let centers = [
        Vec2 { x: 0, y: 0 },
        Vec2 { x: 7, y: -3 },
        Vec2 { x: -20, y: 20 },
        Vec2 { x: 100, y: 100 },
    ];
    for &c in centers.iter() {
        for r in [0i64, 1, 5, 7, 12, 25, 60] {
            let mut got: Vec<u64> = tree.query_radius(c, r).iter().map(|e| e.handle).collect();
            got.sort();
            let want = brute_force_handles(&entries, c, r);
            assert_eq!(got, want, "center ({}, {}), radius {}", c.x, c.y, r);
        }
    }
}

#[test]
fn boundary_distance_is_included() {
    // a point at exactly distance r must be returned
    let entries = vec![IndexEntry { pos: Vec2 { x: 15, y: 0 }, handle: 7 }];
    let mut tree = EnemyKdTree::new();
    tree.rebuild(&entries);
    let on_boundary = tree.query_radius(Vec2 { x: 0, y: 0 }, 15);
    assert_eq!(on_boundary.len(), 1);
    assert_eq!(on_boundary[0].handle, 7);
    let just_inside = tree.query_radius(Vec2 { x: 0, y: 0 }, 14);
    assert!(just_inside.is_empty());
}

#[test]
fn empty_index_query_is_empty() {
    let tree = EnemyKdTree::new();
    assert!(tree.query_radius(Vec2 { x: 0, y: 0 }, 1_000).is_empty());
}

#[test]
fn rebuild_replaces_contents_wholly() {
    let mut tree = EnemyKdTree::new();
    tree.rebuild(&vec![IndexEntry { pos: Vec2 { x: 1, y: 1 }, handle: 1 }]);
    assert_eq!(tree.query_radius(Vec2 { x: 1, y: 1 }, 0).len(), 1);
    tree.rebuild(&vec![IndexEntry { pos: Vec2 { x: 9, y: 9 }, handle: 2 }]);
    assert!(tree.query_radius(Vec2 { x: 1, y: 1 }, 3).is_empty());
    assert_eq!(tree.query_radius(Vec2 { x: 9, y: 9 }, 0).len(), 1);
}
