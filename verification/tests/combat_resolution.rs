use shooter_core::combat::resolve_tick;
use shooter_core::config::SimConfig;
use shooter_core::geom::Vec2;
use shooter_core::index::EnemyKdTree;
use shooter_core::pop::Population;
use shooter_core::proj::Bullet;

fn combat_cfg() -> SimConfig {
    let mut c = SimConfig::standard();
    c.hit_radius = 15;
    c.bullet_damage = 30;
    c
}

#[test]
fn bullet_damages_exactly_the_enemies_in_radius() {
    // enemies at (10,0), (0,0) and (100,0); one bullet at (0,0) moving
    // toward (10,0) with hit radius 15: the first two are hit, the
    // third is untouched
    let cfg = combat_cfg();
    let mut pop = Population::new();
    let a = pop.spawn_at(Vec2 { x: 10, y: 0 }, 100) as u64;
    let b = pop.spawn_at(Vec2 { x: 0, y: 0 }, 100) as u64;
    let c = pop.spawn_at(Vec2 { x: 100, y: 0 }, 100) as u64;
    let mut tree = EnemyKdTree::new();
    tree.rebuild(&pop.index_entries());
    let bullets = vec![Bullet {
        pos: Vec2 { x: 0, y: 0 },
        dir: Vec2 { x: 1, y: 0 },
        spawn_time: 0,
    }];
    resolve_tick(&mut pop, &bullets, &tree, &cfg);
    assert_eq!(pop.get_enemy(a).expect("alive").health, 70);
    assert_eq!(pop.get_enemy(b).expect("alive").health, 70);
    assert_eq!(pop.get_enemy(c).expect("alive").health, 100);
}

#[test]
fn bullets_pierce_and_hit_every_pass() {
    // a bullet is not consumed by a hit: resolving twice damages twice
    let cfg = combat_cfg();
    let mut pop = Population::new();
    let a = pop.spawn_at(Vec2 { x: 5, y: 0 }, 100) as u64;
    let mut tree = EnemyKdTree::new();
    tree.rebuild(&pop.index_entries());
    let bullets = vec![Bullet {
        pos: Vec2 { x: 0, y: 0 },
        dir: Vec2 { x: 1, y: 0 },
        spawn_time: 0,
    }];
    resolve_tick(&mut pop, &bullets, &tree, &cfg);
    resolve_tick(&mut pop, &bullets, &tree, &cfg);
    assert_eq!(pop.get_enemy(a).expect("alive").health, 40);
}

#[test]
fn stale_index_entry_for_removed_enemy_is_ignored() {
    let cfg = combat_cfg();
    let mut pop = Population::new();
    let a = pop.spawn_at(Vec2 { x: 5, y: 0 }, 10) as u64;
    let survivor = pop.spawn_at(Vec2 { x: 200, y: 0 }, 10) as u64;
    let mut tree = EnemyKdTree::new();
    tree.rebuild(&pop.index_entries());
    // the enemy dies and despawns, but the index still holds its point
    pop.damage_enemy(a, 10);
    pop.despawn_tick();
    let bullets = vec![Bullet {
        pos: Vec2 { x: 5, y: 0 },
        dir: Vec2 { x: 1, y: 0 },
        spawn_time: 0,
    }];
    resolve_tick(&mut pop, &bullets, &tree, &cfg);
    assert!(pop.get_enemy(a).is_none());
    assert_eq!(pop.get_enemy(survivor).expect("alive").health, 10);
}

#[test]
fn stale_index_reflects_positions_at_rebuild_time() {
    // after a rebuild, queries answer from the captured positions, not
    // from positions the enemies moved to since
    let mut pop = Population::new();
    let a = pop.spawn_at(Vec2 { x: 100, y: 0 }, 100) as u64;
    let mut tree = EnemyKdTree::new();
    tree.rebuild(&pop.index_entries());
    // the enemy takes a 60-unit homing step to (40, 0)
    pop.steer_tick(Vec2 { x: 0, y: 0 }, 60);
    assert_eq!(pop.get_enemy(a).expect("alive").pos, Vec2 { x: 40, y: 0 });
    // the index still answers with the position captured at rebuild
    let at_old = tree.query_radius(Vec2 { x: 100, y: 0 }, 5);
    assert_eq!(at_old.len(), 1);
    assert_eq!(at_old[0].handle, a);
    assert_eq!(at_old[0].pos, Vec2 { x: 100, y: 0 });
    assert!(tree.query_radius(Vec2 { x: 40, y: 0 }, 5).is_empty());
    // the next rebuild captures the new position
    tree.rebuild(&pop.index_entries());
    assert!(tree.query_radius(Vec2 { x: 100, y: 0 }, 5).is_empty());
    assert_eq!(tree.query_radius(Vec2 { x: 40, y: 0 }, 5).len(), 1);
}

#[test]
fn no_bullets_is_a_no_op() {
    let cfg = combat_cfg();
    let mut pop = Population::new();
    let a = pop.spawn_at(Vec2 { x: 0, y: 0 }, 100) as u64;
    let mut tree = EnemyKdTree::new();
    tree.rebuild(&pop.index_entries());
    resolve_tick(&mut pop, &Vec::new(), &tree, &cfg);
    assert_eq!(pop.get_enemy(a).expect("alive").health, 100);
}

#[test]
fn empty_index_is_a_no_op() {
    let cfg = combat_cfg();
    let mut pop = Population::new();
    let a = pop.spawn_at(Vec2 { x: 0, y: 0 }, 100) as u64;
    let tree = EnemyKdTree::new();
    let bullets = vec![Bullet {
        pos: Vec2 { x: 0, y: 0 },
        dir: Vec2 { x: 1, y: 0 },
        spawn_time: 0,
    }];
    resolve_tick(&mut pop, &bullets, &tree, &cfg);
    assert_eq!(pop.get_enemy(a).expect("alive").health, 100);
}
