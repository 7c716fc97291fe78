use shooter_core::config::SimConfig;
use shooter_core::geom::Vec2;
use shooter_core::pop::Population;

fn small_cfg(cap: usize, per_wave: usize) -> SimConfig {
    let mut c = SimConfig::standard();
    c.population_cap = cap;
    c.spawn_per_wave = per_wave;
    c
}

#[test]
fn spawn_at_cap_spawns_nothing() {
    // population cap 5, current count 5: the spawn pass produces 0 enemies
    let cfg = small_cfg(5, 10);
    let mut pop = Population::new();
    let player = Vec2 { x: 0, y: 0 };
    assert_eq!(pop.spawn_tick(player, &cfg), 5);
    assert_eq!(pop.live_count(), 5);
    assert_eq!(pop.spawn_tick(player, &cfg), 0);
    assert_eq!(pop.live_count(), 5);
}

#[test]
fn spawn_clamps_to_cap() {
    let cfg = small_cfg(5, 3);
    let mut pop = Population::new();
    let player = Vec2 { x: 0, y: 0 };
    assert_eq!(pop.spawn_tick(player, &cfg), 3);
    assert_eq!(pop.spawn_tick(player, &cfg), 2);
    assert_eq!(pop.spawn_tick(player, &cfg), 0);
    assert_eq!(pop.live_count(), 5);
}

#[test]
fn spawned_enemies_start_at_full_health() {
    let cfg = small_cfg(4, 4);
    let mut pop = Population::new();
    pop.spawn_tick(Vec2 { x: 0, y: 0 }, &cfg);
    for e in pop.index_entries() {
        let enemy = pop.get_enemy(e.handle).expect("spawned enemy is alive");
        assert_eq!(enemy.health, cfg.enemy_health);
    }
}

#[test]
fn despawn_removes_exactly_the_dead() {
    let mut pop = Population::new();
    let a = pop.spawn_at(Vec2 { x: 0, y: 0 }, 10) as u64;
    let b = pop.spawn_at(Vec2 { x: 5, y: 0 }, 10) as u64;
    let c = pop.spawn_at(Vec2 { x: 9, y: 0 }, 10) as u64;
    assert!(pop.damage_enemy(a, 10)); // health 0: dead
    assert!(pop.damage_enemy(b, 25)); // health -15: dead
    assert!(pop.damage_enemy(c, 9)); // health 1: alive
    let mut removed = pop.despawn_tick();
    removed.sort();
    assert_eq!(removed, vec![a, b]);
    assert!(pop.get_enemy(a).is_none());
    assert!(pop.get_enemy(b).is_none());
    assert_eq!(pop.get_enemy(c).expect("survivor").health, 1);
    assert_eq!(pop.live_count(), 1);
}

#[test]
fn despawn_on_healthy_population_is_a_no_op() {
    let mut pop = Population::new();
    pop.spawn_at(Vec2 { x: 0, y: 0 }, 3);
    pop.spawn_at(Vec2 { x: 1, y: 1 }, 7);
    let removed = pop.despawn_tick();
    assert!(removed.is_empty());
    assert_eq!(pop.live_count(), 2);
}

#[test]
fn damage_on_stale_handle_is_ignored() {
    let mut pop = Population::new();
    let a = pop.spawn_at(Vec2 { x: 0, y: 0 }, 5) as u64;
    pop.damage_enemy(a, 5);
    pop.despawn_tick();
    assert!(!pop.damage_enemy(a, 1));
    assert!(!pop.damage_enemy(999, 1));
}

#[test]
fn damage_saturates_at_lowest_health() {
    let mut pop = Population::new();
    let a = pop.spawn_at(Vec2 { x: 0, y: 0 }, i64::MIN + 5) as u64;
    pop.damage_enemy(a, 100);
    assert_eq!(pop.get_enemy(a).expect("still present").health, i64::MIN);
}

#[test]
fn steer_moves_enemies_toward_player() {
    let mut pop = Population::new();
    let a = pop.spawn_at(Vec2 { x: 100, y: 0 }, 100) as u64;
    // a 60-unit step (one second at 60 units/s) toward the origin
    pop.steer_tick(Vec2 { x: 0, y: 0 }, 60);
    assert_eq!(pop.get_enemy(a).expect("alive").pos, Vec2 { x: 40, y: 0 });
}

#[test]
fn empty_population_passes_are_no_ops() {
    let mut pop = Population::new();
    pop.steer_tick(Vec2 { x: 0, y: 0 }, 60);
    assert!(pop.despawn_tick().is_empty());
    assert_eq!(pop.live_count(), 0);
    assert!(pop.index_entries().is_empty());
}

#[test]
fn enemy_list_reports_every_living_enemy() {
    let mut pop = Population::new();
    let a = pop.spawn_at(Vec2 { x: 1, y: 2 }, 50) as u64;
    let b = pop.spawn_at(Vec2 { x: 3, y: 4 }, 60) as u64;
    pop.damage_enemy(a, 50);
    pop.despawn_tick();
    let list = pop.enemy_list();
    assert_eq!(list.len(), 1);
    assert_eq!(list[0].0, b);
    assert_eq!(list[0].1.pos, Vec2 { x: 3, y: 4 });
    assert_eq!(list[0].1.health, 60);
}

#[test]
fn spawns_land_on_the_ring_band() {
    // with the player far from the world edge, every spawn lies
    // between spawn_dist_min - 2 and spawn_dist_max of the player
    let cfg = SimConfig::standard(); // ring 2048..=4096
    let mut pop = Population::new();
    let player = Vec2 { x: 70, y: -30 };
    pop.spawn_tick(player, &cfg);
    let list = pop.enemy_list();
    assert!(!list.is_empty());
    let lo = (cfg.spawn_dist_min as i128 - 2) * (cfg.spawn_dist_min as i128 - 2);
    let hi = cfg.spawn_dist_max as i128 * cfg.spawn_dist_max as i128;
    for (_, e) in list {
        let dx = (e.pos.x - player.x) as i128;
        let dy = (e.pos.y - player.y) as i128;
        let d2 = dx * dx + dy * dy;
        assert!(lo <= d2 && d2 <= hi, "spawn off the ring: d2 = {}", d2);
    }
}
