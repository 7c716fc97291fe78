use shooter_core::config::SimConfig;
use shooter_core::geom::Vec2;
use shooter_core::sim::{Simulation, TickInput};

const NO_INTENT: Vec2 = Vec2 { x: 0, y: 0 };

fn idle_input(dt_ms: u64) -> TickInput {
    TickInput {
        dt_ms,
        move_intent: NO_INTENT,
        trigger_held: false,
        aim_target: Vec2 { x: 100, y: 0 },
        contact_hits: 0,
    }
}

#[test]
fn spawn_waves_respect_the_cap() {
    let mut cfg = SimConfig::standard();
    cfg.population_cap = 10;
    cfg.spawn_per_wave = 100;
    let mut sim = Simulation::new(cfg);
    // the one-second spawn timer elapses: one wave, clamped to the cap
    let out = sim.tick(idle_input(1_000));
    assert_eq!(out.spawned, 10);
    assert_eq!(sim.enemy_count(), 10);
    // at the cap the next wave spawns nothing
    let out = sim.tick(idle_input(1_000));
    assert_eq!(out.spawned, 0);
    assert_eq!(sim.enemy_count(), 10);
}

#[test]
fn no_spawn_before_the_interval() {
    let mut sim = Simulation::new(SimConfig::standard());
    let out = sim.tick(idle_input(400));
    assert_eq!(out.spawned, 0);
    assert_eq!(sim.enemy_count(), 0);
}

#[test]
fn clock_advances_by_elapsed_time() {
    let mut sim = Simulation::new(SimConfig::standard());
    sim.tick(idle_input(16));
    sim.tick(idle_input(17));
    assert_eq!(sim.current_time(), 33);
}

#[test]
fn contact_damage_and_game_over_signal() {
    let mut cfg = SimConfig::standard();
    cfg.contact_damage = 60; // player starts with 100 health
    let mut sim = Simulation::new(cfg);
    let mut input = idle_input(16);
    input.contact_hits = 1;
    let out = sim.tick(input);
    assert!(!out.player_depleted);
    assert_eq!(sim.get_player().health, 40);
    let mut input = idle_input(16);
    input.contact_hits = 1;
    let out = sim.tick(input);
    assert!(out.player_depleted);
    assert_eq!(sim.get_player().health, -20);
}

#[test]
fn firing_follows_the_trigger_and_cooldown() {
    let mut sim = Simulation::new(SimConfig::standard());
    let mut input = idle_input(100); // matches the 100 ms fire interval
    input.trigger_held = true;
    let out = sim.tick(input);
    assert_eq!(out.fired, 5);
    assert_eq!(sim.bullet_snapshot().len(), 5);
    // a short tick right after: the cooldown has not elapsed again
    let mut input = idle_input(10);
    input.trigger_held = true;
    let out = sim.tick(input);
    assert_eq!(out.fired, 0);
}

#[test]
fn fired_bullets_expire_after_their_lifetime() {
    let mut sim = Simulation::new(SimConfig::standard()); // 1000 ms lifetime
    let mut input = idle_input(100);
    input.trigger_held = true;
    sim.tick(input);
    assert_eq!(sim.bullet_snapshot().len(), 5);
    // 990 ms later the bullets (fired at t = 100) are still there
    sim.tick(idle_input(990));
    assert_eq!(sim.bullet_snapshot().len(), 5);
    // past t = 1100 they are gone, hits or no hits
    sim.tick(idle_input(100));
    assert_eq!(sim.bullet_snapshot().len(), 0);
}

#[test]
fn player_moves_by_intent() {
    // 120 game units/s = 120 000 coordinate units per second
    let mut sim = Simulation::new(SimConfig::standard());
    let mut input = idle_input(1_000);
    input.move_intent = Vec2 { x: 1, y: 0 };
    sim.tick(input);
    assert_eq!(sim.get_player().pos, Vec2 { x: 120_000, y: 0 });
    assert_eq!(sim.get_player().health, 100);
}

#[test]
fn spawned_enemies_home_on_the_player() {
    let mut cfg = SimConfig::standard();
    cfg.population_cap = 3;
    cfg.spawn_per_wave = 3;
    let mut sim = Simulation::new(cfg);
    sim.tick(idle_input(1_000));
    assert_eq!(sim.enemy_count(), 3);
    // enemies spawn on the ring around the player and home on it;
    // after a few seconds they are all closer
    let player = sim.get_player().pos;
    let before: Vec<(u64, i64)> = sim
        .enemy_snapshot()
        .iter()
        .map(|(h, e)| (*h, (e.pos.x - player.x).abs() + (e.pos.y - player.y).abs()))
        .collect();
    assert_eq!(before.len(), 3);
    for _ in 0..5 {
        sim.tick(idle_input(999)); // just under the spawn interval
    }
    for (h, d0) in before {
        let e = sim.get_enemy(h).expect("alive");
        let d1 = (e.pos.x - player.x).abs() + (e.pos.y - player.y).abs();
        assert!(d1 < d0, "enemy {} did not close in: {} -> {}", h, d0, d1);
    }
}

#[test]
fn enemies_move_even_at_short_ticks() {
    // a 16 ms tick is worth 960 coordinate units of enemy travel; the
    // sub-unit remainder is carried, so nothing is lost to short ticks
    let mut cfg = SimConfig::standard();
    cfg.population_cap = 2;
    cfg.spawn_per_wave = 2;
    let mut sim = Simulation::new(cfg);
    sim.tick(idle_input(1_000));
    assert_eq!(sim.enemy_count(), 2);
    let player = sim.get_player().pos;
    let dist = |p: Vec2| (p.x - player.x).abs() + (p.y - player.y).abs();
    let before: Vec<(u64, i64)> = sim
        .enemy_snapshot()
        .iter()
        .map(|(h, e)| (*h, dist(e.pos)))
        .collect();
    for _ in 0..31 {
        sim.tick(idle_input(16)); // just under half a second in all
    }
    for (h, d0) in before {
        let e = sim.get_enemy(h).expect("alive");
        // 31 ticks of 16 ms come to about 29 000 coordinate units
        assert!(
            dist(e.pos) <= d0 - 25_000,
            "enemy {} barely moved: {} -> {}",
            h,
            d0,
            dist(e.pos)
        );
    }
}
