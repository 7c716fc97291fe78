use shooter_core::config::SimConfig;
use shooter_core::geom::Vec2;
use shooter_core::proj::Projectiles;

const ORIGIN: Vec2 = Vec2 { x: 0, y: 0 };

fn fire_one_volley(now_ms: u64) -> Projectiles {
    let cfg = SimConfig::standard(); // 100 ms cooldown, 5 bullets, 1000 ms life
    let mut proj = Projectiles::new();
    let fired = proj.fire_tick(true, ORIGIN, Vec2 { x: 500, y: 0 }, now_ms, 100, &cfg);
    assert_eq!(fired, cfg.bullets_per_shot);
    proj
}

#[test]
fn bullet_present_before_lifetime_absent_after() {
    // fired at t=0 with a 1.0 s lifetime: still present at 0.99 s,
    // absent at 1.01 s
    let cfg = SimConfig::standard();
    let mut proj = fire_one_volley(0);
    proj.expire_tick(990, &cfg);
    assert_eq!(proj.bullet_count(), 5);
    proj.expire_tick(1_010, &cfg);
    assert_eq!(proj.bullet_count(), 0);
}

#[test]
fn bullet_expires_exactly_at_lifetime() {
    // absent at any time >= spawn + lifetime
    let cfg = SimConfig::standard();
    let mut proj = fire_one_volley(0);
    proj.expire_tick(1_000, &cfg);
    assert_eq!(proj.bullet_count(), 0);
}

#[test]
fn cooldown_gates_firing() {
    let cfg = SimConfig::standard();
    let mut proj = Projectiles::new();
    let aim = Vec2 { x: 500, y: 0 };
    // 50 ms accumulated: not enough for the 100 ms interval
    assert_eq!(proj.fire_tick(true, ORIGIN, aim, 0, 50, &cfg), 0);
    assert_eq!(proj.bullet_count(), 0);
    // 50 more: the shot leaves and the stopwatch resets
    assert_eq!(proj.fire_tick(true, ORIGIN, aim, 50, 50, &cfg), 5);
    assert_eq!(proj.bullet_count(), 5);
    // right after a shot nothing fires
    assert_eq!(proj.fire_tick(true, ORIGIN, aim, 50, 0, &cfg), 0);
}

#[test]
fn trigger_released_fires_nothing() {
    let cfg = SimConfig::standard();
    let mut proj = Projectiles::new();
    assert_eq!(proj.fire_tick(false, ORIGIN, Vec2 { x: 500, y: 0 }, 0, 10_000, &cfg), 0);
    assert_eq!(proj.bullet_count(), 0);
}

#[test]
fn bullet_directions_spread_within_jitter() {
    // aim along +x: the base direction is (1000, 0); each axis is
    // jittered by at most bullet_jitter = 1000
    let proj = fire_one_volley(0);
    for b in proj.bullet_list() {
        assert_eq!(b.pos, ORIGIN);
        assert_eq!(b.spawn_time, 0);
        assert!((b.dir.x - 1_000).abs() <= 1_000, "dir.x = {}", b.dir.x);
        assert!(b.dir.y.abs() <= 1_000, "dir.y = {}", b.dir.y);
    }
}

#[test]
fn advance_integrates_along_direction() {
    let mut cfg = SimConfig::standard();
    cfg.bullet_jitter = 1; // nearly deterministic direction
    let mut proj = Projectiles::new();
    let fired = proj.fire_tick(true, ORIGIN, Vec2 { x: 500, y: 0 }, 0, 100, &cfg);
    assert_eq!(fired, 5);
    // a 600-unit step (one second at 600 units/s): each bullet
    // travels about 600 units +x
    proj.advance_tick(600);
    for b in proj.bullet_list() {
        assert!((b.pos.x - 600).abs() <= 10, "pos.x = {}", b.pos.x);
        assert!(b.pos.y.abs() <= 10, "pos.y = {}", b.pos.y);
    }
}
