use shooter_core::geom::{dist_sq_exec, isqrt64, step_along, step_toward, Vec2, COORD_LIMIT};

#[test]
fn isqrt_exact_values() {
    assert_eq!(isqrt64(0), 0);
    assert_eq!(isqrt64(1), 1);
    assert_eq!(isqrt64(3), 1);
    assert_eq!(isqrt64(4), 2);
    assert_eq!(isqrt64(15), 3);
    assert_eq!(isqrt64(16), 4);
    assert_eq!(isqrt64(1_000_000), 1_000);
    assert_eq!(isqrt64(u64::MAX), 4_294_967_295);
}

#[test]
fn dist_sq_pythagorean() {
    let a = Vec2 { x: 0, y: 0 };
    let b = Vec2 { x: 3, y: 4 };
    assert_eq!(dist_sq_exec(a, b), 25);
    assert_eq!(dist_sq_exec(b, a), 25);
    assert_eq!(dist_sq_exec(b, b), 0);
}

#[test]
fn step_toward_moves_along_axis() {
    let from = Vec2 { x: 10, y: 0 };
    let to = Vec2 { x: 0, y: 0 };
    let p = step_toward(from, to, 5);
    assert_eq!(p, Vec2 { x: 5, y: 0 });
}

#[test]
fn step_toward_can_overshoot() {
    // the step is not clamped to the remaining distance
    let from = Vec2 { x: 1, y: 0 };
    let to = Vec2 { x: 0, y: 0 };
    let p = step_toward(from, to, 5);
    assert_eq!(p, Vec2 { x: -4, y: 0 });
}

#[test]
fn step_along_zero_direction_is_no_move() {
    let pos = Vec2 { x: 5, y: 5 };
    let p = step_along(pos, Vec2 { x: 0, y: 0 }, 10);
    assert_eq!(p, pos);
}

#[test]
fn step_along_clamps_to_world_edge() {
    let pos = Vec2 { x: COORD_LIMIT, y: 0 };
    let p = step_along(pos, Vec2 { x: 1, y: 0 }, 5);
    assert_eq!(p, Vec2 { x: COORD_LIMIT, y: 0 });
}

#[test]
fn step_along_diagonal_has_scaled_components() {
    let pos = Vec2 { x: 0, y: 0 };
    // |(3, 4)| = 5, so a step of 10 moves (3*10/5, 4*10/5) = (6, 8)
    let p = step_along(pos, Vec2 { x: 3, y: 4 }, 10);
    assert_eq!(p, Vec2 { x: 6, y: 8 });
}
