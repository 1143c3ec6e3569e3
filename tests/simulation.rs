use tower_defense::geometry::{isqrt, step_coord};
use tower_defense::tower::{make_bullet, nearest_target};
use tower_defense::{
    Body, PhysicsBundle, SpawnError, Target, Vec3i, World, BULLET_LIFETIME, BULLET_SPEED,
    WORLD_EDGE,
};

const M: i64 = 1_000_000;

fn v(x: i64, y: i64, z: i64) -> Vec3i {
    Vec3i::new(x, y, z)
}

fn target_at(id: u64, p: Vec3i) -> Target {
    Target {
        id,
        speed: 1,
        health: 3,
        body: Body { position: p, half_extents: v(1, 1, 1), velocity: v(1, 0, 0), moving: true },
    }
}

/// A world with one tower at the origin, muzzle offset (0, 1, 0.5) m, and one target
/// with health 3 and a 0.1 m box at (0, 1, 1) m.
fn duel() -> (World, u64) {
    let mut w = World::new();
    w.spawn_tower(v(0, 0, 0), 2 * M, 1000, v(0, M, M / 2)).unwrap();
    let t = w.spawn_target(v(0, M, M), 1, 3, v(M / 10, M / 10, M / 10)).unwrap();
    (w, t)
}

#[test]
fn nearest_of_three_distances() {
    let p = v(0, 0, 0);
    let ts = vec![target_at(0, v(5 * M, 0, 0)), target_at(1, v(0, 2 * M, 0)), target_at(2, v(0, 0, 8 * M))];
    assert_eq!(nearest_target(&ts, p), Some(1));
}

#[test]
fn nearest_prefers_first_on_ties() {
    let p = v(0, 0, 0);
    let ts = vec![target_at(0, v(3 * M, 0, 0)), target_at(1, v(0, -3 * M, 0)), target_at(2, v(0, 0, 3 * M))];
    assert_eq!(nearest_target(&ts, p), Some(0));
}

#[test]
fn nearest_of_nothing_is_none() {
    let ts: Vec<Target> = Vec::new();
    assert_eq!(nearest_target(&ts, v(0, 0, 0)), None);
}

#[test]
fn tower_fires_at_nearest_target() {
    let mut w = World::new();
    w.spawn_tower(v(0, 0, 0), 2 * M, 1000, v(0, 0, 0)).unwrap();
    w.spawn_target(v(5 * M, 0, 0), 1, 3, v(M / 10, M / 10, M / 10)).unwrap();
    let near = w.spawn_target(v(0, 2 * M, 0), 1, 3, v(M / 10, M / 10, M / 10)).unwrap();
    w.spawn_target(v(0, 0, 8 * M), 1, 3, v(M / 10, M / 10, M / 10)).unwrap();
    w.tick(1000);
    assert_eq!(w.bullets().len(), 1);
    let target = w.targets().iter().find(|t| t.id == near).unwrap().body.position;
    assert_eq!(w.bullets()[0].direction, target);
}

#[test]
fn one_shot_per_period() {
    let (mut w, _) = duel();
    w.tick(500);
    assert_eq!(w.bullets().len(), 0);
    w.tick(500);
    assert_eq!(w.bullets().len(), 1);
}

#[test]
fn long_tick_fires_once() {
    let mut w = World::new();
    w.spawn_tower(v(0, 0, 0), 2 * M, 1000, v(0, 0, 0)).unwrap();
    w.spawn_target(v(0, 0, 5 * M), 1, 3, v(M / 10, M / 10, M / 10)).unwrap();
    w.tick(3500);
    assert_eq!(w.bullets().len(), 1);
    assert_eq!(w.towers()[0].elapsed, 500);
}

#[test]
fn idle_tower_without_targets() {
    let mut w = World::new();
    w.spawn_tower(v(0, 0, 0), 2 * M, 1000, v(0, 0, 0)).unwrap();
    w.tick(1000);
    assert_eq!(w.bullets().len(), 0);
    assert_eq!(w.towers()[0].elapsed, 0);
}

#[test]
fn end_to_end_hit_then_second_shot() {
    let (mut w, t) = duel();
    w.tick(1000);
    assert_eq!(w.bullets().len(), 1);
    let b = w.bullets()[0];
    assert_eq!(b.body.position, v(0, M, M / 2));
    assert_eq!(b.direction, v(1000, 0, M / 2));
    assert_eq!(b.body.velocity, v(5, 0, 2500));
    assert_eq!(b.lifetime, BULLET_LIFETIME - 1000);
    w.tick(200);
    assert_eq!(w.bullets().len(), 0);
    assert_eq!(w.targets()[0].id, t);
    assert_eq!(w.targets()[0].health, 2);
    w.tick(800);
    assert_eq!(w.bullets().len(), 1);
    assert_eq!(w.targets()[0].health, 2);
}

#[test]
fn coarse_ticks_pass_through_target() {
    let (mut w, _) = duel();
    w.tick(1000);
    w.tick(1000);
    assert_eq!(w.targets()[0].health, 3);
}

#[test]
fn overlap_after_advance_costs_one_health() {
    let (mut w, _) = duel();
    w.tick(1000);
    w.advance_bodies(200);
    w.resolve_collisions();
    assert_eq!(w.targets()[0].health, 2);
    assert_eq!(w.bullets().len(), 0);
}

#[test]
fn health_never_rises_over_ticks() {
    let (mut w, _) = duel();
    let mut last = w.targets()[0].health;
    for _ in 0..20 {
        w.tick(200);
        let h = w.targets()[0].health;
        assert!(h <= last);
        last = h;
    }
    assert!(last < 3);
}

#[test]
fn dead_targets_are_removed_on_request() {
    let mut w = World::new();
    w.spawn_tower(v(0, 0, 0), 2 * M, 1000, v(0, M, M / 2)).unwrap();
    w.spawn_target(v(0, M, M), 1, 1, v(M / 10, M / 10, M / 10)).unwrap();
    w.tick(1000);
    w.tick(200);
    assert_eq!(w.targets()[0].health, 0);
    w.remove_dead_targets();
    assert_eq!(w.targets().len(), 0);
}

#[test]
fn lifetime_counts_down_then_removes() {
    let mut w = World::new();
    w.spawn_tower(v(0, 0, 0), 2 * M, 1000, v(0, 0, 0)).unwrap();
    w.spawn_target(v(0, 0, -5 * M), 1, 3, v(M / 10, M / 10, M / 10)).unwrap();
    w.tick(1000);
    assert_eq!(w.bullets()[0].lifetime, BULLET_LIFETIME - 1000);
    w.remove_target(w.targets()[0].id);
    w.tick(999_000);
    assert_eq!(w.bullets()[0].lifetime, BULLET_LIFETIME - 1000 - 999_000);
    w.tick(500);
    assert_eq!(w.bullets().len(), 0);
}

#[test]
fn bullet_with_exhausted_lifetime_leaves_in_its_tick() {
    let mut w = World::new();
    w.spawn_tower(v(0, 0, 0), 2 * M, 1000, v(0, 0, 0)).unwrap();
    w.spawn_target(v(0, 0, 5 * M), 1, 3, v(M / 10, M / 10, M / 10)).unwrap();
    w.tick(BULLET_LIFETIME);
    assert_eq!(w.bullets().len(), 0);
}

#[test]
fn removing_twice_is_harmless() {
    let (mut w, t) = duel();
    w.tick(1000);
    let b = w.bullets()[0].id;
    w.remove_bullet(b);
    assert_eq!(w.bullets().len(), 0);
    w.remove_bullet(b);
    assert_eq!(w.bullets().len(), 0);
    w.remove_target(t);
    w.remove_target(t);
    assert_eq!(w.targets().len(), 0);
    assert_eq!(w.towers().len(), 1);
}

#[test]
fn removing_unknown_id_changes_nothing() {
    let (mut w, t) = duel();
    w.remove_target(t + 100);
    w.remove_bullet(t + 100);
    assert_eq!(w.targets().len(), 1);
}

#[test]
fn spawn_rejects_bad_configuration() {
    let mut w = World::new();
    assert_eq!(w.spawn_tower(v(0, 0, 0), 0, 1000, v(0, 0, 0)), Err(SpawnError::InvalidConfiguration));
    assert_eq!(w.spawn_tower(v(0, 0, 0), M, 0, v(0, 0, 0)), Err(SpawnError::InvalidConfiguration));
    assert_eq!(
        w.spawn_tower(v(WORLD_EDGE, 0, 0), M, 1000, v(1, 0, 0)),
        Err(SpawnError::InvalidConfiguration)
    );
    assert_eq!(w.spawn_target(v(0, 0, 0), 0, 3, v(1, 1, 1)), Err(SpawnError::InvalidConfiguration));
    assert_eq!(w.spawn_target(v(0, 0, 0), 1, 0, v(1, 1, 1)), Err(SpawnError::InvalidConfiguration));
    assert_eq!(w.spawn_target(v(0, 0, 0), 1, 3, v(0, 1, 1)), Err(SpawnError::InvalidConfiguration));
    assert_eq!(w.towers().len(), 0);
    assert_eq!(w.targets().len(), 0);
}

#[test]
fn spawn_hands_out_fresh_ids() {
    let mut w = World::new();
    let a = w.spawn_tower(v(0, 0, 0), M, 1000, v(0, 0, 0)).unwrap();
    let b = w.spawn_target(v(0, 0, 0), 1, 3, v(2, 4, 6)).unwrap();
    assert_ne!(a, b);
    assert_eq!(w.targets()[0].body.half_extents, v(1, 2, 3));
    assert_eq!(w.targets()[0].body.velocity, v(1, 0, 0));
}

#[test]
fn aim_scales_to_bullet_speed() {
    let b = make_bullet(7, v(0, 0, 0), v(3 * M, -4 * M, 0));
    assert_eq!(b.id, 7);
    assert_eq!(b.speed, BULLET_SPEED);
    assert_eq!(b.body.velocity, v(1500, -2000, 0));
    assert_eq!(b.body.half_extents, v(100_000, 100_000, 100_000));
}

#[test]
fn aim_at_muzzle_uses_default_direction() {
    let b = make_bullet(0, v(5, 5, 5), v(5, 5, 5));
    assert_eq!(b.body.velocity, v(0, 0, -BULLET_SPEED));
}

#[test]
fn integer_square_roots() {
    assert_eq!(isqrt(0), 0);
    assert_eq!(isqrt(15), 3);
    assert_eq!(isqrt(16), 4);
    assert_eq!(isqrt(250_001_000_000), 500_000);
}

#[test]
fn positions_stop_at_world_edge() {
    assert_eq!(step_coord(10, 3, 4), 22);
    assert_eq!(step_coord(WORLD_EDGE - 1, 5, 10), WORLD_EDGE);
    assert_eq!(step_coord(-WORLD_EDGE + 1, -5, 10), -WORLD_EDGE);
}

#[test]
fn moving_entity_halves_size() {
    let b = PhysicsBundle::moving_entity(v(4, 6, 9));
    assert_eq!(b.half_extents, v(2, 3, 4));
    assert_eq!(b.velocity, v(0, 0, 0));
    assert!(b.moving);
}
