use dot_destroyer::components::Gun;
use dot_destroyer::components::ShipBundle;
use dot_destroyer::components::Team;
use dot_destroyer::helpers::V3;
use dot_destroyer::world::accel_entities;
use dot_destroyer::world::cleanup_entities;
use dot_destroyer::world::enemy_ai_aim;
use dot_destroyer::world::enemy_ai_move;
use dot_destroyer::world::handle_move;
use dot_destroyer::world::initialize;
use dot_destroyer::world::move_entities;
use dot_destroyer::world::player_shoot;
use dot_destroyer::world::tick_shoot_timers;
use dot_destroyer::world::window_to_world;
use dot_destroyer::world::wrap_player;
use dot_destroyer::world::MoveInput;
use dot_destroyer::world::SimError;

fn v(x: i64, y: i64, z: i64) -> V3 {
    V3 { x, y, z }
}

fn keys(up: bool, down: bool, left: bool, right: bool) -> MoveInput {
    MoveInput { up, down, left, right }
}

#[test]
fn gun_ticks_regardless_of_firing_flag() {
    // held: fires on the third 200 ms tick of a 500 ms cooldown
    let mut held = Gun { elapsed_ms: 0, duration_ms: 500, is_shooting: true };
    assert!(!held.tick_frame(200));
    assert!(!held.tick_frame(200));
    assert!(held.tick_frame(200));
    // released for the first tick, pressed again before the cooldown
    // elapses: the next shot comes no later than with the flag held
    let mut toggled = Gun { elapsed_ms: 0, duration_ms: 500, is_shooting: false };
    assert!(!toggled.tick_frame(200));
    assert_eq!(toggled.elapsed_ms, 200);
    toggled.is_shooting = true;
    assert!(!toggled.tick_frame(200));
    assert!(toggled.tick_frame(200));
    assert_eq!(toggled.elapsed_ms, held.elapsed_ms);
}

#[test]
fn gun_resets_to_zero_on_fire() {
    let mut g = Gun { elapsed_ms: 450, duration_ms: 500, is_shooting: true };
    assert!(g.tick_frame(100));
    assert_eq!(g.elapsed_ms, 0);
}

#[test]
fn gun_saturates_at_duration_while_idle() {
    let mut g = Gun { elapsed_ms: 0, duration_ms: 500, is_shooting: false };
    assert!(!g.tick_frame(8000));
    assert_eq!(g.elapsed_ms, 500);
    g.is_shooting = true;
    assert!(g.tick_frame(0));
}

#[test]
fn ship_builders_set_their_fields() {
    let s = ShipBundle::new(8, 0, Team::Player)
        .with_max_speed(None)
        .with_firing_rate(200)
        .with_base_accel(1500)
        .with_damage(3)
        .as_player();
    assert_eq!(s.ship_stats.radius, 8);
    assert_eq!(s.ship_stats.base_accel, 1500);
    assert_eq!(s.ship_stats.max_speed, None);
    assert_eq!(s.ship_stats.damage, 3);
    assert_eq!(s.gun.duration_ms, 200);
    assert!(!s.gun.is_shooting);
    assert!(s.is_player);
    assert!(s.alive);
    assert_eq!(s.health, s.ship_stats.base_health);
    let e = ShipBundle::new(7, 1, Team::Enemy)
        .with_max_speed(Some(420))
        .always_shooting();
    assert_eq!(e.ship_stats.max_speed, Some(420));
    assert!(e.gun.is_shooting);
    assert_eq!(e.pos, v(0, 0, 1));
    assert_eq!(e.team, Team::Enemy);
}

#[test]
fn initialize_builds_one_player_and_one_enemy() {
    let w = initialize();
    assert_eq!(w.ships.len(), 2);
    assert!(w.ships[0].is_player);
    assert!(!w.ships[1].is_player);
    assert_eq!(w.ships[0].team, Team::Player);
    assert_eq!(w.ships[1].team, Team::Enemy);
    assert_eq!(w.ships[0].ship_stats.max_speed, None);
    assert_eq!(w.ships[1].ship_stats.max_speed, Some(420));
    assert!(w.bullets.is_empty());
    assert_eq!(w.arena.half_width, 400);
    assert_eq!(w.arena.half_height, 300);
    assert_eq!(w.arena.despawn_dist, 900);
}

#[test]
fn handle_move_sums_cardinal_contributions() {
    let mut w = initialize();
    assert!(handle_move(&mut w, keys(true, false, false, true)).is_ok());
    assert_eq!(w.ships[0].accel.0, v(1500, 1500, 0));
    // opposite keys cancel, and the vector is re-derived, not accumulated
    assert!(handle_move(&mut w, keys(true, true, true, true)).is_ok());
    assert_eq!(w.ships[0].accel.0, v(0, 0, 0));
}

#[test]
fn handle_move_without_player_fails() {
    let mut w = initialize();
    w.ships.clear();
    assert_eq!(
        handle_move(&mut w, keys(false, false, false, false)),
        Err(SimError::NoPlayer)
    );
}

#[test]
fn handle_move_with_two_players_fails() {
    let mut w = initialize();
    let second = ShipBundle::new(8, 0, Team::Enemy).as_player();
    w.ships.push(second);
    assert_eq!(
        handle_move(&mut w, keys(false, false, false, false)),
        Err(SimError::NoPlayer)
    );
}

#[test]
fn player_shoot_aims_at_pointer_and_mirrors_button() {
    let mut w = initialize();
    assert!(player_shoot(&mut w, Some(v(100, 80, 0)), true).is_ok());
    assert_eq!(w.ships[0].aiming_at.0, v(100, 80, 0));
    assert!(w.ships[0].gun.is_shooting);
    // pointer outside the window: aim kept, button still mirrored
    assert!(player_shoot(&mut w, None, false).is_ok());
    assert_eq!(w.ships[0].aiming_at.0, v(100, 80, 0));
    assert!(!w.ships[0].gun.is_shooting);
}

#[test]
fn enemy_accelerates_toward_player() {
    let mut w = initialize();
    let mut player = w.ships[0];
    player.pos = v(100, 0, 0);
    w.ships[0] = player;
    assert!(enemy_ai_move(&mut w).is_ok());
    // planar direction (100, 0) normalized and scaled by base accel 1000
    assert_eq!(w.ships[1].accel.0, v(1000, 0, 0));
    assert_eq!(w.ships[0].accel.0, v(0, 0, 0));
}

#[test]
fn enemy_on_top_of_player_falls_back_to_x() {
    let mut w = initialize();
    // both at the arena center: the planar difference is zero
    assert!(enemy_ai_move(&mut w).is_ok());
    assert_eq!(w.ships[1].accel.0, v(1000, 0, 0));
}

#[test]
fn enemy_aims_at_stationary_player() {
    let mut w = initialize();
    let mut player = w.ships[0];
    player.pos = v(200, 0, 0);
    w.ships[0] = player;
    assert!(enemy_ai_aim(&mut w, 16).is_ok());
    // a stationary target is intercepted where it stands
    assert_eq!(w.ships[1].aiming_at.0, v(200, 0, 0));
}

#[test]
fn enemy_aims_at_raw_position_when_no_intercept_exists() {
    let mut w = initialize();
    // the player moves at exactly the projectile speed: the intercept
    // quadratic degenerates and the solver has no solution
    let mut player = w.ships[0];
    player.vel.0 = v(400, 0, 0);
    w.ships[0] = player;
    let mut enemy = w.ships[1];
    enemy.pos = v(0, 200, 1);
    w.ships[1] = enemy;
    assert!(enemy_ai_aim(&mut w, 16).is_ok());
    // fallback: aim at the player's raw current position, not at a fixed
    // direction
    assert_eq!(w.ships[1].aiming_at.0, v(0, -200, 0));
}

#[test]
fn accel_integrates_and_clamps_speed() {
    let mut w = initialize();
    let mut enemy = w.ships[1];
    enemy.accel.0 = v(1000, 0, 0);
    w.ships[1] = enemy;
    accel_entities(&mut w, 1000);
    // 1000 * 1s = 1000, clamped to the 420 cap: 1000 * 420 / 1001
    assert_eq!(w.ships[1].vel.0, v(419, 0, 0));
}

#[test]
fn unbounded_max_speed_skips_the_clamp() {
    let mut w = initialize();
    let mut player = w.ships[0];
    player.accel.0 = v(2000, 0, 0);
    w.ships[0] = player;
    accel_entities(&mut w, 1000);
    assert_eq!(w.ships[0].vel.0, v(2000, 0, 0));
}

#[test]
fn move_advances_positions() {
    let mut w = initialize();
    let mut player = w.ships[0];
    player.vel.0 = v(400, -200, 0);
    w.ships[0] = player;
    move_entities(&mut w, 500);
    assert_eq!(w.ships[0].pos, v(200, -100, 0));
}

#[test]
fn wrap_player_uses_true_modulo() {
    let mut w = initialize();
    let mut player = w.ships[0];
    player.pos = v(450, -500, 0);
    w.ships[0] = player;
    assert!(wrap_player(&mut w).is_ok());
    // bounds are half extent plus radius 8: 408 and 308
    assert_eq!(w.ships[0].pos, v(-366, 116, 0));
    let bx = 400 + 8;
    let by = 300 + 8;
    assert!(-bx <= w.ships[0].pos.x && w.ships[0].pos.x < bx);
    assert!(-by <= w.ships[0].pos.y && w.ships[0].pos.y < by);
}

#[test]
fn wrap_is_identity_inside_the_arena() {
    let mut w = initialize();
    let mut player = w.ships[0];
    player.pos = v(-30, 40, 0);
    w.ships[0] = player;
    assert!(wrap_player(&mut w).is_ok());
    assert_eq!(w.ships[0].pos, v(-30, 40, 0));
}

#[test]
fn elapsed_gun_spawns_one_bullet_with_spawner_stats() {
    let mut w = initialize();
    let mut player = w.ships[0];
    player.pos = v(10, 20, 0);
    player.aiming_at.0 = v(3, 4, 0);
    player.gun.is_shooting = true;
    player.gun.elapsed_ms = 200;
    player.ship_stats.damage = 7;
    w.ships[0] = player;
    tick_shoot_timers(&mut w, 16);
    // the shot queues until cleanup, so collision never sees it this frame
    assert!(w.bullets.is_empty());
    assert_eq!(w.pending_bullets.len(), 1);
    let b = w.pending_bullets[0];
    assert_eq!(b.vel.0, v(240, 320, 0));
    assert_eq!(b.pos, v(10, 20, 0));
    assert_eq!(b.bullet_stats.damage, 7);
    assert_eq!(b.bullet_stats.radius, 5);
    assert_eq!(b.team, Team::Player);
    assert!(b.alive);
    assert_eq!(w.ships[0].gun.elapsed_ms, 0);
    cleanup_entities(&mut w);
    assert_eq!(w.bullets.len(), 1);
    assert!(w.pending_bullets.is_empty());
}

#[test]
fn idle_gun_spawns_nothing() {
    let mut w = initialize();
    let mut enemy = w.ships[1];
    enemy.gun.is_shooting = false;
    w.ships[1] = enemy;
    tick_shoot_timers(&mut w, 16);
    assert!(w.pending_bullets.is_empty());
    assert_eq!(w.ships[0].gun.elapsed_ms, 16);
}

#[test]
fn window_coordinates_recenter_on_the_arena() {
    assert_eq!(window_to_world(600, 300, 800, 600), v(200, 0, 0));
    assert_eq!(window_to_world(0, 0, 800, 600), v(-400, -300, 0));
    // an odd extent halves toward zero
    assert_eq!(window_to_world(0, 0, 801, 601), v(-400, -300, 0));
}
