use dot_destroyer::components::Accel;
use dot_destroyer::components::AimingAt;
use dot_destroyer::components::BulletBundle;
use dot_destroyer::components::BulletStats;
use dot_destroyer::components::Gun;
use dot_destroyer::components::Movable;
use dot_destroyer::components::ShipBundle;
use dot_destroyer::components::ShipStats;
use dot_destroyer::components::Team;
use dot_destroyer::components::Velocity;
use dot_destroyer::helpers::V3;
use dot_destroyer::world::bullet_damage;
use dot_destroyer::world::step_frame;
use dot_destroyer::world::Arena;
use dot_destroyer::world::FrameInput;
use dot_destroyer::world::MoveInput;
use dot_destroyer::world::SimError;
use dot_destroyer::world::World;

fn v(x: i64, y: i64, z: i64) -> V3 {
    V3 { x, y, z }
}

fn quiet_input() -> FrameInput {
    FrameInput {
        movement: MoveInput { up: false, down: false, left: false, right: false },
        pointer: None,
        fire_held: false,
    }
}

fn ship(radius: i64, health: i64, pos: V3, team: Team, is_player: bool) -> ShipBundle {
    ShipBundle {
        ship_stats: ShipStats {
            radius,
            base_accel: 0,
            max_speed: Some(0),
            damage: 1,
            base_health: health,
        },
        vel: Velocity(v(0, 0, 0)),
        accel: Accel(v(0, 0, 0)),
        gun: Gun { elapsed_ms: 0, duration_ms: 1000, is_shooting: false },
        aiming_at: AimingAt(v(1, 0, 0)),
        movable: Movable { auto_despawn: false },
        pos,
        health,
        team,
        is_player,
        alive: true,
    }
}

fn bullet(radius: i64, damage: i64, pos: V3, vel: V3, team: Team) -> BulletBundle {
    BulletBundle {
        bullet_stats: BulletStats { radius, damage },
        vel: Velocity(vel),
        movable: Movable { auto_despawn: true },
        pos,
        team,
        alive: true,
    }
}

fn arena() -> Arena {
    Arena { half_width: 400, half_height: 300, despawn_dist: 900 }
}

#[test]
fn projectile_destroys_ship_after_travel_time() {
    // ship A: team Player, radius 5, health 10, stationary at the origin;
    // projectile: team Enemy, radius 1, damage 10, closing from x = 50 at
    // speed 400 — travel time 0.125 s, five 25 ms frames
    let mut w = World {
        ships: vec![ship(5, 10, v(0, 0, 0), Team::Player, true)],
        bullets: vec![bullet(1, 10, v(50, 0, 0), v(-400, 0, 0), Team::Enemy)],
        pending_bullets: vec![],
        arena: arena(),
    };
    for frame in 0..4 {
        assert!(step_frame(&mut w, quiet_input(), 25).is_ok());
        assert_eq!(w.ships.len(), 1, "ship alive after frame {}", frame);
        assert_eq!(w.ships[0].health, 10);
        assert_eq!(w.bullets.len(), 1);
    }
    // fifth frame: the projectile reaches the ship, the ship transitions
    // to Destroyed and both are removed from the store
    assert!(step_frame(&mut w, quiet_input(), 25).is_ok());
    assert!(w.ships.is_empty());
    assert!(w.bullets.is_empty());
    // with the player gone, the next frame is the fatal condition
    assert_eq!(step_frame(&mut w, quiet_input(), 25), Err(SimError::NoPlayer));
}

#[test]
fn friendly_fire_never_damages_same_team() {
    // two ships on one team; a projectile of that team overlaps the second
    let mut w = World {
        ships: vec![
            ship(5, 10, v(0, 0, 0), Team::Player, true),
            ship(5, 10, v(100, 0, 0), Team::Player, false),
        ],
        bullets: vec![bullet(1, 10, v(100, 0, 0), v(0, 0, 0), Team::Player)],
        pending_bullets: vec![],
        arena: arena(),
    };
    bullet_damage(&mut w);
    assert_eq!(w.ships[0].health, 10);
    assert_eq!(w.ships[1].health, 10);
    assert!(w.ships[0].alive && w.ships[1].alive);
    assert!(w.bullets[0].alive, "a same-team projectile is not consumed");
}

#[test]
fn projectile_despawns_past_the_threshold_and_not_before() {
    // outward at 400 u/s in 500 ms frames: 200 units per frame; the
    // despawn distance is the arena width 800 plus a 100 margin
    let mut w = World {
        ships: vec![ship(5, 10, v(0, -200, 0), Team::Player, true)],
        bullets: vec![bullet(1, 10, v(0, 0, 0), v(400, 0, 0), Team::Player)],
        pending_bullets: vec![],
        arena: arena(),
    };
    for frame in 0..4 {
        assert!(step_frame(&mut w, quiet_input(), 500).is_ok());
        assert_eq!(w.bullets.len(), 1, "in range after frame {}", frame);
        assert_eq!(w.bullets[0].pos.x, 200 * (frame + 1));
    }
    // fifth frame: x reaches 1000 > 900, the projectile is removed
    assert!(step_frame(&mut w, quiet_input(), 500).is_ok());
    assert!(w.bullets.is_empty());
    assert_eq!(w.ships.len(), 1);
}

#[test]
fn no_ship_with_spent_health_stays_alive() {
    // health 5 against damage 10: health goes negative transiently and the
    // ship is marked destroyed in the same pass
    let mut w = World {
        ships: vec![ship(5, 5, v(0, 0, 0), Team::Player, true)],
        bullets: vec![bullet(1, 10, v(0, 0, 0), v(0, 0, 0), Team::Enemy)],
        pending_bullets: vec![],
        arena: arena(),
    };
    bullet_damage(&mut w);
    assert!(!w.ships[0].alive);
    assert_eq!(w.ships[0].health, -5);
    assert!(!w.bullets[0].alive);
}

#[test]
fn a_projectile_is_single_use() {
    // two ships of the opposing team overlap the projectile; only the
    // first in store order takes the hit
    let mut w = World {
        ships: vec![
            ship(5, 10, v(0, 0, 0), Team::Player, true),
            ship(5, 10, v(2, 0, 0), Team::Player, false),
        ],
        bullets: vec![bullet(1, 3, v(1, 0, 0), v(0, 0, 0), Team::Enemy)],
        pending_bullets: vec![],
        arena: arena(),
    };
    bullet_damage(&mut w);
    assert_eq!(w.ships[0].health, 7);
    assert_eq!(w.ships[1].health, 10);
    assert!(!w.bullets[0].alive);
}

#[test]
fn cumulative_damage_in_one_pass() {
    // two live projectiles overlap one ship: both are consumed in the
    // ship's pass and the damage accumulates past zero
    let mut w = World {
        ships: vec![ship(5, 5, v(0, 0, 0), Team::Player, true)],
        bullets: vec![
            bullet(1, 10, v(0, 0, 0), v(0, 0, 0), Team::Enemy),
            bullet(1, 10, v(1, 0, 0), v(0, 0, 0), Team::Enemy),
        ],
        pending_bullets: vec![],
        arena: arena(),
    };
    bullet_damage(&mut w);
    assert!(!w.ships[0].alive);
    assert_eq!(w.ships[0].health, -15);
    assert!(!w.bullets[0].alive && !w.bullets[1].alive);
}

#[test]
fn step_frame_without_player_is_fatal_and_leaves_the_store() {
    let mut w = World {
        ships: vec![ship(5, 10, v(0, 0, 0), Team::Player, false)],
        bullets: vec![],
        pending_bullets: vec![],
        arena: arena(),
    };
    assert_eq!(step_frame(&mut w, quiet_input(), 16), Err(SimError::NoPlayer));
    assert_eq!(w.ships.len(), 1);
    assert_eq!(w.ships[0].health, 10);
}
