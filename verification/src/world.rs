//! The entity store and the per-frame system pipeline.
//!
//! One `World` holds every live ship and projectile. Each frame runs a
//! fixed sequence of passes: intent (input and AI), acceleration
//! integration, position integration, boundary handling, weapon cooldowns
//! and projectile spawning, collision and damage, and a cleanup that
//! removes entities marked dead and admits the projectiles queued during
//! the frame. Projectile spawns queue until cleanup, so a projectile is
//! never collided in the frame that spawned it; removal is two-phase (mark
//! dead, then compact) so every pass of a frame sees a consistent store.

use vstd::prelude::*;
use crate::components::Accel;
use crate::components::AimingAt;
use crate::components::BulletBundle;
use crate::components::BulletStats;
use crate::components::DT_LIMIT;
use crate::components::Gun;
use crate::components::Movable;
use crate::components::ShipBundle;
use crate::components::ShipStats;
use crate::components::Team;
use crate::components::Velocity;
use crate::helpers::clamp_speed;
use crate::helpers::clamp_speed_spec;
use crate::helpers::circle_intersection;
use crate::helpers::circles_overlap;
use crate::helpers::predict;
use crate::helpers::predict_spec;
use crate::helpers::Projection;
use crate::helpers::scale_spec;
use crate::helpers::scale_to_length;
use crate::helpers::POS_LIMIT;
use crate::helpers::PRED_IN_LIMIT;
use crate::helpers::V3;
use crate::helpers::VEL_LIMIT;
use crate::intmath::clamp_abs;
use crate::intmath::clamp_abs_i64;
use crate::intmath::div_trunc;
use crate::intmath::lemma_tdiv_le;
use crate::intmath::lemma_mul_range;
use crate::intmath::mod_euclid;
use crate::intmath::sat_sub;
use crate::intmath::sat_sub_i64;
use crate::intmath::tdiv;

verus! {

/// Speed given to every spawned projectile, world units per second.
pub const BULLET_SPEED: i64 = 400;

/// Radius of every spawned projectile.
pub const BULLET_RADIUS: i64 = 5;

/// Bound on the arena half extents and the despawn distance.
pub const ARENA_LIMIT: i64 = 1048576;

/// Arena geometry: half extents of the window, and the distance from the
/// origin past which free-flying projectiles despawn.
#[derive(Clone, Copy, PartialEq, Eq, Structural, Debug)]
pub struct Arena {
    pub half_width: i64,
    pub half_height: i64,
    pub despawn_dist: i64,
}

impl Arena {
    pub open spec fn wf(self) -> bool {
        &&& 1 <= self.half_width <= ARENA_LIMIT
        &&& 1 <= self.half_height <= ARENA_LIMIT
        &&& 1 <= self.despawn_dist <= ARENA_LIMIT
    }
}

/// The four directional key states of one frame.
#[derive(Clone, Copy, Debug)]
pub struct MoveInput {
    pub up: bool,
    pub down: bool,
    pub left: bool,
    pub right: bool,
}

/// Everything the input collaborator supplies for one frame: key states, a
/// world-space pointer position when the pointer is inside the window, and
/// the fire-button state.
#[derive(Clone, Copy, Debug)]
pub struct FrameInput {
    pub movement: MoveInput,
    pub pointer: Option<V3>,
    pub fire_held: bool,
}

/// A fatal condition: the frame cannot produce meaningful behavior.
#[derive(Clone, Copy, PartialEq, Eq, Structural, Debug)]
pub enum SimError {
    /// The store does not hold exactly one player-controlled ship, which
    /// is a structural precondition of every frame.
    NoPlayer,
}

/// The entity store: every live ship and projectile, the projectiles
/// queued for admission at cleanup, and the arena geometry.
pub struct World {
    pub ships: Vec<ShipBundle>,
    pub bullets: Vec<BulletBundle>,
    pub pending_bullets: Vec<BulletBundle>,
    pub arena: Arena,
}

/// The mathematical model of a `World`: the same data as sequences.
#[verifier::ext_equal]
pub ghost struct WorldModel {
    pub ships: Seq<ShipBundle>,
    pub bullets: Seq<BulletBundle>,
    pub pending: Seq<BulletBundle>,
    pub arena: Arena,
}

impl View for World {
    type V = WorldModel;

    open spec fn view(&self) -> WorldModel {
        WorldModel {
            ships: self.ships@,
            bullets: self.bullets@,
            pending: self.pending_bullets@,
            arena: self.arena,
        }
    }
}

impl WorldModel {
    pub open spec fn wf(self) -> bool {
        &&& self.arena.wf()
        &&& forall|i: int| 0 <= i < self.ships.len() ==> (#[trigger] self.ships[i]).wf()
        &&& forall|i: int| 0 <= i < self.bullets.len() ==> (#[trigger] self.bullets[i]).wf()
        &&& forall|i: int| 0 <= i < self.pending.len() ==> (#[trigger] self.pending[i]).wf()
    }
}

/// Index `i` holds a player-controlled ship.
pub open spec fn is_player_at(ships: Seq<ShipBundle>, i: int) -> bool {
    0 <= i < ships.len() && ships[i].is_player
}

/// Exactly one ship in the store is player-controlled.
pub open spec fn has_unique_player(ships: Seq<ShipBundle>) -> bool {
    &&& exists|i: int| #[trigger] is_player_at(ships, i)
    &&& forall|i: int, j: int|
        (#[trigger] is_player_at(ships, i)) && (#[trigger] is_player_at(ships, j)) ==> i == j
}

/// The index of the player-controlled ship (meaningful when it is unique).
pub open spec fn player_index(ships: Seq<ShipBundle>) -> int {
    choose|i: int| #[trigger] is_player_at(ships, i)
}

/// Look up the single player-controlled ship, or report the fatal
/// condition when there is none or more than one.
fn find_player(ships: &Vec<ShipBundle>) -> (r: Result<usize, SimError>)
    ensures
        r is Ok <==> has_unique_player(ships@),
        r is Ok ==> is_player_at(ships@, r->Ok_0 as int) && r->Ok_0 as int == player_index(
            ships@,
        ),
        r is Err ==> r == Err::<usize, SimError>(SimError::NoPlayer),
{
    let mut found: Option<usize> = None;
    let mut i: usize = 0;
    while i < ships.len()
        invariant
            i <= ships.len(),
            match found {
                Option::Some(k) => k < i && ships@[k as int].is_player && forall|j: int|
                    0 <= j < i && j != k ==> !(#[trigger] ships@[j]).is_player,
                Option::None => forall|j: int| 0 <= j < i ==> !(#[trigger] ships@[j]).is_player,
            },
        decreases ships.len() - i,
    {
        if ships[i].is_player {
            if found.is_some() {
                proof {
                    let k = found->Some_0 as int;
                    assert(is_player_at(ships@, k));
                    assert(is_player_at(ships@, i as int));
                }
                return Err(SimError::NoPlayer);
            }
            found = Some(i);
        }
        i = i + 1;
    }
    match found {
        Some(k) => {
            proof {
                assert(is_player_at(ships@, k as int));
                assert(forall|a: int, b: int|
                    (#[trigger] is_player_at(ships@, a)) && (#[trigger] is_player_at(ships@, b))
                        ==> a == b);
                assert(is_player_at(ships@, player_index(ships@)));
            }
            Ok(k)
        },
        None => {
            proof {
                assert(forall|a: int| !(#[trigger] is_player_at(ships@, a)));
            }
            Err(SimError::NoPlayer)
        },
    }
}

/// The player's acceleration re-derived from this frame's key states: each
/// held key contributes the ship's base acceleration along its axis.
pub open spec fn player_intent_spec(s: ShipBundle, m: MoveInput) -> ShipBundle {
    let base = s.ship_stats.base_accel as int;
    ShipBundle {
        accel: Accel(
            V3 {
                x: ((if m.right {
                    base
                } else {
                    0
                }) - (if m.left {
                    base
                } else {
                    0
                })) as i64,
                y: ((if m.up {
                    base
                } else {
                    0
                }) - (if m.down {
                    base
                } else {
                    0
                })) as i64,
                z: 0,
            },
        ),
        ..s
    }
}

/// The whole store after the player-movement intent pass.
pub open spec fn handle_move_spec(w: WorldModel, m: MoveInput) -> WorldModel {
    if has_unique_player(w.ships) {
        let i = player_index(w.ships);
        WorldModel { ships: w.ships.update(i, player_intent_spec(w.ships[i], m)), ..w }
    } else {
        w
    }
}

/// Set the player's acceleration from the held movement keys. Fails, with
/// the store unchanged, when there is not exactly one player ship.
pub fn handle_move(world: &mut World, movement: MoveInput) -> (r: Result<(), SimError>)
    requires
        old(world)@.wf(),
    ensures
        final(world)@ == handle_move_spec(old(world)@, movement),
        final(world)@.wf(),
        final(world)@.ships.len() == old(world)@.ships.len(),
        forall|i: int|
            0 <= i < old(world)@.ships.len() ==> (#[trigger] final(world)@.ships[i]).is_player
                == old(world)@.ships[i].is_player,
        r is Ok <==> has_unique_player(old(world)@.ships),
        r is Err ==> r == Err::<(), SimError>(SimError::NoPlayer),
{
    let idx = match find_player(&world.ships) {
        Ok(i) => i,
        Err(e) => {
            return Err(e);
        },
    };
    let mut ship = world.ships[idx];
    let base = ship.ship_stats.base_accel;
    let ax = (if movement.right {
        base
    } else {
        0
    }) - (if movement.left {
        base
    } else {
        0
    });
    let ay = (if movement.up {
        base
    } else {
        0
    }) - (if movement.down {
        base
    } else {
        0
    });
    ship.accel = Accel(V3 { x: ax, y: ay, z: 0 });
    world.ships.set(idx, ship);
    proof {
        assert(final(world)@ =~= handle_move_spec(old(world)@, movement));
    }
    Ok(())
}

/// The player's aim and firing flag from this frame's pointer and button:
/// aim points from the ship to the pointer (unchanged when the pointer is
/// outside the window); the firing flag mirrors the button exactly.
pub open spec fn player_shoot_spec(w: WorldModel, pointer: Option<V3>, fire_held: bool) -> WorldModel {
    if has_unique_player(w.ships) {
        let i = player_index(w.ships);
        let s = w.ships[i];
        let aimed = match pointer {
            Option::Some(p) => ShipBundle {
                aiming_at: AimingAt(
                    V3 {
                        x: (p.x - s.pos.x) as i64,
                        y: (p.y - s.pos.y) as i64,
                        z: (p.z - s.pos.z) as i64,
                    },
                ),
                ..s
            },
            Option::None => s,
        };
        let armed = ShipBundle {
            gun: Gun {
                elapsed_ms: aimed.gun.elapsed_ms,
                duration_ms: aimed.gun.duration_ms,
                is_shooting: fire_held,
            },
            ..aimed
        };
        WorldModel { ships: w.ships.update(i, armed), ..w }
    } else {
        w
    }
}

/// Point the player's aim at the pointer and mirror the fire button into
/// the firing flag. Fails, with the store unchanged, when there is not
/// exactly one player ship.
pub fn player_shoot(world: &mut World, pointer: Option<V3>, fire_held: bool) -> (r: Result<
    (),
    SimError,
>)
    requires
        old(world)@.wf(),
        match pointer {
            Option::Some(p) => p.in_box(POS_LIMIT as int),
            Option::None => true,
        },
    ensures
        final(world)@ == player_shoot_spec(old(world)@, pointer, fire_held),
        final(world)@.wf(),
        final(world)@.ships.len() == old(world)@.ships.len(),
        forall|i: int|
            0 <= i < old(world)@.ships.len() ==> (#[trigger] final(world)@.ships[i]).is_player
                == old(world)@.ships[i].is_player,
        r is Ok <==> has_unique_player(old(world)@.ships),
        r is Err ==> r == Err::<(), SimError>(SimError::NoPlayer),
{
    let idx = match find_player(&world.ships) {
        Ok(i) => i,
        Err(e) => {
            return Err(e);
        },
    };
    let mut ship = world.ships[idx];
    match pointer {
        Some(p) => {
            ship.aiming_at = AimingAt(
                V3 { x: p.x - ship.pos.x, y: p.y - ship.pos.y, z: p.z - ship.pos.z },
            );
        },
        None => {},
    }
    ship.gun.is_shooting = fire_held;
    world.ships.set(idx, ship);
    proof {
        assert(final(world)@ =~= player_shoot_spec(old(world)@, pointer, fire_held));
    }
    Ok(())
}


/// One AI ship's movement intent: accelerate toward the player at the
/// ship's base acceleration, along the planar direction to the player,
/// with the `+X` fallback when the two positions coincide. The player
/// ship keeps its own intent.
pub open spec fn ai_move_ship_spec(s: ShipBundle, player_pos: V3) -> ShipBundle {
    if s.is_player {
        s
    } else {
        let diff = V3 {
            x: (player_pos.x - s.pos.x) as i64,
            y: (player_pos.y - s.pos.y) as i64,
            z: 0,
        };
        ShipBundle { accel: Accel(scale_spec(diff, s.ship_stats.base_accel as int)), ..s }
    }
}

/// The whole store after the AI movement-intent pass.
pub open spec fn enemy_ai_move_spec(w: WorldModel) -> WorldModel {
    if has_unique_player(w.ships) {
        let p = w.ships[player_index(w.ships)].pos;
        WorldModel {
            ships: Seq::new(w.ships.len(), |i: int| ai_move_ship_spec(w.ships[i], p)),
            ..w
        }
    } else {
        w
    }
}

/// Accelerate every AI ship toward the player. Fails, with the store
/// unchanged, when there is not exactly one player ship.
pub fn enemy_ai_move(world: &mut World) -> (r: Result<(), SimError>)
    requires
        old(world)@.wf(),
    ensures
        final(world)@ == enemy_ai_move_spec(old(world)@),
        final(world)@.wf(),
        final(world)@.ships.len() == old(world)@.ships.len(),
        forall|i: int|
            0 <= i < old(world)@.ships.len() ==> (#[trigger] final(world)@.ships[i]).is_player
                == old(world)@.ships[i].is_player,
        r is Ok <==> has_unique_player(old(world)@.ships),
        r is Err ==> r == Err::<(), SimError>(SimError::NoPlayer),
{
    let idx = match find_player(&world.ships) {
        Ok(i) => i,
        Err(e) => {
            return Err(e);
        },
    };
    let player_pos = world.ships[idx].pos;
    let ghost orig = world.ships@;
    let n = world.ships.len();
    let mut i: usize = 0;
    while i < n
        invariant
            i <= n,
            n == world.ships.len(),
            world.bullets@ == old(world)@.bullets,
            world.pending_bullets@ == old(world)@.pending,
            world.arena == old(world)@.arena,
            orig.len() == n,
            forall|j: int| 0 <= j < n ==> (#[trigger] orig[j]).wf(),
            forall|j: int|
                0 <= j < i ==> world.ships@[j] == ai_move_ship_spec(#[trigger] orig[j], player_pos),
            forall|j: int| i <= j < n ==> (#[trigger] world.ships@[j]) == orig[j],
            forall|j: int| 0 <= j < i ==> (#[trigger] world.ships@[j]).wf(),
            player_pos.in_box(POS_LIMIT as int),
        decreases n - i,
    {
        let mut ship = world.ships[i];
        if !ship.is_player {
            let diff = V3 { x: player_pos.x - ship.pos.x, y: player_pos.y - ship.pos.y, z: 0 };
            let a = scale_to_length(diff, ship.ship_stats.base_accel);
            ship.accel = Accel(a);
            world.ships.set(i, ship);
        }
        i = i + 1;
    }
    proof {
        assert(final(world)@ =~= enemy_ai_move_spec(old(world)@));
    }
    Ok(())
}

/// One AI ship's aim: the intercept point the solver predicts against the
/// player's position one frame ahead and current velocity, reduced to the
/// gameplay plane relative to this ship. When no interception is possible
/// at projectile speed, the ship aims at the player's raw current
/// position instead; the `+X` fallback is only for a degenerate (zero)
/// direction. The player ship keeps its own aim.
pub open spec fn ai_aim_ship_spec(s: ShipBundle, player_pos: V3, player_vel: V3, dt: int) -> ShipBundle {
    if s.is_player {
        s
    } else {
        let tp = V3 {
            x: (player_pos.x + tdiv(player_vel.x * dt, 1000)) as i64,
            y: (player_pos.y + tdiv(player_vel.y * dt, 1000)) as i64,
            z: (player_pos.z + tdiv(player_vel.z * dt, 1000)) as i64,
        };
        let future = match predict_spec(tp, player_vel, s.pos, BULLET_SPEED as int) {
            Option::Some(p) => p,
            Option::None => player_pos,
        };
        let dir = V3 { x: (future.x - s.pos.x) as i64, y: (future.y - s.pos.y) as i64, z: 0 };
        let aim = if dir.x == 0 && dir.y == 0 {
            V3 { x: 1, y: 0, z: 0 }
        } else {
            dir
        };
        ShipBundle { aiming_at: AimingAt(aim), ..s }
    }
}

/// The whole store after the AI aiming pass.
pub open spec fn enemy_ai_aim_spec(w: WorldModel, dt: int) -> WorldModel {
    if has_unique_player(w.ships) {
        let p = w.ships[player_index(w.ships)];
        WorldModel {
            ships: Seq::new(
                w.ships.len(),
                |i: int| ai_aim_ship_spec(w.ships[i], p.pos, p.vel.0, dt),
            ),
            ..w
        }
    } else {
        w
    }
}

/// Aim every AI ship ahead of the player using the intercept solver.
/// Fails, with the store unchanged, when there is not exactly one player
/// ship.
pub fn enemy_ai_aim(world: &mut World, dt: i64) -> (r: Result<(), SimError>)
    requires
        old(world)@.wf(),
        0 <= dt <= DT_LIMIT,
    ensures
        final(world)@ == enemy_ai_aim_spec(old(world)@, dt as int),
        final(world)@.wf(),
        final(world)@.ships.len() == old(world)@.ships.len(),
        forall|i: int|
            0 <= i < old(world)@.ships.len() ==> (#[trigger] final(world)@.ships[i]).is_player
                == old(world)@.ships[i].is_player,
        r is Ok <==> has_unique_player(old(world)@.ships),
        r is Err ==> r == Err::<(), SimError>(SimError::NoPlayer),
{
    let idx = match find_player(&world.ships) {
        Ok(i) => i,
        Err(e) => {
            return Err(e);
        },
    };
    let player_pos = world.ships[idx].pos;
    let player_vel = world.ships[idx].vel.0;
    proof {
        lemma_mul_range(player_vel.x as int, dt as int, 2097152, 8192);
        lemma_tdiv_le(player_vel.x as int * dt as int, 17179870, 1000);
        lemma_mul_range(player_vel.y as int, dt as int, 2097152, 8192);
        lemma_tdiv_le(player_vel.y as int * dt as int, 17179870, 1000);
        lemma_mul_range(player_vel.z as int, dt as int, 2097152, 8192);
        lemma_tdiv_le(player_vel.z as int * dt as int, 17179870, 1000);
    }
    let tp = V3 {
        x: player_pos.x + div_trunc(player_vel.x * dt, 1000),
        y: player_pos.y + div_trunc(player_vel.y * dt, 1000),
        z: player_pos.z + div_trunc(player_vel.z * dt, 1000),
    };
    let ghost orig = world.ships@;
    let n = world.ships.len();
    let mut i: usize = 0;
    while i < n
        invariant
            i <= n,
            n == world.ships.len(),
            world.bullets@ == old(world)@.bullets,
            world.pending_bullets@ == old(world)@.pending,
            world.arena == old(world)@.arena,
            orig.len() == n,
            forall|j: int| 0 <= j < n ==> (#[trigger] orig[j]).wf(),
            forall|j: int|
                0 <= j < i ==> world.ships@[j] == ai_aim_ship_spec(
                    #[trigger] orig[j],
                    player_pos,
                    player_vel,
                    dt as int,
                ),
            forall|j: int| i <= j < n ==> (#[trigger] world.ships@[j]) == orig[j],
            forall|j: int| 0 <= j < i ==> (#[trigger] world.ships@[j]).wf(),
            player_pos.in_box(POS_LIMIT as int),
            player_vel.in_box(VEL_LIMIT as int),
            tp.in_box(PRED_IN_LIMIT as int),
            tp.x as int == player_pos.x + tdiv(player_vel.x as int * dt as int, 1000),
            tp.y as int == player_pos.y + tdiv(player_vel.y as int * dt as int, 1000),
            tp.z as int == player_pos.z + tdiv(player_vel.z as int * dt as int, 1000),
        decreases n - i,
    {
        let mut ship = world.ships[i];
        if !ship.is_player {
            let future = match predict(tp, player_vel, ship.pos, BULLET_SPEED) {
                Some(p) => p,
                None => player_pos,
            };
            let dir = V3 { x: future.x - ship.pos.x, y: future.y - ship.pos.y, z: 0 };
            let aim = if dir.x == 0 && dir.y == 0 {
                V3 { x: 1, y: 0, z: 0 }
            } else {
                dir
            };
            ship.aiming_at = AimingAt(aim);
            world.ships.set(i, ship);
        }
        i = i + 1;
    }
    proof {
        assert(final(world)@ =~= enemy_ai_aim_spec(old(world)@, dt as int));
    }
    Ok(())
}

/// One ship's velocity after acceleration integration: each component
/// advances by `accel * dt` (milliseconds scaled back to seconds,
/// truncating) and saturates at the model's velocity bound; then, for a
/// ship that declares a max speed, the magnitude clamp applies. A ship
/// without a max speed (an unbounded configuration) skips the clamp.
pub open spec fn accel_ship_spec(s: ShipBundle, dt: int) -> ShipBundle {
    let v1 = V3 {
        x: clamp_abs(s.vel.0.x + tdiv(s.accel.0.x * dt, 1000), VEL_LIMIT as int) as i64,
        y: clamp_abs(s.vel.0.y + tdiv(s.accel.0.y * dt, 1000), VEL_LIMIT as int) as i64,
        z: clamp_abs(s.vel.0.z + tdiv(s.accel.0.z * dt, 1000), VEL_LIMIT as int) as i64,
    };
    let v2 = match s.ship_stats.max_speed {
        Option::Some(m) => clamp_speed_spec(v1, m as int),
        Option::None => v1,
    };
    ShipBundle { vel: Velocity(v2), ..s }
}

/// The whole store after acceleration integration.
pub open spec fn accel_entities_spec(w: WorldModel, dt: int) -> WorldModel {
    WorldModel { ships: Seq::new(w.ships.len(), |i: int| accel_ship_spec(w.ships[i], dt)), ..w }
}

/// Advance every ship's velocity by its acceleration, clamping to the
/// ship's max speed where one is declared.
pub fn accel_entities(world: &mut World, dt: i64)
    requires
        old(world)@.wf(),
        0 <= dt <= DT_LIMIT,
    ensures
        final(world)@ == accel_entities_spec(old(world)@, dt as int),
        final(world)@.wf(),
        final(world)@.ships.len() == old(world)@.ships.len(),
        forall|i: int|
            0 <= i < old(world)@.ships.len() ==> (#[trigger] final(world)@.ships[i]).is_player
                == old(world)@.ships[i].is_player,
{
    let ghost orig = world.ships@;
    let n = world.ships.len();
    let mut i: usize = 0;
    while i < n
        invariant
            i <= n,
            n == world.ships.len(),
            world.bullets@ == old(world)@.bullets,
            world.pending_bullets@ == old(world)@.pending,
            world.arena == old(world)@.arena,
            orig.len() == n,
            0 <= dt <= DT_LIMIT,
            forall|j: int| 0 <= j < n ==> (#[trigger] orig[j]).wf(),
            forall|j: int|
                0 <= j < i ==> world.ships@[j] == accel_ship_spec(#[trigger] orig[j], dt as int),
            forall|j: int| i <= j < n ==> (#[trigger] world.ships@[j]) == orig[j],
            forall|j: int| 0 <= j < i ==> (#[trigger] world.ships@[j]).wf(),
        decreases n - i,
    {
        let mut ship = world.ships[i];
        proof {
            lemma_mul_range(ship.accel.0.x as int, dt as int, 2097152, 8192);
        lemma_tdiv_le(ship.accel.0.x as int * dt as int, 17179870, 1000);
            lemma_mul_range(ship.accel.0.y as int, dt as int, 2097152, 8192);
        lemma_tdiv_le(ship.accel.0.y as int * dt as int, 17179870, 1000);
            lemma_mul_range(ship.accel.0.z as int, dt as int, 2097152, 8192);
        lemma_tdiv_le(ship.accel.0.z as int * dt as int, 17179870, 1000);
        }
        let v1 = V3 {
            x: clamp_abs_i64(ship.vel.0.x + div_trunc(ship.accel.0.x * dt, 1000), VEL_LIMIT),
            y: clamp_abs_i64(ship.vel.0.y + div_trunc(ship.accel.0.y * dt, 1000), VEL_LIMIT),
            z: clamp_abs_i64(ship.vel.0.z + div_trunc(ship.accel.0.z * dt, 1000), VEL_LIMIT),
        };
        let v2 = match ship.ship_stats.max_speed {
            Some(m) => clamp_speed(v1, m),
            None => v1,
        };
        ship.vel = Velocity(v2);
        world.ships.set(i, ship);
        i = i + 1;
    }
    proof {
        assert(final(world)@ =~= accel_entities_spec(old(world)@, dt as int));
    }
}

/// A coordinate pair is out of bounds when either planar component's
/// magnitude exceeds the despawn distance.
pub open spec fn oob(p: V3, d: int) -> bool {
    p.x > d || p.x < -d || p.y > d || p.y < -d
}

/// A position advanced by `vel * dt` (milliseconds scaled back to
/// seconds, truncating), each component saturating at the model's
/// position bound.
pub open spec fn integrate_pos_spec(pos: V3, vel: V3, dt: int) -> V3 {
    V3 {
        x: clamp_abs(pos.x + tdiv(vel.x * dt, 1000), POS_LIMIT as int) as i64,
        y: clamp_abs(pos.y + tdiv(vel.y * dt, 1000), POS_LIMIT as int) as i64,
        z: clamp_abs(pos.z + tdiv(vel.z * dt, 1000), POS_LIMIT as int) as i64,
    }
}

/// One ship after position integration: moved, and marked dead when it is
/// configured to auto-despawn and has left the despawn range.
pub open spec fn move_ship_spec(s: ShipBundle, dt: int, despawn: int) -> ShipBundle {
    let p = integrate_pos_spec(s.pos, s.vel.0, dt);
    ShipBundle {
        pos: p,
        alive: (if s.movable.auto_despawn && oob(p, despawn) {
            false
        } else {
            s.alive
        }),
        ..s
    }
}

/// One projectile after position integration, with the same out-of-bounds
/// despawn flagging.
pub open spec fn move_bullet_spec(b: BulletBundle, dt: int, despawn: int) -> BulletBundle {
    let p = integrate_pos_spec(b.pos, b.vel.0, dt);
    BulletBundle {
        pos: p,
        alive: (if b.movable.auto_despawn && oob(p, despawn) {
            false
        } else {
            b.alive
        }),
        ..b
    }
}

/// The whole store after position integration and out-of-bounds flagging.
pub open spec fn move_entities_spec(w: WorldModel, dt: int) -> WorldModel {
    WorldModel {
        ships: Seq::new(
            w.ships.len(),
            |i: int| move_ship_spec(w.ships[i], dt, w.arena.despawn_dist as int),
        ),
        bullets: Seq::new(
            w.bullets.len(),
            |i: int| move_bullet_spec(w.bullets[i], dt, w.arena.despawn_dist as int),
        ),
        ..w
    }
}

/// Advance a position by a velocity over `dt` milliseconds.
fn integrate_pos(pos: V3, vel: V3, dt: i64) -> (r: V3)
    requires
        pos.in_box(POS_LIMIT as int),
        vel.in_box(VEL_LIMIT as int),
        0 <= dt <= DT_LIMIT,
    ensures
        r == integrate_pos_spec(pos, vel, dt as int),
        r.in_box(POS_LIMIT as int),
{
    proof {
        lemma_mul_range(vel.x as int, dt as int, 2097152, 8192);
        lemma_tdiv_le(vel.x as int * dt as int, 17179870, 1000);
        lemma_mul_range(vel.y as int, dt as int, 2097152, 8192);
        lemma_tdiv_le(vel.y as int * dt as int, 17179870, 1000);
        lemma_mul_range(vel.z as int, dt as int, 2097152, 8192);
        lemma_tdiv_le(vel.z as int * dt as int, 17179870, 1000);
    }
    V3 {
        x: clamp_abs_i64(pos.x + div_trunc(vel.x * dt, 1000), POS_LIMIT),
        y: clamp_abs_i64(pos.y + div_trunc(vel.y * dt, 1000), POS_LIMIT),
        z: clamp_abs_i64(pos.z + div_trunc(vel.z * dt, 1000), POS_LIMIT),
    }
}

/// Advance every movable entity's position by its velocity, and mark
/// auto-despawning entities that left the despawn range dead. Runs right
/// after acceleration integration and before the weapon and collision
/// passes, so an out-of-range projectile gets no further collision check.
pub fn move_entities(world: &mut World, dt: i64)
    requires
        old(world)@.wf(),
        0 <= dt <= DT_LIMIT,
    ensures
        final(world)@ == move_entities_spec(old(world)@, dt as int),
        final(world)@.wf(),
        final(world)@.ships.len() == old(world)@.ships.len(),
        forall|i: int|
            0 <= i < old(world)@.ships.len() ==> (#[trigger] final(world)@.ships[i]).is_player
                == old(world)@.ships[i].is_player,
{
    let despawn = world.arena.despawn_dist;
    let ghost orig_ships = world.ships@;
    let n = world.ships.len();
    let mut i: usize = 0;
    while i < n
        invariant
            i <= n,
            n == world.ships.len(),
            world.bullets@ == old(world)@.bullets,
            world.pending_bullets@ == old(world)@.pending,
            world.arena == old(world)@.arena,
            despawn == old(world)@.arena.despawn_dist,
            orig_ships.len() == n,
            0 <= dt <= DT_LIMIT,
            forall|j: int| 0 <= j < n ==> (#[trigger] orig_ships[j]).wf(),
            forall|j: int|
                0 <= j < i ==> world.ships@[j] == move_ship_spec(
                    #[trigger] orig_ships[j],
                    dt as int,
                    despawn as int,
                ),
            forall|j: int| i <= j < n ==> (#[trigger] world.ships@[j]) == orig_ships[j],
            forall|j: int| 0 <= j < i ==> (#[trigger] world.ships@[j]).wf(),
        decreases n - i,
    {
        let mut ship = world.ships[i];
        let p = integrate_pos(ship.pos, ship.vel.0, dt);
        ship.pos = p;
        if ship.movable.auto_despawn && (p.x > despawn || p.x < -despawn || p.y > despawn
            || p.y < -despawn) {
            ship.alive = false;
        }
        world.ships.set(i, ship);
        i = i + 1;
    }
    let ghost orig_bullets = world.bullets@;
    let m = world.bullets.len();
    let mut k: usize = 0;
    while k < m
        invariant
            k <= m,
            m == world.bullets.len(),
            world.ships@.len() == n,
            forall|j: int|
                0 <= j < n ==> (#[trigger] world.ships@[j]) == move_ship_spec(
                    orig_ships[j],
                    dt as int,
                    despawn as int,
                ),
            forall|j: int| 0 <= j < n ==> (#[trigger] world.ships@[j]).wf(),
            world.pending_bullets@ == old(world)@.pending,
            world.arena == old(world)@.arena,
            despawn == old(world)@.arena.despawn_dist,
            orig_bullets == old(world)@.bullets,
            orig_bullets.len() == m,
            orig_ships.len() == n,
            0 <= dt <= DT_LIMIT,
            forall|j: int| 0 <= j < m ==> (#[trigger] orig_bullets[j]).wf(),
            forall|j: int|
                0 <= j < k ==> world.bullets@[j] == move_bullet_spec(
                    #[trigger] orig_bullets[j],
                    dt as int,
                    despawn as int,
                ),
            forall|j: int| k <= j < m ==> (#[trigger] world.bullets@[j]) == orig_bullets[j],
            forall|j: int| 0 <= j < k ==> (#[trigger] world.bullets@[j]).wf(),
        decreases m - k,
    {
        let mut bullet = world.bullets[k];
        let p = integrate_pos(bullet.pos, bullet.vel.0, dt);
        bullet.pos = p;
        if bullet.movable.auto_despawn && (p.x > despawn || p.x < -despawn || p.y > despawn
            || p.y < -despawn) {
            bullet.alive = false;
        }
        world.bullets.set(k, bullet);
        k = k + 1;
    }
    proof {
        assert(final(world)@ =~= move_entities_spec(old(world)@, dt as int));
    }
}

/// A position wrapped toroidally at the arena edge widened by the ship's
/// own radius, by a true (Euclidean) modulo, so each wrapped planar
/// component lands in `[-(half + radius), half + radius)`. The depth
/// component is untouched.
pub open spec fn wrap_pos_spec(pos: V3, half_w: int, half_h: int, radius: int) -> V3 {
    let bx = half_w + radius;
    let by = half_h + radius;
    V3 {
        x: ((pos.x + bx) % (2 * bx) - bx) as i64,
        y: ((pos.y + by) % (2 * by) - by) as i64,
        z: pos.z,
    }
}

/// The whole store after the player wrap.
pub open spec fn wrap_player_spec(w: WorldModel) -> WorldModel {
    if has_unique_player(w.ships) {
        let i = player_index(w.ships);
        let s = w.ships[i];
        WorldModel {
            ships: w.ships.update(
                i,
                ShipBundle {
                    pos: wrap_pos_spec(
                        s.pos,
                        w.arena.half_width as int,
                        w.arena.half_height as int,
                        s.ship_stats.radius as int,
                    ),
                    ..s
                },
            ),
            ..w
        }
    } else {
        w
    }
}

/// Wrap the player at the arena edges (toroidal topology). On success the
/// player's planar coordinates land in `[-(half + radius), half +
/// radius)` on each axis. Fails, with the store unchanged, when there is
/// not exactly one player ship.
pub fn wrap_player(world: &mut World) -> (r: Result<(), SimError>)
    requires
        old(world)@.wf(),
    ensures
        final(world)@ == wrap_player_spec(old(world)@),
        final(world)@.wf(),
        final(world)@.ships.len() == old(world)@.ships.len(),
        forall|i: int|
            0 <= i < old(world)@.ships.len() ==> (#[trigger] final(world)@.ships[i]).is_player
                == old(world)@.ships[i].is_player,
        r is Ok <==> has_unique_player(old(world)@.ships),
        r is Ok ==> ({
            let i = player_index(old(world)@.ships);
            let s = final(world)@.ships[i];
            let bx = old(world)@.arena.half_width + s.ship_stats.radius;
            let by = old(world)@.arena.half_height + s.ship_stats.radius;
            -bx <= s.pos.x < bx && -by <= s.pos.y < by
        }),
        r is Err ==> r == Err::<(), SimError>(SimError::NoPlayer),
{
    let idx = match find_player(&world.ships) {
        Ok(i) => i,
        Err(e) => {
            return Err(e);
        },
    };
    let mut ship = world.ships[idx];
    let bx = world.arena.half_width + ship.ship_stats.radius;
    let by = world.arena.half_height + ship.ship_stats.radius;
    let px = mod_euclid(ship.pos.x + bx, 2 * bx) - bx;
    let py = mod_euclid(ship.pos.y + by, 2 * by) - by;
    ship.pos = V3 { x: px, y: py, z: ship.pos.z };
    world.ships.set(idx, ship);
    proof {
        assert(final(world)@ =~= wrap_player_spec(old(world)@));
    }
    Ok(())
}


/// The projectile a firing ship emits: spawned at the ship's position,
/// with the ship's damage and faction, at the fixed projectile speed along
/// the ship's (normalized) aim, free-flying and alive.
pub open spec fn spawned_bullet_spec(s: ShipBundle) -> BulletBundle {
    BulletBundle {
        bullet_stats: BulletStats { radius: BULLET_RADIUS, damage: s.ship_stats.damage },
        vel: Velocity(scale_spec(s.aiming_at.0, BULLET_SPEED as int)),
        movable: Movable { auto_despawn: true },
        pos: s.pos,
        team: s.team,
        alive: true,
    }
}

/// One ship after its weapon timer ran this frame.
pub open spec fn ticked_ship_spec(s: ShipBundle, dt: int) -> ShipBundle {
    ShipBundle { gun: s.gun.after_frame(dt), ..s }
}

/// The projectiles the ships spawn this frame, in store order.
pub open spec fn spawned_bullets_spec(ships: Seq<ShipBundle>, dt: int) -> Seq<BulletBundle>
    decreases ships.len(),
{
    if ships.len() == 0 {
        Seq::empty()
    } else {
        let rest = spawned_bullets_spec(ships.drop_last(), dt);
        if ships.last().gun.fires(dt) {
            rest.push(spawned_bullet_spec(ships.last()))
        } else {
            rest
        }
    }
}

/// The whole store after the weapon pass: every timer ticked, every shot
/// queued for admission at cleanup (a projectile spawned this frame is not
/// collided this frame).
pub open spec fn tick_shoot_spec(w: WorldModel, dt: int) -> WorldModel {
    WorldModel {
        ships: Seq::new(w.ships.len(), |i: int| ticked_ship_spec(w.ships[i], dt)),
        pending: w.pending + spawned_bullets_spec(w.ships, dt),
        ..w
    }
}

/// Tick every ship's weapon timer and spawn exactly one projectile for
/// each gun whose cooldown elapsed while its firing flag is set.
pub fn tick_shoot_timers(world: &mut World, dt: i64)
    requires
        old(world)@.wf(),
        0 <= dt <= DT_LIMIT,
    ensures
        final(world)@ == tick_shoot_spec(old(world)@, dt as int),
        final(world)@.wf(),
        final(world)@.ships.len() == old(world)@.ships.len(),
        forall|i: int|
            0 <= i < old(world)@.ships.len() ==> (#[trigger] final(world)@.ships[i]).is_player
                == old(world)@.ships[i].is_player,
{
    let ghost orig = world.ships@;
    let n = world.ships.len();
    let mut i: usize = 0;
    while i < n
        invariant
            i <= n,
            n == world.ships.len(),
            world.bullets@ == old(world)@.bullets,
            world.arena == old(world)@.arena,
            orig.len() == n,
            0 <= dt <= DT_LIMIT,
            forall|j: int| 0 <= j < n ==> (#[trigger] orig[j]).wf(),
            forall|j: int|
                0 <= j < i ==> world.ships@[j] == ticked_ship_spec(#[trigger] orig[j], dt as int),
            forall|j: int| i <= j < n ==> (#[trigger] world.ships@[j]) == orig[j],
            forall|j: int| 0 <= j < i ==> (#[trigger] world.ships@[j]).wf(),
            world.pending_bullets@ == old(world)@.pending + spawned_bullets_spec(
                orig.take(i as int),
                dt as int,
            ),
            forall|j: int|
                0 <= j < world.pending_bullets@.len() ==> (
                #[trigger] world.pending_bullets@[j]).wf(),
        decreases n - i,
    {
        let mut ship = world.ships[i];
        let mut g = ship.gun;
        let fired = g.tick_frame(dt);
        ship.gun = g;
        world.ships.set(i, ship);
        if fired {
            let bvel = scale_to_length(ship.aiming_at.0, BULLET_SPEED);
            let b = BulletBundle::new(
                BULLET_RADIUS,
                ship.ship_stats.damage,
                bvel,
                ship.pos,
                ship.team,
            );
            world.pending_bullets.push(b);
        }
        proof {
            assert(orig.take(i + 1 as int).drop_last() =~= orig.take(i as int));
            assert(orig.take(i + 1 as int).last() == orig[i as int]);
            assert(world.pending_bullets@ =~= old(world)@.pending + spawned_bullets_spec(
                orig.take(i + 1 as int),
                dt as int,
            ));
        }
        i = i + 1;
    }
    proof {
        assert(orig.take(n as int) =~= orig);
        assert(final(world)@ =~= tick_shoot_spec(old(world)@, dt as int));
    }
}

/// A ship after one projectile hit: the projectile's damage comes off the
/// health (saturating far below zero), and a ship driven to zero or below
/// is marked destroyed.
pub open spec fn ship_hit_spec(s: ShipBundle, damage: int) -> ShipBundle {
    let h = sat_sub(s.health as int, damage);
    ShipBundle {
        health: h as i64,
        alive: (if h <= 0 {
            false
        } else {
            s.alive
        }),
        ..s
    }
}

/// A live projectile of the opposing faction overlapping the ship.
pub open spec fn bullet_hits_ship(s: ShipBundle, b: BulletBundle) -> bool {
    b.alive && b.team != s.team && circles_overlap(
        s.pos,
        s.ship_stats.radius as int,
        b.pos,
        b.bullet_stats.radius as int,
    )
}

/// One ship's damage pass against the projectiles from index `j` on: each
/// hit costs the projectile (it is single-use) and the ship the
/// projectile's damage.
pub open spec fn damage_ship_from(s: ShipBundle, bullets: Seq<BulletBundle>, j: int) -> (
    ShipBundle,
    Seq<BulletBundle>,
)
    decreases bullets.len() - j,
{
    if j < 0 || j >= bullets.len() {
        (s, bullets)
    } else if bullet_hits_ship(s, bullets[j]) {
        damage_ship_from(
            ship_hit_spec(s, bullets[j].bullet_stats.damage as int),
            bullets.update(j, BulletBundle { alive: false, ..bullets[j] }),
            j + 1,
        )
    } else {
        damage_ship_from(s, bullets, j + 1)
    }
}

/// The damage pass over the ships from index `i` on: each ship that was
/// alive when the pass reached it is tested against every projectile, in
/// store order; a ship already destroyed is skipped entirely.
pub open spec fn damage_pass_from(ships: Seq<ShipBundle>, bullets: Seq<BulletBundle>, i: int) -> (
    Seq<ShipBundle>,
    Seq<BulletBundle>,
)
    decreases ships.len() - i,
{
    if i < 0 || i >= ships.len() {
        (ships, bullets)
    } else if ships[i].alive {
        let hit = damage_ship_from(ships[i], bullets, 0);
        damage_pass_from(ships.update(i, hit.0), hit.1, i + 1)
    } else {
        damage_pass_from(ships, bullets, i + 1)
    }
}

/// The whole store after collision and damage.
pub open spec fn bullet_damage_spec(w: WorldModel) -> WorldModel {
    let r = damage_pass_from(w.ships, w.bullets, 0);
    WorldModel { ships: r.0, bullets: r.1, ..w }
}

/// Run one ship's collision tests against every projectile, applying
/// damage and consuming hit projectiles.
fn damage_one_ship(ship: &mut ShipBundle, bullets: &mut Vec<BulletBundle>)
    requires
        old(ship).wf(),
        forall|j: int| 0 <= j < old(bullets)@.len() ==> (#[trigger] old(bullets)@[j]).wf(),
    ensures
        (*final(ship), final(bullets)@) == damage_ship_from(*old(ship), old(bullets)@, 0),
        final(ship).wf(),
        final(ship).is_player == old(ship).is_player,
        (!final(ship).alive && old(ship).alive) ==> final(ship).health <= 0,
        final(bullets)@.len() == old(bullets)@.len(),
        forall|j: int| 0 <= j < old(bullets)@.len() ==> (#[trigger] final(bullets)@[j]).wf(),
{
    let ghost orig_s = *ship;
    let ghost orig_b = bullets@;
    let n = bullets.len();
    let mut j: usize = 0;
    while j < n
        invariant
            j <= n,
            n == bullets.len(),
            ship.wf(),
            ship.is_player == orig_s.is_player,
            (!ship.alive && orig_s.alive) ==> ship.health <= 0,
            forall|t: int| 0 <= t < n ==> (#[trigger] bullets@[t]).wf(),
            damage_ship_from(*ship, bullets@, j as int) == damage_ship_from(orig_s, orig_b, 0),
        decreases n - j,
    {
        let ghost s0 = *ship;
        let ghost b0 = bullets@;
        let b = bullets[j];
        if b.alive && b.team != ship.team {
            let overlap = circle_intersection(
                ship.pos.reduce(),
                ship.ship_stats.radius,
                b.pos.reduce(),
                b.bullet_stats.radius,
            );
            if overlap {
                ship.health = sat_sub_i64(ship.health, b.bullet_stats.damage);
                if ship.health <= 0 {
                    ship.alive = false;
                }
                let mut bb = b;
                bb.alive = false;
                bullets.set(j, bb);
                proof {
                    assert(bullet_hits_ship(s0, b0[j as int]));
                    assert(*ship == ship_hit_spec(s0, b0[j as int].bullet_stats.damage as int));
                    assert(bullets@ =~= b0.update(
                        j as int,
                        BulletBundle { alive: false, ..b0[j as int] },
                    ));
                }
            } else {
                proof {
                    assert(!bullet_hits_ship(s0, b0[j as int]));
                }
            }
        } else {
            proof {
                assert(!bullet_hits_ship(s0, b0[j as int]));
            }
        }
        proof {
            assert(damage_ship_from(*ship, bullets@, j + 1 as int) == damage_ship_from(
                s0,
                b0,
                j as int,
            ));
        }
        j = j + 1;
    }
    proof {
        assert(damage_ship_from(*ship, bullets@, n as int) == (*ship, bullets@));
    }
}

/// Test every live ship against every live opposing-faction projectile for
/// planar circle overlap; on overlap apply the projectile's damage to the
/// ship, consume the projectile, and mark a ship driven to zero or below
/// destroyed. After the pass, no ship with health at or below zero is
/// still alive.
pub fn bullet_damage(world: &mut World)
    requires
        old(world)@.wf(),
    ensures
        final(world)@ == bullet_damage_spec(old(world)@),
        final(world)@.wf(),
        final(world)@.ships.len() == old(world)@.ships.len(),
        final(world)@.bullets.len() == old(world)@.bullets.len(),
        forall|i: int|
            0 <= i < old(world)@.ships.len() ==> (#[trigger] final(world)@.ships[i]).is_player
                == old(world)@.ships[i].is_player,
        forall|i: int|
            0 <= i < final(world)@.ships.len() ==> ((#[trigger] final(world)@.ships[i]).alive
                ==> final(world)@.ships[i].health > 0),
        forall|i: int|
            0 <= i < final(world)@.ships.len() ==> ((!(#[trigger] final(world)@.ships[i]).alive
                && old(world)@.ships[i].alive) ==> final(world)@.ships[i].health <= 0),
{
    let ghost orig_ships = world.ships@;
    let ghost orig_bullets = world.bullets@;
    proof {
        assert forall|t: int| 0 <= t < world.bullets@.len() implies (
        #[trigger] world.bullets@[t]).wf() by {
            assert(world.bullets@[t] == old(world)@.bullets[t]);
        };
        assert forall|j: int| 0 <= j < world.ships@.len() implies (
        #[trigger] world.ships@[j]).wf() by {
            assert(world.ships@[j] == old(world)@.ships[j]);
        };
    }
    let n = world.ships.len();
    let mut i: usize = 0;
    while i < n
        invariant
            i <= n,
            n == world.ships.len(),
            world.pending_bullets@ == old(world)@.pending,
            world.arena == old(world)@.arena,
            orig_ships.len() == n,
            orig_bullets.len() == world.bullets@.len(),
            forall|j: int| 0 <= j < n ==> (#[trigger] world.ships@[j]).wf(),
            forall|j: int| i <= j < n ==> (#[trigger] world.ships@[j]) == orig_ships[j],
            forall|j: int|
                0 <= j < i ==> ((#[trigger] world.ships@[j]).is_player
                    == orig_ships[j].is_player),
            forall|j: int|
                0 <= j < i ==> ((!(#[trigger] world.ships@[j]).alive && orig_ships[j].alive)
                    ==> world.ships@[j].health <= 0),
            forall|t: int| 0 <= t < world.bullets@.len() ==> (#[trigger] world.bullets@[t]).wf(),
            damage_pass_from(world.ships@, world.bullets@, i as int) == damage_pass_from(
                orig_ships,
                orig_bullets,
                0,
            ),
        decreases n - i,
    {
        let ghost ships0 = world.ships@;
        let ghost bullets0 = world.bullets@;
        if world.ships[i].alive {
            let mut ship = world.ships[i];
            damage_one_ship(&mut ship, &mut world.bullets);
            world.ships.set(i, ship);
            proof {
                assert(world.ships@ =~= ships0.update(
                    i as int,
                    damage_ship_from(ships0[i as int], bullets0, 0).0,
                ));
                assert(world.bullets@ == damage_ship_from(ships0[i as int], bullets0, 0).1);
            }
        }
        proof {
            assert(damage_pass_from(world.ships@, world.bullets@, i + 1 as int)
                == damage_pass_from(ships0, bullets0, i as int));
        }
        i = i + 1;
    }
    proof {
        assert(damage_pass_from(world.ships@, world.bullets@, n as int) == (
            world.ships@,
            world.bullets@,
        ));
        assert(final(world)@ =~= bullet_damage_spec(old(world)@));
    }
}

/// A ship's damage pass against projectiles that are all of its own
/// faction changes nothing: hits require an opposing faction.
proof fn lemma_damage_ship_same_team(s: ShipBundle, bullets: Seq<BulletBundle>, j: int)
    requires
        forall|t: int|
            0 <= t < bullets.len() ==> ((#[trigger] bullets[t]).alive ==> bullets[t].team
                == s.team),
    ensures
        damage_ship_from(s, bullets, j) == (s, bullets),
    decreases bullets.len() - j,
{
    if j < 0 || j >= bullets.len() {
    } else {
        assert(!bullet_hits_ship(s, bullets[j]));
        lemma_damage_ship_same_team(s, bullets, j + 1);
    }
}

/// A ship's damage pass only ever turns projectiles' alive flags off; it
/// never changes a projectile's faction or revives one.
proof fn lemma_damage_ship_bullets(s: ShipBundle, bullets: Seq<BulletBundle>, j: int)
    ensures
        damage_ship_from(s, bullets, j).1.len() == bullets.len(),
        forall|t: int|
            0 <= t < bullets.len() ==> ((#[trigger] damage_ship_from(s, bullets, j).1[t]).team
                == bullets[t].team && (damage_ship_from(s, bullets, j).1[t].alive
                ==> bullets[t].alive)),
    decreases bullets.len() - j,
{
    if j < 0 || j >= bullets.len() {
    } else if bullet_hits_ship(s, bullets[j]) {
        lemma_damage_ship_bullets(
            ship_hit_spec(s, bullets[j].bullet_stats.damage as int),
            bullets.update(j, BulletBundle { alive: false, ..bullets[j] }),
            j + 1,
        );
    } else {
        lemma_damage_ship_bullets(s, bullets, j + 1);
    }
}

/// Friendly fire is excluded: a ship on the same faction as every live
/// projectile in the store comes out of the collision-and-damage pass
/// untouched, wherever the projectiles sit.
pub proof fn lemma_damage_pass_friendly(
    ships: Seq<ShipBundle>,
    bullets: Seq<BulletBundle>,
    i: int,
    k: int,
)
    requires
        0 <= k < ships.len(),
        forall|j: int|
            0 <= j < bullets.len() ==> ((#[trigger] bullets[j]).alive ==> bullets[j].team
                == ships[k].team),
    ensures
        damage_pass_from(ships, bullets, i).0.len() == ships.len(),
        damage_pass_from(ships, bullets, i).0[k] == ships[k],
    decreases ships.len() - i,
{
    if i < 0 || i >= ships.len() {
    } else if ships[i].alive {
        let hit = damage_ship_from(ships[i], bullets, 0);
        lemma_damage_ship_bullets(ships[i], bullets, 0);
        if i == k {
            lemma_damage_ship_same_team(ships[k], bullets, 0);
            assert(ships.update(i, hit.0) =~= ships);
            lemma_damage_pass_friendly(ships.update(i, hit.0), hit.1, i + 1, k);
        } else {
            assert(ships.update(i, hit.0)[k] == ships[k]);
            lemma_damage_pass_friendly(ships.update(i, hit.0), hit.1, i + 1, k);
        }
    } else {
        lemma_damage_pass_friendly(ships, bullets, i + 1, k);
    }
}


/// The ships that survive cleanup: those not marked dead, in order.
pub open spec fn alive_ships_spec(s: Seq<ShipBundle>) -> Seq<ShipBundle>
    decreases s.len(),
{
    if s.len() == 0 {
        Seq::empty()
    } else if s.last().alive {
        alive_ships_spec(s.drop_last()).push(s.last())
    } else {
        alive_ships_spec(s.drop_last())
    }
}

/// The projectiles that survive cleanup: those not marked dead, in order.
pub open spec fn alive_bullets_spec(s: Seq<BulletBundle>) -> Seq<BulletBundle>
    decreases s.len(),
{
    if s.len() == 0 {
        Seq::empty()
    } else if s.last().alive {
        alive_bullets_spec(s.drop_last()).push(s.last())
    } else {
        alive_bullets_spec(s.drop_last())
    }
}

/// The whole store after the end-of-frame compaction: every entity marked
/// dead is removed, and the projectiles queued during the frame are
/// admitted.
pub open spec fn cleanup_spec(w: WorldModel) -> WorldModel {
    WorldModel {
        ships: alive_ships_spec(w.ships),
        bullets: alive_bullets_spec(w.bullets) + w.pending,
        pending: Seq::empty(),
        arena: w.arena,
    }
}

/// Everything that survives the ship compaction is alive.
proof fn lemma_alive_ships_all_alive(s: Seq<ShipBundle>)
    ensures
        forall|i: int|
            0 <= i < alive_ships_spec(s).len() ==> (#[trigger] alive_ships_spec(s)[i]).alive,
    decreases s.len(),
{
    if s.len() > 0 {
        lemma_alive_ships_all_alive(s.drop_last());
    }
}

/// Physically remove every entity marked dead, after all of the frame's
/// passes have observed it, and admit the projectiles spawned this frame.
/// No destroyed ship survives into the next frame.
pub fn cleanup_entities(world: &mut World)
    requires
        old(world)@.wf(),
    ensures
        final(world)@ == cleanup_spec(old(world)@),
        final(world)@.wf(),
        forall|i: int|
            0 <= i < final(world)@.ships.len() ==> (#[trigger] final(world)@.ships[i]).alive,
{
    proof {
        lemma_alive_ships_all_alive(old(world)@.ships);
    }
    let ghost orig_ships = world.ships@;
    proof {
        assert forall|j: int| 0 <= j < world.ships@.len() implies (
        #[trigger] world.ships@[j]).wf() by {
            assert(world.ships@[j] == old(world)@.ships[j]);
        };
        assert forall|j: int| 0 <= j < world.bullets@.len() implies (
        #[trigger] world.bullets@[j]).wf() by {
            assert(world.bullets@[j] == old(world)@.bullets[j]);
        };
        assert forall|j: int| 0 <= j < world.pending_bullets@.len() implies (
        #[trigger] world.pending_bullets@[j]).wf() by {
            assert(world.pending_bullets@[j] == old(world)@.pending[j]);
        };
        assert(orig_ships.take(0) =~= Seq::<ShipBundle>::empty());
    }
    let mut kept_ships: Vec<ShipBundle> = Vec::new();
    let n = world.ships.len();
    let mut i: usize = 0;
    while i < n
        invariant
            i <= n,
            n == world.ships.len(),
            world.ships@ == orig_ships,
            orig_ships.len() == n,
            forall|j: int| 0 <= j < n ==> (#[trigger] orig_ships[j]).wf(),
            kept_ships@ == alive_ships_spec(orig_ships.take(i as int)),
            forall|j: int| 0 <= j < kept_ships@.len() ==> (#[trigger] kept_ships@[j]).wf(),
        decreases n - i,
    {
        if world.ships[i].alive {
            kept_ships.push(world.ships[i]);
        }
        proof {
            assert(orig_ships.take(i + 1 as int).drop_last() =~= orig_ships.take(i as int));
            assert(orig_ships.take(i + 1 as int).last() == orig_ships[i as int]);
        }
        i = i + 1;
    }
    proof {
        assert(orig_ships.take(n as int) =~= orig_ships);
    }
    world.ships = kept_ships;
    let ghost orig_bullets = world.bullets@;
    proof {
        assert(orig_bullets.take(0) =~= Seq::<BulletBundle>::empty());
    }
    let mut kept_bullets: Vec<BulletBundle> = Vec::new();
    let m = world.bullets.len();
    let mut k: usize = 0;
    while k < m
        invariant
            k <= m,
            m == world.bullets.len(),
            world.bullets@ == orig_bullets,
            orig_bullets.len() == m,
            forall|j: int| 0 <= j < m ==> (#[trigger] orig_bullets[j]).wf(),
            kept_bullets@ == alive_bullets_spec(orig_bullets.take(k as int)),
            forall|j: int| 0 <= j < kept_bullets@.len() ==> (#[trigger] kept_bullets@[j]).wf(),
        decreases m - k,
    {
        if world.bullets[k].alive {
            kept_bullets.push(world.bullets[k]);
        }
        proof {
            assert(orig_bullets.take(k + 1 as int).drop_last() =~= orig_bullets.take(k as int));
            assert(orig_bullets.take(k + 1 as int).last() == orig_bullets[k as int]);
        }
        k = k + 1;
    }
    proof {
        assert(orig_bullets.take(m as int) =~= orig_bullets);
    }
    let ghost orig_pending = world.pending_bullets@;
    proof {
        assert(kept_bullets@ =~= alive_bullets_spec(orig_bullets) + orig_pending.take(0));
    }
    let q = world.pending_bullets.len();
    let mut t: usize = 0;
    while t < q
        invariant
            t <= q,
            q == world.pending_bullets.len(),
            world.pending_bullets@ == orig_pending,
            orig_pending.len() == q,
            forall|j: int| 0 <= j < q ==> (#[trigger] orig_pending[j]).wf(),
            kept_bullets@ == alive_bullets_spec(orig_bullets) + orig_pending.take(t as int),
            forall|j: int| 0 <= j < kept_bullets@.len() ==> (#[trigger] kept_bullets@[j]).wf(),
        decreases q - t,
    {
        kept_bullets.push(world.pending_bullets[t]);
        proof {
            assert(kept_bullets@ =~= alive_bullets_spec(orig_bullets) + orig_pending.take(
                t + 1 as int,
            ));
        }
        t = t + 1;
    }
    proof {
        assert(orig_pending.take(q as int) =~= orig_pending);
    }
    world.bullets = kept_bullets;
    world.pending_bullets = Vec::new();
    proof {
        assert(final(world)@ =~= cleanup_spec(old(world)@));
    }
}

/// Two stores with the same player pattern agree on whether the player is
/// unique.
proof fn lemma_same_players(a: Seq<ShipBundle>, b: Seq<ShipBundle>)
    requires
        a.len() == b.len(),
        forall|i: int| 0 <= i < a.len() ==> (#[trigger] a[i]).is_player == b[i].is_player,
    ensures
        has_unique_player(a) == has_unique_player(b),
{
    assert forall|i: int| #[trigger] is_player_at(a, i) implies is_player_at(b, i) by {};
    assert forall|i: int| #[trigger] is_player_at(b, i) implies is_player_at(a, i) by {};
    if has_unique_player(a) {
        let w = choose|i: int| #[trigger] is_player_at(a, i);
        assert(is_player_at(b, w));
        assert forall|i: int, j: int|
            (#[trigger] is_player_at(b, i)) && (#[trigger] is_player_at(b, j)) implies i == j by {
            assert(is_player_at(a, i));
            assert(is_player_at(a, j));
        };
        assert(has_unique_player(b));
    }
    if has_unique_player(b) {
        let w = choose|i: int| #[trigger] is_player_at(b, i);
        assert(is_player_at(a, w));
        assert forall|i: int, j: int|
            (#[trigger] is_player_at(a, i)) && (#[trigger] is_player_at(a, j)) implies i == j by {
            assert(is_player_at(b, i));
            assert(is_player_at(b, j));
        };
        assert(has_unique_player(a));
    }
}

/// One whole frame, in the pipeline's fixed order: intent (input, then
/// AI), acceleration integration, position integration with out-of-bounds
/// flagging, the player wrap, the weapon pass, collision and damage, and
/// the cleanup compaction.
pub open spec fn step_frame_spec(w: WorldModel, input: FrameInput, dt: int) -> WorldModel {
    let w1 = handle_move_spec(w, input.movement);
    let w2 = player_shoot_spec(w1, input.pointer, input.fire_held);
    let w3 = enemy_ai_move_spec(w2);
    let w4 = enemy_ai_aim_spec(w3, dt);
    let w5 = accel_entities_spec(w4, dt);
    let w6 = move_entities_spec(w5, dt);
    let w7 = wrap_player_spec(w6);
    let w8 = tick_shoot_spec(w7, dt);
    let w9 = bullet_damage_spec(w8);
    cleanup_spec(w9)
}

/// Run one frame of the simulation with the given input and time delta.
/// Fails, with the store unchanged, when the store does not hold exactly
/// one player-controlled ship.
pub fn step_frame(world: &mut World, input: FrameInput, dt: i64) -> (r: Result<(), SimError>)
    requires
        old(world)@.wf(),
        0 <= dt <= DT_LIMIT,
        match input.pointer {
            Option::Some(p) => p.in_box(POS_LIMIT as int),
            Option::None => true,
        },
    ensures
        final(world)@.wf(),
        r is Ok <==> has_unique_player(old(world)@.ships),
        r is Ok ==> final(world)@ == step_frame_spec(old(world)@, input, dt as int),
        r is Err ==> final(world)@ == old(world)@ && r == Err::<(), SimError>(SimError::NoPlayer),
{
    match find_player(&world.ships) {
        Ok(_) => {},
        Err(e) => {
            return Err(e);
        },
    }
    let ghost w0 = world@;
    let r1 = handle_move(world, input.movement);
    if r1.is_err() {
        proof {
            assert(false);
        }
        return Err(SimError::NoPlayer);
    }
    proof {
        lemma_same_players(w0.ships, world@.ships);
    }
    let ghost w1 = world@;
    let r2 = player_shoot(world, input.pointer, input.fire_held);
    if r2.is_err() {
        proof {
            assert(false);
        }
        return Err(SimError::NoPlayer);
    }
    proof {
        lemma_same_players(w1.ships, world@.ships);
    }
    let ghost w2 = world@;
    let r3 = enemy_ai_move(world);
    if r3.is_err() {
        proof {
            assert(false);
        }
        return Err(SimError::NoPlayer);
    }
    proof {
        lemma_same_players(w2.ships, world@.ships);
    }
    let ghost w3 = world@;
    let r4 = enemy_ai_aim(world, dt);
    if r4.is_err() {
        proof {
            assert(false);
        }
        return Err(SimError::NoPlayer);
    }
    proof {
        lemma_same_players(w3.ships, world@.ships);
    }
    let ghost w4 = world@;
    accel_entities(world, dt);
    proof {
        lemma_same_players(w4.ships, world@.ships);
    }
    let ghost w5 = world@;
    move_entities(world, dt);
    proof {
        lemma_same_players(w5.ships, world@.ships);
    }
    let ghost w6 = world@;
    let r5 = wrap_player(world);
    if r5.is_err() {
        proof {
            assert(false);
        }
        return Err(SimError::NoPlayer);
    }
    proof {
        lemma_same_players(w6.ships, world@.ships);
    }
    tick_shoot_timers(world, dt);
    bullet_damage(world);
    cleanup_entities(world);
    proof {
        assert(final(world)@ == step_frame_spec(old(world)@, input, dt as int));
    }
    Ok(())
}

/// The scene the simulation starts from: one player ship (radius 8, layer
/// 0, no speed cap, a 200 ms cooldown, a stronger base acceleration) and
/// one always-firing AI ship (radius 7, layer 1, speed cap 420, a 400 ms
/// cooldown), both at the arena center, in an 800 x 600 arena whose
/// despawn distance is the arena width plus a margin.
pub open spec fn initial_world() -> WorldModel {
    WorldModel {
        ships: seq![
            ShipBundle {
                ship_stats: ShipStats {
                    radius: 8,
                    base_accel: 1500,
                    max_speed: Option::None,
                    damage: 1,
                    base_health: 100,
                },
                vel: Velocity(V3 { x: 0, y: 0, z: 0 }),
                accel: Accel(V3 { x: 0, y: 0, z: 0 }),
                gun: Gun { elapsed_ms: 0, duration_ms: 200, is_shooting: false },
                aiming_at: AimingAt(V3 { x: 1, y: 0, z: 0 }),
                movable: Movable { auto_despawn: false },
                pos: V3 { x: 0, y: 0, z: 0 },
                health: 100,
                team: Team::Player,
                is_player: true,
                alive: true,
            },
            ShipBundle {
                ship_stats: ShipStats {
                    radius: 7,
                    base_accel: 1000,
                    max_speed: Option::Some(420),
                    damage: 1,
                    base_health: 100,
                },
                vel: Velocity(V3 { x: 0, y: 0, z: 0 }),
                accel: Accel(V3 { x: 0, y: 0, z: 0 }),
                gun: Gun { elapsed_ms: 0, duration_ms: 400, is_shooting: true },
                aiming_at: AimingAt(V3 { x: 1, y: 0, z: 0 }),
                movable: Movable { auto_despawn: false },
                pos: V3 { x: 0, y: 0, z: 1 },
                health: 100,
                team: Team::Enemy,
                is_player: false,
                alive: true,
            },
        ],
        bullets: Seq::empty(),
        pending: Seq::empty(),
        arena: Arena { half_width: 400, half_height: 300, despawn_dist: 900 },
    }
}

/// Build the starting scene.
pub fn initialize() -> (w: World)
    ensures
        w@ == initial_world(),
        w@.wf(),
        has_unique_player(w@.ships),
{
    let player = ShipBundle::new(8, 0, Team::Player).with_max_speed(None).with_firing_rate(
        200,
    ).with_base_accel(1500).as_player();
    let enemy = ShipBundle::new(7, 1, Team::Enemy).with_max_speed(Some(420)).with_firing_rate(
        400,
    ).always_shooting();
    let mut ships: Vec<ShipBundle> = Vec::new();
    ships.push(player);
    ships.push(enemy);
    let w = World {
        ships,
        bullets: Vec::new(),
        pending_bullets: Vec::new(),
        arena: Arena { half_width: 400, half_height: 300, despawn_dist: 900 },
    };
    proof {
        assert(w@.ships =~= initial_world().ships);
        assert(w@ =~= initial_world());
        assert(is_player_at(w@.ships, 0));
        assert forall|i: int, j: int|
            (#[trigger] is_player_at(w@.ships, i)) && (#[trigger] is_player_at(w@.ships, j))
            implies i == j by {};
    }
    w
}


/// A cursor position in window coordinates (origin at the window's lower
/// left corner) moved to world coordinates (origin at the arena center,
/// on the gameplay plane). Meaningful for a cursor inside the window.
pub fn window_to_world(cursor_x: i64, cursor_y: i64, width: i64, height: i64) -> (r: V3)
    requires
        0 <= cursor_x <= width,
        0 <= cursor_y <= height,
        1 <= width <= 2 * ARENA_LIMIT,
        1 <= height <= 2 * ARENA_LIMIT,
    ensures
        r.x == cursor_x - tdiv(width as int, 2),
        r.y == cursor_y - tdiv(height as int, 2),
        r.z == 0,
        r.in_box(POS_LIMIT as int),
{
    let hx = div_trunc(width, 2);
    let hy = div_trunc(height, 2);
    proof {
        crate::intmath::lemma_tdiv_bounds(width as int, 2);
        crate::intmath::lemma_tdiv_bounds(height as int, 2);
        assert(2 * tdiv(width as int, 2) <= width as int + 1) by (nonlinear_arith)
            requires
                tdiv(width as int, 2) * 2 <= width as int,
        ;
        assert(2 * tdiv(height as int, 2) <= height as int + 1) by (nonlinear_arith)
            requires
                tdiv(height as int, 2) * 2 <= height as int,
        ;
    }
    V3 { x: cursor_x - hx, y: cursor_y - hy, z: 0 }
}

} // verus!
