//! Entity components: faction tags, ship and projectile stats, weapon
//! state, and the bundles the store holds, one per live entity.

use vstd::prelude::*;
use crate::helpers::ACC_LIMIT;
use crate::helpers::AIM_LIMIT;
use crate::helpers::POS_LIMIT;
use crate::helpers::V3;
use crate::helpers::VEL_LIMIT;

verus! {

/// Bound on one frame's time delta, in milliseconds.
pub const DT_LIMIT: i64 = 8192;

/// Bound on a weapon cooldown duration, in milliseconds.
pub const TIME_LIMIT: i64 = 1048576;

/// Bound on damage and health stats.
pub const STAT_LIMIT: i64 = 1073741824;

/// Bound on an entity radius.
pub const RADIUS_LIMIT: i64 = 1048576;

/// One of the exactly two factions. Projectiles inherit the tag of the
/// ship that fired them, and damage only ever crosses factions.
#[derive(Clone, Copy, PartialEq, Eq, Structural, Debug)]
pub enum Team {
    Player,
    Enemy,
}

/// A ship's fixed stats, set at spawn time.
#[derive(Clone, Copy, Debug)]
pub struct ShipStats {
    pub radius: i64,
    pub base_accel: i64,
    /// `None` is an unbounded max speed: the clamp is skipped.
    pub max_speed: Option<i64>,
    pub damage: i64,
    pub base_health: i64,
}

impl ShipStats {
    pub open spec fn wf(self) -> bool {
        &&& 1 <= self.radius <= RADIUS_LIMIT
        &&& 0 <= self.base_accel <= ACC_LIMIT
        &&& match self.max_speed {
            Option::Some(m) => 0 <= m <= VEL_LIMIT,
            Option::None => true,
        }
        &&& 1 <= self.damage <= STAT_LIMIT
        &&& 1 <= self.base_health <= STAT_LIMIT
    }
}

/// A projectile's fixed stats, copied from the spawning ship.
#[derive(Clone, Copy, Debug)]
pub struct BulletStats {
    pub radius: i64,
    pub damage: i64,
}

impl BulletStats {
    pub open spec fn wf(self) -> bool {
        &&& 1 <= self.radius <= RADIUS_LIMIT
        &&& 1 <= self.damage <= STAT_LIMIT
    }
}

/// Weapon state: a cooldown timer plus the firing flag the intent systems
/// set.
#[derive(Clone, Copy, Debug)]
pub struct Gun {
    pub elapsed_ms: i64,
    pub duration_ms: i64,
    pub is_shooting: bool,
}

impl Gun {
    pub open spec fn wf(self) -> bool {
        &&& 1 <= self.duration_ms <= TIME_LIMIT
        &&& 0 <= self.elapsed_ms <= self.duration_ms
    }

    /// Timer state after one frame's tick: elapsed time advances by `dt`
    /// whatever the firing flag says (saturating at the duration), so
    /// toggling the flag never resets accumulated cooldown progress.
    pub open spec fn after_tick(self, dt: int) -> Gun {
        Gun {
            elapsed_ms: (if self.elapsed_ms + dt >= self.duration_ms {
                self.duration_ms
            } else {
                (self.elapsed_ms + dt) as i64
            }),
            duration_ms: self.duration_ms,
            is_shooting: self.is_shooting,
        }
    }

    /// The gun fires this frame exactly when the flag is set and the
    /// ticked timer has reached its duration.
    pub open spec fn fires(self, dt: int) -> bool {
        self.is_shooting && self.elapsed_ms + dt >= self.duration_ms
    }

    /// Gun state after the whole frame: tick, then reset to zero on fire.
    pub open spec fn after_frame(self, dt: int) -> Gun {
        if self.fires(dt) {
            Gun { elapsed_ms: 0, duration_ms: self.duration_ms, is_shooting: self.is_shooting }
        } else {
            self.after_tick(dt)
        }
    }

    /// Advance the timer by `dt` milliseconds and report whether a shot
    /// fires this frame; on fire the timer resets to zero.
    pub fn tick_frame(&mut self, dt: i64) -> (fired: bool)
        requires
            old(self).wf(),
            0 <= dt <= DT_LIMIT,
        ensures
            *final(self) == old(self).after_frame(dt as int),
            fired == old(self).fires(dt as int),
            final(self).wf(),
    {
        let reached = self.elapsed_ms + dt >= self.duration_ms;
        if self.is_shooting && reached {
            self.elapsed_ms = 0;
            true
        } else {
            if reached {
                self.elapsed_ms = self.duration_ms;
            } else {
                self.elapsed_ms = self.elapsed_ms + dt;
            }
            false
        }
    }
}

/// Weapon-timer fairness: while the cooldown has not yet elapsed, the
/// progress a tick accumulates does not depend on the firing flag, so
/// releasing the flag and pressing it again before the cooldown elapses
/// fires the next shot exactly when uninterrupted firing would have —
/// neither sooner nor later.
pub proof fn lemma_gun_fairness(g: Gun, dt1: int, dt2: int)
    requires
        g.wf(),
        g.is_shooting,
        0 <= dt1,
        0 <= dt2,
        g.elapsed_ms + dt1 < g.duration_ms,
    ensures
        ({
            let held = g.after_frame(dt1);
            let released = Gun {
                elapsed_ms: g.elapsed_ms,
                duration_ms: g.duration_ms,
                is_shooting: false,
            };
            let paused = released.after_frame(dt1);
            let resumed = Gun {
                elapsed_ms: paused.elapsed_ms,
                duration_ms: paused.duration_ms,
                is_shooting: true,
            };
            &&& !g.fires(dt1)
            &&& paused.elapsed_ms == held.elapsed_ms
            &&& resumed.fires(dt2) == held.fires(dt2)
        }),
{
}

/// Velocity component, world units per second.
#[derive(Clone, Copy, Debug)]
pub struct Velocity(pub V3);

/// Acceleration component, world units per second squared.
#[derive(Clone, Copy, Debug)]
pub struct Accel(pub V3);

/// The world-space point or direction the entity is aiming along.
#[derive(Clone, Copy, Debug)]
pub struct AimingAt(pub V3);

/// Motion bookkeeping: whether leaving the despawn range removes the
/// entity (free-flying projectiles) or not (ships).
#[derive(Clone, Copy, Debug)]
pub struct Movable {
    pub auto_despawn: bool,
}

/// Everything one ship entity carries.
#[derive(Clone, Copy, Debug)]
pub struct ShipBundle {
    pub ship_stats: ShipStats,
    pub vel: Velocity,
    pub accel: Accel,
    pub gun: Gun,
    pub aiming_at: AimingAt,
    pub movable: Movable,
    pub pos: V3,
    pub health: i64,
    pub team: Team,
    pub is_player: bool,
    pub alive: bool,
}

impl ShipBundle {
    pub open spec fn wf(self) -> bool {
        &&& self.ship_stats.wf()
        &&& self.gun.wf()
        &&& self.pos.in_box(POS_LIMIT as int)
        &&& self.vel.0.in_box(VEL_LIMIT as int)
        &&& self.accel.0.in_box(ACC_LIMIT as int)
        &&& self.aiming_at.0.in_box(AIM_LIMIT as int)
        &&& self.health <= self.ship_stats.base_health
        &&& (self.alive ==> self.health > 0)
    }

    /// A fresh ship of radius `radius` at the arena center, on draw layer
    /// `z_offset`, with the default stats: full health, the stock
    /// acceleration, speed cap, damage and cooldown, at rest, aiming along
    /// `+X`, not firing, alive.
    pub fn new(radius: i64, z_offset: i64, team: Team) -> (r: ShipBundle)
        requires
            1 <= radius <= RADIUS_LIMIT,
            -POS_LIMIT <= z_offset <= POS_LIMIT,
        ensures
            (r == ShipBundle {
                ship_stats: ShipStats {
                    radius: radius,
                    base_accel: 1000,
                    max_speed: Option::Some(400),
                    damage: 1,
                    base_health: 100,
                },
                vel: Velocity(V3 { x: 0, y: 0, z: 0 }),
                accel: Accel(V3 { x: 0, y: 0, z: 0 }),
                gun: Gun { elapsed_ms: 0, duration_ms: 500, is_shooting: false },
                aiming_at: AimingAt(V3 { x: 1, y: 0, z: 0 }),
                movable: Movable { auto_despawn: false },
                pos: V3 { x: 0, y: 0, z: z_offset },
                health: 100,
                team: team,
                is_player: false,
                alive: true,
            }),
            r.wf(),
    {
        ShipBundle {
            ship_stats: ShipStats {
                radius: radius,
                base_accel: 1000,
                max_speed: Some(400),
                damage: 1,
                base_health: 100,
            },
            vel: Velocity(V3 { x: 0, y: 0, z: 0 }),
            accel: Accel(V3 { x: 0, y: 0, z: 0 }),
            gun: Gun { elapsed_ms: 0, duration_ms: 500, is_shooting: false },
            aiming_at: AimingAt(V3 { x: 1, y: 0, z: 0 }),
            movable: Movable { auto_despawn: false },
            pos: V3 { x: 0, y: 0, z: z_offset },
            health: 100,
            team,
            is_player: false,
            alive: true,
        }
    }

    /// The same ship with the given cooldown duration.
    pub fn with_firing_rate(self, rate_ms: i64) -> (r: ShipBundle)
        requires
            self.gun.elapsed_ms <= rate_ms,
            1 <= rate_ms <= TIME_LIMIT,
        ensures
            r.gun.duration_ms == rate_ms,
            r.gun.elapsed_ms == self.gun.elapsed_ms,
            r.gun.is_shooting == self.gun.is_shooting,
            (r == ShipBundle {
                gun: Gun {
                    elapsed_ms: self.gun.elapsed_ms,
                    duration_ms: rate_ms,
                    is_shooting: self.gun.is_shooting,
                },
                ..self
            }),
    {
        let mut r = self;
        r.gun.duration_ms = rate_ms;
        r
    }

    /// The same ship with the given base acceleration magnitude.
    pub fn with_base_accel(self, base_accel: i64) -> (r: ShipBundle)
        requires
            0 <= base_accel <= ACC_LIMIT,
        ensures
            (r == ShipBundle {
                ship_stats: ShipStats { base_accel: base_accel, ..self.ship_stats },
                ..self
            }),
    {
        let mut r = self;
        r.ship_stats.base_accel = base_accel;
        r
    }

    /// The same ship with the given damage per hit.
    pub fn with_damage(self, damage: i64) -> (r: ShipBundle)
        requires
            1 <= damage <= STAT_LIMIT,
        ensures
            (r == ShipBundle { ship_stats: ShipStats { damage: damage, ..self.ship_stats }, ..self }),
    {
        let mut r = self;
        r.ship_stats.damage = damage;
        r
    }

    /// The same ship with the given speed cap; `None` removes the cap.
    pub fn with_max_speed(self, max_speed: Option<i64>) -> (r: ShipBundle)
        requires
            match max_speed {
                Option::Some(m) => 0 <= m <= VEL_LIMIT,
                Option::None => true,
            },
        ensures
            (r == ShipBundle {
                ship_stats: ShipStats { max_speed: max_speed, ..self.ship_stats },
                ..self
            }),
    {
        let mut r = self;
        r.ship_stats.max_speed = max_speed;
        r
    }

    /// The same ship with its firing flag held on from the start.
    pub fn always_shooting(self) -> (r: ShipBundle)
        ensures
            (r == ShipBundle {
                gun: Gun {
                    elapsed_ms: self.gun.elapsed_ms,
                    duration_ms: self.gun.duration_ms,
                    is_shooting: true,
                },
                ..self
            }),
    {
        let mut r = self;
        r.gun.is_shooting = true;
        r
    }

    /// The same ship on the given faction.
    pub fn on_team(self, team: Team) -> (r: ShipBundle)
        ensures
            (r == ShipBundle { team: team, ..self }),
    {
        let mut r = self;
        r.team = team;
        r
    }

    /// The same ship marked as the human-controlled player.
    pub fn as_player(self) -> (r: ShipBundle)
        ensures
            (r == ShipBundle { is_player: true, ..self }),
    {
        let mut r = self;
        r.is_player = true;
        r
    }
}

/// Everything one projectile entity carries.
#[derive(Clone, Copy, Debug)]
pub struct BulletBundle {
    pub bullet_stats: BulletStats,
    pub vel: Velocity,
    pub movable: Movable,
    pub pos: V3,
    pub team: Team,
    pub alive: bool,
}

impl BulletBundle {
    pub open spec fn wf(self) -> bool {
        &&& self.bullet_stats.wf()
        &&& self.vel.0.in_box(VEL_LIMIT as int)
        &&& self.pos.in_box(POS_LIMIT as int)
    }

    /// A fresh projectile: free-flying (despawns out of range), alive,
    /// with the velocity, stats and faction its spawner fixed for it.
    pub fn new(radius: i64, damage: i64, velocity: V3, position: V3, team: Team) -> (r:
        BulletBundle)
        requires
            1 <= radius <= RADIUS_LIMIT,
            1 <= damage <= STAT_LIMIT,
            velocity.in_box(VEL_LIMIT as int),
            position.in_box(POS_LIMIT as int),
        ensures
            (r == BulletBundle {
                bullet_stats: BulletStats { radius: radius, damage: damage },
                vel: Velocity(velocity),
                movable: Movable { auto_despawn: true },
                pos: position,
                team: team,
                alive: true,
            }),
            r.wf(),
    {
        BulletBundle {
            bullet_stats: BulletStats { radius, damage },
            vel: Velocity(velocity),
            movable: Movable { auto_despawn: true },
            pos: position,
            team,
            alive: true,
        }
    }
}

} // verus!
