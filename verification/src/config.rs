//! Compile-time capacities and tuning tables (shared, immutable, outside `State`).
//! Fixed-point tunables are given as raw Q16.16 values (`65536` is one tile).

use crate::fx::Fixed;
use vstd::prelude::*;

verus! {

/// Maximum players in a session.
pub const MAX_PLAYERS: usize = 4;
/// Enemy slot capacity.
pub const MAX_ENEMIES: usize = 384;
/// Projectile slot capacity.
pub const MAX_SHOTS: usize = 256;
/// Event ring capacity (render/sound feedback).
pub const EVENT_RING: usize = 64;
/// Map width in tiles.
pub const MAP_W: usize = 40;
/// Map height in tiles.
pub const MAP_H: usize = 30;
/// Tile count.
pub const TILES: usize = 1200;
/// Visible half-extent used for "spawn outside every camera" (tiles).
pub const VIEW_HALF_W: i32 = 12;
/// Visible half-extent (tiles).
pub const VIEW_HALF_H: i32 = 8;
/// Frames per second of the fixed step.
pub const FPS: u32 = 60;

// ---- players ----
/// Player collision half-size (0.35 tile).
pub const PLAYER_RADIUS: i32 = 22937;
/// Tiles per frame (0.09).
pub const PLAYER_SPEED: i32 = 5898;
/// Crawl speed while downed (0.02).
pub const DOWNED_SPEED: i32 = 1310;
/// Starting HP.
pub const PLAYER_HP: i32 = 100;
/// HP after a teammate revive.
pub const REVIVE_HP: i32 = 40;
/// HP when a dead player returns at the next wave.
pub const RESPAWN_HP: i32 = 50;
/// Frames a downed player survives.
pub const DOWNED_FRAMES: u16 = 600;
/// Frames a teammate must stay adjacent to revive.
pub const REVIVE_FRAMES: u16 = 120;
/// Revive distance (one tile).
pub const REVIVE_RANGE: i32 = 65536;
/// Frames without `present` before a player is removed.
pub const ABSENT_FRAMES: u16 = 180;
/// Frames of delay when switching weapons.
pub const WEAPON_SWITCH_FRAMES: u16 = 8;

// ---- combo / score ----
/// Frames a combo survives without a kill.
pub const COMBO_FRAMES: u32 = 120;
/// Combo cap for the multiplier.
pub const COMBO_CAP: u32 = 50;

// ---- waves ----
/// Frames between waves.
pub const INTERMISSION_FRAMES: u32 = 240;
/// Minimum frames between two spawns (late waves).
pub const SPAWN_INTERVAL: u32 = 16;

/// Player-count multiplier ×100 (≈ n^0.7), indexed by present players.
pub open spec fn player_count_mul_spec(n: int) -> u32 {
    if n == 2 {
        162
    } else if n == 3 {
        216
    } else if n == 4 {
        264
    } else {
        100
    }
}

/// Player-count multiplier ×100 (≈ n^0.7), indexed by present players `0..=MAX_PLAYERS`.
pub fn player_count_mul_x100(n: usize) -> (r: u32)
    ensures
        r == player_count_mul_spec(n as int),
{
    if n == 2 {
        162
    } else if n == 3 {
        216
    } else if n == 4 {
        264
    } else {
        100
    }
}

/// Weapon identifiers. Stored as `u8` in state (declaration order = index).
#[derive(Clone, Copy, Debug, PartialEq, Eq, Structural)]
pub enum WeaponKind {
    /// Starting weapon. Infinite ammo, never reloads.
    Pistol,
    /// Fast, low damage, jitter.
    Smg,
    /// Short-range pellet fan.
    Shotgun,
    /// Slow, splash damage on impact.
    Rocket,
}

/// Number of weapon kinds.
pub const WEAPON_COUNT: usize = 4;
/// Ammo value meaning "never runs out, never reloads" (the starting pistol).
pub const INFINITE_AMMO: u16 = 65535;
/// Frames a reload takes, same for every weapon.
pub const RELOAD_FRAMES: u16 = 60;

/// Immutable weapon tuning.
#[derive(Clone, Copy, Debug, PartialEq, Eq, Structural)]
pub struct WeaponStats {
    /// Team score needed to unlock.
    pub unlock_score: u32,
    /// Damage per projectile.
    pub damage: u8,
    /// Frames between shots.
    pub cooldown: u16,
    /// Projectile speed (tiles/frame).
    pub speed: Fixed,
    /// Projectile lifetime (frames).
    pub ttl: u8,
    /// Projectiles per shot.
    pub pellets: u8,
    /// Perpendicular spread per pellet step / max jitter (tiles/frame).
    pub spread: Fixed,
    /// Ammo pool capacity. [`INFINITE_AMMO`] = never depletes, never reloads.
    pub max_ammo: u16,
    /// Splash radius on impact; zero = single-target only.
    pub splash_radius: Fixed,
}

/// The weapon table, indexed by [`WeaponKind`] order (`w >= WEAPON_COUNT` reads the last row).
pub open spec fn weapon_spec(w: int) -> WeaponStats {
    if w == 0 {
        WeaponStats {
            unlock_score: 0,
            damage: 12,
            cooldown: 18,
            speed: Fixed(39321),
            ttl: 30,
            pellets: 1,
            spread: Fixed(0),
            max_ammo: INFINITE_AMMO,
            splash_radius: Fixed(0),
        }
    } else if w == 1 {
        WeaponStats {
            unlock_score: 1500,
            damage: 7,
            cooldown: 5,
            speed: Fixed(45875),
            ttl: 28,
            pellets: 1,
            spread: Fixed(2621),
            max_ammo: 240,
            splash_radius: Fixed(0),
        }
    } else if w == 2 {
        WeaponStats {
            unlock_score: 4000,
            damage: 9,
            cooldown: 40,
            speed: Fixed(36044),
            ttl: 10,
            pellets: 5,
            spread: Fixed(5242),
            max_ammo: 60,
            splash_radius: Fixed(0),
        }
    } else {
        WeaponStats {
            unlock_score: 16000,
            damage: 60,
            cooldown: 50,
            speed: Fixed(29491),
            ttl: 40,
            pellets: 1,
            spread: Fixed(0),
            max_ammo: 20,
            splash_radius: Fixed(131072),
        }
    }
}

/// Weapon table lookup.
pub fn weapon(w: usize) -> (r: WeaponStats)
    ensures
        r == weapon_spec(w as int),
{
    if w == 0 {
        WeaponStats {
            unlock_score: 0,
            damage: 12,
            cooldown: 18,
            speed: Fixed(39321),
            ttl: 30,
            pellets: 1,
            spread: Fixed(0),
            max_ammo: INFINITE_AMMO,
            splash_radius: Fixed(0),
        }
    } else if w == 1 {
        WeaponStats {
            unlock_score: 1500,
            damage: 7,
            cooldown: 5,
            speed: Fixed(45875),
            ttl: 28,
            pellets: 1,
            spread: Fixed(2621),
            max_ammo: 240,
            splash_radius: Fixed(0),
        }
    } else if w == 2 {
        WeaponStats {
            unlock_score: 4000,
            damage: 9,
            cooldown: 40,
            speed: Fixed(36044),
            ttl: 10,
            pellets: 5,
            spread: Fixed(5242),
            max_ammo: 60,
            splash_radius: Fixed(0),
        }
    } else {
        WeaponStats {
            unlock_score: 16000,
            damage: 60,
            cooldown: 50,
            speed: Fixed(29491),
            ttl: 40,
            pellets: 1,
            spread: Fixed(0),
            max_ammo: 20,
            splash_radius: Fixed(131072),
        }
    }
}

/// Every weapon at its capacity: a new player's ammo.
pub open spec fn full_ammo_spec() -> [u16; WEAPON_COUNT] {
    [
        weapon_spec(0).max_ammo,
        weapon_spec(1).max_ammo,
        weapon_spec(2).max_ammo,
        weapon_spec(3).max_ammo,
    ]
}

/// Every weapon at its capacity: a new player's ammo.
pub fn full_ammo() -> (r: [u16; WEAPON_COUNT])
    ensures
        r == full_ammo_spec(),
{
    [weapon(0).max_ammo, weapon(1).max_ammo, weapon(2).max_ammo, weapon(3).max_ammo]
}

/// Enemy identifiers (declaration order = index).
#[derive(Clone, Copy, Debug, PartialEq, Eq, Structural)]
pub enum EnemyKind {
    /// Slow, sturdy.
    Walker,
    /// Fast, fragile.
    Runner,
}

/// Number of enemy kinds.
pub const ENEMY_KINDS: usize = 2;

/// Immutable enemy tuning.
#[derive(Clone, Copy, Debug, PartialEq, Eq, Structural)]
pub struct EnemyStats {
    /// Hit points.
    pub hp: i32,
    /// Base speed (tiles/frame).
    pub speed: Fixed,
    /// Contact damage.
    pub damage: i32,
    /// Frames between attacks.
    pub attack_cooldown: u8,
    /// Collision half-size.
    pub radius: Fixed,
    /// Base score.
    pub score: u32,
    /// Separation strength (Runners pack tighter).
    pub separation: Fixed,
}

/// The enemy table, indexed by [`EnemyKind`] order (`k >= ENEMY_KINDS` reads the last row).
pub open spec fn enemy_spec(k: int) -> EnemyStats {
    if k == 0 {
        EnemyStats {
            hp: 30,
            speed: Fixed(2293),
            damage: 8,
            attack_cooldown: 30,
            radius: Fixed(22937),
            score: 10,
            separation: Fixed(1966),
        }
    } else {
        EnemyStats {
            hp: 18,
            speed: Fixed(4587),
            damage: 5,
            attack_cooldown: 20,
            radius: Fixed(19660),
            score: 15,
            separation: Fixed(655),
        }
    }
}

/// Enemy table lookup.
pub fn enemy(k: usize) -> (r: EnemyStats)
    ensures
        r == enemy_spec(k as int),
{
    if k == 0 {
        EnemyStats {
            hp: 30,
            speed: Fixed(2293),
            damage: 8,
            attack_cooldown: 30,
            radius: Fixed(22937),
            score: 10,
            separation: Fixed(1966),
        }
    } else {
        EnemyStats {
            hp: 18,
            speed: Fixed(4587),
            damage: 5,
            attack_cooldown: 20,
            radius: Fixed(19660),
            score: 15,
            separation: Fixed(655),
        }
    }
}

/// Projectile collision half-size (0.1 tile).
pub const SHOT_RADIUS: i32 = 6553;
/// Knockback applied on hit (0.05 tile).
pub const KNOCKBACK: i32 = 3276;
/// Frames an enemy is staggered after a hit.
pub const STAGGER_FRAMES: u8 = 6;

/// Tunnelling guard: every per-call movement in the simulation stays below half a tile,
/// and every collision box is narrower than a tile.
pub proof fn lemma_tuning_is_tunnel_safe()
    ensures
        PLAYER_SPEED < crate::fx::HALF_RAW,
        enemy_spec(1).speed.0 < crate::fx::HALF_RAW,
        weapon_spec(1).speed.0 / 2 < crate::fx::HALF_RAW,
        PLAYER_RADIUS < crate::fx::HALF_RAW,
        forall|k: int| 0 < #[trigger] enemy_spec(k).radius.0 < crate::fx::HALF_RAW,
{
}

} // verus!
