//! Ammo, reload and splash damage.

use hordegrid::config::{
    enemy, full_ammo, weapon, EnemyKind, WeaponKind, INFINITE_AMMO, MAX_PLAYERS, RELOAD_FRAMES,
};
use hordegrid::check::check_state;
use hordegrid::fx::Fixed;
use hordegrid::input::PlayerInput;
use hordegrid::step::World;

const HOLD_FIRE: PlayerInput = PlayerInput(PlayerInput::PRESENT | PlayerInput::FIRE);

fn solo(bits: PlayerInput) -> [PlayerInput; MAX_PLAYERS] {
    [bits, PlayerInput::default(), PlayerInput::default(), PlayerInput::default()]
}

#[test]
fn when_ammo_runs_out_then_auto_reloads_and_refills() {
    let world = World::new(0);
    let mut s = world.initial_state(1, 1, 0);
    let smg = WeaponKind::Smg as usize;
    s.wave.unlocked |= 1 << smg;
    s.players.weapon[0] = smg as u8;
    s.players.ammo[0][smg] = 1;

    let mut w = World::new(0);
    // First tick: fires the last round, ammo hits 0.
    w.step(&mut s, &solo(HOLD_FIRE));
    assert_eq!(s.players.ammo[0][smg], 0);
    assert_eq!(s.players.reload_timer[0], 0, "not reloading yet this frame");

    // Next tick with fire still held and 0 ammo: auto-reload kicks in.
    w.step(&mut s, &solo(HOLD_FIRE));
    assert!(s.players.reload_timer[0] > 0, "should start reloading on empty");

    for _ in 0..u32::from(RELOAD_FRAMES) {
        w.step(&mut s, &[PlayerInput(PlayerInput::PRESENT); 4]);
    }
    assert_eq!(s.players.reload_timer[0], 0, "reload should finish");
    assert_eq!(s.players.ammo[0][smg], weapon(smg).max_ammo, "ammo refilled to max");
}

#[test]
fn when_pistol_then_never_reloads() {
    let world = World::new(0);
    let mut s = world.initial_state(1, 1, 0);
    assert_eq!(weapon(WeaponKind::Pistol as usize).max_ammo, INFINITE_AMMO);

    let mut w = World::new(0);
    for _ in 0..600 {
        w.step(&mut s, &solo(HOLD_FIRE));
        assert_eq!(s.players.reload_timer[0], 0, "pistol must never enter reload");
    }
}

#[test]
fn when_rocket_hits_then_splash_damages_nearby_enemies_too() {
    let world = World::new(0);
    let mut s = world.initial_state(1, 1, 0);
    let rocket = WeaponKind::Rocket as usize;
    s.wave.unlocked |= 1 << rocket;
    s.players.weapon[0] = rocket as u8;
    s.players.ammo[0][rocket] = 1;
    s.players.facing[0] = 3; // east
    s.players.x[0] = Fixed::from_int(10) + Fixed::half();
    s.players.y[0] = Fixed::from_int(10) + Fixed::half();

    let walker = EnemyKind::Walker as usize;
    // Direct target, dead ahead.
    s.enemies.alive[0] = 1;
    s.enemies.kind[0] = EnemyKind::Walker as u8;
    s.enemies.hp[0] = enemy(walker).hp;
    s.enemies.x[0] = Fixed::from_int(12) + Fixed::half();
    s.enemies.y[0] = Fixed::from_int(10) + Fixed::half();

    // Bystander, close enough to be inside the splash radius but not directly hit.
    s.enemies.alive[1] = 1;
    s.enemies.kind[1] = EnemyKind::Walker as u8;
    s.enemies.hp[1] = enemy(walker).hp;
    s.enemies.x[1] = Fixed::from_int(12) + Fixed::half();
    s.enemies.y[1] = Fixed::from_int(11) + Fixed::half();

    // The cached live count stays 0: it only has to leave room for spawns.
    assert!(check_state(&s, world.map()), "the set-up state is a valid state");

    let mut w = World::new(0);
    let inputs = solo(HOLD_FIRE);
    for _ in 0..30 {
        w.step(&mut s, &inputs);
        if s.enemies.hp[1] < enemy(walker).hp {
            break;
        }
    }
    assert!(
        s.enemies.hp[1] < enemy(walker).hp,
        "bystander enemy should take splash damage without being the direct hit"
    );
}

#[test]
fn when_game_starts_then_every_weapon_is_full() {
    let world = World::new(0);
    let s = world.initial_state(3, 9, 0);
    let full = full_ammo();
    assert_eq!(full, [INFINITE_AMMO, 240, 60, 20]);
    for i in 0..3 {
        assert_eq!(s.players.ammo[i], full);
        assert_eq!(s.players.reload_timer[i], 0);
    }
    assert_eq!(s.players.ammo[3], [0; 4], "an empty slot carries nothing");
}

#[test]
fn when_firing_a_finite_weapon_then_one_round_is_spent_per_shot() {
    let world = World::new(0);
    let mut s = world.initial_state(1, 1, 0);
    let shotgun = WeaponKind::Shotgun as usize;
    s.wave.unlocked |= 1 << shotgun;
    s.players.weapon[0] = shotgun as u8;
    let mut w = World::new(0);
    w.step(&mut s, &solo(HOLD_FIRE));
    // Five pellets, one round.
    assert_eq!(s.players.ammo[0][shotgun], 59);
    assert_eq!(s.players.cooldown[0], weapon(shotgun).cooldown);
}

#[test]
fn when_reload_pressed_then_partial_magazine_refills() {
    let world = World::new(0);
    let mut s = world.initial_state(1, 1, 0);
    let smg = WeaponKind::Smg as usize;
    s.wave.unlocked |= 1 << smg;
    s.players.weapon[0] = smg as u8;
    s.players.ammo[0][smg] = 100;
    let mut w = World::new(0);
    let reload = PlayerInput(PlayerInput::PRESENT | PlayerInput::RELOAD);
    w.step(&mut s, &solo(reload));
    assert_eq!(s.players.reload_timer[0], RELOAD_FRAMES);
    // Holding the button does not restart it; firing is blocked meanwhile.
    w.step(&mut s, &solo(PlayerInput(reload.0 | PlayerInput::FIRE)));
    assert_eq!(s.players.reload_timer[0], RELOAD_FRAMES - 1);
    assert_eq!(s.players.ammo[0][smg], 100);
    for _ in 1..RELOAD_FRAMES {
        w.step(&mut s, &solo(PlayerInput(PlayerInput::PRESENT)));
    }
    assert_eq!(s.players.reload_timer[0], 0);
    assert_eq!(s.players.ammo[0][smg], 240);
}

#[test]
fn when_reload_pressed_on_full_or_infinite_weapon_then_nothing_happens() {
    let world = World::new(0);
    let mut s = world.initial_state(1, 1, 0);
    let mut w = World::new(0);
    let reload = PlayerInput(PlayerInput::PRESENT | PlayerInput::RELOAD);
    w.step(&mut s, &solo(reload));
    assert_eq!(s.players.reload_timer[0], 0, "pistol");
    let smg = WeaponKind::Smg as usize;
    s.wave.unlocked |= 1 << smg;
    s.players.weapon[0] = smg as u8;
    w.step(&mut s, &solo(PlayerInput(PlayerInput::PRESENT)));
    w.step(&mut s, &solo(reload));
    assert_eq!(s.players.reload_timer[0], 0, "full smg");
}

#[test]
fn when_switching_weapon_then_reload_is_abandoned() {
    let world = World::new(0);
    let mut s = world.initial_state(1, 1, 0);
    let smg = WeaponKind::Smg as usize;
    s.wave.unlocked |= 1 << smg;
    s.players.weapon[0] = smg as u8;
    s.players.ammo[0][smg] = 0;
    let mut w = World::new(0);
    w.step(&mut s, &solo(HOLD_FIRE));
    assert_eq!(s.players.reload_timer[0], RELOAD_FRAMES);
    w.step(&mut s, &solo(PlayerInput(PlayerInput::PRESENT | PlayerInput::WEAPON_NEXT)));
    assert_eq!(s.players.weapon[0], 0, "back to the pistol");
    assert_eq!(s.players.reload_timer[0], 0);
    assert_eq!(s.players.ammo[0][smg], 0, "the smg stays empty");
}
