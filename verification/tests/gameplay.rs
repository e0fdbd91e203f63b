use hordegrid::config::{MAX_ENEMIES, MAX_PLAYERS, VIEW_HALF_H, VIEW_HALF_W};
use hordegrid::fx::Fixed;
use hordegrid::input::{dir_from_delta, PlayerInput};
use hordegrid::state::{Life, State, WavePhase};
use hordegrid::step::World;

/// Kiting bot: aims at the nearest enemy, backs away when close, revives downed teammates.
fn kiting_bot(s: &State, players: usize) -> [PlayerInput; MAX_PLAYERS] {
    let mut out = [PlayerInput::default(); MAX_PLAYERS];
    let frame = s.header.frame;
    for (i, slot) in out.iter_mut().enumerate().take(players) {
        let (px, py) = (s.players.x[i], s.players.y[i]);
        let mut bits = PlayerInput::PRESENT | PlayerInput::FIRE;
        if let Some(d) = (0..MAX_PLAYERS).find(|&d| d != i && s.life(d) == Life::Downed) {
            bits |= u16::from(dir_from_delta(s.players.x[d] - px, s.players.y[d] - py));
            *slot = PlayerInput(bits);
            continue;
        }
        let nearest = (0..MAX_ENEMIES)
            .filter(|&e| s.enemies.alive[e] != 0)
            .min_by_key(|&e| (Fixed::len_sq(s.enemies.x[e] - px, s.enemies.y[e] - py), e));
        if let Some(e) = nearest {
            let (dx, dy) = (s.enemies.x[e] - px, s.enemies.y[e] - py);
            let toward = u16::from(dir_from_delta(dx, dy));
            let close = Fixed::len_sq(dx, dy) < Fixed::from_int(4).sq();
            if frame % 4 == 0 || !close {
                bits |= toward;
            } else {
                let away = (toward + 3) % 8 + 1;
                bits |= away | PlayerInput::STRAFE;
            }
            if frame % 240 == 0 {
                bits |= PlayerInput::WEAPON_NEXT;
            }
        }
        *slot = PlayerInput(bits);
    }
    out
}

/// No enemy stays motionless for 5 s unless it is attacking (in contact) or staggered.
#[test]
fn when_playing_ten_minutes_then_no_enemy_is_stuck() {
    let mut world = World::new(0);
    let mut s = world.initial_state(2, 2024, 0);
    let mut last_pos = [(Fixed::zero(), Fixed::zero()); MAX_ENEMIES];
    let mut still = [0u32; MAX_ENEMIES];
    for _ in 0..60 * 60 * 10 {
        let inputs = kiting_bot(&s, 2);
        world.step(&mut s, &inputs);
        if s.phase() == WavePhase::GameOver {
            break;
        }
        // enemies intentionally idle when nobody is standing (all downed)
        let anyone_alive = (0..MAX_PLAYERS).any(|p| s.life(p) == Life::Alive);
        for e in 0..MAX_ENEMIES {
            if s.enemies.alive[e] == 0 || !anyone_alive {
                still[e] = 0;
                last_pos[e] = (Fixed::zero(), Fixed::zero());
                continue;
            }
            let pos = (s.enemies.x[e], s.enemies.y[e]);
            let near_player = (0..MAX_PLAYERS).any(|p| {
                s.life(p) != Life::Empty
                    && Fixed::len_sq(s.players.x[p] - pos.0, s.players.y[p] - pos.1)
                        < Fixed::one().sq()
            });
            if pos == last_pos[e] && !near_player && s.enemies.stagger[e] == 0 {
                still[e] += 1;
                if still[e] >= 300 {
                    let (tx, ty) = (pos.0.floor_int(), pos.1.floor_int());
                    panic!(
                        "enemy {e} stuck at ({:.3},{:.3}) tile ({tx},{ty}) frame {}",
                        pos.0 .0 as f64 / 65536.0,
                        pos.1 .0 as f64 / 65536.0,
                        s.header.frame
                    );
                }
            } else {
                still[e] = 0;
            }
            last_pos[e] = pos;
        }
    }
}

/// Spawns happen outside every player's camera whenever such a door exists.
#[test]
fn when_enemy_spawns_then_outside_all_cameras_or_no_hidden_door_existed() {
    let mut world = World::new(0);
    let mut s = world.initial_state(4, 77, 0);
    let mut prev_alive = [0u8; MAX_ENEMIES];
    for _ in 0..60 * 60 * 4 {
        let inputs = kiting_bot(&s, 4);
        world.step(&mut s, &inputs);
        for e in 0..MAX_ENEMIES {
            if prev_alive[e] == 0 && s.enemies.alive[e] != 0 {
                let (tx, ty) = (s.enemies.x[e].floor_int(), s.enemies.y[e].floor_int());
                let visible = |px: i32, py: i32| {
                    (tx - px).abs() <= VIEW_HALF_W && (ty - py).abs() <= VIEW_HALF_H
                };
                let seen = (0..MAX_PLAYERS)
                    .filter(|&p| matches!(s.life(p), Life::Alive | Life::Downed))
                    .any(|p| visible(s.players.x[p].floor_int(), s.players.y[p].floor_int()));
                if seen {
                    let map = &world.map;
                    let hidden_door_existed =
                        map.spawns[..map.spawn_count].iter().any(|&(dx, dy)| {
                            !(0..MAX_PLAYERS)
                                .filter(|&p| matches!(s.life(p), Life::Alive | Life::Downed))
                                .any(|p| {
                                    let (px, py) =
                                        (s.players.x[p].floor_int(), s.players.y[p].floor_int());
                                    (i32::from(dx) - px).abs() <= VIEW_HALF_W
                                        && (i32::from(dy) - py).abs() <= VIEW_HALF_H
                                })
                        });
                    assert!(
                        !hidden_door_existed,
                        "spawned in view at ({tx},{ty}) although a hidden door existed"
                    );
                }
            }
        }
        prev_alive = s.enemies.alive;
    }
}
