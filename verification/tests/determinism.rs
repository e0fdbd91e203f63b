use hordegrid::config::{MAX_ENEMIES, MAX_PLAYERS};
use hordegrid::fx::Fixed;
use hordegrid::input::{dir_from_delta, PlayerInput};
use hordegrid::net::input::NetInput;
use hordegrid::rng::Rng;
use hordegrid::state::{Life, State, WavePhase};
use hordegrid::step::World;

/// Random wanderer (exercises odd input combos).
fn random_inputs(
    rng: &mut Rng,
    held: &mut [u16; MAX_PLAYERS],
    players: usize,
) -> [PlayerInput; MAX_PLAYERS] {
    let mut out = [PlayerInput::default(); MAX_PLAYERS];
    for i in 0..players {
        if rng.below(20) == 0 {
            let dir = rng.below(9) as u16;
            let fire = if rng.below(4) != 0 { PlayerInput::FIRE } else { 0 };
            let strafe = if rng.below(3) == 0 { PlayerInput::STRAFE } else { 0 };
            let next = if rng.below(30) == 0 { PlayerInput::WEAPON_NEXT } else { 0 };
            held[i] = dir | fire | strafe | next | PlayerInput::PRESENT;
        }
        out[i] = PlayerInput(held[i]);
    }
    out
}

/// Kiting bot: aims at the nearest enemy, backs away when close, revives downed teammates.
fn kiting_inputs(s: &State, players: usize) -> [PlayerInput; MAX_PLAYERS] {
    let mut out = [PlayerInput::default(); MAX_PLAYERS];
    let frame = s.header.frame;
    for (i, slot) in out.iter_mut().enumerate().take(players) {
        let (px, py) = (s.players.x[i], s.players.y[i]);
        let mut bits = PlayerInput::PRESENT | PlayerInput::FIRE;
        if let Some(d) = (0..MAX_PLAYERS).find(|&d| d != i && s.life(d) == Life::Downed) {
            bits |= u16::from(dir_from_delta(s.players.x[d] - px, s.players.y[d] - py));
            *slot = PlayerInput(bits);
            continue;
        }
        let nearest = (0..MAX_ENEMIES)
            .filter(|&e| s.enemies.alive[e] != 0)
            .min_by_key(|&e| (Fixed::len_sq(s.enemies.x[e] - px, s.enemies.y[e] - py), e));
        if let Some(e) = nearest {
            let (dx, dy) = (s.enemies.x[e] - px, s.enemies.y[e] - py);
            let toward = u16::from(dir_from_delta(dx, dy));
            let close = Fixed::len_sq(dx, dy) < Fixed::from_int(4).sq();
            if frame % 4 == 0 || !close {
                bits |= toward;
            } else {
                let away = (toward + 3) % 8 + 1;
                bits |= away | PlayerInput::STRAFE;
            }
            if frame % 240 == 0 {
                bits |= PlayerInput::WEAPON_NEXT;
            }
        }
        *slot = PlayerInput(bits);
    }
    out
}

fn run(players: u8, seed: u32, frames: u32) -> (Vec<u64>, Box<State>) {
    let mut world = World::new(0);
    let mut state = world.initial_state(players, seed, 0);
    let mut rng = Rng::from_seed(seed ^ 0xABCD);
    let mut held = [0u16; MAX_PLAYERS];
    let mut sums = Vec::with_capacity(frames as usize);
    for _ in 0..frames {
        let inputs = random_inputs(&mut rng, &mut held, usize::from(players));
        world.step(&mut state, &inputs);
        sums.push(state.checksum());
    }
    (sums, state)
}

#[test]
fn when_same_seed_and_inputs_then_identical_checksums_every_frame() {
    let (a, _) = run(4, 1234, 6_000);
    let (b, _) = run(4, 1234, 6_000);
    assert_eq!(a, b);
}

#[test]
fn when_different_seed_then_states_diverge() {
    let (a, _) = run(2, 1, 1_000);
    let (b, _) = run(2, 2, 1_000);
    assert_ne!(a.last(), b.last());
}

#[test]
fn when_restoring_snapshot_then_replay_matches() {
    let seed = 99;
    let mut world = World::new(0);
    let mut state = world.initial_state(3, seed, 0);
    let mut rng = Rng::from_seed(7);
    let mut held = [0u16; MAX_PLAYERS];
    let mut log = Vec::new();
    for _ in 0..1_500 {
        let inputs = random_inputs(&mut rng, &mut held, 3);
        log.push(inputs);
        world.step(&mut state, &inputs);
    }
    let snapshot: State = *state;
    let mut forward = Vec::new();
    for _ in 0..600 {
        let inputs = random_inputs(&mut rng, &mut held, 3);
        log.push(inputs);
        world.step(&mut state, &inputs);
        forward.push(state.checksum());
    }
    // "rollback": a fresh World (fresh scratch buffers) replays from the snapshot
    let mut world2 = World::new(0);
    let mut restored = Box::new(snapshot);
    let replayed: Vec<u64> = log[1_500..]
        .iter()
        .map(|inputs| {
            world2.step(&mut restored, inputs);
            restored.checksum()
        })
        .collect();
    assert_eq!(forward, replayed);
}

#[test]
fn when_kiting_bots_play_then_game_progresses() {
    let mut world = World::new(0);
    let mut state = world.initial_state(2, 42, 0);
    for _ in 0..60 * 60 * 3 {
        let inputs = kiting_inputs(&state, 2);
        world.step(&mut state, &inputs);
    }
    let kills: u32 = state.players.kills.iter().sum();
    assert!(
        state.wave.number >= 3,
        "wave {} kills {kills} phase {}",
        state.wave.number,
        state.wave.phase
    );
    assert!(kills > 20, "kills {kills}");
    assert!(
        state.wave.unlocked & 0b10 != 0,
        "smg unlocked at score {}",
        state.wave.team_score
    );
}

#[test]
fn when_player_absent_long_enough_then_gone() {
    let mut world = World::new(0);
    let mut state = world.initial_state(2, 5, 0);
    let present = PlayerInput(PlayerInput::PRESENT);
    for _ in 0..200 {
        world.step(
            &mut state,
            &[
                present,
                PlayerInput::default(),
                PlayerInput::default(),
                PlayerInput::default(),
            ],
        );
    }
    assert_eq!(state.life(0), Life::Alive);
    assert_eq!(state.life(1), Life::Gone);
}

#[test]
fn when_solo_player_idles_then_game_over_eventually() {
    let mut world = World::new(0);
    let mut state = world.initial_state(1, 3, 0);
    let idle = [
        PlayerInput(PlayerInput::PRESENT),
        PlayerInput::default(),
        PlayerInput::default(),
        PlayerInput::default(),
    ];
    for _ in 0..60 * 60 * 3 {
        world.step(&mut state, &idle);
        if state.phase() == WavePhase::GameOver {
            break;
        }
    }
    assert_eq!(state.phase(), WavePhase::GameOver);
}

#[test]
fn when_rolling_back_every_frame_then_checksums_match() {
    // Every frame the last `check_distance` frames are rolled back and re-simulated from the
    // saved state with the same inputs; each re-simulated checksum must match the first one.
    let players = 3usize;
    let check_distance = 7usize;
    let mut world = World::new(0);
    let mut state = world.initial_state(players as u8, 555, 0);
    let mut rng = Rng::from_seed(9);
    let mut held = [0u16; MAX_PLAYERS];
    let mut saved: Vec<State> = Vec::new();
    let mut log: Vec<[PlayerInput; MAX_PLAYERS]> = Vec::new();
    let mut sums: Vec<u64> = Vec::new();

    for _ in 0..1_200 {
        for bits in held.iter_mut().take(players) {
            if rng.below(12) == 0 {
                *bits = rng.below(9) as u16 | PlayerInput::FIRE | PlayerInput::PRESENT;
            }
        }
        let mut f = [PlayerInput::default(); MAX_PLAYERS];
        for (slot, bits) in f.iter_mut().zip(held.iter()) {
            *slot = PlayerInput::from(NetInput(*bits));
        }
        saved.push(*state);
        log.push(f);
        world.step(&mut state, &f);
        sums.push(state.checksum());

        let n = saved.len();
        let from = n.saturating_sub(check_distance);
        let mut again = Box::new(saved[from]);
        let mut other = World::new(0);
        for k in from..n {
            other.step(&mut again, &log[k]);
            assert_eq!(again.checksum(), sums[k], "frame {k} re-simulated differently");
        }
    }
    assert!(state.header.frame >= 1_200);
}
