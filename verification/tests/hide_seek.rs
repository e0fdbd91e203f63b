use hordegrid::config::MAX_PLAYERS;
use hordegrid::fx::Fixed;
use hordegrid::hide_seek::{PREP_FRAMES, ROUND_FRAMES, SPOT_FRAMES};
use hordegrid::input::PlayerInput;
use hordegrid::rng::Rng;
use hordegrid::state::{EventKind, State, HS_HIDING, HS_ROUND_OVER, HS_SEEKING};
use hordegrid::step::World;

fn stepped(
    mode: u8,
    n: u8,
    frames: u32,
    inputs: impl Fn(u32) -> [PlayerInput; MAX_PLAYERS],
) -> Box<State> {
    let world = World::new(0);
    let mut s = world.initial_state(n, 1, mode);
    let mut w = World::new(0);
    for f in 0..frames {
        w.step(&mut s, &inputs(f));
    }
    s
}

#[test]
fn when_seeker_never_sees_hider_then_hiders_win_at_timeout() {
    // Nobody moves; players start far apart on the yard map. Round should time out.
    let s = stepped(1, 2, PREP_FRAMES + ROUND_FRAMES, |_| {
        [PlayerInput::default(); MAX_PLAYERS]
    });
    assert_eq!(s.hide_seek.phase, HS_ROUND_OVER);
    assert_eq!(s.hide_seek.winner, 1, "hiders should win by timeout");
}

#[test]
fn when_seeker_faces_and_holds_sight_on_adjacent_hider_then_found() {
    let mut s = {
        let world = World::new(0);
        world.initial_state(2, 1, 1)
    };
    // Place hider directly south of the seeker, well within range, no wall between.
    s.players.x[1] = s.players.x[0];
    s.players.y[1] = s.players.y[0] + Fixed::from_int(2);
    s.players.facing[0] = 5; // south

    let mut w = World::new(0);
    // Run past the prep phase first (seeker frozen/blind during Hiding).
    for _ in 0..PREP_FRAMES {
        w.step(&mut s, &[PlayerInput::default(); MAX_PLAYERS]);
    }
    assert_eq!(s.hide_seek.phase, HS_SEEKING);
    for _ in 0..u32::from(SPOT_FRAMES) {
        w.step(&mut s, &[PlayerInput::default(); MAX_PLAYERS]);
    }
    assert_eq!(
        s.hide_seek.found[1], 1,
        "hider in plain sight should be caught"
    );
    assert_eq!(
        s.hide_seek.winner, 2,
        "seeker should win once everyone is found"
    );
}

#[test]
fn when_wall_blocks_line_of_sight_then_never_found() {
    let mut s = {
        let world = World::new(0);
        world.initial_state(2, 1, 1)
    };
    // Row y=4 of the yard map is "#...#....": a wall column sits at tile x=4, with open
    // floor on both sides. Put the seeker left of it, the hider on the far side.
    s.players.x[0] = Fixed::from_int(2) + Fixed::half();
    s.players.y[0] = Fixed::from_int(4) + Fixed::half();
    s.players.x[1] = Fixed::from_int(6) + Fixed::half();
    s.players.y[1] = Fixed::from_int(4) + Fixed::half();
    s.players.facing[0] = 3; // east

    let mut w = World::new(0);
    for _ in 0..PREP_FRAMES {
        w.step(&mut s, &[PlayerInput::default(); MAX_PLAYERS]);
    }
    for _ in 0..u32::from(SPOT_FRAMES) * 2 {
        w.step(&mut s, &[PlayerInput::default(); MAX_PLAYERS]);
    }
    assert_eq!(
        s.hide_seek.found[1], 0,
        "wall should block the seeker's sight"
    );
}

#[test]
fn when_same_seed_and_inputs_then_checksums_match_every_frame() {
    fn run(seed: u32, frames: u32) -> Vec<u64> {
        let world = World::new(0);
        let mut s = world.initial_state(2, seed, 1);
        let mut w = World::new(0);
        let mut rng = Rng::from_seed(seed ^ 0xBEEF);
        let mut sums = Vec::with_capacity(frames as usize);
        for _ in 0..frames {
            let mut inputs = [PlayerInput::default(); MAX_PLAYERS];
            for p in inputs.iter_mut().take(2) {
                let bits = (rng.next_u32() % 9) as u16;
                *p = PlayerInput(bits | PlayerInput::PRESENT);
            }
            w.step(&mut s, &inputs);
            sums.push(s.checksum());
        }
        sums
    }
    let a = run(42, PREP_FRAMES + ROUND_FRAMES);
    let b = run(42, PREP_FRAMES + ROUND_FRAMES);
    assert_eq!(a, b);
}

#[test]
fn fresh_round_has_player_zero_seeking() {
    let world = World::new(0);
    let s = world.initial_state(3, 8, 1);
    assert_eq!(s.hide_seek.role, [1, 0, 0, 0]);
    assert_eq!(s.hide_seek.phase, HS_HIDING);
    assert_eq!(s.hide_seek.timer, PREP_FRAMES);
    assert_eq!(s.header.num_players, 3);
}

#[test]
fn seeker_does_not_move_during_prep() {
    let world = World::new(0);
    let mut s = world.initial_state(2, 8, 1);
    let (x0, y0) = (s.players.x[0], s.players.y[0]);
    let (x1, y1) = (s.players.x[1], s.players.y[1]);
    let mut w = World::new(0);
    let east = PlayerInput(3 | PlayerInput::PRESENT);
    for _ in 0..10 {
        w.step(&mut s, &[east, east, PlayerInput(0), PlayerInput(0)]);
    }
    assert_eq!((s.players.x[0], s.players.y[0]), (x0, y0));
    assert_ne!((s.players.x[1], s.players.y[1]), (x1, y1));
    assert_eq!(s.players.facing[1], 3);
}

#[test]
fn catching_a_hider_emits_found_then_round_end() {
    let mut s = {
        let world = World::new(0);
        world.initial_state(2, 1, 1)
    };
    s.players.x[1] = s.players.x[0];
    s.players.y[1] = s.players.y[0] + Fixed::from_int(2);
    s.players.facing[0] = 5;
    let mut w = World::new(0);
    for _ in 0..PREP_FRAMES + u32::from(SPOT_FRAMES) {
        w.step(&mut s, &[PlayerInput::default(); MAX_PLAYERS]);
    }
    let last = s.events.items[((s.events.head + 63) % 64) as usize];
    let before = s.events.items[((s.events.head + 62) % 64) as usize];
    assert_eq!(before.kind, EventKind::Found.code());
    assert_eq!(before.a, 1);
    assert_eq!(last.kind, EventKind::RoundEnd.code());
    assert_eq!(last.a, 2);
    // once decided, a frame changes nothing but the counter
    let mut t = *s;
    w.step(&mut t, &[PlayerInput(5 | PlayerInput::PRESENT); MAX_PLAYERS]);
    t.header.frame = s.header.frame;
    assert_eq!(t.as_bytes(), s.as_bytes());
}
