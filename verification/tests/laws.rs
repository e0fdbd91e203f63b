use hordegrid::check::check_state;
use hordegrid::config::{EVENT_RING, MAP_W, MAX_PLAYERS, TILES};
use hordegrid::fx::Fixed;
use hordegrid::physics::move_box;
use hordegrid::input::{dir_from_delta, PlayerInput};
use hordegrid::rng::Rng;
use hordegrid::state::{Event, State, WavePhase, PHASE_GAME_OVER};
use hordegrid::flow::{rebuild, FlowScratch};
use hordegrid::step::{World, FLOW_INTERVAL};

fn sanitized(inputs: &[PlayerInput; MAX_PLAYERS]) -> [PlayerInput; MAX_PLAYERS] {
    let mut out = *inputs;
    for p in out.iter_mut() {
        *p = p.sanitized();
    }
    out
}

#[test]
fn raw_and_sanitized_inputs_step_alike() {
    let mut w = World::new(0);
    let mut a = w.initial_state(4, 21, 0);
    let mut b = a.clone();
    let mut rng = Rng::from_seed(5);
    for _ in 0..500 {
        let mut inputs = [PlayerInput(0); MAX_PLAYERS];
        for p in inputs.iter_mut() {
            *p = PlayerInput((rng.next_u32() & 0xFFFF) as u16 | PlayerInput::PRESENT);
        }
        w.step(&mut a, &inputs);
        w.step(&mut b, &sanitized(&inputs));
        assert_eq!(a.checksum(), b.checksum());
    }
}

#[test]
fn the_invariant_holds_along_a_game() {
    let mut w = World::new(0);
    let mut s = w.initial_state(3, 8, 0);
    let mut rng = Rng::from_seed(17);
    assert!(check_state(&s, &w.map));
    for _ in 0..3_000 {
        let mut inputs = [PlayerInput(0); MAX_PLAYERS];
        for p in inputs.iter_mut().take(3) {
            *p = PlayerInput(rng.below(9) as u16 | PlayerInput::FIRE | PlayerInput::PRESENT);
        }
        w.step(&mut s, &inputs);
        assert!(check_state(&s, &w.map));
    }
}

#[test]
fn a_finished_game_only_counts_frames() {
    let mut w = World::new(0);
    let mut s: State = *w.initial_state(2, 3, 0);
    s.wave.phase = PHASE_GAME_OVER;
    let before = s;
    w.step(&mut s, &[PlayerInput(3 | PlayerInput::FIRE | PlayerInput::PRESENT); MAX_PLAYERS]);
    assert_eq!(s.phase(), WavePhase::GameOver);
    assert_eq!(s.header.frame, before.header.frame + 1);
    s.header.frame = before.header.frame;
    assert_eq!(s.as_bytes(), before.as_bytes());
}

#[test]
fn the_frame_counter_wraps() {
    let mut w = World::new(0);
    let mut s = w.initial_state(1, 3, 0);
    s.header.frame = u32::MAX;
    w.step(&mut s, &[PlayerInput(PlayerInput::PRESENT); MAX_PLAYERS]);
    assert_eq!(s.header.frame, 0);
}

#[test]
fn a_state_inside_a_wall_is_refused() {
    let w = World::new(0);
    let mut s = *w.initial_state(1, 3, 0);
    s.players.x[0] = hordegrid::fx::Fixed(0);
    assert!(!check_state(&s, &w.map));
}

#[test]
fn following_the_flow_field_reaches_a_player() {
    let w = World::new(0);
    let s = w.initial_state(3, 12, 0);
    let offs: [(i32, i32); 8] = [(0, -1), (1, -1), (1, 0), (1, 1), (0, 1), (-1, 1), (-1, 0), (-1, -1)];
    let player_tiles: Vec<usize> = (0..3)
        .map(|i| {
            s.players.y[i].floor_int() as usize * MAP_W + s.players.x[i].floor_int() as usize
        })
        .collect();
    let mut followed = 0;
    for t in 0..TILES {
        if s.flow.dir[t] == 0 {
            continue;
        }
        followed += 1;
        let mut cur = t;
        let mut steps = 0;
        while s.flow.dir[cur] != 0 {
            let (ox, oy) = offs[usize::from(s.flow.dir[cur]) - 1];
            let x = (cur % MAP_W) as i32 + ox;
            let y = (cur / MAP_W) as i32 + oy;
            assert!(!w.map.solid(x, y));
            cur = y as usize * MAP_W + x as usize;
            steps += 1;
            assert!(steps <= TILES);
        }
        assert!(player_tiles.contains(&cur), "tile {t} leads to {cur}");
    }
    assert!(followed > 100);
}

#[test]
fn crossing_a_tile_rebuilds_the_flow_field_at_once() {
    let mut crossed_once = false;
    for d in 1..=8u16 {
        let world = World::new(0);
        let mut s = world.initial_state(1, 3, 0);
        let mut w = World::new(0);
        let walk = [
            PlayerInput(PlayerInput::PRESENT | d),
            PlayerInput::default(),
            PlayerInput::default(),
            PlayerInput::default(),
        ];
        // Frames 1..=7 are no multiple of the rebuild interval.
        for _ in 0..7 {
            let tile = (s.players.x[0].floor_int(), s.players.y[0].floor_int());
            let before = s.flow.dir;
            w.step(&mut s, &walk);
            assert_ne!(s.header.frame % FLOW_INTERVAL, 0);
            let mut fresh = *s;
            rebuild(&mut fresh, world.map(), &mut FlowScratch::new());
            if (s.players.x[0].floor_int(), s.players.y[0].floor_int()) != tile {
                crossed_once = true;
                assert_eq!(s.flow.dir, fresh.flow.dir, "rebuilt on the crossing frame");
                assert_ne!(s.flow.dir, before, "the field follows the player");
            } else {
                assert_eq!(s.flow.dir, before, "kept while the player stays on its tile");
            }
        }
    }
    assert!(crossed_once, "some direction crosses a tile within seven frames");
}

#[test]
fn the_event_ring_keeps_the_newest_sixty_four() {
    let mut s = State::blank(Rng::from_seed(1));
    s.events.head = 70; // any starting head
    for k in 0..100u8 {
        let ev = Event { frame: u32::from(k), kind: 1, a: k, b: 0, reserved: 0, x: Fixed(0), y: Fixed(0) };
        s.events.push(ev);
    }
    assert_eq!(s.events.total, 100);
    assert_eq!(s.events.head, (70 % 64 + 100) % 64);
    for j in 0..EVENT_RING {
        let slot = (s.events.head as usize + j) % EVENT_RING;
        assert_eq!(s.events.items[slot].a as usize, 100 - EVENT_RING + j);
    }
}

#[test]
fn quantized_direction_ignores_the_length() {
    for (dx, dy) in [(3, 0), (-5, 0), (0, -2), (0, 9), (7, 3), (-4, 11), (1, -1), (-6, -13)] {
        let d = dir_from_delta(Fixed(dx), Fixed(dy));
        assert!((1..=8).contains(&d));
        for k in [2, 17, 1000] {
            assert_eq!(dir_from_delta(Fixed(dx * k), Fixed(dy * k)), d);
        }
    }
    assert_eq!(dir_from_delta(Fixed(0), Fixed(0)), 0);
    assert_eq!(dir_from_delta(Fixed(5), Fixed(0)), 3);
    assert_eq!(dir_from_delta(Fixed(0), Fixed(-5)), 1);
}

#[test]
fn a_moved_box_stays_between_start_and_target() {
    let world = World::new(0);
    let s = world.initial_state(1, 1, 0);
    let (x, y) = (s.players.x[0], s.players.y[0]);
    for r in [Fixed(20000), Fixed(40000)] {
        for (dx, dy) in [(30000, 0), (-30000, 0), (0, 30000), (0, -30000), (20000, -20000)] {
            let (nx, ny) = move_box(world.map(), x, y, Fixed(dx), Fixed(dy), r);
            assert!(x.0.min(x.0 + dx) <= nx.0 && nx.0 <= x.0.max(x.0 + dx));
            assert!(y.0.min(y.0 + dy) <= ny.0 && ny.0 <= y.0.max(y.0 + dy));
        }
    }
}
