use hordegrid::check::check_state;
use hordegrid::config::MAX_PLAYERS;
use hordegrid::input::PlayerInput;
use hordegrid::net::input::NetInput;
use hordegrid::net::session::{
    advance_status, frame_inputs, local_net_input, map_signal, setup_ok, tick_gate, LocalRunner,
    NetEvent, NetSettings, SessionSignal, SimHost, TickStatus,
};
use hordegrid::step::World;

#[test]
fn setup_needs_two_to_four_players_and_a_local_handle_among_them() {
    assert!(setup_ok(2, 0));
    assert!(setup_ok(4, 3));
    assert!(!setup_ok(1, 0));
    assert!(!setup_ok(5, 0));
    assert!(!setup_ok(3, 3));
}

#[test]
fn tick_gate_waits_then_skips_then_proceeds() {
    assert_eq!(tick_gate(false, 4), (Some(TickStatus::Waiting), 4));
    assert_eq!(tick_gate(true, 2), (Some(TickStatus::Skipped), 1));
    assert_eq!(tick_gate(true, 0), (None, 0));
}

#[test]
fn advance_outcomes_map_to_statuses() {
    assert_eq!(advance_status(true, false), TickStatus::Advanced);
    assert_eq!(advance_status(false, true), TickStatus::Skipped);
    assert_eq!(advance_status(false, false), TickStatus::Waiting);
    assert_eq!(TickStatus::Advanced.code(), 0);
    assert_eq!(TickStatus::Waiting.code(), 1);
    assert_eq!(TickStatus::Skipped.code(), 2);
}

#[test]
fn signals_become_events_or_skips() {
    assert_eq!(
        map_signal(SessionSignal::Synchronizing { slot: 1, count: 2, total: 5 }, 0),
        (Some(NetEvent::Synchronizing { slot: 1, count: 2, total: 5 }), 0)
    );
    assert_eq!(
        map_signal(SessionSignal::Desync { frame: 77 }, 3),
        (Some(NetEvent::Desync { frame: 77 }), 3)
    );
    assert_eq!(map_signal(SessionSignal::Wait { skip_frames: 4 }, 3), (None, 7));
    assert_eq!(map_signal(SessionSignal::Wait { skip_frames: 4 }, u32::MAX), (None, u32::MAX));
}

#[test]
fn local_input_is_marked_present() {
    assert_eq!(local_net_input(PlayerInput(3)), NetInput(3 | PlayerInput::PRESENT));
}

#[test]
fn frame_inputs_sanitize_and_blank_disconnected_players() {
    let pairs = [(NetInput(0x7C03), false), (NetInput(5), true), (NetInput(0x000F), false)];
    let f = frame_inputs(&pairs);
    assert_eq!(f, [PlayerInput(3), PlayerInput(0), PlayerInput(0), PlayerInput(0)]);
    assert_eq!(PlayerInput::from(NetInput(0x8012)), PlayerInput(0x8012));
    let many = [(NetInput(1), false); MAX_PLAYERS + 2];
    assert_eq!(frame_inputs(&many), [PlayerInput(1); MAX_PLAYERS]);
}

#[test]
fn default_settings_match_the_design() {
    let s = NetSettings::default();
    assert_eq!(s.input_delay, 2);
    assert_eq!(s.max_prediction, 8);
    assert_eq!(s.desync_interval, 30);
    assert_eq!(s.disconnect_timeout, std::time::Duration::from_secs(3));
    assert_eq!(s.disconnect_notify, std::time::Duration::from_secs(1));
}

#[test]
fn local_runner_steps_the_same_simulation() {
    let mut r = LocalRunner::new(11, 0, 0);
    let mut w = World::new(0);
    let mut s = w.initial_state(1, 11, 0);
    for k in 0..120u16 {
        let bits = k % 9;
        assert!(r.can_tick());
        assert_eq!(r.tick(PlayerInput(bits)), TickStatus::Advanced);
        let inputs = [
            PlayerInput(bits | PlayerInput::PRESENT),
            PlayerInput(0),
            PlayerInput(0),
            PlayerInput(0),
        ];
        w.step(&mut s, &inputs);
    }
    assert_eq!(r.state().checksum(), s.checksum());
    assert_eq!(r.state().header.frame, 120);
    assert_eq!(r.world().map.spawn_count, w.map.spawn_count);
}

#[test]
fn host_loads_a_saved_state() {
    let mut host = SimHost::new(2, 4, 0, 0);
    let saved = *host.state();
    host.step(&[PlayerInput(PlayerInput::PRESENT); MAX_PLAYERS]);
    assert_eq!(host.state().header.frame, 1);
    assert!(check_state(&saved, host.world().map()));
    host.load(saved);
    assert_eq!(host.state().header.frame, 0);
    assert_eq!(host.state().checksum(), saved.checksum());
    let mut bad = saved;
    bad.flow.dir[0] = 9;
    assert!(!check_state(&bad, host.world().map()), "a broken state fails the check");
}
