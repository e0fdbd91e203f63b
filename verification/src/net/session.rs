//! Session runners and their decisions. The networked runner itself drives an outside
//! rollback session; what it decides from that session's answers stands here as functions
//! from plain values to plain values.

use crate::config::{MAX_PLAYERS, TILES};
use crate::input::{sanitized_bits, PlayerInput};
use crate::inv::{state_ok, MAX_WAVE};
use crate::map::{parse_upto, yard_rows, MapData};
use crate::net::input::NetInput;
use crate::state::State;
use crate::step::{initial_spec, step_spec, World};
use core::time::Duration;
use vstd::prelude::*;

verus! {

broadcast use vstd::array::group_array_axioms;

/// Calls `core::time::Duration::from_secs`. Nothing is claimed of the duration.
pub assume_specification[ core::time::Duration::from_secs ](secs: u64) -> Duration;

/// Tunables of a networked session.
#[derive(Clone, Copy, Debug)]
pub struct NetSettings {
    /// Frames of input delay.
    pub input_delay: usize,
    /// Max frames predicted ahead.
    pub max_prediction: usize,
    /// Checksum exchange interval (frames).
    pub desync_interval: u32,
    /// Disconnect after this silence.
    pub disconnect_timeout: Duration,
    /// Emit interruption after this silence.
    pub disconnect_notify: Duration,
}

impl Default for NetSettings {
    /// Two frames of input delay, eight of prediction, checksums every 30 frames; disconnect
    /// after 3 s of silence, notify after 1 s.
    fn default() -> (r: NetSettings)
        ensures
            r.input_delay == 2,
            r.max_prediction == 8,
            r.desync_interval == 30,
    {
        NetSettings {
            input_delay: 2,
            max_prediction: 8,
            desync_interval: 30,
            disconnect_timeout: Duration::from_secs(3),
            disconnect_notify: Duration::from_secs(1),
        }
    }
}

/// Outcome of one `tick`.
#[derive(Clone, Copy, Debug, PartialEq, Eq, Structural)]
pub enum TickStatus {
    /// Simulation advanced.
    Advanced,
    /// Still synchronizing with peers.
    Waiting,
    /// Skipped to let slower peers catch up.
    Skipped,
}

/// The wire code of a tick status (the order of the variants).
pub open spec fn tick_code(t: TickStatus) -> u8 {
    match t {
        TickStatus::Advanced => 0,
        TickStatus::Waiting => 1,
        TickStatus::Skipped => 2,
    }
}

impl TickStatus {
    /// The wire code: 0 advanced, 1 waiting, 2 skipped.
    pub fn code(self) -> (r: u8)
        ensures
            r == tick_code(self),
    {
        match self {
            TickStatus::Advanced => 0,
            TickStatus::Waiting => 1,
            TickStatus::Skipped => 2,
        }
    }
}

/// Session notifications surfaced to the UI. `slot` is the remote player handle.
#[derive(Clone, Copy, Debug, PartialEq, Eq, Structural)]
pub enum NetEvent {
    /// Handshake progress with a peer.
    Synchronizing { slot: u8, count: u32, total: u32 },
    /// Peer synchronized.
    Synchronized { slot: u8 },
    /// Connection shaky.
    Interrupted { slot: u8 },
    /// Connection recovered.
    Resumed { slot: u8 },
    /// Peer dropped for good.
    Disconnected { slot: u8 },
    /// Checksums diverged at `frame`.
    Desync { frame: i32 },
}

/// What the rollback session reports, as plain values.
#[derive(Clone, Copy, Debug, PartialEq, Eq, Structural)]
pub enum SessionSignal {
    /// Handshake progress with a peer.
    Synchronizing { slot: u8, count: u32, total: u32 },
    /// Peer synchronized.
    Synchronized { slot: u8 },
    /// Connection shaky.
    Interrupted { slot: u8 },
    /// Connection recovered.
    Resumed { slot: u8 },
    /// Peer dropped for good.
    Disconnected { slot: u8 },
    /// Checksums diverged at `frame`.
    Desync { frame: i32 },
    /// The session recommends skipping frames so slower peers catch up.
    Wait { skip_frames: u32 },
}

/// Construction errors.
#[derive(Debug)]
pub enum SessionError {
    /// Invalid player setup.
    Setup(String),
}

/// Whether a networked session can be set up: 2 to `MAX_PLAYERS` players, and a local
/// handle among them.
pub fn setup_ok(num_players: u8, local_handle: u8) -> (r: bool)
    ensures
        r == (2 <= num_players <= MAX_PLAYERS && local_handle < num_players),
{
    num_players >= 2 && num_players as usize <= MAX_PLAYERS && local_handle < num_players
}

/// A session signal becomes a UI notification, or adds to the frames to skip.
pub open spec fn signal_spec(sig: SessionSignal, skip_frames: u32) -> (Option<NetEvent>, u32) {
    match sig {
        SessionSignal::Synchronizing { slot, count, total } => (
            Some(NetEvent::Synchronizing { slot, count, total }),
            skip_frames,
        ),
        SessionSignal::Synchronized { slot } => (Some(NetEvent::Synchronized { slot }), skip_frames),
        SessionSignal::Interrupted { slot } => (Some(NetEvent::Interrupted { slot }), skip_frames),
        SessionSignal::Resumed { slot } => (Some(NetEvent::Resumed { slot }), skip_frames),
        SessionSignal::Disconnected { slot } => (Some(NetEvent::Disconnected { slot }), skip_frames),
        SessionSignal::Desync { frame } => (Some(NetEvent::Desync { frame }), skip_frames),
        SessionSignal::Wait { skip_frames: k } => (None, skip_frames.saturating_add(k)),
    }
}

/// Map one session signal: a notification for the UI, or more frames to skip (saturating).
pub fn map_signal(sig: SessionSignal, skip_frames: u32) -> (r: (Option<NetEvent>, u32))
    ensures
        r == signal_spec(sig, skip_frames),
{
    match sig {
        SessionSignal::Synchronizing { slot, count, total } => (
            Some(NetEvent::Synchronizing { slot, count, total }),
            skip_frames,
        ),
        SessionSignal::Synchronized { slot } => (Some(NetEvent::Synchronized { slot }), skip_frames),
        SessionSignal::Interrupted { slot } => (Some(NetEvent::Interrupted { slot }), skip_frames),
        SessionSignal::Resumed { slot } => (Some(NetEvent::Resumed { slot }), skip_frames),
        SessionSignal::Disconnected { slot } => (Some(NetEvent::Disconnected { slot }), skip_frames),
        SessionSignal::Desync { frame } => (Some(NetEvent::Desync { frame }), skip_frames),
        SessionSignal::Wait { skip_frames: k } => (None, skip_frames.saturating_add(k)),
    }
}

/// Before advancing: a session that is not running waits; pending skips are spent one per
/// tick; otherwise the tick goes ahead (`None`). Returns the skips left.
pub fn tick_gate(running: bool, skip_frames: u32) -> (r: (Option<TickStatus>, u32))
    ensures
        !running ==> r == (Some(TickStatus::Waiting), skip_frames),
        running && skip_frames > 0 ==> r == (Some(TickStatus::Skipped), (skip_frames - 1) as u32),
        running && skip_frames == 0 ==> r == (None::<TickStatus>, 0u32),
{
    if !running {
        return (Some(TickStatus::Waiting), skip_frames);
    }
    if skip_frames > 0 {
        return (Some(TickStatus::Skipped), skip_frames - 1);
    }
    (None, skip_frames)
}

/// The local input as sent to peers: always marked present.
pub fn local_net_input(local: PlayerInput) -> (r: NetInput)
    ensures
        r.0 == local.0 | PlayerInput::PRESENT,
{
    NetInput(local.0 | PlayerInput::PRESENT)
}

/// The status after asking the session to advance: advanced on success, skipped when the
/// prediction window is full, waiting on any other refusal.
pub fn advance_status(advanced: bool, prediction_full: bool) -> (r: TickStatus)
    ensures
        advanced ==> r == TickStatus::Advanced,
        !advanced && prediction_full ==> r == TickStatus::Skipped,
        !advanced && !prediction_full ==> r == TickStatus::Waiting,
{
    if advanced {
        TickStatus::Advanced
    } else if prediction_full {
        TickStatus::Skipped
    } else {
        TickStatus::Waiting
    }
}

/// The frame's inputs from the session's `(input, disconnected)` pairs: a disconnected
/// player's input is empty, a connected one's is sanitized; slots without a pair are empty.
pub open spec fn frame_input_spec(inputs: Seq<(NetInput, bool)>, i: int) -> PlayerInput {
    if i < inputs.len() && !inputs[i].1 {
        PlayerInput(sanitized_bits(inputs[i].0.0))
    } else {
        PlayerInput(0)
    }
}

/// The frame's inputs for every player slot (see [`frame_input_spec`]).
pub fn frame_inputs(inputs: &[(NetInput, bool)]) -> (r: [PlayerInput; MAX_PLAYERS])
    ensures
        forall|i: int| 0 <= i < MAX_PLAYERS ==> #[trigger] r[i] == frame_input_spec(inputs@, i),
{
    let mut r = [PlayerInput(0); MAX_PLAYERS];
    let mut i: usize = 0;
    while i < MAX_PLAYERS && i < inputs.len()
        invariant
            i <= MAX_PLAYERS,
            forall|k: int| 0 <= k < i ==> #[trigger] r[k] == frame_input_spec(inputs@, k),
            forall|k: int| i <= k < MAX_PLAYERS ==> #[trigger] r[k] == PlayerInput(0),
        decreases MAX_PLAYERS - i,
    {
        let (input, disconnected) = inputs[i];
        if !disconnected {
            r[i] = PlayerInput::from(input);
        }
        i = i + 1;
    }
    r
}

// ---------------------------------------------------------------- simulation host
/// Simulation host shared by both runners: owns the world and the state.
pub struct SimHost {
    world: World,
    state: Box<State>,
}

/// A host is modelled by its map and its current state.
impl View for SimHost {
    type V = (MapData, State);

    closed spec fn view(&self) -> (MapData, State) {
        (self.world@, *self.state)
    }
}

impl SimHost {
    /// The host's invariant: a well-formed map and a well-formed state on it.
    pub closed spec fn wf(&self) -> bool {
        self.world@.wf() && state_ok(*self.state, self.world@)
    }

    /// A host for a fresh game on map `map_id`.
    pub fn new(num_players: u8, seed: u32, map_id: u8, mode: u8) -> (r: SimHost)
        ensures
            r.wf(),
            r@.0 == parse_upto(yard_rows(), TILES as nat),
            r@.1 == initial_spec(r@.0, num_players, seed, mode),
    {
        let world = World::new(map_id);
        let state = world.initial_state(num_players, seed, mode);
        SimHost { world, state }
    }

    /// Whether the wave counter has room for another step.
    pub fn can_step(&self) -> (r: bool)
        ensures
            r == (self@.1.wave.number + 1 < MAX_WAVE),
    {
        self.state.wave.number < MAX_WAVE - 1
    }

    /// Advance one frame.
    pub fn step(&mut self, inputs: &[PlayerInput; MAX_PLAYERS])
        requires
            old(self).wf(),
            old(self)@.1.wave.number + 1 < MAX_WAVE,
        ensures
            final(self).wf(),
            final(self)@.0 == old(self)@.0,
            final(self)@.1 == step_spec(old(self)@.1, old(self)@.0, *inputs),
    {
        self.world.step(&mut self.state, inputs);
    }

    /// Replace the state with a saved one (a rollback). Saved states are states this host
    /// produced, so they are well-formed on its map.
    pub fn load(&mut self, s: State)
        requires
            old(self).wf(),
            state_ok(s, old(self)@.0),
        ensures
            final(self).wf(),
            final(self)@ == (old(self)@.0, s),
    {
        *self.state = s;
    }

    /// Current state.
    pub fn state(&self) -> (r: &State)
        ensures
            *r == self@.1,
    {
        &self.state
    }

    /// World (map) in use.
    pub fn world(&self) -> (r: &World)
        ensures
            r@ == self@.0,
    {
        &self.world
    }
}

/// Single-player runner: no rollback session, same simulation.
pub struct LocalRunner {
    host: SimHost,
}

/// A solo runner is modelled by its host.
impl View for LocalRunner {
    type V = (MapData, State);

    closed spec fn view(&self) -> (MapData, State) {
        self.host@
    }
}

impl LocalRunner {
    /// The runner's invariant (its host's).
    pub closed spec fn wf(&self) -> bool {
        self.host.wf()
    }

    /// New solo game.
    pub fn new(seed: u32, map_id: u8, mode: u8) -> (r: LocalRunner)
        ensures
            r.wf(),
            r@.0 == parse_upto(yard_rows(), TILES as nat),
            r@.1 == initial_spec(r@.0, 1, seed, mode),
    {
        LocalRunner { host: SimHost::new(1, seed, map_id, mode) }
    }

    /// Whether the wave counter has room for another tick.
    pub fn can_tick(&self) -> (r: bool)
        ensures
            r == (self@.1.wave.number + 1 < MAX_WAVE),
    {
        self.host.can_step()
    }

    /// Step one frame: player 0 plays the local input (marked present), the other slots are
    /// empty.
    pub fn tick(&mut self, local: PlayerInput) -> (r: TickStatus)
        requires
            old(self).wf(),
            old(self)@.1.wave.number + 1 < MAX_WAVE,
        ensures
            final(self).wf(),
            r == TickStatus::Advanced,
            final(self)@.0 == old(self)@.0,
            final(self)@.1 == step_spec(
                old(self)@.1,
                old(self)@.0,
                [PlayerInput(local.0 | PlayerInput::PRESENT), PlayerInput(0), PlayerInput(0), PlayerInput(0)],
            ),
    {
        let mut inputs = [PlayerInput(0); MAX_PLAYERS];
        inputs[0] = PlayerInput(local.0 | PlayerInput::PRESENT);
        proof {
            assert(inputs =~= [PlayerInput(local.0 | PlayerInput::PRESENT), PlayerInput(0), PlayerInput(0), PlayerInput(0)]);
        }
        self.host.step(&inputs);
        TickStatus::Advanced
    }

    /// Current state.
    pub fn state(&self) -> (r: &State)
        ensures
            *r == self@.1,
    {
        self.host.state()
    }

    /// World (map).
    pub fn world(&self) -> (r: &World)
        ensures
            r@ == self@.0,
    {
        self.host.world()
    }
}

} // verus!
