//! Header field indices of the render view.

use vstd::prelude::*;

verus! {

/// Frame.
pub const FRAME: usize = 0;
/// Player records (always `MAX_PLAYERS`).
pub const N_PLAYERS: usize = 1;
/// Enemy records.
pub const N_ENEMIES: usize = 2;
/// Shot records.
pub const N_SHOTS: usize = 3;
/// Wave number (survival only).
pub const WAVE: usize = 4;
/// Phase: survival `WavePhase`, or hide & seek `HideSeekPhase` when `MODE == 1`.
pub const PHASE: usize = 5;
/// Timer for whichever phase `PHASE` names.
pub const TIMER: usize = 6;
/// Team score (survival only).
pub const SCORE: usize = 7;
/// Combo (survival only).
pub const COMBO: usize = 8;
/// Combo timer (survival only).
pub const COMBO_TIMER: usize = 9;
/// Unlocked weapon mask (survival only).
pub const UNLOCKED: usize = 10;
/// Local player handle (-1 spectator).
pub const LOCAL: usize = 11;
/// Session player count.
pub const NUM_PLAYERS: usize = 12;
/// Best combo (survival only).
pub const BEST_COMBO: usize = 13;
/// Enemies left to spawn (survival only).
pub const TO_SPAWN: usize = 14;
/// Session mode: 0 survival, 1 hide & seek.
pub const MODE: usize = 15;
/// Hide & seek winner: 0 undecided, 1 hiders, 2 seeker. Always 0 in survival.
pub const HS_WINNER: usize = 16;

} // verus!
