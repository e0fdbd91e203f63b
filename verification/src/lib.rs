//! hordegrid: deterministic co-op survival simulation with rollback netcode glue.

pub mod config;
pub mod fx;
pub mod rng;
pub mod input;
pub mod map;
pub mod physics;
pub mod state;
pub mod grid;
pub mod flow;
pub mod inv;
pub mod players;
pub mod enemies;
pub mod shots;
pub mod waves;
pub mod hide_seek;
pub mod step;
pub mod bytes;
pub mod endian;
pub mod view;
pub mod net;
pub mod check;
pub mod web;
