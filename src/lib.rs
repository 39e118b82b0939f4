//! A belief-tracking locker game: a store of uniquely owned items is
//! repeatedly deranged, participants remember snapshots of it, and a remote
//! predictor guesses where each participant believes its item is.

pub mod agent;
pub mod answer;
pub mod cli;
pub mod engine;
pub mod item;
pub mod locker;
pub mod protocol;
pub mod random;
pub mod session;
pub mod shelf;
pub mod shuffle;
pub mod text;
pub mod user;
