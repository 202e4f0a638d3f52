//! A verified rules engine and match coordinator for the tafl family of
//! board games (Brandubh, Tablut, Hnefatafl).
//!
//! The library covers the board model, the click-driven interaction state
//! machine, capture and win adjudication, HTML board rendering, the
//! per-match coordinator with its online dual-view projection, and the
//! process-wide registry of matches and players.

pub mod cells;
pub mod setup;
pub mod rules;
pub mod hnefatafl;
pub mod render;
pub mod coordinator;
pub mod registry;
pub mod session;
