//! Core engine of an 8x8 match-3 tile puzzle.
//!
//! The library owns the deterministic board simulation: match detection,
//! elimination and scoring, gravity-based collapse, random refill, legal-move
//! checking, the swap transaction, and the player-facing session state
//! machine.  Rendering, animation and input plumbing live outside and only
//! consume the state exposed here.

pub mod engine;
pub mod grid;
pub mod collapse;
pub mod matching;
pub mod refill;
pub mod session;
pub mod swap;

pub use engine::{BoardEngine, ReshuffleOutcome, SwapOutcome};
pub use grid::{Cell, Grid};
pub use refill::ColorSource;
pub use session::Session;
