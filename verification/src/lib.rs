//! Core logic of a daily word-guessing game: scoring a guess against a
//! secret word, aggregating per-letter keyboard feedback, and deriving
//! win/streak statistics from a persisted history of daily games.
//!
//! Rendering, storage, clocks and word selection live outside this crate;
//! everything here is pure computation over plain values.

pub mod board;
pub mod evaluate;
pub mod keyboard;
pub mod save;
pub mod session;
pub mod share;
pub mod text;

pub use board::CellValue;
pub use evaluate::evaluate_guess;
pub use keyboard::{KeyStatus, KeyValue, KeyboardStatus};
pub use save::{GameHistory, SaveState};
pub use session::{keypress_to_msg, GameMode, GameState, Paudle, PaudleMsg, SavePlan, UpdateAction};
pub use share::{decimal_string, generate_score_copy, generate_unicode_block};
