#![verifier::loop_isolation(false)]
//! Rules engine for a Skyjo-like card game: a shared deck and discard pile,
//! per-player 3x4 spreads of face-down cards, and a turn-sequencing state
//! machine with first-player determination, last-round handling and change
//! notifications.

pub mod card;
pub mod event;
pub mod game;
pub mod player;
pub mod selector;
pub mod subscription;
