//! The server's decision logic: command validation and the answers to
//! commands, the game loop's state machine, the views it publishes and the
//! account rules.  Loading state,
//! persisting results and talking to clients are I/O and stay outside.
pub mod command;
pub mod game_loop;
pub mod views;
pub mod answers;
pub mod auth;
