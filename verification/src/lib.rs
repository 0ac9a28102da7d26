//! Economic simulation of a player-driven market game: decimal amounts, game
//! models, the order-book matching engine, pricing, production and the
//! per-tick simulation, together with the decision logic of the server and
//! of the terminal client.
use vstd::prelude::*;

pub mod decimal;
pub mod models;
pub mod engine;
pub mod commands;
pub mod text;
pub mod server;
pub mod client;
pub mod storage;
pub mod seed;

verus! {
} // verus!
