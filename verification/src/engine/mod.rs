//! Economic simulation engine: pure logic that turns game state into the
//! effects of one tick.
pub mod matching;
pub mod matching_laws;
pub mod limits;
pub mod pricing;
pub mod production;
pub mod simulation;
pub mod simulation_laws;
