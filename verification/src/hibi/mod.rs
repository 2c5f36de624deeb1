//! Shapes of the Hibi API payloads the miner sends and receives.

pub mod model;
