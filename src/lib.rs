//! Monte Carlo simulation of asset ageing and renewal under a survival model,
//! with a per-step budget that defers renewal events, and the reduction of
//! many runs into event, cost and age-profile aggregates.
pub mod error;
pub mod curve;
mod rng;
pub mod table;
pub mod sim;
mod order;
pub mod schedule;
pub mod aggregate;
pub mod profile;
pub mod reduce;
pub mod run;
