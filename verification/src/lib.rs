//! Federated learning for ternary agents.
//!
//! Populations of ternary strategies evolve locally on each node; federated
//! rounds combine strategy summaries across nodes. This crate holds the
//! integer side of that logic, verified: the ternary values, the
//! deterministic generator every random choice comes from, strategies and
//! their exact fitness, local evolution of a node, blending a global strategy
//! into a node, and majority-vote aggregation.

pub mod ternary;
pub mod strategy;
pub mod node;
pub mod ranking;
pub mod aggregate;
pub mod federation;
pub mod laws;

pub use ternary::Ternary;
pub use strategy::{Fitness, Strategy};
pub use node::{Agent, Node};
pub use aggregate::{AggregationMethod, Aggregator};
pub use federation::FederatedExperiment;
