//! A cost-based query optimizer in the Cascades style.
//!
//! A plan is ingested into a memo of groups of equivalent expressions;
//! rules add expressions to the groups; every physical expression is costed;
//! and the cheapest plan that delivers the required physical properties is
//! extracted. A simpler heuristic optimizer rewrites a plan with the same
//! rules until none applies.
pub mod expr;
pub mod operator;
pub mod plan;
pub mod error;
pub mod rules;
pub mod properties;
pub mod cost;
pub mod memo;
pub mod optimizer;
pub mod heuristic;
pub mod laws;
