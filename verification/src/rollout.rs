//! Token usage accounting over rollout files and its OpenAI list-price estimate.

pub mod pricing;
pub mod usage;
