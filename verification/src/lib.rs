use vstd::prelude::*;

pub mod text;
pub mod rollout;
pub mod proxy;
pub mod json;
pub mod agents;
pub mod session;

verus! {
}
