//! The agents views: the retained model of threads and the decisions behind
//! the dashboard, the JSON snapshots and focusing a running TUI.

pub mod table;
pub mod thread;
pub mod model;
pub mod snapshot;
pub mod focus;
pub mod refresh;
pub mod output;
pub mod overview;
