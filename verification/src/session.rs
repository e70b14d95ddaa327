//! Decisions of an interactive session that are kept apart from its screen:
//! reconnecting, editing and rewriting prompts, notes, side conversations,
//! scrollback and shutdown.

pub mod reconnect;
pub mod prompt_edit;
pub mod notes;
pub mod prompt_rewrite;
pub mod side_summary;
pub mod scrollback;
pub mod signals;
pub mod server_mode;
