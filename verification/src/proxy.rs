//! A Responses API front for Chat Completions backends: request translation,
//! tool naming, history compilation and stream translation.

pub mod config;
pub mod error;
pub mod protocol;
pub mod tool_registry;
pub mod history;
pub mod pairing;
pub mod request;
pub mod stream;
pub mod upstream;
