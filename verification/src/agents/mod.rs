//! The agents a session can be handed to.

pub mod codex;
