//! Building the text that is handed to the next agent.

pub mod templates;
