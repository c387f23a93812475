//! Verified core of El-Terminal: Ask reply parsing, terminal text handling,
//! settings rules and the tab / pane model.

pub mod text;
pub mod json;
pub mod llm;
pub mod env_context;
pub mod ask;
pub mod terminal_links;
pub mod settings;
pub mod launch;
pub mod chrome;
pub mod tabs;
pub mod input;
pub mod title;
pub mod session;
