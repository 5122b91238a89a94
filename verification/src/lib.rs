//! An event-sourced task and project manager.
//!
//! Projects hold tasks; a task is an append-only log of events, and its
//! current state and description are derived from that log. A store owns the
//! projects, applies index-addressed mutations, and keeps each project's
//! tasks grouped by state after any state-affecting change. A navigation
//! context tracks the focused pane and cursor row, keeping the cursor on a
//! valid row while the collections underneath it shift.

pub mod context;
pub mod control;
pub mod database;
pub mod json;
pub mod listing;
pub mod project;
pub mod state;
pub mod strings;

pub use context::Context;
pub use database::Database;
pub use project::Event;
pub use project::Project;
pub use project::Task;
pub use state::State;
