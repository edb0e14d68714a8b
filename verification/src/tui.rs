//! The terminal front end: its state, its key bindings and what it draws.

pub mod agent_task;
pub mod app;
pub mod ipc;
pub mod keys;
pub mod markdown;
pub mod marker_scrubber;
pub mod profile;
pub mod reducers;
pub mod splash;
pub mod theme;
pub mod ui;
