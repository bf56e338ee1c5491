//! The edition that is driven by a bus of events: every part sends what happens to it, and
//! listens to what the others send.

pub mod app;
pub mod console;
pub mod pnpm;
pub mod share;
pub mod task;
pub mod tui;
pub mod watcher;
