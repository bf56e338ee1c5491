//! A task runner for pnpm workspaces: the rules that decide what runs when, what the
//! terminal shows and what a changed file means.

pub mod app;
pub mod app_state;
pub mod classic;
pub mod cli;
pub mod clock;
pub mod config;
pub mod env;
pub mod globs;
pub mod hmr_websocket;
pub mod json;
pub mod laws;
pub mod layout;
pub mod log_pane;
pub mod log_view;
pub mod logging;
pub mod pnpm;
pub mod pnpm_bin;
pub mod state;
pub mod strmap;
pub mod task;
pub mod task_loading;
pub mod task_manager;
pub mod task_managerv2;
pub mod task_runner;
pub mod task_store;
pub mod test;
pub mod text;
pub mod tui_manager;
pub mod tui_managerv2;
pub mod tui_view;
pub mod watch_manager;
pub mod watch_managerv2;
