//! Verified core of a small Wayland dock: pinned applications, running
//! windows, the application catalog, settings, and the window-tracking
//! state machines behind the compositor backends.

pub mod model;
pub mod text;
pub mod pins;
pub mod order;
pub mod catalog;
pub mod dock;
pub mod cli;
pub mod item;
pub mod config;
pub mod layout;
pub mod autohide;
pub mod backend;
