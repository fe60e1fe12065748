//! The node: its settings, its control interface, and what it does about events.
pub mod api;
pub mod config;
pub mod control;
