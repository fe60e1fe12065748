//! Figures about a running node, and what the screen shows of them.
pub mod app;
pub mod logger;
pub mod metrics;
pub mod ui;
