//! File transfer: chunks with their hashes, and a window of credits that the receiver
//! grants.
pub mod integrity;
pub mod manager;
pub mod merkle;
pub mod state;
