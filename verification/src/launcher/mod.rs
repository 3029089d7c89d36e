//! The launcher: applications, pins, and the selection among them.

pub mod apps;
pub mod entry;
pub mod instance;
pub mod laws;
pub mod pins;
pub mod state;
pub mod view;
