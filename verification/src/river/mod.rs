//! The River compositor: its tags, what it reports, and what is asked of it.

pub mod provider;
pub mod status;
pub mod tags;
