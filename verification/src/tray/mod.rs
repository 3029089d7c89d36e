//! The system tray: addresses of its items, their icons, and the items themselves.

pub mod address;
pub mod icon;
pub mod system;
