//! Tray icons of X11 programs: reading their pixels and presenting them as status notifier items.

pub mod bridge;
pub mod capture;
pub mod laws;
pub mod sni;
