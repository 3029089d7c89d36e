//! The bar: workspaces on one side, the state of the system on the other, and menus of tray items.

pub mod menu;
pub mod status;
