//! A small desktop shell for Wayland.

pub mod bar;
pub mod battery;
pub mod clock;
pub mod hyprland;
pub mod ipc;
pub mod launcher;
pub mod menu;
pub mod niri;
pub mod number;
pub mod order;
pub mod river;
pub mod search;
pub mod shell;
pub mod text;
pub mod text_laws;
pub mod theme;
pub mod tray;
pub mod xembed;
