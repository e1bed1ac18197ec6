//! Verified core logic of the vibeshell Wayland shell environment.

pub mod contracts;
pub mod seq_util;
pub mod model;
pub mod model_laws;
pub mod text;
pub mod layout;
pub mod daemon;
pub mod config;
pub mod daemon_laws;
pub mod control;
pub mod interaction;
pub mod wm;
pub mod vibewm;
pub mod launcher;
pub mod cheatsheet;
pub mod panel;
pub mod keybindings;
pub mod reload;
pub mod notify;
pub mod desktop;
pub mod overview;
pub mod gestures;
pub mod sway_tree;
pub mod persistence;
pub mod dump;
pub mod viewports;
