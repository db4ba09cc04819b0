//! The window and the tray icon.

pub mod answers;
pub mod hook;
pub mod icons;
pub mod laws;
pub mod message;
pub mod procs;
pub mod requests;
pub mod service;
pub mod state;
pub mod tray;
pub mod update;
pub mod view;
