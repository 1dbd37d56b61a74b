//! Keyboard-driven mouse control: key bindings, the settings file format,
//! and the key-ownership state machine that turns key events into mouse
//! button, movement-direction and scroll-direction changes.

pub mod text;
pub mod config;
pub mod settings;
pub mod keyset;
pub mod layer;
pub mod laws;
pub mod vk;
pub mod buttons;
