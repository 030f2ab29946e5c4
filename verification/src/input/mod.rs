//! Keyboard input: shortcut actions and the actions they trigger.

pub mod actions;
pub mod keyboard;
