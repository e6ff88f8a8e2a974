//! A keyboard-remapping engine: rules that rewrite key chords depending on
//! the focused window, and a small state machine that tells the assistant
//! key's Meta+Shift chord apart from an ordinary Meta+Shift.
pub mod config;
pub mod device;
pub mod keys;
pub mod remap;
pub mod window;
