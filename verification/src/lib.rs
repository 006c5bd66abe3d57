//! Event-handling core of an X11 input supercharger: auto-scrolling by
//! dragging the cursor away from where scrolling started, and clicking with
//! keyboard keys for a while after a pointing device was last used.
//!
//! The library decides; the program around it talks to the X server,
//! `xdotool` and `xmodmap`.
pub mod decimal;
pub mod features;
pub mod x;
pub mod xinput;
