pub mod xdotool;
pub mod xlib;
pub mod xmodmap;
