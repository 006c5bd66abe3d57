pub mod keyboard_click;
pub mod scroll;
