pub mod autocomplete;
pub mod ffi;
pub mod config;
pub mod note;
pub mod order;
pub mod palettes;
pub mod path;
pub mod pywal;
pub mod search;
pub mod storage;
pub mod tags;
pub mod text;
pub mod theme;
pub mod util;
pub mod wiki;
pub mod window;

pub use crate::window::results_overlay_visible;
