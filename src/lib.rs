//! Wallpaper renderer and supervisor logic for layer-shell compositors.

pub mod text;
pub mod media;
pub mod config;
pub mod cli;
pub mod surface;
pub mod visibility;
pub mod pool;
pub mod fit;
pub mod video;
pub mod supervisor;
