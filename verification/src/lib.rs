//! PhotoRust image engine: the pixel buffers, file formats and tool logic.

pub mod blend;
pub mod buffer;
pub mod chars;
pub mod filters;
pub mod focus;
pub mod gpu;
pub mod gradient;
pub mod healing;
pub mod history;
pub mod layer;
pub mod magnetic;
pub mod metadata;
pub mod mixer;
pub mod path;
pub mod pattern;
pub mod psd;
pub mod replace;
pub mod resample;
pub mod sample;
