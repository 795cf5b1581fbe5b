//! Filters.

pub mod texture;
