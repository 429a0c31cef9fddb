//! The distributed store's settings.

pub mod config;
