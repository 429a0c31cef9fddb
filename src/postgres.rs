//! The relational backend's settings.

pub mod config;
