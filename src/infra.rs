//! Clients of outside services.

pub mod postgres;
