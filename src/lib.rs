//! Identifier allocation and idempotent multi-view persistence for a URL shortener.

mod table;

pub mod allocator;
pub mod audit;
pub mod config;
pub mod handler;
pub mod id;
pub mod index;
pub mod infra;
pub mod memstore;
pub mod models;
pub mod paging;
pub mod postgres;
pub mod scylla;
pub mod text;
pub mod usecase;
pub mod write;
