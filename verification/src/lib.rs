//! Transactional core of a fuel station: stock allocation across tanks,
//! purchases and refills that move stock and money together, session
//! handling, and a fixed-window rate limiter.

pub mod allocator;
pub mod auth;
pub mod catalog;
pub mod laws;
pub mod models;
pub mod price;
pub mod purchase;
pub mod rate_limit;
pub mod refill;
pub mod store;
pub mod utils;
