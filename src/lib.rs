//! Core of an artwork-embedding service: caption handling, page URL derivation,
//! the compact status identifier and the bounded listing cache.

pub mod activity;
pub mod activity_id;
pub mod cache;
pub mod caption;
pub mod error;
pub mod listing;
pub mod oembed;
pub mod page;
pub mod routing;
pub mod text;
pub mod upstream;
