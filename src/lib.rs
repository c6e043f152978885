//! Anonymous, short-lived markdown notes: identity cookies, a per-identity
//! note store with time-based eviction, and a markdown rendering pipeline.

pub mod identity;
pub mod notes_model;
pub mod notes_routes;
pub mod notes_service;
pub mod render;
