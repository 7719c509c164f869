//! A reverse proxy core for Discord's REST API: per-token ratelimiter
//! selection over an expiring LRU cache, and the pure steps of the request
//! pipeline (method mapping, path normalization, route classification and
//! upstream URI construction).

pub mod expiring_lru;
pub mod ratelimiter_map;
pub mod text;
pub mod request;
