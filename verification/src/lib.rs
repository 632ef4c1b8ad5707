//! Verified decision logic of DNS pipeline middleware: PROXY v2 header
//! decoding, fixed-window rate limiting, TTL clamping, query-type routing,
//! upstream racing and domain-list split routing.
pub mod dns;
pub mod domain;
pub mod fastest;
pub mod proxy_protocol;
pub mod rate_limiter;
pub mod router;
pub mod split;
pub mod tenant_rate_limiter;
pub mod ttl_modifier;
pub mod window;
