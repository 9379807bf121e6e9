//! Verified core of the metro passenger-assistance services: the gateway's
//! service registry, routing and token bookkeeping, the metro graph queries,
//! and the order service's employee assignment.

pub mod text;
pub mod keyed;
pub mod registry;
pub mod tokens;
pub mod jwt;
pub mod gateway;
pub mod rate_limiter;
pub mod metro;
pub mod ids;
pub mod orders;
pub mod api;
pub mod records;
pub mod laws;
