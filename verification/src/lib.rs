//! Route-based client-side rate limiting built on the Generic Cell Rate
//! Algorithm (GCRA).
//!
//! A table of route patterns is matched against each outgoing request; every
//! matching route contributes one or more rate-limit cells, and the admission
//! engine either admits the request, reports how long to wait, or rejects it,
//! according to the route's overflow policy.

pub mod builder;
pub mod clock;
pub mod error;
pub mod gcra;
pub mod laws;
pub mod middleware;
pub mod table;
pub mod types;

pub use builder::{HostBuilder, HostRouteBuilder, RateLimitBuilder, RouteBuilder};
pub use error::RateLimitError;
pub use gcra::GcraState;
pub use middleware::{AdmitOutcome, RateLimitMiddleware};
pub use types::{RateLimit, RequestParts, Route, ThrottleBehavior};
