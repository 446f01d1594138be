//! A minimal HTTP request router for a serverless function.
//!
//! Requests are dispatched by method and path to one of three handlers
//! (health check, root/info, not-found), and every response body is a
//! uniform success/error envelope serialized to JSON.

use vstd::prelude::*;

pub mod envelope;
pub mod error;
pub mod health;
pub mod json;
pub mod parse;
pub mod router;

verus! {

/// Version string reported by the health and root endpoints.
pub const VERSION: &'static str = "0.1.0";

} // verus!

