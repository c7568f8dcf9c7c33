//! Archival adapters and request builders for osu! API v2 data.
//!
//! [`model::archive`] encodes domain values into a relocatable byte buffer
//! that is read back in place, and [`request`] assembles the requests that
//! fetch user data.

pub mod model;
pub mod request;
