//! Arrow schemas as plain values, and the rewrites of them that a reader needs.

pub mod metadata;
pub mod notation;
pub mod notation_laws;
pub mod schema;
pub mod timestamp_tz;
pub mod timestamp_tz_laws;
