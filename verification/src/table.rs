//! Tables and the parts of their metadata.

pub mod metadata;
pub mod partition;
pub mod schema;
pub mod sort_order;
