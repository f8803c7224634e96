//! Changes to a table that are committed together.

pub mod action;
pub mod update_metadata;
