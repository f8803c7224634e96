//! Rules that rewrite physical plans.

pub mod get_field_chain;
pub mod narrowing;
pub mod nested_field_projection;
pub mod nested_field_projection_laws;
