//! Transcoder from the textual resource-bundle form of time-zone data into
//! flat literal tables.
//!
//! The pipeline is: text → [`rb_parser`] (grammar) → parse tree →
//! [`extract`] (closed-schema walk) → [`zone_info::ZoneInfo`] →
//! [`render`] (five `.def` tables).

pub mod text;
pub mod zone_info;
pub mod render;
pub mod scalar;
pub mod tree;
pub mod extract;
pub mod grammar;
pub mod rb_parser;
pub mod laws;
