//! Byte forms of values that are stored.
pub mod trim;
