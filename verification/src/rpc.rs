//! The snapshot query interface.

pub mod common;
