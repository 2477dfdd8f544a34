//! Utilities for working with paths.

pub mod buf;
pub mod instruction;
pub mod plan;
pub mod word;
