//! Implementations of the [`Format`] trait.
//!
//! [`Format`]: `crate::format::Format`

pub mod bgra8888;
