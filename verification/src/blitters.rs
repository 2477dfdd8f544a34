//! Implementations of the [`Blitter`] trait.
//!
//! [`Blitter`]: `crate::blitter::Blitter`

pub mod blend_destination;
pub mod blend_source;
pub mod blend_source_over;
