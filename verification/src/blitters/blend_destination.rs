//! Blitter for the destination blend mode.

use vstd::prelude::*;

use crate::blitter::Blitter;
use crate::pixel::PixelMapMut;

verus! {

/// Blitter that implements the destination blend mode.
///
/// Drawing with this blitter has no visible effect,
/// so its operations touch no pixel at all.
pub struct BlendDestinationBlitter<T> {
    _pixel: core::marker::PhantomData<T>,
}

impl<T: Copy> BlendDestinationBlitter<T> {
    /// Create a new blitter.
    pub fn new() -> (r: Self) {
        Self { _pixel: core::marker::PhantomData }
    }
}

impl<T: Copy> Blitter for BlendDestinationBlitter<T> {
    type Pixel = T;

    open spec fn writes_to(&self, dest: T, result: T) -> bool {
        result == dest
    }

    fn horizontal(&self, map: &mut PixelMapMut<T>, start_x: u32, start_y: u32, length: u32) {
    }

    fn rectangle(
        &self,
        map: &mut PixelMapMut<T>,
        start_x: u32,
        start_y: u32,
        extent_x: u32,
        extent_y: u32,
    ) {
    }
}

} // verus!
