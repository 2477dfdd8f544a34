//! Paints: a blend mode paired with a pixel value.

use vstd::prelude::*;

verus! {

/// Pair of blend mode and pixel value.
///
/// This is just a convenient type as the two are often passed together.
/// Any combination of values is valid, so this type has no smart constructor.
pub struct Paint<T> {
    /// The blend mode of the paint.
    pub blend_mode: BlendMode,

    /// The pixel value of the paint.
    pub pixel: T,
}

impl<T: Copy> Clone for Paint<T> {
    fn clone(&self) -> (r: Self)
        ensures
            r == *self,
    {
        Paint { blend_mode: self.blend_mode, pixel: self.pixel }
    }
}

impl<T: Copy> Copy for Paint<T> {}

/// How to combine two pixels when one is drawn on top of the other.
///
/// In the formulae below,
/// `a` refers to the alpha component of the pixel,
/// `c` refers to each color component of the pixel,
/// `s` refers to the source pixel,
/// `d` refers to the destination pixel, and
/// `r` refers to the pixel after blending.
/// The formulae assume a value range of zero to one for each component;
/// implementations of the corresponding format methods may use any
/// component representation and scale the formulae accordingly.
#[derive(Clone, Copy, Debug, PartialEq, Eq, Structural)]
pub enum BlendMode {
    /// `a_r = a_s`; `c_r = c_s`.
    Source,

    /// `a_r = a_s + a_d (1 - a_s)`;
    /// `c_r = (a_s c_s + a_d c_d (1 - a_s)) / a_r`.
    SourceOver,

    /// `a_r = a_d`; `c_r = c_d`.
    Destination,
}

} // verus!
