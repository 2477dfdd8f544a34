//! Characteristics of pixels in an image.

use vstd::prelude::*;

verus! {

/// Characteristics of pixels in an image.
///
/// This trait provides methods for querying and manipulating pixels.
/// The implementation chooses the in-memory format of the pixels
/// and thereby of the images those pixels make up.
/// The exact behavior of drawing operations depends on the format,
/// and the format is free to pick any restrictions on pixel values.
pub trait Format: Sized {
    /// Data type for a single pixel.
    ///
    /// Values of this type make up the images onto which shapes are drawn,
    /// as well as intermediate pixel values passed to drawing operations.
    type Pixel: Copy;

    /// Whether a pixel counts as visible under this format.
    spec fn spec_is_visible(&self, pixel: Self::Pixel) -> bool;

    /// Whether a pixel counts as opaque under this format.
    spec fn spec_is_opaque(&self, pixel: Self::Pixel) -> bool;

    /// The source-over blend relation of this format: `result` is what
    /// blending `source` over `dest` leaves in the destination.
    spec fn blends_to(&self, dest: Self::Pixel, source: Self::Pixel, result: Self::Pixel) -> bool;

    /// Blending an opaque source yields the source exactly.
    proof fn lemma_blend_opaque_source(&self, dest: Self::Pixel, source: Self::Pixel, result: Self::Pixel)
        requires
            self.blends_to(dest, source, result),
            self.spec_is_opaque(source),
        ensures
            result == source,
    ;

    /// Blending an invisible source leaves the destination unchanged,
    /// except that an invisible destination may be replaced by another
    /// invisible (canonically transparent) pixel.
    proof fn lemma_blend_invisible_source(&self, dest: Self::Pixel, source: Self::Pixel, result: Self::Pixel)
        requires
            self.blends_to(dest, source, result),
            !self.spec_is_visible(source),
        ensures
            result == dest || (!self.spec_is_visible(result) && !self.spec_is_visible(dest)),
    ;

    /// The blend relation is a function of destination and source.
    proof fn lemma_blend_functional(
        &self,
        dest: Self::Pixel,
        source: Self::Pixel,
        r1: Self::Pixel,
        r2: Self::Pixel,
    )
        requires
            self.blends_to(dest, source, r1),
            self.blends_to(dest, source, r2),
        ensures
            r1 == r2,
    ;

    /// Whether the given pixel is visible.
    ///
    /// Pixels with an alpha value of zero are not visible.
    /// Pixels with a non-zero alpha value are visible.
    fn is_visible(&self, pixel: Self::Pixel) -> (r: bool)
        ensures
            r == self.spec_is_visible(pixel),
    ;

    /// Whether the given pixel is opaque.
    ///
    /// Pixels with an alpha value of one are opaque.
    /// Pixels with a non-one alpha value are not opaque.
    fn is_opaque(&self, pixel: Self::Pixel) -> (r: bool)
        ensures
            r == self.spec_is_opaque(pixel),
    ;

    /// Blend `source` over each pixel in `dest`
    /// using the source-over formula.
    ///
    /// This operation is presented using a slice
    /// so that it can be easily vectorized.
    /// Nonetheless, the implementation must behave as if
    /// it were called for each destination pixel separately.
    fn blend_source_over(&self, dest: &mut [Self::Pixel], source: Self::Pixel)
        ensures
            final(dest)@.len() == old(dest)@.len(),
            forall|i: int|
                0 <= i < old(dest)@.len() ==> self.blends_to(
                    old(dest)@[i],
                    source,
                    #[trigger] final(dest)@[i],
                ),
    ;
}

impl<'a, F: Format> Format for &'a F {
    type Pixel = F::Pixel;

    open spec fn spec_is_visible(&self, pixel: F::Pixel) -> bool {
        (**self).spec_is_visible(pixel)
    }

    open spec fn spec_is_opaque(&self, pixel: F::Pixel) -> bool {
        (**self).spec_is_opaque(pixel)
    }

    open spec fn blends_to(&self, dest: F::Pixel, source: F::Pixel, result: F::Pixel) -> bool {
        (**self).blends_to(dest, source, result)
    }

    proof fn lemma_blend_opaque_source(&self, dest: F::Pixel, source: F::Pixel, result: F::Pixel) {
        (**self).lemma_blend_opaque_source(dest, source, result);
    }

    proof fn lemma_blend_invisible_source(
        &self,
        dest: F::Pixel,
        source: F::Pixel,
        result: F::Pixel,
    ) {
        (**self).lemma_blend_invisible_source(dest, source, result);
    }

    proof fn lemma_blend_functional(
        &self,
        dest: F::Pixel,
        source: F::Pixel,
        r1: F::Pixel,
        r2: F::Pixel,
    ) {
        (**self).lemma_blend_functional(dest, source, r1, r2);
    }

    fn is_visible(&self, pixel: F::Pixel) -> (r: bool) {
        (**self).is_visible(pixel)
    }

    fn is_opaque(&self, pixel: F::Pixel) -> (r: bool) {
        (**self).is_opaque(pixel)
    }

    fn blend_source_over(&self, dest: &mut [F::Pixel], source: F::Pixel) {
        (**self).blend_source_over(dest, source)
    }
}

} // verus!
