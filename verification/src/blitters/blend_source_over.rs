//! Blitter for the source-over blend mode.

use vstd::prelude::*;

use crate::blitter::lemma_run_compose;
use crate::blitter::Blitter;
use crate::format::Format;
use crate::pixel::PixelMapMut;

verus! {

/// Blitter that implements the source-over blend mode.
///
/// Every destination pixel it draws over is replaced
/// by the format's source-over blend of the paint's pixel value
/// over the old destination pixel.
pub struct BlendSourceOverBlitter<F: Format> {
    format: F,
    pixel: F::Pixel,
}

impl<F: Format> BlendSourceOverBlitter<F> {
    /// The format whose blend formula this blitter applies.
    pub closed spec fn spec_format(&self) -> F {
        self.format
    }

    /// The pixel value this blitter blends over the destination.
    pub closed spec fn spec_pixel(&self) -> F::Pixel {
        self.pixel
    }

    /// Create a new blitter.
    pub fn new(format: F, pixel: F::Pixel) -> (r: Self)
        ensures
            r.spec_format() == format,
            r.spec_pixel() == pixel,
    {
        Self { format, pixel }
    }
}

impl<F: Format> Blitter for BlendSourceOverBlitter<F> {
    type Pixel = F::Pixel;

    open spec fn writes_to(&self, dest: F::Pixel, result: F::Pixel) -> bool {
        self.spec_format().blends_to(dest, self.spec_pixel(), result)
    }

    fn horizontal(&self, map: &mut PixelMapMut<F::Pixel>, start_x: u32, start_y: u32, length: u32) {
        let ghost pre = map@;
        let ghost s = old(map).run_start(start_x, start_y);
        let ghost l = old(map).run_len(start_x, start_y, length);
        let run = map.horizontal_mut(start_x, start_y, length);
        let ghost runpre = run@;

        self.format.blend_source_over(run, self.pixel);

        proof {
            lemma_run_compose(
                |d: F::Pixel, r: F::Pixel| self.writes_to(d, r),
                pre,
                final(map)@,
                runpre,
                final(run)@,
                s,
                l,
            );
        }
    }
}

} // verus!
