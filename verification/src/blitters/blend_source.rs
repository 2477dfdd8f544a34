//! Blitter for the source blend mode.

use vstd::prelude::*;

use crate::blitter::lemma_run_compose;
use crate::blitter::Blitter;
use crate::pixel::PixelMapMut;

verus! {

/// Blitter that implements the source blend mode.
///
/// Every destination pixel it draws over is replaced
/// by the paint's pixel value unconditionally.
pub struct BlendSourceBlitter<T> {
    pixel: T,
}

impl<T: Copy> BlendSourceBlitter<T> {
    /// The pixel value this blitter fills with.
    pub closed spec fn spec_pixel(&self) -> T {
        self.pixel
    }

    /// Create a new blitter.
    pub fn new(pixel: T) -> (r: Self)
        ensures
            r.spec_pixel() == pixel,
    {
        Self { pixel }
    }
}

impl<T: Copy> Blitter for BlendSourceBlitter<T> {
    type Pixel = T;

    open spec fn writes_to(&self, dest: T, result: T) -> bool {
        result == self.spec_pixel()
    }

    fn horizontal(&self, map: &mut PixelMapMut<T>, start_x: u32, start_y: u32, length: u32) {
        let ghost pre = map@;
        let ghost s = old(map).run_start(start_x, start_y);
        let ghost l = old(map).run_len(start_x, start_y, length);
        let run = map.horizontal_mut(start_x, start_y, length);
        let ghost runpre = run@;

        let mut i: usize = 0;
        while i < run.len()
            invariant
                0 <= i <= run@.len(),
                run@.len() == runpre.len(),
                forall|j: int| 0 <= j < i ==> #[trigger] run@[j] == self.spec_pixel(),
            decreases run@.len() - i,
        {
            run[i] = self.pixel;
            i = i + 1;
        }

        proof {
            assert(final(run)@ == run@);
            lemma_run_compose(
                |d: T, r: T| self.writes_to(d, r),
                pre,
                final(map)@,
                runpre,
                run@,
                s,
                l,
            );
        }
    }
}

} // verus!
