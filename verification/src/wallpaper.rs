//! Drawing the desktop wallpaper.

use vstd::prelude::*;

use crate::blitter::in_rect;
use crate::blitter::Blitter;
use crate::blitters::blend_source::BlendSourceBlitter;
use crate::pixel::PixelMapMut;

verus! {

/// The wallpaper color, as a BGRA pixel: a warm opaque orange.
pub open spec fn wallpaper_pixel() -> Seq<u8> {
    seq![0xC2u8, 0x48u8, 0x1Du8, 0xFFu8]
}

/// Cover the entire screen with the wallpaper.
pub fn draw_wallpaper(pixel_map: &mut PixelMapMut<[u8; 4]>)
    requires
        old(pixel_map).wf(),
    ensures
        final(pixel_map).wf(),
        final(pixel_map).same_shape(old(pixel_map)),
        forall|i: int|
            0 <= i < old(pixel_map)@.len() && in_rect(
                old(pixel_map),
                0,
                0,
                old(pixel_map).spec_extent_x(),
                old(pixel_map).spec_extent_y(),
                i,
            ) ==> (#[trigger] final(pixel_map)@[i])@ == wallpaper_pixel(),
        forall|i: int|
            0 <= i < old(pixel_map)@.len() && !in_rect(
                old(pixel_map),
                0,
                0,
                old(pixel_map).spec_extent_x(),
                old(pixel_map).spec_extent_y(),
                i,
            ) ==> #[trigger] final(pixel_map)@[i] == old(pixel_map)@[i],
{
    let pixel: [u8; 4] = [0xC2, 0x48, 0x1D, 0xFF];
    let blitter = BlendSourceBlitter::new(pixel);
    let extent = pixel_map.extent();
    blitter.rectangle(pixel_map, 0, 0, extent.0, extent.1);
    proof {
        assert(pixel@ =~= wallpaper_pixel());
    }
}

} // verus!
