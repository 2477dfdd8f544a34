//! Tests for the canvas.

use np_graphics::draw_wallpaper;
use np_graphics::Bgra8888;
use np_graphics::BlendMode;
use np_graphics::Paint;
use np_graphics::PixelMapCanvas;
use np_graphics::PixelMapMut;

type Pixel = [u8; 4];

fn map_of(width: u32, height: u32, fill: Pixel) -> PixelMapMut<Pixel> {
    PixelMapMut::new(vec![fill; (width * height) as usize], width, width, height).unwrap()
}

fn source_paint(pixel: Pixel) -> Paint<Pixel> {
    Paint { blend_mode: BlendMode::Source, pixel }
}

#[test]
fn test_canvas_rectangle_draws_region() {
    let pixel = [1u8, 2, 3, 4];
    let mut canvas = PixelMapCanvas::new(Bgra8888, map_of(4, 4, [0, 0, 0, 0]));
    canvas.rectangle(1, 1, 2, 2, source_paint(pixel));
    let pixels = canvas.into_pixel_map().into_pixels();
    for y in 0..4u32 {
        for x in 0..4u32 {
            let expected = if (1..3).contains(&x) && (1..3).contains(&y) {
                pixel
            } else {
                [0, 0, 0, 0]
            };
            assert_eq!(pixels[(y * 4 + x) as usize], expected);
        }
    }
}

#[test]
fn test_canvas_rectangle_normalizes_negative_extent() {
    // A rectangle with a negative extent draws the same region as the
    // one with its corners swapped: no pixels dropped, none doubled.
    let pixel = [9u8, 9, 9, 9];

    let mut flipped = PixelMapCanvas::new(Bgra8888, map_of(4, 4, [0, 0, 0, 0]));
    flipped.rectangle(3, 3, -2, -2, source_paint(pixel));

    let mut straight = PixelMapCanvas::new(Bgra8888, map_of(4, 4, [0, 0, 0, 0]));
    straight.rectangle(1, 1, 2, 2, source_paint(pixel));

    assert_eq!(
        flipped.into_pixel_map().into_pixels(),
        straight.into_pixel_map().into_pixels(),
    );
}

#[test]
fn test_canvas_rectangle_clips_negative_start() {
    let pixel = [5u8, 5, 5, 5];
    let mut canvas = PixelMapCanvas::new(Bgra8888, map_of(2, 2, [0, 0, 0, 0]));
    canvas.rectangle(-1, -1, 2, 2, source_paint(pixel));
    let pixels = canvas.into_pixel_map().into_pixels();
    // The start truncates to the top left corner and the extent stays
    // two cells, so the whole map is covered.
    assert_eq!(pixels, vec![pixel; 4]);
}

#[test]
fn test_canvas_stroke_segments() {
    let pixel = [7u8, 7, 7, 7];
    let mut canvas = PixelMapCanvas::new(Bgra8888, map_of(3, 3, [0, 0, 0, 0]));
    let segments = vec![(0u32, 0u32, 2u32, 0u32), (2u32, 0u32, 2u32, 2u32)];
    canvas.stroke_segments(&segments, source_paint(pixel));
    let pixels = canvas.into_pixel_map().into_pixels();
    let zero = [0u8, 0, 0, 0];
    assert_eq!(
        pixels,
        vec![pixel, pixel, pixel, zero, zero, pixel, zero, zero, pixel],
    );
}

#[test]
fn test_draw_wallpaper_covers_screen() {
    let orange = [0xC2u8, 0x48, 0x1D, 0xFF];
    let mut map = map_of(3, 2, [0, 0, 0, 0]);
    draw_wallpaper(&mut map);
    assert_eq!(map.into_pixels(), vec![orange; 6]);
}

#[test]
fn test_draw_wallpaper_leaves_padding() {
    let orange = [0xC2u8, 0x48, 0x1D, 0xFF];
    let zero = [0u8, 0, 0, 0];
    // Pitch 3 but only 2 addressable columns: padding stays untouched.
    let mut map = PixelMapMut::new(vec![zero; 6], 3, 2, 2).unwrap();
    draw_wallpaper(&mut map);
    assert_eq!(
        map.into_pixels(),
        vec![orange, orange, zero, orange, orange, zero],
    );
}

#[test]
fn test_canvas_stamp_rectangles() {
    let pixel = [2u8, 2, 2, 2];
    let mut canvas = PixelMapCanvas::new(Bgra8888, map_of(4, 4, [0, 0, 0, 0]));
    // Stamp a unit rectangle at each sampled point of a diagonal.
    let points = vec![(0u32, 0u32), (1u32, 1u32), (3u32, 2u32)];
    canvas.stamp_rectangles(&points, 1, 1, source_paint(pixel));
    let pixels = canvas.into_pixel_map().into_pixels();
    for y in 0..4u32 {
        for x in 0..4u32 {
            let stamped = points.contains(&(x, y));
            let expected = if stamped { pixel } else { [0, 0, 0, 0] };
            assert_eq!(pixels[(y * 4 + x) as usize], expected);
        }
    }
}

#[test]
fn test_canvas_stamp_rectangles_thickness() {
    let pixel = [8u8, 8, 8, 8];
    let mut canvas = PixelMapCanvas::new(Bgra8888, map_of(4, 4, [0, 0, 0, 0]));
    let points = vec![(1u32, 1u32)];
    canvas.stamp_rectangles(&points, 2, 2, source_paint(pixel));
    let pixels = canvas.into_pixel_map().into_pixels();
    for y in 0..4u32 {
        for x in 0..4u32 {
            let stamped = (1..3).contains(&x) && (1..3).contains(&y);
            let expected = if stamped { pixel } else { [0, 0, 0, 0] };
            assert_eq!(pixels[(y * 4 + x) as usize], expected);
        }
    }
}
