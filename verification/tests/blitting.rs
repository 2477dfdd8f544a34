//! Tests for the blitter layer and its selection.

use np_graphics::blitters::blend_destination::BlendDestinationBlitter;
use np_graphics::blitters::blend_source::BlendSourceBlitter;
use np_graphics::blitters::blend_source_over::BlendSourceOverBlitter;
use np_graphics::create_blitter;
use np_graphics::with_blitter;
use np_graphics::AnyBlitter;
use np_graphics::Bgra8888;
use np_graphics::BlendMode;
use np_graphics::Blitter;
use np_graphics::Format;
use np_graphics::Paint;
use np_graphics::PixelMapMut;

type Pixel = [u8; 4];

fn map_of(width: u32, height: u32, fill: Pixel) -> PixelMapMut<Pixel> {
    PixelMapMut::new(vec![fill; (width * height) as usize], width, width, height).unwrap()
}

#[test]
fn test_create_blitter_source_mode() {
    let paint = Paint { blend_mode: BlendMode::Source, pixel: [1u8, 2, 3, 4] };
    assert!(matches!(create_blitter(Bgra8888, paint), AnyBlitter::Source(_)));
}

#[test]
fn test_create_blitter_destination_mode() {
    let paint = Paint { blend_mode: BlendMode::Destination, pixel: [1u8, 2, 3, 255] };
    assert!(matches!(create_blitter(Bgra8888, paint), AnyBlitter::Destination(_)));
}

#[test]
fn test_create_blitter_source_over_invisible() {
    let paint = Paint { blend_mode: BlendMode::SourceOver, pixel: [9u8, 9, 9, 0] };
    assert!(matches!(create_blitter(Bgra8888, paint), AnyBlitter::Destination(_)));
}

#[test]
fn test_create_blitter_source_over_opaque() {
    let paint = Paint { blend_mode: BlendMode::SourceOver, pixel: [9u8, 9, 9, 255] };
    assert!(matches!(create_blitter(Bgra8888, paint), AnyBlitter::Source(_)));
}

#[test]
fn test_create_blitter_source_over_general() {
    let paint = Paint { blend_mode: BlendMode::SourceOver, pixel: [9u8, 9, 9, 100] };
    assert!(matches!(create_blitter(Bgra8888, paint), AnyBlitter::SourceOver(_)));
}

#[test]
fn test_selected_blitter_matches_canonical_blend() {
    // For source-over paints, the selected blitter's output equals
    // the canonical source-over blend, except that it may leave an
    // invisible destination pixel alone where the canonical blend
    // would canonicalize it to fully transparent.
    let dests: [Pixel; 4] =
        [[0, 0, 0, 0], [0xFF, 0xFF, 0xFF, 0xFF], [0x12, 0x34, 0x56, 0x78], [9, 9, 9, 0]];
    let sources: [Pixel; 4] =
        [[7, 8, 9, 0], [7, 8, 9, 255], [7, 8, 9, 100], [0xFF, 0x00, 0xFF, 0x01]];

    for &source in &sources {
        let paint = Paint { blend_mode: BlendMode::SourceOver, pixel: source };
        for &dest in &dests {
            let mut selected = map_of(1, 1, dest);
            let blitter = create_blitter(Bgra8888, paint);
            blitter.horizontal(&mut selected, 0, 0, 1);
            let selected_pixel = selected.into_pixels()[0];

            let mut canonical = dest;
            Bgra8888.blend_source_over(std::slice::from_mut(&mut canonical), source);

            let observably_equal = selected_pixel == canonical
                || (!Bgra8888.is_visible(selected_pixel) && !Bgra8888.is_visible(canonical));
            assert!(observably_equal);
        }
    }
}

#[test]
fn test_destination_blitter_is_no_op() {
    let mut map = map_of(3, 2, [5, 6, 7, 8]);
    let blitter = BlendDestinationBlitter::<Pixel>::new();
    blitter.horizontal(&mut map, 0, 0, 3);
    blitter.rectangle(&mut map, 0, 0, 3, 2);
    blitter.line_segment(&mut map, 0, 0, 2, 1);
    assert_eq!(map.into_pixels(), vec![[5, 6, 7, 8]; 6]);
}

#[test]
fn test_source_blitter_fills_run() {
    let mut map = map_of(4, 2, [0, 0, 0, 0]);
    let blitter = BlendSourceBlitter::new([1u8, 2, 3, 4]);
    blitter.horizontal(&mut map, 1, 1, 2);
    let pixels = map.into_pixels();
    let mut expected = vec![[0u8, 0, 0, 0]; 8];
    expected[4 + 1] = [1, 2, 3, 4];
    expected[4 + 2] = [1, 2, 3, 4];
    assert_eq!(pixels, expected);
}

#[test]
fn test_source_over_blitter_blends_run() {
    let mut map = map_of(2, 1, [0x12, 0x34, 0x56, 0x78]);
    let source = [7u8, 8, 9, 100];
    let blitter = BlendSourceOverBlitter::new(Bgra8888, source);
    blitter.horizontal(&mut map, 0, 0, 2);

    let mut expected = [0x12u8, 0x34, 0x56, 0x78];
    Bgra8888.blend_source_over(std::slice::from_mut(&mut expected), source);
    assert_eq!(map.into_pixels(), vec![expected, expected]);
}

#[test]
fn test_rectangle_fills_region_and_clips() {
    let mut map = map_of(4, 3, [0, 0, 0, 0]);
    let pixel = [9u8, 8, 7, 6];
    let blitter = BlendSourceBlitter::new(pixel);
    // The rectangle extends past the right and bottom edges.
    blitter.rectangle(&mut map, 2, 1, 10, 10);
    let pixels = map.into_pixels();
    for y in 0..3u32 {
        for x in 0..4u32 {
            let expected = if x >= 2 && y >= 1 { pixel } else { [0, 0, 0, 0] };
            assert_eq!(pixels[(y * 4 + x) as usize], expected);
        }
    }
}

#[test]
fn test_rectangle_saturating_rows() {
    // A start row plus extent that overflows 32 bits is saturated,
    // not wrapped, so the rectangle still reaches the bottom edge.
    let mut map = map_of(2, 2, [0, 0, 0, 0]);
    let pixel = [1u8, 1, 1, 1];
    let blitter = BlendSourceBlitter::new(pixel);
    blitter.rectangle(&mut map, 0, 1, 2, u32::MAX);
    assert_eq!(map.into_pixels(), vec![[0, 0, 0, 0], [0, 0, 0, 0], pixel, pixel]);
}

#[test]
fn test_line_segment_diagonal() {
    let mut map = map_of(4, 4, [0, 0, 0, 0]);
    let pixel = [1u8, 2, 3, 4];
    let blitter = BlendSourceBlitter::new(pixel);
    blitter.line_segment(&mut map, 0, 0, 3, 3);
    let pixels = map.into_pixels();
    for y in 0..4u32 {
        for x in 0..4u32 {
            let expected = if x == y { pixel } else { [0, 0, 0, 0] };
            assert_eq!(pixels[(y * 4 + x) as usize], expected);
        }
    }
}

#[test]
fn test_line_segment_shallow() {
    let mut map = map_of(3, 2, [0, 0, 0, 0]);
    let pixel = [1u8, 1, 1, 1];
    let blitter = BlendSourceBlitter::new(pixel);
    blitter.line_segment(&mut map, 0, 0, 2, 1);
    let pixels = map.into_pixels();
    let zero = [0u8, 0, 0, 0];
    // Bresenham visits (0,0), (1,1) and (2,1) for this segment.
    assert_eq!(pixels, vec![pixel, zero, zero, zero, pixel, pixel]);
}

#[test]
fn test_line_segment_reversed_endpoints() {
    let pixel = [1u8, 1, 1, 1];
    let blitter = BlendSourceBlitter::new(pixel);

    let mut forward = map_of(3, 3, [0, 0, 0, 0]);
    blitter.line_segment(&mut forward, 0, 0, 2, 2);
    let mut backward = map_of(3, 3, [0, 0, 0, 0]);
    blitter.line_segment(&mut backward, 2, 2, 0, 0);

    // The diagonal is symmetric, so both directions touch the same cells.
    assert_eq!(forward.into_pixels(), backward.into_pixels());
}

#[test]
fn test_line_segment_clipped_outside() {
    // A line that leaves the addressable region panics nowhere and
    // touches only in-bounds cells.
    let mut map = map_of(2, 2, [0, 0, 0, 0]);
    let pixel = [3u8, 3, 3, 3];
    let blitter = BlendSourceBlitter::new(pixel);
    blitter.line_segment(&mut map, 0, 0, 5, 0);
    assert_eq!(map.into_pixels(), vec![pixel, pixel, [0, 0, 0, 0], [0, 0, 0, 0]]);
}

#[test]
fn test_with_blitter_passes_selected_blitter() {
    let paint = Paint { blend_mode: BlendMode::Source, pixel: [4u8, 3, 2, 1] };
    let mut map = map_of(2, 1, [0, 0, 0, 0]);
    let filled = with_blitter(Bgra8888, paint, |blitter| {
        blitter.horizontal(&mut map, 0, 0, 2);
        true
    });
    assert!(filled);
    assert_eq!(map.into_pixels(), vec![[4, 3, 2, 1], [4, 3, 2, 1]]);
}
