//! Tests for the pixel blend algebra.

use np_graphics::Bgra8888;
use np_graphics::Format;

fn blend(dest: u32, source: u32) -> u32 {
    let mut dest = u32::to_be_bytes(dest);
    let source = u32::to_be_bytes(source);
    Bgra8888.blend_source_over(std::slice::from_mut(&mut dest), source);
    u32::from_be_bytes(dest)
}

#[test]
fn test_blend_source_over_examples() {
    let examples = &[
        // dest         source         expected
        (0x00_00_00_00, 0x00_00_00_00, 0x00_00_00_00),
        (0xFF_FF_FF_FF, 0xFF_FF_FF_FF, 0xFF_FF_FF_FF),
        (0xFF_00_00_FF, 0xFF_FF_00_7F, 0xFF_7F_00_FF),
    ];

    for &(dest, source, expected) in examples {
        let mut dest = u32::to_be_bytes(dest);
        let source = u32::to_be_bytes(source);
        let expected = u32::to_be_bytes(expected);
        Bgra8888.blend_source_over(std::slice::from_mut(&mut dest), source);
        assert_eq!(dest, expected);
    }
}

#[test]
fn test_blend_source_over_invisible_keeps_dest() {
    // An invisible source leaves a visible destination unchanged.
    assert_eq!(blend(0x12_34_56_78, 0xAB_CD_EF_00), 0x12_34_56_78);
    assert_eq!(blend(0xFF_FF_FF_01, 0x00_00_00_00), 0xFF_FF_FF_01);
}

#[test]
fn test_blend_source_over_invisible_on_invisible() {
    // Both sides invisible: the result is the canonical transparent
    // pixel, so nonzero color channels of an invisible destination
    // are dropped.
    assert_eq!(blend(0x12_34_56_00, 0xAB_CD_EF_00), 0x00_00_00_00);
}

#[test]
fn test_blend_source_over_opaque_replaces_dest() {
    // An opaque source replaces the destination exactly.
    assert_eq!(blend(0x12_34_56_78, 0xAB_CD_EF_FF), 0xAB_CD_EF_FF);
    assert_eq!(blend(0x00_00_00_00, 0x01_02_03_FF), 0x01_02_03_FF);
}

#[test]
fn test_blend_source_over_each_pixel_independent() {
    let source = [0x10u8, 0x20, 0x30, 0x7F];
    let mut many = vec![[0u8; 4], [0xFFu8; 4], [0x12, 0x34, 0x56, 0x78]];
    let mut singles = many.clone();
    Bgra8888.blend_source_over(&mut many, source);
    for pixel in singles.iter_mut() {
        Bgra8888.blend_source_over(std::slice::from_mut(pixel), source);
    }
    assert_eq!(many, singles);
}

#[test]
fn test_is_visible_and_is_opaque() {
    assert!(!Bgra8888.is_visible([1, 2, 3, 0]));
    assert!(Bgra8888.is_visible([0, 0, 0, 1]));
    assert!(Bgra8888.is_opaque([9, 9, 9, 255]));
    assert!(!Bgra8888.is_opaque([9, 9, 9, 254]));
}
