//! Tests for the bounds-checked pixel map.

use np_graphics::PixelMapMut;

#[test]
fn test_new_validates_pitch_and_length() {
    // Extent wider than the pitch is rejected.
    assert!(PixelMapMut::new(vec![0u8; 6], 2, 3, 3).is_none());

    // A buffer whose length does not match pitch times height is rejected.
    assert!(PixelMapMut::new(vec![0u8; 5], 2, 2, 3).is_none());

    // A pixel count that does not fit in 32 bits is rejected.
    assert!(PixelMapMut::new(Vec::<u8>::new(), u32::MAX, 1, u32::MAX).is_none());

    // A matching buffer is accepted.
    let map = PixelMapMut::new(vec![0u8; 6], 2, 2, 3).unwrap();
    assert_eq!(map.extent(), (2, 3));
}

#[test]
fn test_horizontal_mut_out_of_bounds_is_empty() {
    // 4 addressable columns of 5-pixel rows, 3 rows.
    let mut map = PixelMapMut::new(vec![0u8; 15], 5, 4, 3).unwrap();

    // A start beyond the addressable width yields an empty run.
    assert_eq!(map.horizontal_mut(4, 0, 1).len(), 0);
    assert_eq!(map.horizontal_mut(u32::MAX, 0, 100).len(), 0);

    // A start below the last row yields an empty run.
    assert_eq!(map.horizontal_mut(0, 3, 1).len(), 0);
    assert_eq!(map.horizontal_mut(0, u32::MAX, 1).len(), 0);
}

#[test]
fn test_horizontal_mut_truncates_to_row() {
    let mut map = PixelMapMut::new(vec![0u8; 15], 5, 4, 3).unwrap();

    // A run that would overrun the addressable width is truncated.
    let run = map.horizontal_mut(2, 1, 100);
    assert_eq!(run.len(), 2);
    run.fill(7);

    // Only the second row's cells at columns 2 and 3 changed: the run
    // neither reached the row padding nor crossed into the next row.
    let pixels = map.into_pixels();
    let mut expected = vec![0u8; 15];
    expected[5 + 2] = 7;
    expected[5 + 3] = 7;
    assert_eq!(pixels, expected);
}

#[test]
fn test_horizontal_mut_exact_run() {
    let mut map = PixelMapMut::new(vec![0u8; 8], 4, 4, 2).unwrap();
    let run = map.horizontal_mut(1, 0, 2);
    assert_eq!(run.len(), 2);
    run.fill(9);
    assert_eq!(map.into_pixels(), vec![0, 9, 9, 0, 0, 0, 0, 0]);
}

#[test]
fn test_horizontal_mut_zero_length() {
    let mut map = PixelMapMut::new(vec![1u8; 6], 3, 3, 2).unwrap();
    assert_eq!(map.horizontal_mut(1, 1, 0).len(), 0);
    assert_eq!(map.into_pixels(), vec![1u8; 6]);
}
