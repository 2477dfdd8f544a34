//! Tests for user-interface state tracking.

use np_graphics::font::FT_CURVE_TAG;
use np_graphics::gui::Context;
use np_graphics::gui::Property;

#[test]
fn test_context_now_and_dirty() {
    let mut c = Context::new(42);
    assert_eq!(c.now(), 42);
    assert!(!c.is_dirty());
    c.mark_as_dirty();
    assert!(c.is_dirty());
    assert_eq!(c.now(), 42);
}

#[test]
fn test_property_new_marks_dirty() {
    let mut c = Context::new(0);
    let p = Property::new(&mut c, 5u32);
    assert_eq!(*p.get(), 5);
    assert!(c.is_dirty());
}

#[test]
fn test_property_new_clean_stays_clean() {
    let c = Context::new(0);
    let p = Property::new_clean(String::from("label"));
    assert_eq!(p.get(), "label");
    assert!(!c.is_dirty());
}

#[test]
fn test_property_set_and_set_clean() {
    let mut c = Context::new(0);
    let mut p = Property::new_clean(1u8);
    p.set_clean(2);
    assert_eq!(*p.get(), 2);
    assert!(!c.is_dirty());
    p.set(&mut c, 3);
    assert_eq!(*p.get(), 3);
    assert!(c.is_dirty());
}

#[test]
fn test_property_as_mut_marks_dirty() {
    let mut c = Context::new(0);
    let mut p = Property::new_clean(vec![1u8]);
    p.as_mut_clean().push(2);
    assert!(!c.is_dirty());
    p.as_mut(&mut c).push(3);
    assert!(c.is_dirty());
    assert_eq!(p.get(), &vec![1, 2, 3]);
}

#[test]
fn test_ft_curve_tag_masks_low_bits() {
    assert_eq!(FT_CURVE_TAG(0), 0);
    assert_eq!(FT_CURVE_TAG(1), 1);
    assert_eq!(FT_CURVE_TAG(2), 2);
    assert_eq!(FT_CURVE_TAG(0xFF), 3);
    assert_eq!(FT_CURVE_TAG(0xFC), 0);
}
