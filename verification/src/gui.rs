//! User-interface state tracking.

use vstd::prelude::*;

verus! {

/// Shared state of one user-interface pass.
///
/// The context carries the time of the pass, in ticks chosen by the
/// caller, and a dirty flag that records whether anything changed
/// that makes a redraw necessary.
pub struct Context {
    now: u64,
    dirty: bool,
}

impl Context {
    /// The time of the pass.
    pub closed spec fn spec_now(&self) -> u64 {
        self.now
    }

    /// Whether a redraw is necessary.
    pub closed spec fn spec_dirty(&self) -> bool {
        self.dirty
    }

    /// Create a clean context for a pass at the given time.
    pub fn new(now: u64) -> (r: Self)
        ensures
            r.spec_now() == now,
            !r.spec_dirty(),
    {
        Self { now, dirty: false }
    }

    /// The time of the pass.
    pub fn now(&self) -> (r: u64)
        ensures
            r == self.spec_now(),
    {
        self.now
    }

    /// Record that a redraw is necessary.
    pub fn mark_as_dirty(&mut self)
        ensures
            final(self).spec_dirty(),
            final(self).spec_now() == old(self).spec_now(),
    {
        self.dirty = true;
    }

    /// Whether a redraw is necessary.
    pub fn is_dirty(&self) -> (r: bool)
        ensures
            r == self.spec_dirty(),
    {
        self.dirty
    }
}

/// Property that cannot be animated.
///
/// This is simply a wrapper around a value,
/// but it marks the context as dirty whenever it is modified.
/// This ensures you don't accidentally
/// neglect marking the context as dirty:
/// every way of reaching the value mutably takes a context,
/// except for the explicitly named clean variants.
#[derive(Clone, Debug, Eq, Hash, Ord, PartialEq, PartialOrd)]
pub struct Property<T> {
    value: T,
}

impl<T> Property<T> {
    /// The wrapped value.
    pub closed spec fn spec_value(&self) -> T {
        self.value
    }

    /// Wrap the given value as a property.
    ///
    /// When this function returns, the context is marked as dirty.
    pub fn new(c: &mut Context, value: T) -> (r: Self)
        ensures
            r.spec_value() == value,
            final(c).spec_dirty(),
            final(c).spec_now() == old(c).spec_now(),
    {
        c.mark_as_dirty();
        Self::new_clean(value)
    }

    /// Wrap the given value as a property.
    pub fn new_clean(value: T) -> (r: Self)
        ensures
            r.spec_value() == value,
    {
        Self { value }
    }

    /// Set the property value.
    ///
    /// When this function returns, the context is marked as dirty.
    pub fn set(&mut self, c: &mut Context, value: T)
        ensures
            final(self).spec_value() == value,
            final(c).spec_dirty(),
            final(c).spec_now() == old(c).spec_now(),
    {
        c.mark_as_dirty();
        self.set_clean(value)
    }

    /// Set the property value.
    pub fn set_clean(&mut self, value: T)
        ensures
            final(self).spec_value() == value,
    {
        self.value = value;
    }

    /// Mutable reference to the property value.
    ///
    /// When this function returns, the context is marked as dirty.
    pub fn as_mut(&mut self, c: &mut Context) -> (r: &mut T)
        ensures
            *r == old(self).spec_value(),
            final(self).spec_value() == *final(r),
            final(c).spec_dirty(),
            final(c).spec_now() == old(c).spec_now(),
    {
        c.mark_as_dirty();
        self.as_mut_clean()
    }

    /// Mutable reference to the property value.
    pub fn as_mut_clean(&mut self) -> (r: &mut T)
        ensures
            *r == old(self).spec_value(),
            final(self).spec_value() == *final(r),
    {
        &mut self.value
    }

    /// Reference to the property value.
    pub fn get(&self) -> (r: &T)
        ensures
            *r == self.spec_value(),
    {
        &self.value
    }
}

} // verus!
