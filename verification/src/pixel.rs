//! Bounds-checked mutable pixel buffers.

use vstd::prelude::*;

verus! {

/// Mutable two-dimensional pixel buffer.
///
/// The buffer holds `pitch` pixels per row and `extent_y` rows, of
/// which the leftmost `extent_x` pixels of each row are addressable;
/// the remainder of each row is padding.  Construction validates that
/// the buffer length matches the pitch and height, and access is
/// clipped to the addressable region, so drawing through the map can
/// never touch memory outside the buffer.
pub struct PixelMapMut<T> {
    pixels: Vec<T>,
    pitch: u32,
    extent_x: u32,
    extent_y: u32,
}

impl<T> View for PixelMapMut<T> {
    type V = Seq<T>;

    closed spec fn view(&self) -> Seq<T> {
        self.pixels@
    }
}

impl<T> PixelMapMut<T> {
    /// The number of pixels per row, padding included.
    pub closed spec fn spec_pitch(&self) -> u32 {
        self.pitch
    }

    /// The number of addressable pixels per row.
    pub closed spec fn spec_extent_x(&self) -> u32 {
        self.extent_x
    }

    /// The number of rows.
    pub closed spec fn spec_extent_y(&self) -> u32 {
        self.extent_y
    }

    /// Well-formedness: the extent fits the pitch, and the buffer
    /// holds exactly `pitch * extent_y` pixels, a count small enough
    /// that every linear index fits in 32 bits.
    pub open spec fn wf(&self) -> bool {
        &&& self.spec_extent_x() <= self.spec_pitch()
        &&& self.spec_pitch() * self.spec_extent_y() <= u32::MAX
        &&& self@.len() == self.spec_pitch() * self.spec_extent_y()
    }

    /// Whether two maps have the same pitch and extent.
    pub open spec fn same_shape(&self, other: &Self) -> bool {
        &&& self.spec_pitch() == other.spec_pitch()
        &&& self.spec_extent_x() == other.spec_extent_x()
        &&& self.spec_extent_y() == other.spec_extent_y()
    }

    /// Linear index of the pixel at the given coordinates.
    pub open spec fn index_of(&self, x: int, y: int) -> int {
        y * self.spec_pitch() + x
    }

    /// Linear index of the first pixel of a horizontal run.
    pub open spec fn run_start(&self, start_x: u32, start_y: u32) -> int {
        self.index_of(start_x as int, start_y as int)
    }

    /// Length of a horizontal run after clipping to the addressable
    /// region: zero when the start lies outside it, and otherwise no
    /// longer than the rest of the row.
    pub open spec fn run_len(&self, start_x: u32, start_y: u32, length: u32) -> int {
        if start_x < self.spec_extent_x() && start_y < self.spec_extent_y() {
            if length <= self.spec_extent_x() - start_x {
                length as int
            } else {
                self.spec_extent_x() - start_x
            }
        } else {
            0
        }
    }

    /// Create a pixel map from a vector of pixels.
    ///
    /// The value of `pitch` is the number of pixels per row.
    /// This may be longer than the value of `extent_x`,
    /// in case a rectangular slice of the pixel buffer is taken.
    /// If the number of pixels `pitch * extent_y`
    /// does not match the number of elements in `pixels`,
    /// this function returns `None`.
    pub fn new(pixels: Vec<T>, pitch: u32, extent_x: u32, extent_y: u32) -> (r: Option<Self>)
        ensures
            match r {
                Some(map) => {
                    &&& extent_x <= pitch
                    &&& pitch * extent_y <= u32::MAX
                    &&& pixels@.len() == pitch * extent_y
                    &&& map@ == pixels@
                    &&& map.spec_pitch() == pitch
                    &&& map.spec_extent_x() == extent_x
                    &&& map.spec_extent_y() == extent_y
                    &&& map.wf()
                },
                None => {
                    ||| extent_x > pitch
                    ||| pitch * extent_y > u32::MAX
                    ||| pixels@.len() != pitch * extent_y
                },
            },
    {
        // Check that the pitch is not shorter than the extent.
        // That would allow a run to reach into the next row.
        if extent_x > pitch {
            return None;
        }

        // Check that the length of the vector
        // corresponds to the width and height.
        let expected_len = match u32::checked_mul(pitch, extent_y) {
            Some(n) => n,
            None => {
                return None;
            },
        };
        if pixels.len() != expected_len as usize {
            return None;
        }

        Some(Self { pixels, pitch, extent_x, extent_y })
    }

    /// The width and height of the pixel map.
    pub fn extent(&self) -> (r: (u32, u32))
        ensures
            r.0 == self.spec_extent_x(),
            r.1 == self.spec_extent_y(),
    {
        (self.extent_x, self.extent_y)
    }

    /// Give the pixel buffer back to the caller.
    pub fn into_pixels(self) -> (r: Vec<T>)
        ensures
            r@ == self@,
    {
        self.pixels
    }

    /// Slice of a horizontal run starting at the given coordinates
    /// and extending `length` pixels to the right.
    ///
    /// The returned slice may be shorter than `length`
    /// if the run is (partially) out of bounds:
    /// a start outside the addressable region yields an empty slice,
    /// and a run that would overrun the row is truncated to fit,
    /// so the slice never reaches the next row.
    /// This function does not panic on out of bounds conditions.
    pub fn horizontal_mut(&mut self, start_x: u32, start_y: u32, length: u32) -> (run: &mut [T])
        requires
            old(self).wf(),
        ensures
            final(self).same_shape(old(self)),
            run@.len() == old(self).run_len(start_x, start_y, length),
            old(self).run_len(start_x, start_y, length) == 0 ==> final(self)@ == old(self)@
                && final(self).wf(),
            old(self).run_len(start_x, start_y, length) > 0 ==> {
                let s = old(self).run_start(start_x, start_y);
                let l = old(self).run_len(start_x, start_y, length);
                &&& start_y < old(self).spec_extent_y()
                &&& 0 <= s
                &&& s + l <= start_y * old(self).spec_pitch() + old(self).spec_extent_x()
                &&& s + l <= (start_y + 1) * old(self).spec_pitch()
                &&& s + l <= old(self)@.len()
                &&& run@ == old(self)@.subrange(s, s + l)
                &&& final(self)@ == old(self)@.subrange(0, s) + final(run)@ + old(self)@.subrange(
                    s + l,
                    old(self)@.len() as int,
                )
                &&& final(run)@.len() == l ==> final(self).wf()
            },
    {
        // Check that the starting vertex is in bounds.
        if start_x >= self.extent_x || start_y >= self.extent_y {
            return &mut [];
        }

        // Shorten the length to fit within the bounds.
        let length = if length <= self.extent_x - start_x {
            length
        } else {
            self.extent_x - start_x
        };
        if length == 0 {
            return &mut [];
        }

        proof {
            use_index_bound(
                self.pitch as int,
                self.extent_x as int,
                self.extent_y as int,
                start_x as int,
                start_y as int,
                length as int,
            );
        }

        // Compute the start and end offsets of the run.
        let start_index = start_x + start_y * self.pitch;

        let ghost s = start_index as int;
        let ghost l = length as int;
        let ghost whole = self.pixels@;

        let slice = self.pixels.as_mut_slice();
        let (_head, rest) = slice.split_at_mut(start_index as usize);
        let ghost rest_view = rest@;
        let (run, _tail) = rest.split_at_mut(length as usize);
        proof {
            assert(rest_view.subrange(l, rest_view.len() as int) =~= whole.subrange(
                s + l,
                whole.len() as int,
            ));
            assert(run@ =~= whole.subrange(s, s + l));
        }
        run
    }
}

/// A clipped run lies within its row and within the buffer.
proof fn use_index_bound(pitch: int, ex: int, ey: int, sx: int, sy: int, len: int)
    by (nonlinear_arith)
    requires
        0 <= sx < ex <= pitch,
        0 <= sy < ey,
        0 <= len <= ex - sx,
        pitch * ey <= u32::MAX,
    ensures
        0 <= sy * pitch + sx,
        sy * pitch + sx + len <= sy * pitch + ex,
        sy * pitch + ex <= (sy + 1) * pitch,
        (sy + 1) * pitch <= pitch * ey,
        sy * pitch + sx + len <= u32::MAX,
{
}

} // verus!
