//! High-level interface for drawing shapes.

use vstd::prelude::*;

use crate::blitter::create_blitter;
use crate::blitter::lemma_selects_writes;
use crate::blitter::lemma_stroked_congruence;
use crate::blitter::lemma_stroked_reshape;
use crate::blitter::paint_writes;
use crate::blitter::rect_updated;
use crate::blitter::selects;
use crate::blitter::stroked;
use crate::blitter::AnyBlitter;
use crate::blitter::Blitter;
use crate::format::Format;
use crate::paint::Paint;
use crate::pixel::PixelMapMut;

verus! {

/// The left edge of a rectangle after normalization: a negative extent
/// shifts the start so that the start always precedes the end.
pub open spec fn norm_start(start: int, extent: int) -> int {
    if extent < 0 {
        start + extent
    } else {
        start
    }
}

/// The extent of a rectangle after normalization: never negative.
pub open spec fn norm_extent(extent: int) -> int {
    if extent < 0 {
        -extent
    } else {
        extent
    }
}

/// A device coordinate truncated to an unsigned pixel index.
pub open spec fn clamp_u32(v: int) -> int {
    if v < 0 {
        0
    } else if v > u32::MAX {
        u32::MAX as int
    } else {
        v
    }
}

/// Normalization draws between the two corners of the rectangle,
/// whichever order they were given in: the normalized interval runs
/// exactly from the smaller corner to the larger one, so no cell is
/// dropped or drawn twice relative to the swapped rectangle.
pub proof fn lemma_rectangle_normalization(start: int, extent: int)
    ensures
        norm_extent(extent) >= 0,
        norm_start(start, extent) == vstd::math::min(start, start + extent),
        norm_start(start, extent) + norm_extent(extent) == vstd::math::max(start, start + extent),
        norm_start(start + extent, -extent) == norm_start(start, extent),
        norm_extent(-extent) == norm_extent(extent),
{
}

/// The sequence `states` is a step-by-step record of stroking each
/// line segment of `segments` in order onto a buffer that started as
/// `pre` and ended as `post`.
pub open spec fn path_trace_ok<P>(
    writes: spec_fn(P, P) -> bool,
    map0: &PixelMapMut<P>,
    segments: Seq<(u32, u32, u32, u32)>,
    pre: Seq<P>,
    post: Seq<P>,
    states: Seq<Seq<P>>,
) -> bool {
    &&& states.len() == segments.len() + 1
    &&& states[0] == pre
    &&& states[segments.len() as int] == post
    &&& forall|k: int|
        0 <= k < segments.len() ==> stroked(
            writes,
            map0,
            crate::blitter::bres_cells(
                segments[k].0 as int,
                segments[k].1 as int,
                segments[k].2 as int,
                segments[k].3 as int,
            ),
            #[trigger] states[k],
            states[k + 1],
        )
}

/// The buffer `post` is the buffer `pre` after stroking each line
/// segment of `segments` in order.
pub open spec fn path_stroked<P>(
    writes: spec_fn(P, P) -> bool,
    map0: &PixelMapMut<P>,
    segments: Seq<(u32, u32, u32, u32)>,
    pre: Seq<P>,
    post: Seq<P>,
) -> bool {
    exists|states: Seq<Seq<P>>| #[trigger] path_trace_ok(
        writes,
        map0,
        segments,
        pre,
        post,
        states,
    )
}

/// The sequence `states` is a step-by-step record of stamping one
/// rectangle of the given extent at each point of `points` in order.
pub open spec fn stamp_trace_ok<P>(
    writes: spec_fn(P, P) -> bool,
    points: Seq<(u32, u32)>,
    extent_x: u32,
    extent_y: u32,
    states: Seq<PixelMapMut<P>>,
) -> bool {
    &&& states.len() == points.len() + 1
    &&& forall|k: int|
        0 <= k < points.len() ==> {
            &&& (#[trigger] states[k + 1]).same_shape(&states[k])
            &&& rect_updated(
                writes,
                &states[k],
                states[k + 1]@,
                points[k].0,
                points[k].1,
                extent_x,
                extent_y,
            )
        }
}

/// The map `post` is the map `pre` after stamping one rectangle of
/// the given extent at each point of `points` in order.
pub open spec fn stamped<P>(
    writes: spec_fn(P, P) -> bool,
    points: Seq<(u32, u32)>,
    extent_x: u32,
    extent_y: u32,
    pre: PixelMapMut<P>,
    post: PixelMapMut<P>,
) -> bool {
    exists|states: Seq<PixelMapMut<P>>|
        {
            &&& #[trigger] stamp_trace_ok(writes, points, extent_x, extent_y, states)
            &&& states[0] == pre
            &&& states[points.len() as int] == post
        }
}

/// Canvas that draws onto a pixel map.
///
/// The canvas operations will automatically construct suitable
/// blitters.  Only the format and the pixel map are configurable.
/// Geometry arrives in signed device coordinates; the canvas
/// normalizes and truncates them to unsigned pixel indices before it
/// draws.
pub struct PixelMapCanvas<F: Format> {
    format: F,
    pixel_map: PixelMapMut<F::Pixel>,
}

impl<F: Format> PixelMapCanvas<F> {
    /// The format the canvas blends with.
    pub closed spec fn spec_format(&self) -> F {
        self.format
    }

    /// The pixel map the canvas draws onto.
    pub closed spec fn spec_pixel_map(&self) -> PixelMapMut<F::Pixel> {
        self.pixel_map
    }

    /// Well-formedness: the pixel map is well formed.
    pub open spec fn wf(&self) -> bool {
        self.spec_pixel_map().wf()
    }

    /// Create a new canvas.
    pub fn new(format: F, pixel_map: PixelMapMut<F::Pixel>) -> (r: Self)
        ensures
            r.spec_format() == format,
            r.spec_pixel_map() == pixel_map,
    {
        Self { format, pixel_map }
    }

    /// Give the pixel map back to the caller.
    pub fn into_pixel_map(self) -> (r: PixelMapMut<F::Pixel>)
        ensures
            r == self.spec_pixel_map(),
    {
        self.pixel_map
    }

    /// Draw a filled rectangle starting at `start` and extending
    /// `extent` device units to the bottom right.
    ///
    /// A negative extent component is normalized by shifting the start
    /// and negating the extent, so that the start always precedes the
    /// end; the coordinates are then truncated to unsigned pixel
    /// indices and the rectangle is drawn with the blitter selected
    /// for the paint.
    pub fn rectangle(
        &mut self,
        start_x: i64,
        start_y: i64,
        extent_x: i64,
        extent_y: i64,
        paint: Paint<F::Pixel>,
    )
        requires
            old(self).wf(),
        ensures
            final(self).wf(),
            final(self).spec_format() == old(self).spec_format(),
            final(self).spec_pixel_map().same_shape(&old(self).spec_pixel_map()),
            rect_updated(
                paint_writes(old(self).spec_format(), paint),
                &old(self).spec_pixel_map(),
                final(self).spec_pixel_map()@,
                clamp_u32(norm_start(start_x as int, extent_x as int)) as u32,
                clamp_u32(norm_start(start_y as int, extent_y as int)) as u32,
                clamp_u32(norm_extent(extent_x as int)) as u32,
                clamp_u32(norm_extent(extent_y as int)) as u32,
            ),
    {
        // Make sure start comes before end.
        let (t_start_x, t_extent_x) = normalize_axis(start_x, extent_x);
        let (t_start_y, t_extent_y) = normalize_axis(start_y, extent_y);

        // Truncate to unsigned pixel indices.
        let cx = clamp_axis(t_start_x);
        let cy = clamp_axis(t_start_y);
        let cex = clamp_axis(t_extent_x);
        let cey = clamp_axis(t_extent_y);

        // Draw rectangle using the blitter for this paint.
        let ghost map0 = self.pixel_map;
        let ghost gformat = self.format;
        let blitter = create_blitter(&self.format, paint);
        blitter.rectangle(&mut self.pixel_map, cx, cy, cex, cey);

        proof {
            let w1 = |d: F::Pixel, r: F::Pixel| blitter.writes_to(d, r);
            let w2 = paint_writes(gformat, paint);
            assert(selects(&gformat, paint, blitter));
            assert forall|d: F::Pixel, r: F::Pixel| #[trigger] w1(d, r) == w2(d, r) by {
                lemma_selects_writes(&gformat, paint, blitter, d, r);
            }
            assert(rect_updated(w1, &map0, self.pixel_map@, cx, cy, cex, cey));
            assert(rect_updated(w2, &map0, self.pixel_map@, cx, cy, cex, cey));
        }
    }

    /// Stroke a sequence of line segments, given in unsigned device
    /// coordinates as `(start_x, start_y, end_x, end_y)`, with one
    /// blitter selected once for the paint.
    pub fn stroke_segments(&mut self, segments: &Vec<(u32, u32, u32, u32)>, paint: Paint<F::Pixel>)
        requires
            old(self).wf(),
        ensures
            final(self).wf(),
            final(self).spec_format() == old(self).spec_format(),
            final(self).spec_pixel_map().same_shape(&old(self).spec_pixel_map()),
            path_stroked(
                paint_writes(old(self).spec_format(), paint),
                &old(self).spec_pixel_map(),
                segments@,
                old(self).spec_pixel_map()@,
                final(self).spec_pixel_map()@,
            ),
    {
        let ghost map0 = self.pixel_map;
        let ghost gformat = self.format;
        let ghost w2 = paint_writes(gformat, paint);
        let blitter = create_blitter(&self.format, paint);
        let ghost w1 = |d: F::Pixel, r: F::Pixel| blitter.writes_to(d, r);

        proof {
            assert forall|d: F::Pixel, r: F::Pixel| #[trigger] w1(d, r) == w2(d, r) by {
                lemma_selects_writes(&gformat, paint, blitter, d, r);
            }
        }

        let ghost mut trace: Seq<Seq<F::Pixel>> = seq![map0@];
        let mut k: usize = 0;
        while k < segments.len()
            invariant
                0 <= k <= segments@.len(),
                self.pixel_map.wf(),
                self.pixel_map.same_shape(&map0),
                map0.wf(),
                self.format == gformat,
                w2 == paint_writes(gformat, paint),
                selects(&gformat, paint, blitter),
                forall|d: F::Pixel, r: F::Pixel| #[trigger] w1(d, r) == w2(d, r),
                w1 == (|d: F::Pixel, r: F::Pixel| blitter.writes_to(d, r)),
                trace.len() == k + 1,
                trace[0] == map0@,
                trace[k as int] == self.pixel_map@,
                forall|j: int|
                    0 <= j < k ==> stroked(
                        w2,
                        &map0,
                        crate::blitter::bres_cells(
                            segments@[j].0 as int,
                            segments@[j].1 as int,
                            segments@[j].2 as int,
                            segments@[j].3 as int,
                        ),
                        #[trigger] trace[j],
                        trace[j + 1],
                    ),
            decreases segments@.len() - k,
        {
            let seg = segments[k];
            let ghost pre = self.pixel_map@;
            let ghost premap = self.pixel_map;
            blitter.line_segment(&mut self.pixel_map, seg.0, seg.1, seg.2, seg.3);
            proof {
                let cells = crate::blitter::bres_cells(
                    seg.0 as int,
                    seg.1 as int,
                    seg.2 as int,
                    seg.3 as int,
                );
                assert(stroked(w1, &premap, cells, pre, self.pixel_map@));
                lemma_stroked_reshape(w1, &premap, &map0, cells, pre, self.pixel_map@);
                lemma_stroked_congruence(w1, w2, &map0, cells, pre, self.pixel_map@);
                trace = trace.push(self.pixel_map@);
            }
            k = k + 1;
        }
        proof {
            assert(path_trace_ok(w2, &map0, segments@, map0@, self.pixel_map@, trace));
        }
    }
    /// Stamp one rectangle of the given extent at each of a sequence
    /// of points, given in unsigned device coordinates, with one
    /// blitter selected once for the paint.
    ///
    /// This strokes a sampled curve: the caller samples the curve at
    /// fixed parametric steps and this stamps a unit or
    /// given-thickness rectangle at each sample.
    pub fn stamp_rectangles(
        &mut self,
        points: &Vec<(u32, u32)>,
        extent_x: u32,
        extent_y: u32,
        paint: Paint<F::Pixel>,
    )
        requires
            old(self).wf(),
        ensures
            final(self).wf(),
            final(self).spec_format() == old(self).spec_format(),
            final(self).spec_pixel_map().same_shape(&old(self).spec_pixel_map()),
            stamped(
                paint_writes(old(self).spec_format(), paint),
                points@,
                extent_x,
                extent_y,
                old(self).spec_pixel_map(),
                final(self).spec_pixel_map(),
            ),
    {
        let ghost map0 = self.pixel_map;
        let ghost gformat = self.format;
        let ghost w2 = paint_writes(gformat, paint);
        let blitter = create_blitter(&self.format, paint);
        let ghost w1 = |d: F::Pixel, r: F::Pixel| blitter.writes_to(d, r);

        proof {
            assert forall|d: F::Pixel, r: F::Pixel| #[trigger] w1(d, r) == w2(d, r) by {
                lemma_selects_writes(&gformat, paint, blitter, d, r);
            }
        }

        let ghost mut states: Seq<PixelMapMut<F::Pixel>> = seq![map0];
        let mut k: usize = 0;
        while k < points.len()
            invariant
                0 <= k <= points@.len(),
                self.pixel_map.wf(),
                self.pixel_map.same_shape(&map0),
                map0.wf(),
                self.format == gformat,
                w2 == paint_writes(gformat, paint),
                selects(&gformat, paint, blitter),
                forall|d: F::Pixel, r: F::Pixel| #[trigger] w1(d, r) == w2(d, r),
                w1 == (|d: F::Pixel, r: F::Pixel| blitter.writes_to(d, r)),
                states.len() == k + 1,
                states[0] == map0,
                states[k as int] == self.pixel_map,
                forall|j: int|
                    0 <= j < k ==> {
                        &&& (#[trigger] states[j + 1]).same_shape(&states[j])
                        &&& rect_updated(
                            w2,
                            &states[j],
                            states[j + 1]@,
                            points@[j].0,
                            points@[j].1,
                            extent_x,
                            extent_y,
                        )
                    },
            decreases points@.len() - k,
        {
            let point = points[k];
            let ghost premap = self.pixel_map;
            blitter.rectangle(&mut self.pixel_map, point.0, point.1, extent_x, extent_y);
            proof {
                assert(rect_updated(
                    w1,
                    &premap,
                    self.pixel_map@,
                    point.0,
                    point.1,
                    extent_x,
                    extent_y,
                ));
                assert(rect_updated(
                    w2,
                    &premap,
                    self.pixel_map@,
                    point.0,
                    point.1,
                    extent_x,
                    extent_y,
                ));
                states = states.push(self.pixel_map);
            }
            k = k + 1;
        }
        proof {
            assert(stamp_trace_ok(w2, points@, extent_x, extent_y, states));
        }
    }
}

/// Shift the start of one axis by a negative extent and negate the
/// extent, so that the start precedes the end.
fn normalize_axis(start: i64, extent: i64) -> (r: (i64, i64))
    ensures
        clamp_u32(r.0 as int) == clamp_u32(norm_start(start as int, extent as int)),
        clamp_u32(r.1 as int) == clamp_u32(norm_extent(extent as int)),
{
    if extent < 0 {
        let shifted = match start.checked_add(extent) {
            Some(v) => v,
            None => i64::MIN,
        };
        let negated = if extent == i64::MIN {
            i64::MAX
        } else {
            -extent
        };
        (shifted, negated)
    } else {
        (start, extent)
    }
}

/// Truncate one signed device coordinate to an unsigned pixel index.
fn clamp_axis(v: i64) -> (r: u32)
    ensures
        r == clamp_u32(v as int),
{
    if v < 0 {
        0
    } else if v > u32::MAX as i64 {
        u32::MAX
    } else {
        v as u32
    }
}

} // verus!
