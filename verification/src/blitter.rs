//! Specialized code for drawing pixels onto a pixel map.

use vstd::math::abs;
use vstd::prelude::*;

use crate::blitters::blend_destination::BlendDestinationBlitter;
use crate::blitters::blend_source::BlendSourceBlitter;
use crate::blitters::blend_source_over::BlendSourceOverBlitter;
use crate::format::Format;
use crate::paint::BlendMode;
use crate::paint::Paint;
use crate::pixel::PixelMapMut;

verus! {

/// Whether linear index `i` addresses a pixel of the clipped rectangle
/// with the given start and extent, inside the addressable region of
/// a map with the given shape.
pub open spec fn in_rect<T>(
    map: &PixelMapMut<T>,
    start_x: u32,
    start_y: u32,
    extent_x: u32,
    extent_y: u32,
    i: int,
) -> bool {
    exists|x: int, y: int|
        {
            &&& start_x <= x < start_x + extent_x
            &&& start_y <= y < start_y + extent_y
            &&& 0 <= x < map.spec_extent_x()
            &&& 0 <= y < map.spec_extent_y()
            &&& i == #[trigger] map.index_of(x, y)
        }
}

/// The buffer `post` is the buffer of `map0` with the pixels of one
/// clipped horizontal run rewritten by the blitter and all other
/// pixels unchanged.  The run is given by its linear bounds.
pub open spec fn run_updated<P>(
    writes: spec_fn(P, P) -> bool,
    pre: Seq<P>,
    post: Seq<P>,
    s: int,
    l: int,
) -> bool {
    &&& post.len() == pre.len()
    &&& forall|i: int| 0 <= i < pre.len() && !(s <= i < s + l) ==> post[i] == pre[i]
    &&& forall|i: int| 0 <= i < pre.len() && s <= i < s + l ==> writes(pre[i], #[trigger] post[i])
}

/// The buffer `post` is the buffer of `map0` with the pixels of one
/// clipped rectangle rewritten by the blitter and all other pixels,
/// row padding included, unchanged.
pub open spec fn rect_updated<P>(
    writes: spec_fn(P, P) -> bool,
    map0: &PixelMapMut<P>,
    post: Seq<P>,
    start_x: u32,
    start_y: u32,
    extent_x: u32,
    extent_y: u32,
) -> bool {
    &&& post.len() == map0@.len()
    &&& forall|i: int|
        0 <= i < map0@.len() && !in_rect(map0, start_x, start_y, extent_x, extent_y, i)
            ==> post[i] == map0@[i]
    &&& forall|i: int|
        0 <= i < map0@.len() && in_rect(map0, start_x, start_y, extent_x, extent_y, i) ==> writes(
            map0@[i],
            #[trigger] post[i],
        )
}

/// Specialized code for drawing pixels onto a pixel map.
///
/// Drawing pixels is an operation that happens a lot,
/// and depending on the blend mode and pixel value
/// different implementations may be used.
/// The [`create_blitter`] function will
/// automatically select a suitable implementation,
/// but you can instantiate a specific implementation if desired.
pub trait Blitter: Sized {
    /// Data type for a single pixel.
    ///
    /// The pixel type a blitter is suitable for
    /// is the same as the pixel type of the pixel maps
    /// that can be passed to the methods of the blitter.
    type Pixel: Copy;

    /// What this blitter leaves at a destination pixel it draws over:
    /// `result` is a possible new value for a pixel that held `dest`.
    spec fn writes_to(&self, dest: Self::Pixel, result: Self::Pixel) -> bool;

    /// Draw a line segment starting at `start`
    /// and extending `length` pixels to the right.
    fn horizontal(
        &self,
        map: &mut PixelMapMut<Self::Pixel>,
        start_x: u32,
        start_y: u32,
        length: u32,
    )
        requires
            old(map).wf(),
        ensures
            final(map).wf(),
            final(map).same_shape(old(map)),
            run_updated(
                |d: Self::Pixel, r: Self::Pixel| self.writes_to(d, r),
                old(map)@,
                final(map)@,
                old(map).run_start(start_x, start_y),
                old(map).run_len(start_x, start_y, length),
            ),
    ;

    /// Draw a filled rectangle starting at `start`
    /// and extending `extent` pixels to the bottom right.
    ///
    /// The provided implementation calls [`Blitter::horizontal`]
    /// for each Y coordinate in the start–extent range.
    fn rectangle(
        &self,
        map: &mut PixelMapMut<Self::Pixel>,
        start_x: u32,
        start_y: u32,
        extent_x: u32,
        extent_y: u32,
    )
        requires
            old(map).wf(),
        ensures
            final(map).wf(),
            final(map).same_shape(old(map)),
            rect_updated(
                |d: Self::Pixel, r: Self::Pixel| self.writes_to(d, r),
                old(map),
                final(map)@,
                start_x,
                start_y,
                extent_x,
                extent_y,
            ),
    {
        let end_y = u32::saturating_add(start_y, extent_y);
        let ghost map0 = *old(map);
        let mut y = start_y;
        while y < end_y
            invariant
                map.wf(),
                map.same_shape(&map0),
                map0.wf(),
                start_y <= y <= end_y,
                end_y == if start_y + extent_y <= u32::MAX {
                    (start_y + extent_y) as int
                } else {
                    u32::MAX as int
                },
                rect_updated(
                    |d: Self::Pixel, r: Self::Pixel| self.writes_to(d, r),
                    &map0,
                    map@,
                    start_x,
                    start_y,
                    extent_x,
                    (y - start_y) as u32,
                ),
            decreases end_y - y,
        {
            let ghost pre = map@;
            self.horizontal(map, start_x, y, extent_x);
            proof {
                lemma_row_step(
                    |d: Self::Pixel, r: Self::Pixel| self.writes_to(d, r),
                    &map0,
                    pre,
                    map@,
                    start_x,
                    start_y,
                    extent_x,
                    y,
                );
            }
            y = y + 1;
        }
        proof {
            lemma_rect_widen(
                |d: Self::Pixel, r: Self::Pixel| self.writes_to(d, r),
                &map0,
                map@,
                start_x,
                start_y,
                extent_x,
                (end_y - start_y) as u32,
                extent_y,
            );
        }
    }

    /// Draw a line segment starting at `start` and ending at `end`.
    ///
    /// The provided implementation uses Bresenham's line algorithm,
    /// calling [`Blitter::horizontal`] with length 1 for each pixel.
    fn line_segment(
        &self,
        map: &mut PixelMapMut<Self::Pixel>,
        start_x: u32,
        start_y: u32,
        end_x: u32,
        end_y: u32,
    )
        requires
            old(map).wf(),
        ensures
            final(map).wf(),
            final(map).same_shape(old(map)),
            stroked(
                |d: Self::Pixel, r: Self::Pixel| self.writes_to(d, r),
                old(map),
                bres_cells(start_x as int, start_y as int, end_x as int, end_y as int),
                old(map)@,
                final(map)@,
            ),
    {
        // Bresenham's line algorithm.
        let ghost writes = |d: Self::Pixel, r: Self::Pixel| self.writes_to(d, r);
        let ghost map0 = *old(map);
        let ghost pre0 = old(map)@;
        let ghost gx0 = start_x as int;
        let ghost gy0 = start_y as int;
        let ghost gx1 = end_x as int;
        let ghost gy1 = end_y as int;
        let ghost full = bres_cells(gx0, gy0, gx1, gy1);

        let mut x0 = start_x as i64;
        let mut y0 = start_y as i64;
        let x1 = end_x as i64;
        let y1 = end_y as i64;

        let dx = if x1 > x0 {
            x1 - x0
        } else {
            x0 - x1
        };
        let sx: i64 = if x0 < x1 {
            1
        } else {
            -1
        };
        let dy = if y1 > y0 {
            y0 - y1
        } else {
            y1 - y0
        };
        let sy: i64 = if y0 < y1 {
            1
        } else {
            -1
        };
        let mut err = dx + dy;

        let ghost mut fuel: nat = (dx - dy) as nat;
        let ghost mut prefix: Seq<(int, int)> = Seq::empty();
        let ghost mut trace: Seq<Seq<Self::Pixel>> = seq![pre0];

        proof {
            assert(abs(x0 - gx0) == 0);
            assert(abs(y0 - gy0) == 0);
            assert(abs(x0 - gx0) * dy == 0) by (nonlinear_arith)
                requires
                    abs(x0 - gx0) == 0,
            ;
            assert(abs(y0 - gy0) * dx == 0) by (nonlinear_arith)
                requires
                    abs(y0 - gy0) == 0,
            ;
            assert(dy == -(abs(gy1 - gy0) as int));
            assert(err == dx - abs(gy1 - gy0) + abs(x0 - gx0) * dy + abs(y0 - gy0) * dx);
            assert(full == bres_cells_rec(
                x0 as int,
                y0 as int,
                gx1,
                gy1,
                dx as int,
                dy as int,
                sx as int,
                sy as int,
                err as int,
                fuel,
            ));
            assert(prefix + bres_cells_rec(
                x0 as int,
                y0 as int,
                gx1,
                gy1,
                dx as int,
                dy as int,
                sx as int,
                sy as int,
                err as int,
                fuel,
            ) =~= bres_cells_rec(
                x0 as int,
                y0 as int,
                gx1,
                gy1,
                dx as int,
                dy as int,
                sx as int,
                sy as int,
                err as int,
                fuel,
            ));
        }

        loop
            invariant_except_break
                map.wf(),
                map.same_shape(&map0),
                map0.wf(),
                map0@ == pre0,
                gx0 == start_x as int,
                gy0 == start_y as int,
                gx1 == end_x as int,
                gy1 == end_y as int,
                x1 == gx1,
                y1 == gy1,
                dx == abs(gx1 - gx0),
                dy == -(abs(gy1 - gy0) as int),
                sx == if gx0 < gx1 { 1int } else { -1int },
                sy == if gy0 < gy1 { 1int } else { -1int },
                gx0 <= gx1 ==> gx0 <= x0 <= gx1,
                gx1 <= gx0 ==> gx1 <= x0 <= gx0,
                gy0 <= gy1 ==> gy0 <= y0 <= gy1,
                gy1 <= gy0 ==> gy1 <= y0 <= gy0,
                err == dx - abs(gy1 - gy0) + abs(x0 - gx0) * dy + abs(y0 - gy0) * dx,
                2 * dy <= err <= 2 * dx,
                fuel >= (dx - abs(x0 - gx0)) + (-dy - abs(y0 - gy0)),
                full == prefix + bres_cells_rec(
                    x0 as int,
                    y0 as int,
                    gx1,
                    gy1,
                    dx as int,
                    dy as int,
                    sx as int,
                    sy as int,
                    err as int,
                    fuel,
                ),
                stroke_trace_ok(writes, &map0, prefix, pre0, map@, trace),
                writes == (|d: Self::Pixel, r: Self::Pixel| self.writes_to(d, r)),
            ensures
                map.wf(),
                map.same_shape(&map0),
                stroked(writes, &map0, full, pre0, map@),
            decreases (dx - abs(x0 - gx0)) + (-dy - abs(y0 - gy0)),
        {
            let ghost pre_draw = map@;
            let ghost u = abs(x0 - gx0) as int;
            let ghost v = abs(y0 - gy0) as int;
            let ghost dyabs = abs(gy1 - gy0) as int;
            let ghost cell = (x0 as int, y0 as int);

            self.horizontal(map, x0 as u32, y0 as u32, 1);

            proof {
                assert(run_updated(
                    writes,
                    pre_draw,
                    map@,
                    map0.run_start(x0 as u32, y0 as u32),
                    map0.run_len(x0 as u32, y0 as u32, 1),
                ));
                lemma_run1_is_cell(writes, &map0, pre_draw, map@, x0 as u32, y0 as u32);
                prefix = prefix.push(cell);
                trace = trace.push(map@);
                assert(stroke_trace_ok(writes, &map0, prefix, pre0, map@, trace));
            }

            if x0 == x1 && y0 == y1 {
                proof {
                    assert(bres_cells_rec(
                        x0 as int,
                        y0 as int,
                        gx1,
                        gy1,
                        dx as int,
                        dy as int,
                        sx as int,
                        sy as int,
                        err as int,
                        fuel,
                    ) == seq![cell]);
                    assert(full =~= prefix);
                    assert(stroked(writes, &map0, full, pre0, map@));
                }
                break;
            }

            proof {
                // The line is not finished, so at least one coordinate
                // is short of its target and the fuel is positive.
                assert(x0 as int != gx1 || y0 as int != gy1);
                assert(u < dx || v < dyabs);
                assert(fuel > 0);
                // A coordinate that has reached its target stays put.
                if u == dx && v < dyabs {
                    lemma_no_x_overshoot(dx as int, dyabs, u, v, err as int);
                }
                if v == dyabs && u < dx {
                    lemma_no_y_overshoot(dx as int, dyabs, u, v, err as int);
                }
            }

            let e2 = 2 * err;
            let moved_x = e2 >= dy;
            let moved_y = e2 <= dx;
            let ghost err_head = err as int;

            if moved_x {
                err = err + dy;
                x0 = x0 + sx;
            }
            if moved_y {
                err = err + dx;
                y0 = y0 + sy;
            }

            proof {
                assert(moved_x || moved_y);
                let u2 = abs(x0 - gx0) as int;
                let v2 = abs(y0 - gy0) as int;
                if moved_x {
                    assert(u2 == u + 1);
                    lemma_mul_distrib_one(u, dy as int);
                }
                if moved_y {
                    assert(v2 == v + 1);
                    lemma_mul_distrib_one(v, dx as int);
                }
                assert(err == dx - dyabs + u2 * dy + v2 * dx);
                assert(bres_cells_rec(
                    cell.0,
                    cell.1,
                    gx1,
                    gy1,
                    dx as int,
                    dy as int,
                    sx as int,
                    sy as int,
                    err_head,
                    fuel,
                ) == seq![cell] + bres_cells_rec(
                    x0 as int,
                    y0 as int,
                    gx1,
                    gy1,
                    dx as int,
                    dy as int,
                    sx as int,
                    sy as int,
                    err as int,
                    (fuel - 1) as nat,
                ));
                assert(prefix.drop_last() + (seq![cell] + bres_cells_rec(
                    x0 as int,
                    y0 as int,
                    gx1,
                    gy1,
                    dx as int,
                    dy as int,
                    sx as int,
                    sy as int,
                    err as int,
                    (fuel - 1) as nat,
                )) =~= prefix + bres_cells_rec(
                    x0 as int,
                    y0 as int,
                    gx1,
                    gy1,
                    dx as int,
                    dy as int,
                    sx as int,
                    sy as int,
                    err as int,
                    (fuel - 1) as nat,
                ));
                fuel = (fuel - 1) as nat;
            }
        }

        proof {
            lemma_stroked_congruence(
                writes,
                |d: Self::Pixel, r: Self::Pixel| self.writes_to(d, r),
                &map0,
                full,
                pre0,
                map@,
            );
        }
    }
}


/// Distributing one more factor over a product.
proof fn lemma_mul_distrib_one(a: int, b: int)
    by (nonlinear_arith)
    ensures
        (a + 1) * b == a * b + b,
{
}

/// When the x coordinate has reached its target but the line is not
/// finished, the error term forbids a further x step.
proof fn lemma_no_x_overshoot(dx: int, dyabs: int, u: int, v: int, err: int)
    by (nonlinear_arith)
    requires
        dx >= 0,
        0 <= v < dyabs,
        u == dx,
        err == dx - dyabs + u * (-dyabs) + v * dx,
    ensures
        2 * err < -dyabs,
{
}

/// When the y coordinate has reached its target but the line is not
/// finished, the error term forbids a further y step.
proof fn lemma_no_y_overshoot(dx: int, dyabs: int, u: int, v: int, err: int)
    by (nonlinear_arith)
    requires
        dyabs >= 0,
        0 <= u < dx,
        v == dyabs,
        err == dx - dyabs + u * (-dyabs) + v * dx,
    ensures
        2 * err > dx,
{
}

/// The buffer `post` is the buffer `pre` with the single in-bounds
/// cell `(x, y)` rewritten by the blitter, or `pre` unchanged when the
/// cell lies outside the addressable region of `map0`.
pub open spec fn cell_updated<P>(
    writes: spec_fn(P, P) -> bool,
    map0: &PixelMapMut<P>,
    pre: Seq<P>,
    post: Seq<P>,
    x: int,
    y: int,
) -> bool {
    if 0 <= x < map0.spec_extent_x() && 0 <= y < map0.spec_extent_y() {
        let idx = map0.index_of(x, y);
        &&& post.len() == pre.len()
        &&& 0 <= idx < pre.len()
        &&& forall|i: int| 0 <= i < pre.len() && i != idx ==> post[i] == pre[i]
        &&& writes(pre[idx], post[idx])
    } else {
        post == pre
    }
}

/// The sequence `states` is a step-by-step record of drawing each
/// cell of `cells` in order onto a buffer that started as `pre` and
/// ended as `post`.
pub open spec fn stroke_trace_ok<P>(
    writes: spec_fn(P, P) -> bool,
    map0: &PixelMapMut<P>,
    cells: Seq<(int, int)>,
    pre: Seq<P>,
    post: Seq<P>,
    states: Seq<Seq<P>>,
) -> bool {
    &&& states.len() == cells.len() + 1
    &&& states[0] == pre
    &&& states[cells.len() as int] == post
    &&& forall|k: int|
        0 <= k < cells.len() ==> cell_updated(
            writes,
            map0,
            #[trigger] states[k],
            states[k + 1],
            cells[k].0,
            cells[k].1,
        )
}

/// The buffer `post` is the buffer `pre` after drawing each cell of
/// `cells` in order, each clipped to the addressable region of `map0`.
pub open spec fn stroked<P>(
    writes: spec_fn(P, P) -> bool,
    map0: &PixelMapMut<P>,
    cells: Seq<(int, int)>,
    pre: Seq<P>,
    post: Seq<P>,
) -> bool {
    exists|states: Seq<Seq<P>>| #[trigger] stroke_trace_ok(writes, map0, cells, pre, post, states)
}

/// One step of Bresenham's line algorithm, then the cells the rest of
/// the algorithm visits.  The step constants `dx`, `dy`, `sx` and `sy`
/// are fixed by the endpoints; the error term `err` evolves.  The fuel
/// bounds the recursion; the algorithm reaches the end point before
/// the fuel runs out.
pub open spec fn bres_cells_rec(
    x: int,
    y: int,
    x1: int,
    y1: int,
    dx: int,
    dy: int,
    sx: int,
    sy: int,
    err: int,
    fuel: nat,
) -> Seq<(int, int)>
    decreases fuel,
{
    let here = seq![(x, y)];
    if x == x1 && y == y1 {
        here
    } else if fuel == 0 {
        here
    } else {
        let e2 = 2 * err;
        let x2 = if e2 >= dy {
            x + sx
        } else {
            x
        };
        let err2 = if e2 >= dy {
            err + dy
        } else {
            err
        };
        let y2 = if e2 <= dx {
            y + sy
        } else {
            y
        };
        let err3 = if e2 <= dx {
            err2 + dx
        } else {
            err2
        };
        here + bres_cells_rec(x2, y2, x1, y1, dx, dy, sx, sy, err3, (fuel - 1) as nat)
    }
}

/// The cells Bresenham's line algorithm visits when drawing a line
/// segment from `(x0, y0)` to `(x1, y1)`, in visiting order.
pub open spec fn bres_cells(x0: int, y0: int, x1: int, y1: int) -> Seq<(int, int)> {
    let dx = abs(x1 - x0) as int;
    let dy = -(abs(y1 - y0) as int);
    let sx: int = if x0 < x1 {
        1
    } else {
        -1
    };
    let sy: int = if y0 < y1 {
        1
    } else {
        -1
    };
    bres_cells_rec(x0, y0, x1, y1, dx, dy, sx, sy, dx + dy, (dx - dy) as nat)
}

/// Two pointwise equal write relations stroke the same buffers.
pub proof fn lemma_stroked_congruence<P>(
    w1: spec_fn(P, P) -> bool,
    w2: spec_fn(P, P) -> bool,
    map0: &PixelMapMut<P>,
    cells: Seq<(int, int)>,
    pre: Seq<P>,
    post: Seq<P>,
)
    requires
        forall|d: P, r: P| #[trigger] w1(d, r) == w2(d, r),
        stroked(w1, map0, cells, pre, post),
    ensures
        stroked(w2, map0, cells, pre, post),
{
    let states = choose|states: Seq<Seq<P>>| #[trigger] stroke_trace_ok(
        w1,
        map0,
        cells,
        pre,
        post,
        states,
    );
    assert forall|k: int| 0 <= k < cells.len() implies cell_updated(
        w2,
        map0,
        #[trigger] states[k],
        states[k + 1],
        cells[k].0,
        cells[k].1,
    ) by {
        assert(cell_updated(w1, map0, states[k], states[k + 1], cells[k].0, cells[k].1));
    }
    assert(stroke_trace_ok(w2, map0, cells, pre, post, states));
}

/// Appending one drawn cell extends a stroke by one.
proof fn lemma_stroked_snoc<P>(
    writes: spec_fn(P, P) -> bool,
    map0: &PixelMapMut<P>,
    cells: Seq<(int, int)>,
    c: (int, int),
    pre: Seq<P>,
    mid: Seq<P>,
    post: Seq<P>,
)
    requires
        stroked(writes, map0, cells, pre, mid),
        cell_updated(writes, map0, mid, post, c.0, c.1),
    ensures
        stroked(writes, map0, cells.push(c), pre, post),
{
    let states = choose|states: Seq<Seq<P>>| #[trigger] stroke_trace_ok(
        writes,
        map0,
        cells,
        pre,
        mid,
        states,
    );
    let states2 = states.push(post);
    assert forall|k: int| 0 <= k < cells.push(c).len() implies cell_updated(
        writes,
        map0,
        #[trigger] states2[k],
        states2[k + 1],
        cells.push(c)[k].0,
        cells.push(c)[k].1,
    ) by {
        if k < cells.len() {
            assert(cell_updated(writes, map0, states[k], states[k + 1], cells[k].0, cells[k].1));
        }
    }
    assert(stroke_trace_ok(writes, map0, cells.push(c), pre, post, states2));
}

/// A horizontal run of length one updates exactly one cell.
proof fn lemma_run1_is_cell<P>(
    writes: spec_fn(P, P) -> bool,
    map0: &PixelMapMut<P>,
    pre: Seq<P>,
    post: Seq<P>,
    x: u32,
    y: u32,
)
    requires
        map0.wf(),
        pre.len() == map0@.len(),
        run_updated(writes, pre, post, map0.run_start(x, y), map0.run_len(x, y, 1)),
    ensures
        cell_updated(writes, map0, pre, post, x as int, y as int),
{
    let pitch = map0.spec_pitch() as int;
    let ex = map0.spec_extent_x() as int;
    let ey = map0.spec_extent_y() as int;
    if x < ex && y < ey {
        assert(map0.run_len(x, y, 1) == 1);
        assert(0 <= y * pitch + x && y * pitch + x < pitch * ey) by (nonlinear_arith)
            requires
                0 <= (x as int) < ex <= pitch,
                0 <= (y as int) < ey,
        ;
    } else {
        assert(map0.run_len(x, y, 1) == 0);
        assert(post =~= pre);
    }
}

/// A whole buffer is updated on one run when the run's slice was
/// rewritten elementwise and the rest was left alone.
pub(crate) proof fn lemma_run_compose<P>(
    writes: spec_fn(P, P) -> bool,
    pre: Seq<P>,
    post: Seq<P>,
    runpre: Seq<P>,
    runpost: Seq<P>,
    s: int,
    l: int,
)
    requires
        l >= 0,
        runpre.len() == l,
        runpost.len() == l,
        l > 0 ==> 0 <= s && s + l <= pre.len(),
        l > 0 ==> runpre == pre.subrange(s, s + l),
        l > 0 ==> post == pre.subrange(0, s) + runpost + pre.subrange(s + l, pre.len() as int),
        l == 0 ==> post == pre,
        forall|j: int| 0 <= j < l ==> writes(#[trigger] runpre[j], runpost[j]),
    ensures
        run_updated(writes, pre, post, s, l),
{
    if l > 0 {
        assert(post.len() == pre.len());
        assert forall|i: int| 0 <= i < pre.len() && !(s <= i < s + l) implies post[i] == pre[i] by {
            if i < s {
                assert(post[i] == pre.subrange(0, s)[i]);
            } else {
                assert(post[i] == pre.subrange(s + l, pre.len() as int)[i - s - l]);
            }
        }
        assert forall|i: int| 0 <= i < pre.len() && s <= i < s + l implies writes(
            pre[i],
            #[trigger] post[i],
        ) by {
            assert(post[i] == runpost[i - s]);
            assert(pre[i] == runpre[i - s]);
            assert(writes(runpre[i - s], runpost[i - s]));
        }
    }
}

/// A run interval covers exactly the cells of a one-row rectangle.
proof fn lemma_run_is_row<T>(map: &PixelMapMut<T>, start_x: u32, y: u32, length: u32)
    requires
        map.wf(),
    ensures
        forall|i: int|
            0 <= i < map@.len() ==> (#[trigger] in_rect(map, start_x, y, length, 1, i) <==> (
            map.run_start(start_x, y) <= i < map.run_start(start_x, y) + map.run_len(
                start_x,
                y,
                length,
            ))),
{
    let pitch = map.spec_pitch() as int;
    let s = map.run_start(start_x, y);
    let l = map.run_len(start_x, y, length);
    assert forall|i: int| 0 <= i < map@.len() implies (in_rect(map, start_x, y, length, 1, i) <==> (
    s <= i < s + l)) by {
        if in_rect(map, start_x, y, length, 1, i) {
            let (x, yy) = choose|x: int, yy: int|
                {
                    &&& start_x <= x < start_x + length
                    &&& y <= yy < y + 1
                    &&& 0 <= x < map.spec_extent_x()
                    &&& 0 <= yy < map.spec_extent_y()
                    &&& i == #[trigger] map.index_of(x, yy)
                };
            assert(yy == y);
            assert(s <= i < s + l);
        }
        if s <= i < s + l {
            assert(l > 0);
            let x = i - y * pitch;
            assert(i == map.index_of(x, y as int));
            assert(start_x <= x < start_x + length);
            assert(in_rect(map, start_x, y, length, 1, i));
        }
    }
}

/// Two one-row rectangles in different rows cover no common cell.
proof fn lemma_rows_disjoint<T>(
    map: &PixelMapMut<T>,
    start_x: u32,
    y1: int,
    y2: int,
    length: u32,
    i: int,
)
    requires
        map.wf(),
        0 <= y1 < map.spec_extent_y(),
        0 <= y2 < map.spec_extent_y(),
        y1 != y2,
    ensures
        !((y1 * map.spec_pitch() + start_x <= i < y1 * map.spec_pitch() + start_x + map.run_len(
            start_x,
            y1 as u32,
            length,
        )) && (y2 * map.spec_pitch() + start_x <= i < y2 * map.spec_pitch() + start_x
            + map.run_len(start_x, y2 as u32, length))),
{
    let pitch = map.spec_pitch() as int;
    let ex = map.spec_extent_x() as int;
    assert((y1 < y2 ==> (y1 + 1) * pitch <= y2 * pitch) && (y2 < y1 ==> (y2 + 1) * pitch <= y1
        * pitch) && (y1 + 1) * pitch == y1 * pitch + pitch && (y2 + 1) * pitch == y2 * pitch
        + pitch) by (nonlinear_arith)
        requires
            y1 != y2,
            0 <= y1,
            0 <= y2,
            pitch >= 0,
    ;
}

/// Drawing one more row extends a partial rectangle by one.
proof fn lemma_row_step<P>(
    writes: spec_fn(P, P) -> bool,
    map0: &PixelMapMut<P>,
    pre: Seq<P>,
    post: Seq<P>,
    start_x: u32,
    start_y: u32,
    extent_x: u32,
    y: u32,
)
    requires
        map0.wf(),
        start_y <= y,
        y + 1 <= u32::MAX,
        rect_updated(writes, map0, pre, start_x, start_y, extent_x, (y - start_y) as u32),
        run_updated(
            writes,
            pre,
            post,
            map0.run_start(start_x, y),
            map0.run_len(start_x, y, extent_x),
        ),
    ensures
        rect_updated(writes, map0, post, start_x, start_y, extent_x, (y + 1 - start_y) as u32),
{
    let pitch = map0.spec_pitch() as int;
    let s = map0.run_start(start_x, y);
    let l = map0.run_len(start_x, y, extent_x);
    lemma_run_is_row(map0, start_x, y, extent_x);
    assert forall|i: int|
        0 <= i < map0@.len() && !in_rect(
            map0,
            start_x,
            start_y,
            extent_x,
            (y + 1 - start_y) as u32,
            i,
        ) implies post[i] == map0@[i] by {
        assert(!in_rect(map0, start_x, start_y, extent_x, (y - start_y) as u32, i));
        assert(!in_rect(map0, start_x, y, extent_x, 1, i));
    }
    assert forall|i: int|
        0 <= i < map0@.len() && in_rect(
            map0,
            start_x,
            start_y,
            extent_x,
            (y + 1 - start_y) as u32,
            i,
        ) implies writes(map0@[i], #[trigger] post[i]) by {
        let (x, yy) = choose|x: int, yy: int|
            {
                &&& start_x <= x < start_x + extent_x
                &&& start_y <= yy < start_y + (y + 1 - start_y)
                &&& 0 <= x < map0.spec_extent_x()
                &&& 0 <= yy < map0.spec_extent_y()
                &&& i == #[trigger] map0.index_of(x, yy)
            };
        if yy == y {
            assert(in_rect(map0, start_x, y, extent_x, 1, i));
            assert(s <= i < s + l);
            assert(writes(pre[i], post[i]));
            if in_rect(map0, start_x, start_y, extent_x, (y - start_y) as u32, i) {
                let (x2, y2) = choose|x2: int, y2: int|
                    {
                        &&& start_x <= x2 < start_x + extent_x
                        &&& start_y <= y2 < start_y + (y - start_y)
                        &&& 0 <= x2 < map0.spec_extent_x()
                        &&& 0 <= y2 < map0.spec_extent_y()
                        &&& i == #[trigger] map0.index_of(x2, y2)
                    };
                assert(y2 < y);
                lemma_run_is_row(map0, start_x, y2 as u32, extent_x);
                assert(in_rect(map0, start_x, y2 as u32, extent_x, 1, i));
                lemma_rows_disjoint(map0, start_x, y2, y as int, extent_x, i);
                assert(false);
            }
            assert(pre[i] == map0@[i]);
        } else {
            assert(in_rect(map0, start_x, start_y, extent_x, (y - start_y) as u32, i));
            assert(writes(map0@[i], pre[i]));
            if s <= i < s + l {
                assert(l > 0);
                lemma_run_is_row(map0, start_x, y, extent_x);
                assert(in_rect(map0, start_x, y, extent_x, 1, i));
                let (x3, y3) = choose|x3: int, y3: int|
                    {
                        &&& start_x <= x3 < start_x + extent_x
                        &&& y <= y3 < y + 1
                        &&& 0 <= x3 < map0.spec_extent_x()
                        &&& 0 <= y3 < map0.spec_extent_y()
                        &&& i == #[trigger] map0.index_of(x3, y3)
                    };
                lemma_rows_disjoint(map0, start_x, yy, y as int, extent_x, i);
                assert(false);
            }
            assert(post[i] == pre[i]);
        }
    }
}

/// A rectangle clipped to the bottom edge covers the same cells as the
/// unclipped one.
proof fn lemma_rect_widen<P>(
    writes: spec_fn(P, P) -> bool,
    map0: &PixelMapMut<P>,
    post: Seq<P>,
    start_x: u32,
    start_y: u32,
    extent_x: u32,
    ey_clipped: u32,
    extent_y: u32,
)
    requires
        map0.wf(),
        rect_updated(writes, map0, post, start_x, start_y, extent_x, ey_clipped),
        ey_clipped <= extent_y,
        start_y + ey_clipped >= map0.spec_extent_y() || ey_clipped == extent_y,
    ensures
        rect_updated(writes, map0, post, start_x, start_y, extent_x, extent_y),
{
    assert forall|i: int|
        in_rect(map0, start_x, start_y, extent_x, extent_y, i) implies in_rect(
        map0,
        start_x,
        start_y,
        extent_x,
        ey_clipped,
        i,
    ) by {
        let (x, y) = choose|x: int, y: int|
            {
                &&& start_x <= x < start_x + extent_x
                &&& start_y <= y < start_y + extent_y
                &&& 0 <= x < map0.spec_extent_x()
                &&& 0 <= y < map0.spec_extent_y()
                &&& i == #[trigger] map0.index_of(x, y)
            };
        assert(y < start_y + ey_clipped);
    }
    assert forall|i: int|
        in_rect(map0, start_x, start_y, extent_x, ey_clipped, i) implies in_rect(
        map0,
        start_x,
        start_y,
        extent_x,
        extent_y,
        i,
    ) by {
    }
}

/// A blitter selected for one paint: one of the concrete blitters,
/// chosen once per drawing operation and reused for every pixel.
pub enum AnyBlitter<F: Format> {
    /// The blitter for the source blend mode.
    Source(BlendSourceBlitter<F::Pixel>),
    /// The blitter for the destination blend mode.
    Destination(BlendDestinationBlitter<F::Pixel>),
    /// The blitter for the source-over blend mode.
    SourceOver(BlendSourceOverBlitter<F>),
}

/// Whether `b` is the blitter that [`create_blitter`] picks for the
/// given format and paint.
///
/// A source-over paint degenerates to the destination blitter when its
/// pixel is invisible and to the source blitter when it is opaque; in
/// every other case the canonical blitter of the blend mode is picked.
pub open spec fn selects<F: Format>(format: F, paint: Paint<F::Pixel>, b: AnyBlitter<F>) -> bool {
    match paint.blend_mode {
        BlendMode::Source => b matches AnyBlitter::Source(s) && s.spec_pixel() == paint.pixel,
        BlendMode::SourceOver => {
            if !format.spec_is_visible(paint.pixel) {
                b is Destination
            } else if format.spec_is_opaque(paint.pixel) {
                b matches AnyBlitter::Source(s) && s.spec_pixel() == paint.pixel
            } else {
                b matches AnyBlitter::SourceOver(s) && s.spec_format() == format
                    && s.spec_pixel() == paint.pixel
            }
        },
        BlendMode::Destination => b is Destination,
    }
}

impl<F: Format> Blitter for AnyBlitter<F> {
    type Pixel = F::Pixel;

    open spec fn writes_to(&self, dest: F::Pixel, result: F::Pixel) -> bool {
        match self {
            AnyBlitter::Source(b) => b.writes_to(dest, result),
            AnyBlitter::Destination(b) => b.writes_to(dest, result),
            AnyBlitter::SourceOver(b) => b.writes_to(dest, result),
        }
    }

    fn horizontal(
        &self,
        map: &mut PixelMapMut<F::Pixel>,
        start_x: u32,
        start_y: u32,
        length: u32,
    ) {
        match self {
            AnyBlitter::Source(b) => b.horizontal(map, start_x, start_y, length),
            AnyBlitter::Destination(b) => b.horizontal(map, start_x, start_y, length),
            AnyBlitter::SourceOver(b) => b.horizontal(map, start_x, start_y, length),
        }
    }

    fn rectangle(
        &self,
        map: &mut PixelMapMut<F::Pixel>,
        start_x: u32,
        start_y: u32,
        extent_x: u32,
        extent_y: u32,
    ) {
        match self {
            AnyBlitter::Source(b) => b.rectangle(map, start_x, start_y, extent_x, extent_y),
            AnyBlitter::Destination(b) => b.rectangle(map, start_x, start_y, extent_x, extent_y),
            AnyBlitter::SourceOver(b) => b.rectangle(map, start_x, start_y, extent_x, extent_y),
        }
    }
}

/// Choose the optimal blitter for a paint.
///
/// In some cases a more optimal blitter can be chosen for a given paint
/// than the canonical one for that paint's blend mode.
/// This function replaces the blend mode
/// with a less computationally intensive one
/// if this would have no visible effect in the final image.
pub fn create_blitter<F: Format>(format: F, paint: Paint<F::Pixel>) -> (r: AnyBlitter<F>)
    ensures
        selects(format, paint, r),
{
    match paint.blend_mode {
        BlendMode::Source => AnyBlitter::Source(BlendSourceBlitter::new(paint.pixel)),
        BlendMode::SourceOver => {
            if !format.is_visible(paint.pixel) {
                AnyBlitter::Destination(BlendDestinationBlitter::new())
            } else if format.is_opaque(paint.pixel) {
                AnyBlitter::Source(BlendSourceBlitter::new(paint.pixel))
            } else {
                AnyBlitter::SourceOver(BlendSourceOverBlitter::new(format, paint.pixel))
            }
        },
        BlendMode::Destination => AnyBlitter::Destination(BlendDestinationBlitter::new()),
    }
}

/// Choose the optimal blitter for a paint
/// and pass it to the given function.
///
/// This function is equivalent to [`create_blitter`],
/// but it hands the blitter to the given function rather than
/// returning it.
pub fn with_blitter<F: Format, R, G: FnOnce(AnyBlitter<F>) -> R>(
    format: F,
    paint: Paint<F::Pixel>,
    f: G,
) -> (r: R)
    requires
        forall|b: AnyBlitter<F>| #[trigger] selects(format, paint, b) ==> call_requires(f, (b,)),
    ensures
        exists|b: AnyBlitter<F>| #[trigger] selects(format, paint, b) && call_ensures(f, (b,), r),
{
    let ghost gformat = format;
    let ghost gpaint = paint;
    let b = create_blitter(format, paint);
    let ghost gb = b;
    let r = f(b);
    proof {
        assert(selects(gformat, gpaint, gb) && call_ensures(f, (gb,), r));
    }
    r
}

/// The blitter selected for a source-over paint is observably
/// equivalent to the canonical source-over blend: at every destination
/// pixel it leaves either exactly the canonical blend result, or an
/// invisible pixel where the canonical result is invisible too.
pub proof fn lemma_selection_equivalent<F: Format>(
    format: F,
    paint: Paint<F::Pixel>,
    b: AnyBlitter<F>,
    dest: F::Pixel,
    written: F::Pixel,
    canonical: F::Pixel,
)
    requires
        paint.blend_mode is SourceOver,
        selects(format, paint, b),
        b.writes_to(dest, written),
        format.blends_to(dest, paint.pixel, canonical),
    ensures
        written == canonical || (!format.spec_is_visible(written) && !format.spec_is_visible(
            canonical,
        )),
{
    if !format.spec_is_visible(paint.pixel) {
        assert(written == dest);
        format.lemma_blend_invisible_source(dest, paint.pixel, canonical);
    } else if format.spec_is_opaque(paint.pixel) {
        assert(written == paint.pixel);
        format.lemma_blend_opaque_source(dest, paint.pixel, canonical);
    } else {
        assert(format.blends_to(dest, paint.pixel, written));
        format.lemma_blend_functional(dest, paint.pixel, written, canonical);
    }
}


/// The write relation of the blitter that [`create_blitter`] picks for
/// the given format and paint: what one drawn-over destination pixel
/// becomes.
pub open spec fn paint_writes<F: Format>(format: F, paint: Paint<F::Pixel>) -> spec_fn(
    F::Pixel,
    F::Pixel,
) -> bool {
    match paint.blend_mode {
        BlendMode::Source => |d: F::Pixel, r: F::Pixel| r == paint.pixel,
        BlendMode::SourceOver => {
            if !format.spec_is_visible(paint.pixel) {
                |d: F::Pixel, r: F::Pixel| r == d
            } else if format.spec_is_opaque(paint.pixel) {
                |d: F::Pixel, r: F::Pixel| r == paint.pixel
            } else {
                |d: F::Pixel, r: F::Pixel| format.blends_to(d, paint.pixel, r)
            }
        },
        BlendMode::Destination => |d: F::Pixel, r: F::Pixel| r == d,
    }
}

/// The selected blitter writes exactly what [`paint_writes`] says.
pub proof fn lemma_selects_writes<F: Format>(
    format: F,
    paint: Paint<F::Pixel>,
    b: AnyBlitter<F>,
    d: F::Pixel,
    r: F::Pixel,
)
    requires
        selects(format, paint, b),
    ensures
        b.writes_to(d, r) == paint_writes(format, paint)(d, r),
{
}

/// A stroke depends on the map only through its shape.
pub proof fn lemma_stroked_reshape<P>(
    writes: spec_fn(P, P) -> bool,
    m1: &PixelMapMut<P>,
    m2: &PixelMapMut<P>,
    cells: Seq<(int, int)>,
    pre: Seq<P>,
    post: Seq<P>,
)
    requires
        m1.same_shape(m2),
        stroked(writes, m1, cells, pre, post),
    ensures
        stroked(writes, m2, cells, pre, post),
{
    let states = choose|states: Seq<Seq<P>>| #[trigger] stroke_trace_ok(
        writes,
        m1,
        cells,
        pre,
        post,
        states,
    );
    assert forall|k: int| 0 <= k < cells.len() implies cell_updated(
        writes,
        m2,
        #[trigger] states[k],
        states[k + 1],
        cells[k].0,
        cells[k].1,
    ) by {
        assert(cell_updated(writes, m1, states[k], states[k + 1], cells[k].0, cells[k].1));
    }
    assert(stroke_trace_ok(writes, m2, cells, pre, post, states));
}

} // verus!
