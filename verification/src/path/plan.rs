//! Planning the stroke of a path.

use vstd::prelude::*;

use crate::path::instruction::Instruction;
use crate::path::instruction::Vector;

verus! {

/// One drawing step of a stroked path.
///
/// A path is stroked by following its instructions with a running
/// point: the start point of each curve is the end point of the
/// previous one, or the origin before any.  A linear instruction
/// strokes one line segment.  A curve instruction is approximated by
/// exactly two line segments, through the point of the curve at its
/// halfway parameter: one from the start to that point, and one from
/// that point to the curve's end.  Evaluating the halfway point is
/// the consumer's task, as operand payloads are opaque here.
#[derive(Clone, Copy, Debug, PartialEq, Eq, Structural)]
pub enum PathEvent {
    /// Stroke the line segment between the two points.
    Line(Vector, Vector),
    /// Stroke the second-order curve with the given start point and
    /// two control points as two line segments through its halfway
    /// point.
    QuadraticHalves(Vector, Vector, Vector),
    /// Stroke the third-order curve with the given start point and
    /// three control points as two line segments through its halfway
    /// point.
    CubicHalves(Vector, Vector, Vector, Vector),
}

/// The drawing steps of a path, with `p0` as the running point.
pub open spec fn spec_plan(instructions: Seq<Instruction>, p0: Vector) -> Seq<PathEvent>
    decreases instructions.len(),
{
    if instructions.len() == 0 {
        Seq::empty()
    } else {
        match instructions[0] {
            Instruction::Move(to) => spec_plan(instructions.skip(1), to),
            Instruction::Linear(p1) => seq![PathEvent::Line(p0, p1)] + spec_plan(
                instructions.skip(1),
                p1,
            ),
            Instruction::Quadratic(p1, p2) => seq![PathEvent::QuadraticHalves(p0, p1, p2)]
                + spec_plan(instructions.skip(1), p2),
            Instruction::Cubic(p1, p2, p3) => seq![PathEvent::CubicHalves(p0, p1, p2, p3)]
                + spec_plan(instructions.skip(1), p3),
        }
    }
}

/// The drawing steps of a path that starts at the origin.
///
/// A move instruction only resets the running point and strokes
/// nothing; a linear instruction contributes one segment; a curve
/// instruction contributes one halved-curve step, which its consumer
/// strokes as exactly two line segments.
pub fn plan_stroke(instructions: &Vec<Instruction>) -> (r: Vec<PathEvent>)
    ensures
        r@ == spec_plan(instructions@, Vector { x: 0, y: 0 }),
{
    let origin = Vector { x: 0, y: 0 };
    let mut events: Vec<PathEvent> = Vec::new();
    let mut p0 = origin;
    let mut k: usize = 0;
    proof {
        assert(instructions@.skip(0) =~= instructions@);
    }
    while k < instructions.len()
        invariant
            k <= instructions@.len(),
            spec_plan(instructions@, origin) =~= events@ + spec_plan(
                instructions@.skip(k as int),
                p0,
            ),
            origin == (Vector { x: 0u64, y: 0u64 }),
        decreases instructions@.len() - k,
    {
        let ghost remaining = instructions@.skip(k as int);
        proof {
            assert(remaining.skip(1) =~= instructions@.skip(k + 1));
        }
        match instructions[k] {
            Instruction::Move(to) => {
                proof {
                    assert(events@ + spec_plan(instructions@.skip(k + 1), to) =~= events@
                        + spec_plan(remaining, p0));
                }
                p0 = to;
            },
            Instruction::Linear(p1) => {
                proof {
                    assert(events@.push(PathEvent::Line(p0, p1)) + spec_plan(
                        instructions@.skip(k + 1),
                        p1,
                    ) =~= events@ + spec_plan(remaining, p0));
                }
                events.push(PathEvent::Line(p0, p1));
                p0 = p1;
            },
            Instruction::Quadratic(p1, p2) => {
                proof {
                    assert(events@.push(PathEvent::QuadraticHalves(p0, p1, p2)) + spec_plan(
                        instructions@.skip(k + 1),
                        p2,
                    ) =~= events@ + spec_plan(remaining, p0));
                }
                events.push(PathEvent::QuadraticHalves(p0, p1, p2));
                p0 = p2;
            },
            Instruction::Cubic(p1, p2, p3) => {
                proof {
                    assert(events@.push(PathEvent::CubicHalves(p0, p1, p2, p3)) + spec_plan(
                        instructions@.skip(k + 1),
                        p3,
                    ) =~= events@ + spec_plan(remaining, p0));
                }
                events.push(PathEvent::CubicHalves(p0, p1, p2, p3));
                p0 = p3;
            },
        }
        k = k + 1;
    }
    proof {
        assert(instructions@.skip(instructions@.len() as int) =~= Seq::<Instruction>::empty());
        assert(events@ + Seq::<PathEvent>::empty() =~= events@);
    }
    events
}

} // verus!
