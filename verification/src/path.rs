//! The path model: drawing instructions and their resolution against a
//! running point.

use vstd::prelude::*;
use svgtypes::PathSegment::{ClosePath, HorizontalLineTo, LineTo, MoveTo, VerticalLineTo};

verus! {

/// One drawing instruction of a path, as it was written.
///
/// Coordinates are bit patterns of double precision numbers. `absolute` tells
/// whether they name a point or an offset from the running point.
#[derive(Clone, Copy, Debug, PartialEq, Eq, Structural)]
pub enum PathSegment {
    MoveTo { absolute: bool, x: u64, y: u64 },
    LineTo { absolute: bool, x: u64, y: u64 },
    HorizontalLineTo { absolute: bool, x: u64 },
    VerticalLineTo { absolute: bool, y: u64 },
    ClosePath,
    /// Any instruction that is not a straight line: kept in its place, never drawn.
    Other,
}

/// What an instruction does to one coordinate of the running point.
#[derive(Clone, Copy, Debug, PartialEq, Eq, Structural)]
pub enum Axis {
    /// The coordinate stays as it is.
    Keep,
    /// The coordinate becomes the given value.
    Place(u64),
    /// The given offset is added to the coordinate.
    Shift(u64),
}

/// The kind of a drawing command.
#[derive(Clone, Copy, Debug, PartialEq, Eq, Structural)]
pub enum Stroke {
    Move,
    Line,
    Close,
}

/// What one instruction does: the stroke it draws and how it changes each
/// coordinate of the running point.
#[derive(Clone, Copy, Debug, PartialEq, Eq, Structural)]
pub struct Step {
    pub stroke: Stroke,
    pub x: Axis,
    pub y: Axis,
}

/// A drawing command in absolute coordinates. For `Stroke::Close` the point
/// is the running point, which closing leaves where it was.
#[derive(Clone, Copy, Debug, PartialEq, Eq, Structural)]
pub struct Command {
    pub stroke: Stroke,
    pub x: u64,
    pub y: u64,
}

/// The instructions that the parser reads from path data, in order, `None`
/// standing for an instruction that it could not read.
pub uninterp spec fn path_attempts(data: Seq<char>) -> Seq<Option<PathSegment>>;

/// Runs `svgtypes::PathParser` over `data` and hands out every item that the
/// iterator yields: a segment with its coordinates as bit patterns, the kinds
/// that are not straight lines as `Other`, an error as `None`. The contract
/// only gives that sequence its name.
#[verifier::external_body]
fn parse_attempts(data: &str) -> (attempts: Vec<Option<PathSegment>>)
    ensures
        attempts@ == path_attempts(data@),
{
    svgtypes::PathParser::from(data).map(|item| item.ok().map(|segment| match segment {
        MoveTo { abs, x, y } => PathSegment::MoveTo { absolute: abs, x: x.to_bits(), y: y.to_bits() },
        LineTo { abs, x, y } => PathSegment::LineTo { absolute: abs, x: x.to_bits(), y: y.to_bits() },
        HorizontalLineTo { abs, x } => PathSegment::HorizontalLineTo { absolute: abs, x: x.to_bits() },
        VerticalLineTo { abs, y } => PathSegment::VerticalLineTo { absolute: abs, y: y.to_bits() },
        ClosePath { .. } => PathSegment::ClosePath,
        _ => PathSegment::Other,
    })).collect()
}

/// The attempts that succeeded, in their order.
pub open spec fn readable(attempts: Seq<Option<PathSegment>>) -> Seq<PathSegment>
    decreases attempts.len(),
{
    if attempts.len() == 0 {
        Seq::empty()
    } else {
        let front = readable(attempts.drop_last());
        match attempts.last() {
            Some(segment) => front.push(segment),
            None => front,
        }
    }
}

/// Drops the instructions that could not be read and keeps the others in
/// their order.
pub fn keep_readable(attempts: &Vec<Option<PathSegment>>) -> (segments: Vec<PathSegment>)
    ensures
        segments@ == readable(attempts@),
{
    let mut segments: Vec<PathSegment> = Vec::new();
    let mut i: usize = 0;
    while i < attempts.len()
        invariant
            i <= attempts.len(),
            segments@ == readable(attempts@.take(i as int)),
        decreases attempts.len() - i,
    {
        proof {
            assert(attempts@.take(i + 1).drop_last() =~= attempts@.take(i as int));
        }
        match attempts[i] {
            Some(segment) => segments.push(segment),
            None => {},
        }
        i = i + 1;
    }
    proof {
        assert(attempts@.take(i as int) =~= attempts@);
    }
    segments
}

/// Reads the instructions of a path. One that cannot be read is left out;
/// the others stay, in their order.
pub fn extract(data: &str) -> (segments: Vec<PathSegment>)
    ensures
        segments@ == readable(path_attempts(data@)),
{
    let attempts = parse_attempts(data);
    keep_readable(&attempts)
}

/// How a coordinate changes: not at all where the instruction has no value for
/// it, else to the value of an absolute instruction, or by the value of a
/// relative one.
pub open spec fn axis_of(absolute: bool, value: Option<u64>) -> Axis {
    match value {
        None => Axis::Keep,
        Some(v) => if absolute {
            Axis::Place(v)
        } else {
            Axis::Shift(v)
        },
    }
}

/// Decides how an instruction changes the two coordinates of the running
/// point, from whether it is absolute and from the values it carries.
pub fn update_abs_x_y(abs: bool, x: Option<u64>, y: Option<u64>) -> (change: (Axis, Axis))
    ensures
        change == (axis_of(abs, x), axis_of(abs, y)),
{
    match (abs, x, y) {
        (true, Some(x), Some(y)) => (Axis::Place(x), Axis::Place(y)),
        (true, Some(x), None) => (Axis::Place(x), Axis::Keep),
        (true, None, Some(y)) => (Axis::Keep, Axis::Place(y)),
        (false, Some(x), Some(y)) => (Axis::Shift(x), Axis::Shift(y)),
        (false, Some(x), None) => (Axis::Shift(x), Axis::Keep),
        (false, None, Some(y)) => (Axis::Keep, Axis::Shift(y)),
        (_, None, None) => (Axis::Keep, Axis::Keep),
    }
}

/// The step that an instruction stands for; none for an instruction that is
/// not drawn.
pub open spec fn step_of(segment: PathSegment) -> Option<Step> {
    match segment {
        PathSegment::MoveTo { absolute, x, y } => Some(
            Step { stroke: Stroke::Move, x: axis_of(absolute, Some(x)), y: axis_of(absolute, Some(y)) },
        ),
        PathSegment::LineTo { absolute, x, y } => Some(
            Step { stroke: Stroke::Line, x: axis_of(absolute, Some(x)), y: axis_of(absolute, Some(y)) },
        ),
        PathSegment::HorizontalLineTo { absolute, x } => Some(
            Step { stroke: Stroke::Line, x: axis_of(absolute, Some(x)), y: Axis::Keep },
        ),
        PathSegment::VerticalLineTo { absolute, y } => Some(
            Step { stroke: Stroke::Line, x: Axis::Keep, y: axis_of(absolute, Some(y)) },
        ),
        PathSegment::ClosePath => Some(Step { stroke: Stroke::Close, x: Axis::Keep, y: Axis::Keep }),
        PathSegment::Other => None,
    }
}

/// The steps of a path: one for each instruction that is drawn, in order.
pub open spec fn steps(segments: Seq<PathSegment>) -> Seq<Step>
    decreases segments.len(),
{
    if segments.len() == 0 {
        Seq::empty()
    } else {
        let front = steps(segments.drop_last());
        match step_of(segments.last()) {
            Some(step) => front.push(step),
            None => front,
        }
    }
}

/// Turns the instructions of a path into its steps.
pub fn define_path(path_vec: &Vec<PathSegment>) -> (plan: Vec<Step>)
    ensures
        plan@ == steps(path_vec@),
{
    let mut plan: Vec<Step> = Vec::new();
    let mut i: usize = 0;
    while i < path_vec.len()
        invariant
            i <= path_vec.len(),
            plan@ == steps(path_vec@.take(i as int)),
        decreases path_vec.len() - i,
    {
        proof {
            assert(path_vec@.take(i + 1).drop_last() =~= path_vec@.take(i as int));
        }
        match path_vec[i] {
            PathSegment::MoveTo { absolute, x, y } => {
                let (cx, cy) = update_abs_x_y(absolute, Some(x), Some(y));
                plan.push(Step { stroke: Stroke::Move, x: cx, y: cy });
            },
            PathSegment::LineTo { absolute, x, y } => {
                let (cx, cy) = update_abs_x_y(absolute, Some(x), Some(y));
                plan.push(Step { stroke: Stroke::Line, x: cx, y: cy });
            },
            PathSegment::HorizontalLineTo { absolute, x } => {
                let (cx, cy) = update_abs_x_y(absolute, Some(x), None);
                plan.push(Step { stroke: Stroke::Line, x: cx, y: cy });
            },
            PathSegment::VerticalLineTo { absolute, y } => {
                let (cx, cy) = update_abs_x_y(absolute, None, Some(y));
                plan.push(Step { stroke: Stroke::Line, x: cx, y: cy });
            },
            PathSegment::ClosePath => {
                plan.push(Step { stroke: Stroke::Close, x: Axis::Keep, y: Axis::Keep });
            },
            PathSegment::Other => {},
        }
        i = i + 1;
    }
    proof {
        assert(path_vec@.take(i as int) =~= path_vec@);
    }
    plan
}

/// Whether `after` is what `axis` makes of the coordinate `before`, sums being
/// taken by `sum` with the offset as its first operand.
pub open spec fn moved<F: Fn(u64, u64) -> u64>(sum: F, axis: Axis, before: u64, after: u64) -> bool {
    match axis {
        Axis::Keep => after == before,
        Axis::Place(v) => after == v,
        Axis::Shift(d) => call_ensures(sum, (d, before), after),
    }
}

/// The running point before command `i`: the start for the first, else the
/// point of the command before.
pub open spec fn point_before(start_x: u64, start_y: u64, commands: Seq<Command>, i: int) -> (u64, u64) {
    if i <= 0 {
        (start_x, start_y)
    } else {
        (commands[i - 1].x, commands[i - 1].y)
    }
}

/// Whether `commands` is the path `plan` drawn from the given start: one
/// command for each step, with its stroke, at the point that the step makes
/// of the point before.
pub open spec fn is_resolution<F: Fn(u64, u64) -> u64>(
    sum: F,
    plan: Seq<Step>,
    start_x: u64,
    start_y: u64,
    commands: Seq<Command>,
) -> bool {
    &&& commands.len() == plan.len()
    &&& forall|i: int|
        #![trigger commands[i]]
        0 <= i < plan.len() ==> {
            &&& commands[i].stroke == plan[i].stroke
            &&& moved(sum, plan[i].x, point_before(start_x, start_y, commands, i).0, commands[i].x)
            &&& moved(sum, plan[i].y, point_before(start_x, start_y, commands, i).1, commands[i].y)
        }
}

/// Applies a change to one coordinate.
pub fn move_axis<F: Fn(u64, u64) -> u64>(sum: &F, axis: Axis, before: u64) -> (after: u64)
    requires
        forall|a: u64, b: u64| call_requires(*sum, (a, b)),
    ensures
        moved(*sum, axis, before, after),
{
    match axis {
        Axis::Keep => before,
        Axis::Place(v) => v,
        Axis::Shift(d) => sum(d, before),
    }
}

/// Resolves the instructions of a path into drawing commands in absolute
/// coordinates, starting with the running point at (`start_x`, `start_y`).
/// The running point lives in this call only.
pub fn resolve_absolute<F: Fn(u64, u64) -> u64>(
    segments: &Vec<PathSegment>,
    start_x: u64,
    start_y: u64,
    sum: &F,
) -> (commands: Vec<Command>)
    requires
        forall|a: u64, b: u64| call_requires(*sum, (a, b)),
    ensures
        is_resolution(*sum, steps(segments@), start_x, start_y, commands@),
{
    let plan = define_path(segments);
    let mut commands: Vec<Command> = Vec::new();
    let mut abs_x: u64 = start_x;
    let mut abs_y: u64 = start_y;
    let mut i: usize = 0;
    while i < plan.len()
        invariant
            i <= plan.len(),
            plan@ == steps(segments@),
            forall|a: u64, b: u64| call_requires(*sum, (a, b)),
            is_resolution(*sum, plan@.take(i as int), start_x, start_y, commands@),
            (abs_x, abs_y) == point_before(start_x, start_y, commands@, i as int),
        decreases plan.len() - i,
    {
        let step = plan[i];
        let ghost before = commands@;
        abs_x = move_axis(sum, step.x, abs_x);
        abs_y = move_axis(sum, step.y, abs_y);
        commands.push(Command { stroke: step.stroke, x: abs_x, y: abs_y });
        proof {
            assert forall|k: int| 0 <= k < i + 1 implies {
                &&& (#[trigger] commands@[k]).stroke == plan@.take(i + 1)[k].stroke
                &&& moved(*sum, plan@.take(i + 1)[k].x, point_before(start_x, start_y, commands@, k).0, commands@[k].x)
                &&& moved(*sum, plan@.take(i + 1)[k].y, point_before(start_x, start_y, commands@, k).1, commands@[k].y)
            } by {
                if k < i {
                    assert(commands@[k] == before[k]);
                    assert(point_before(start_x, start_y, commands@, k) == point_before(start_x, start_y, before, k));
                    assert(plan@.take(i + 1)[k] == plan@.take(i as int)[k]);
                }
            }
        }
        i = i + 1;
    }
    proof {
        assert(plan@.take(i as int) =~= plan@);
    }
    commands
}

/// The steps of two runs of instructions, one after the other, are the steps
/// of the first followed by those of the second.
pub proof fn lemma_steps_of_concatenation(first: Seq<PathSegment>, second: Seq<PathSegment>)
    ensures
        steps(first + second) == steps(first) + steps(second),
    decreases second.len(),
{
    if second.len() == 0 {
        assert(first + second =~= first);
        assert(steps(first) + steps(second) =~= steps(first));
    } else {
        assert((first + second).drop_last() =~= first + second.drop_last());
        assert((first + second).last() == second.last());
        lemma_steps_of_concatenation(first, second.drop_last());
        assert(steps(first + second) =~= steps(first) + steps(second));
    }
}

/// An instruction that is not a straight line, standing anywhere in a path,
/// adds no step: the path resolves as if it were not there, so the running
/// point that the next instruction meets is the one that the instruction
/// before left.
pub proof fn lemma_other_is_skipped(before: Seq<PathSegment>, after: Seq<PathSegment>)
    ensures
        steps(before + seq![PathSegment::Other] + after) == steps(before + after),
{
    let middle = seq![PathSegment::Other];
    lemma_steps_of_concatenation(before, middle);
    lemma_steps_of_concatenation(before + middle, after);
    lemma_steps_of_concatenation(before, after);
    assert(middle.drop_last() =~= Seq::<PathSegment>::empty());
    assert(steps(middle.drop_last()) =~= Seq::<Step>::empty());
    assert(steps(middle) =~= Seq::<Step>::empty());
    assert(steps(before) + steps(middle) =~= steps(before));
}

/// Whether `sum` gives one result for each pair of operands.
pub open spec fn single_valued<F: Fn(u64, u64) -> u64>(sum: F) -> bool {
    forall|a: u64, b: u64, r: u64, s: u64|
        call_ensures(sum, (a, b), r) && call_ensures(sum, (a, b), s) ==> r == s
}

/// Two resolutions of one path from one start agree on their first `n`
/// commands.
proof fn lemma_resolutions_share_prefix<F: Fn(u64, u64) -> u64>(
    sum: F,
    plan: Seq<Step>,
    start_x: u64,
    start_y: u64,
    one: Seq<Command>,
    other: Seq<Command>,
    n: int,
)
    requires
        single_valued(sum),
        is_resolution(sum, plan, start_x, start_y, one),
        is_resolution(sum, plan, start_x, start_y, other),
        0 <= n <= plan.len(),
    ensures
        forall|i: int| 0 <= i < n ==> one[i] == other[i],
    decreases n,
{
    if n > 0 {
        lemma_resolutions_share_prefix(sum, plan, start_x, start_y, one, other, n - 1);
        let k = n - 1;
        assert(one[k].stroke == plan[k].stroke);
        assert(other[k].stroke == plan[k].stroke);
        assert(point_before(start_x, start_y, one, k) == point_before(start_x, start_y, other, k));
        assert(one[k].x == other[k].x);
        assert(one[k].y == other[k].y);
    }
}

/// Resolving the same instructions twice from the same start gives the same
/// commands, whenever the sum that is handed in gives one result for each
/// pair of operands: nothing is carried over from one call to the next.
pub proof fn lemma_resolution_is_unique<F: Fn(u64, u64) -> u64>(
    sum: F,
    segments: Seq<PathSegment>,
    start_x: u64,
    start_y: u64,
    one: Seq<Command>,
    other: Seq<Command>,
)
    requires
        single_valued(sum),
        is_resolution(sum, steps(segments), start_x, start_y, one),
        is_resolution(sum, steps(segments), start_x, start_y, other),
    ensures
        one == other,
{
    lemma_resolutions_share_prefix(sum, steps(segments), start_x, start_y, one, other, steps(segments).len() as int);
    assert(one =~= other);
}

} // verus!
