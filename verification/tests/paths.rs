use map_drawer::path::{
    define_path, extract, keep_readable, move_axis, resolve_absolute, update_abs_x_y,
};
use map_drawer::{Axis, Command, PathSegment, Step, Stroke};

fn bits(v: f64) -> u64 {
    v.to_bits()
}

fn sum(a: u64, b: u64) -> u64 {
    (f64::from_bits(a) + f64::from_bits(b)).to_bits()
}

fn points(commands: &Vec<Command>) -> Vec<(Stroke, f64, f64)> {
    commands.iter().map(|c| (c.stroke, f64::from_bits(c.x), f64::from_bits(c.y))).collect()
}

#[test]
fn extract_reads_every_kind_of_line() {
    let segments = extract("M 10 10 l 5 0 v 5 h -5 z");
    assert_eq!(
        segments,
        vec![
            PathSegment::MoveTo { absolute: true, x: bits(10.0), y: bits(10.0) },
            PathSegment::LineTo { absolute: false, x: bits(5.0), y: bits(0.0) },
            PathSegment::VerticalLineTo { absolute: false, y: bits(5.0) },
            PathSegment::HorizontalLineTo { absolute: false, x: bits(-5.0) },
            PathSegment::ClosePath,
        ]
    );
}

#[test]
fn extract_keeps_curves_in_place_as_other() {
    let segments = extract("M 1 2 C 1 2 3 4 5 6 L 7 8 Q 1 1 2 2 A 1 1 0 0 0 3 3 H 4 V 5 Z");
    assert_eq!(
        segments,
        vec![
            PathSegment::MoveTo { absolute: true, x: bits(1.0), y: bits(2.0) },
            PathSegment::Other,
            PathSegment::LineTo { absolute: true, x: bits(7.0), y: bits(8.0) },
            PathSegment::Other,
            PathSegment::Other,
            PathSegment::HorizontalLineTo { absolute: true, x: bits(4.0) },
            PathSegment::VerticalLineTo { absolute: true, y: bits(5.0) },
            PathSegment::ClosePath,
        ]
    );
}

#[test]
fn extract_of_empty_data_is_empty() {
    assert_eq!(extract(""), vec![]);
    assert_eq!(extract("   "), vec![]);
}

#[test]
fn extract_drops_what_cannot_be_read() {
    let segments = extract("M 10 10 L 20 20 L oops");
    assert_eq!(
        segments,
        vec![
            PathSegment::MoveTo { absolute: true, x: bits(10.0), y: bits(10.0) },
            PathSegment::LineTo { absolute: true, x: bits(20.0), y: bits(20.0) },
        ]
    );
    assert_eq!(extract("10 10"), vec![]);
}

#[test]
fn keep_readable_filters_in_order() {
    let attempts = vec![
        Some(PathSegment::ClosePath),
        None,
        Some(PathSegment::Other),
        None,
        Some(PathSegment::HorizontalLineTo { absolute: true, x: 7 }),
    ];
    assert_eq!(
        keep_readable(&attempts),
        vec![
            PathSegment::ClosePath,
            PathSegment::Other,
            PathSegment::HorizontalLineTo { absolute: true, x: 7 },
        ]
    );
    assert_eq!(keep_readable(&vec![None, None]), vec![]);
}

#[test]
fn update_covers_every_combination() {
    assert_eq!(update_abs_x_y(true, Some(1), Some(2)), (Axis::Place(1), Axis::Place(2)));
    assert_eq!(update_abs_x_y(true, Some(1), None), (Axis::Place(1), Axis::Keep));
    assert_eq!(update_abs_x_y(true, None, Some(2)), (Axis::Keep, Axis::Place(2)));
    assert_eq!(update_abs_x_y(false, Some(1), Some(2)), (Axis::Shift(1), Axis::Shift(2)));
    assert_eq!(update_abs_x_y(false, Some(1), None), (Axis::Shift(1), Axis::Keep));
    assert_eq!(update_abs_x_y(false, None, Some(2)), (Axis::Keep, Axis::Shift(2)));
    assert_eq!(update_abs_x_y(true, None, None), (Axis::Keep, Axis::Keep));
    assert_eq!(update_abs_x_y(false, None, None), (Axis::Keep, Axis::Keep));
}

#[test]
fn define_path_gives_one_step_per_drawn_instruction() {
    let segments = vec![
        PathSegment::MoveTo { absolute: true, x: 1, y: 2 },
        PathSegment::Other,
        PathSegment::HorizontalLineTo { absolute: false, x: 3 },
        PathSegment::VerticalLineTo { absolute: true, y: 4 },
        PathSegment::LineTo { absolute: false, x: 5, y: 6 },
        PathSegment::ClosePath,
    ];
    assert_eq!(
        define_path(&segments),
        vec![
            Step { stroke: Stroke::Move, x: Axis::Place(1), y: Axis::Place(2) },
            Step { stroke: Stroke::Line, x: Axis::Shift(3), y: Axis::Keep },
            Step { stroke: Stroke::Line, x: Axis::Keep, y: Axis::Place(4) },
            Step { stroke: Stroke::Line, x: Axis::Shift(5), y: Axis::Shift(6) },
            Step { stroke: Stroke::Close, x: Axis::Keep, y: Axis::Keep },
        ]
    );
    assert_eq!(define_path(&vec![]), vec![]);
    assert_eq!(define_path(&vec![PathSegment::Other, PathSegment::Other]), vec![]);
}

#[test]
fn relative_instructions_resolve_to_absolute_points() {
    let segments = extract("M 10 10 l 5 0 v 5 h -5 z");
    let commands = resolve_absolute(&segments, bits(0.0), bits(0.0), &sum);
    assert_eq!(
        points(&commands),
        vec![
            (Stroke::Move, 10.0, 10.0),
            (Stroke::Line, 15.0, 10.0),
            (Stroke::Line, 15.0, 15.0),
            (Stroke::Line, 10.0, 15.0),
            (Stroke::Close, 10.0, 15.0),
        ]
    );
}

#[test]
fn relative_move_starts_from_the_given_start() {
    let segments = extract("m 1 2 l 3 4");
    let from_origin = resolve_absolute(&segments, bits(0.0), bits(0.0), &sum);
    assert_eq!(points(&from_origin), vec![(Stroke::Move, 1.0, 2.0), (Stroke::Line, 4.0, 6.0)]);
    let from_elsewhere = resolve_absolute(&segments, bits(100.0), bits(-50.0), &sum);
    assert_eq!(points(&from_elsewhere), vec![(Stroke::Move, 101.0, -48.0), (Stroke::Line, 104.0, -44.0)]);
}

#[test]
fn absolute_lines_replace_one_coordinate_only() {
    let segments = extract("M 1 2 H 10 V 20 L 3 4");
    let commands = resolve_absolute(&segments, bits(0.0), bits(0.0), &sum);
    assert_eq!(
        points(&commands),
        vec![
            (Stroke::Move, 1.0, 2.0),
            (Stroke::Line, 10.0, 2.0),
            (Stroke::Line, 10.0, 20.0),
            (Stroke::Line, 3.0, 4.0),
        ]
    );
}

#[test]
fn a_curve_between_lines_is_skipped() {
    let with_curve = extract("M 10 10 L 20 10 c 1 2 3 4 50 60 l 5 5");
    assert_eq!(with_curve.len(), 4);
    assert_eq!(with_curve[2], PathSegment::Other);
    let without_curve = extract("M 10 10 L 20 10 l 5 5");
    let one = resolve_absolute(&with_curve, bits(0.0), bits(0.0), &sum);
    let other = resolve_absolute(&without_curve, bits(0.0), bits(0.0), &sum);
    assert_eq!(one, other);
    assert_eq!(
        points(&one),
        vec![(Stroke::Move, 10.0, 10.0), (Stroke::Line, 20.0, 10.0), (Stroke::Line, 25.0, 15.0)]
    );
}

#[test]
fn resolving_twice_gives_the_same_commands() {
    let segments = extract("M 0.5 0.25 l 1.5 2 h 3 v -4 z l 1 1");
    let first = resolve_absolute(&segments, bits(0.0), bits(0.0), &sum);
    let second = resolve_absolute(&segments, bits(0.0), bits(0.0), &sum);
    assert_eq!(first, second);
    assert_eq!(first.len(), 6);
    assert_eq!(points(&first)[5], (Stroke::Line, 6.0, -0.75));
}

#[test]
fn resolving_nothing_gives_nothing() {
    assert_eq!(resolve_absolute(&vec![], 0, 0, &sum), vec![]);
}

#[test]
fn move_axis_keeps_places_or_shifts() {
    assert_eq!(move_axis(&sum, Axis::Keep, bits(3.0)), bits(3.0));
    assert_eq!(move_axis(&sum, Axis::Place(bits(7.5)), bits(3.0)), bits(7.5));
    assert_eq!(move_axis(&sum, Axis::Shift(bits(7.5)), bits(3.0)), bits(10.5));
    assert_eq!(move_axis(&sum, Axis::Shift(bits(-7.5)), bits(3.0)), bits(-4.5));
}
