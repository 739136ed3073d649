use gerber_plotter::parser::{
    Cmd, Decimal, GerberCommand, GerberReader, Unit,
};
use gerber_plotter::plotter::plotter::{PlotError, Plotter};
use gerber_plotter::plotter::raw_path::{RawPath, RawPathElement};
use gerber_plotter::plotter::{CircularDirection, Path, PathType, Point, RawArc, Segment};

fn dec(mantissa: i64, scale: usize) -> Decimal {
    Decimal { mantissa, scale }
}

fn pt(x: i64, y: i64) -> Point {
    Point { x: dec(x, 4), y: dec(y, 4) }
}

fn plot(text: &str) -> Result<Plotter, PlotError> {
    let mut plotter = Plotter::new();
    for step in GerberReader::new(text).commands().unwrap() {
        match step {
            Cmd::One(command) => plotter.consume(command)?,
            Cmd::Many(commands) => {
                for command in commands {
                    plotter.consume(command)?;
                }
            }
        }
    }
    Ok(plotter)
}

const HEADER: &str = "%MOMM*%\n%FSLAX34Y34*%\n%ADD10C,0.152400*%\n%ADD11R,0.800000X1.200000*%\nG01*\n";

#[test]
fn a_stroke_with_a_circle_is_collected_as_one_path() {
    let text = format!("{}D10*\nX10000Y20000D02*\nX30000D01*\nY-5000D01*\nM02*\n", HEADER);
    let mut plotter = plot(&text).unwrap();
    assert_eq!(plotter.get_units(), Unit::Millimeters);
    let paths = plotter.get_result();
    assert_eq!(paths.len(), 1);
    assert_eq!(paths[0].tp, PathType::Circle(dec(762000, 7)));
    assert_eq!(
        paths[0].elements,
        vec![
            Segment::Line { from: pt(10000, 20000), to: pt(30000, 20000) },
            Segment::Line { from: pt(30000, 20000), to: pt(30000, -5000) },
        ]
    );
    assert!(!paths[0].is_locked());
}

#[test]
fn a_move_ends_a_path_and_a_path_without_elements_is_dropped() {
    let text = format!(
        "{}D11*\nX0Y0D02*\nX10000D01*\nX5000Y5000D02*\nX6000Y6000D02*\nY7000D01*\nX1Y1D02*\n",
        HEADER
    );
    let paths = plot(&text).unwrap().get_result();
    assert_eq!(paths.len(), 2);
    assert_eq!(paths[0].tp, PathType::Rect(dec(800000, 6), dec(1200000, 6)));
    assert_eq!(paths[0].elements, vec![Segment::Line { from: pt(0, 0), to: pt(10000, 0) }]);
    assert_eq!(
        paths[1].elements,
        vec![Segment::Line { from: pt(6000, 6000), to: pt(6000, 7000) }]
    );
}

#[test]
fn contour_mode_collects_outlines_with_arcs() {
    let text = format!(
        "{}G36*\nX0Y0D02*\nX10000D01*\nG75*\nG03*\nX0Y10000I-10000J0D01*\nG01*\nX0Y0D01*\nG37*\n",
        HEADER
    );
    let paths = plot(&text).unwrap().get_result();
    assert_eq!(paths.len(), 1);
    assert_eq!(paths[0].tp, PathType::Stroke);
    assert_eq!(paths[0].elements.len(), 3);
    assert_eq!(
        paths[0].elements[1],
        Segment::Arc {
            from: pt(10000, 0),
            arc: RawArc {
                to: pt(0, 10000),
                dir: CircularDirection::CCW,
                i: Some(dec(-10000, 4)),
                j: Some(dec(0, 4)),
            },
            single_quadrant: false,
        }
    );
    assert!(paths[0].is_locked());
}

#[test]
fn the_selected_tool_goes_back_to_the_table() {
    let text = format!("{}D10*\nD11*\nD10*\nX0Y0D02*\nX1D01*\n", HEADER);
    let paths = plot(&text).unwrap().get_result();
    assert_eq!(paths.len(), 1);
    assert_eq!(paths[0].tp, PathType::Circle(dec(762000, 7)));
}

#[test]
fn selecting_the_selected_tool_again_keeps_it() {
    let text = format!("{}D10*\nX0Y0D02*\nX1D01*\nD10*\nX5D02*\nY5D01*\n", HEADER);
    let paths = plot(&text).unwrap().get_result();
    assert_eq!(paths.len(), 2);
    assert_eq!(paths[0].tp, PathType::Circle(dec(762000, 7)));
    assert_eq!(paths[1].tp, PathType::Circle(dec(762000, 7)));
}

#[test]
fn each_malformed_state_has_its_error() {
    assert_eq!(plot("X100Y100D02*\n").err(), Some(PlotError::FormatNotSet));
    assert_eq!(plot(&format!("{}D12*\n", HEADER)).err(), Some(PlotError::ApertureNotFound));
    assert_eq!(plot(&format!("{}X1Y1D02*\n", HEADER)).err(), Some(PlotError::ApertureNotSelected));
    assert_eq!(plot(&format!("{}X1Y1D01*\n", HEADER)).err(), Some(PlotError::ApertureNotSelected));
    assert_eq!(
        plot("%FSLAX34Y34*%\n%ADD10C,0.1*%\nD10*\nX1Y1D02*\nX2D01*\n").err(),
        Some(PlotError::InterpolationNotSet)
    );
    assert_eq!(
        plot("%FSLAX34Y34*%\n%ADD10C,9000000000000000000*%\nD10*\nX1Y1D02*\n").err(),
        Some(PlotError::NumberOutOfRange)
    );

    let mut plotter = Plotter::new();
    plotter
        .consume(GerberCommand::FormatSpecification(gerber_plotter::parser::FormatSpecification {
            x: gerber_plotter::parser::NumberSpec { integer: 3, rational: 4 },
            y: gerber_plotter::parser::NumberSpec { integer: 3, rational: 4 },
        }))
        .unwrap();
    assert_eq!(
        plotter.consume(GerberCommand::Coordinate {
            coord: gerber_plotter::parser::Coordinate::X,
            value: "1-2".into()
        }),
        Err(PlotError::BadCoordinate)
    );
}

#[test]
fn units_default_to_inches_and_are_given_up() {
    let mut plotter = Plotter::new();
    assert_eq!(plotter.get_units(), Unit::Inches);
    plotter.consume(GerberCommand::Unit(Unit::Millimeters)).unwrap();
    assert_eq!(plotter.get_units(), Unit::Millimeters);
    assert_eq!(plotter.get_units(), Unit::Inches);
}

#[test]
fn an_interpolation_without_a_move_starts_at_the_origin() {
    let text = format!("{}D10*\nX10000Y20000D01*\n", HEADER);
    let paths = plot(&text).unwrap().get_result();
    assert_eq!(paths.len(), 1);
    assert_eq!(
        paths[0].elements,
        vec![Segment::Line {
            from: Point { x: dec(0, 0), y: dec(0, 0) },
            to: pt(10000, 20000)
        }]
    );
}

#[test]
fn raw_path_resolves_missing_coordinates_from_the_pen() {
    let mut raw = RawPath::start(PathType::Stroke);
    raw.push(RawPathElement::Start { x: Some(dec(5, 0)), y: None });
    raw.push(RawPathElement::Linear { x: None, y: Some(dec(7, 0)) });
    raw.push(RawPathElement::SingleQuadrant {
        x: Some(dec(9, 0)),
        y: None,
        i: Some(dec(2, 0)),
        j: None,
        dir: CircularDirection::CW,
    });
    let path = Path::from_raw(raw);
    let start = Point { x: dec(5, 0), y: dec(0, 0) };
    let corner = Point { x: dec(5, 0), y: dec(7, 0) };
    assert_eq!(
        path.elements,
        vec![
            Segment::Line { from: start, to: corner },
            Segment::Arc {
                from: corner,
                arc: RawArc {
                    to: Point { x: dec(9, 0), y: dec(7, 0) },
                    dir: CircularDirection::CW,
                    i: Some(dec(2, 0)),
                    j: None,
                },
                single_quadrant: true,
            },
        ]
    );
    assert_eq!(path.elements[0].start(), start);
    assert_eq!(path.elements[1].end(), Point { x: dec(9, 0), y: dec(7, 0) });
}

#[test]
fn a_path_is_locked_when_it_ends_where_it_starts_however_written() {
    let a = Point { x: dec(0, 0), y: dec(0, 0) };
    let b = Point { x: dec(10, 1), y: dec(5, 0) };
    let a_again = Point { x: dec(0, 4), y: dec(0, 2) };
    let mut path = Path::new(PathType::Stroke);
    assert!(path.is_empty());
    assert!(!path.is_locked());
    path.add(Segment::Line { from: a, to: b });
    assert!(!path.is_locked());
    path.add(Segment::Line { from: b, to: a_again });
    assert!(path.is_locked());
    assert!(b.coincides(Point { x: dec(1, 0), y: dec(50, 1) }));
    assert!(!b.coincides(a));
    assert_eq!(Path::stroke(vec![]).tp, PathType::Stroke);
}

#[test]
fn an_obround_is_swept_as_its_box_and_a_polygon_as_a_circle() {
    let text = "%FSLAX34Y34*%\n%ADD10O,0.5X0.25*%\n%ADD11P,0.8X6X0*%\nG01*\nD10*\nX0Y0D02*\nX1D01*\nD11*\nX0Y0D02*\nX1D01*\n";
    let paths = plot(text).unwrap().get_result();
    assert_eq!(paths.len(), 2);
    assert_eq!(paths[0].tp, PathType::Rect(dec(5, 1), dec(25, 2)));
    assert_eq!(paths[1].tp, PathType::Circle(dec(40, 2)));
}
