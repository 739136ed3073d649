use gerber_plotter::parser::{
    Aperture, ApertureTemplatePrimitive, Circle, Cmd, Coordinate, Decimal, ErrorKind,
    GerberCommand, GerberError, GerberReader, OperationType, Rect,
};

#[test]
fn read_several_aperture_extended_commands() {
    let cmds = "%AMOC8*\n5,1,8,0,0,1.08239X$1,22.5*%\nG01*\n\n%ADD10R,0.800000X-1.200000*%\n%ADD11C,0.152400*%\n";

    let iter = GerberReader::new(cmds);
    let result = iter.commands().unwrap();

    assert_eq!(
        result[0],
        Cmd::One(GerberCommand::ApertureMacro(String::from(
            "OC8*\n5,1,8,0,0,1.08239X$1,22.5*"
        )))
    );
    assert_eq!(
        result[2],
        Cmd::One(GerberCommand::ApertureDefinition(Aperture {
            name: String::from("10"),
            template: ApertureTemplatePrimitive::R(Rect {
                width: Decimal { mantissa: 800000, scale: 6 },
                height: Decimal { mantissa: -1200000, scale: 6 },
                hole_diameter: None
            })
        }))
    );
    assert_eq!(
        result[3],
        Cmd::One(GerberCommand::ApertureDefinition(Aperture {
            name: String::from("11"),
            template: ApertureTemplatePrimitive::C(Circle {
                diameter: Decimal { mantissa: 152400, scale: 6 },
                hole_diameter: None
            })
        }))
    );
}

#[test]
fn read_comment() {
    let comment = "G04 EAGLE Gerber RS-274X export*\n";
    let mut iter = GerberReader::new(comment);
    let r = iter.next();
    let r = r.unwrap().unwrap();
    if let Cmd::Many(v) = r {
        assert_eq!(v[0], GerberCommand::Comment(String::from("EAGLE Gerber RS-274X export")));
    } else {
        panic!("wrong");
    }
}

#[test]
fn read_operation() {
    let cmds = "X02Y01D03*";
    let mut iter = GerberReader::new(cmds);
    let c = iter.next().unwrap().unwrap();
    if let Cmd::Many(v) = c {
        assert_eq!(v[0], GerberCommand::Coordinate { coord: Coordinate::X, value: "02".into() });
        assert_eq!(v[1], GerberCommand::Coordinate { coord: Coordinate::Y, value: "01".into() });
        assert_eq!(v[2], GerberCommand::Operation(OperationType::Flash));
    } else {
        panic!("wrong");
    }
}

#[test]
fn reader_ends_with_none_and_stays_at_a_failure() {
    let mut reader = GerberReader::new("G01*\nnonsense");
    assert_eq!(reader.position(), 0);
    assert!(matches!(reader.next(), Some(Ok(Cmd::Many(_)))));
    assert_eq!(reader.position(), 5);
    let first = reader.next();
    assert_eq!(reader.position(), 5);
    assert_eq!(first, Some(Err(GerberError::Syntax(5, ErrorKind::Char))));
    assert_eq!(reader.next(), first);

    let mut done = GerberReader::new("M02*");
    assert_eq!(done.next(), Some(Ok(Cmd::Many(vec![GerberCommand::Stop]))));
    assert_eq!(done.next(), None);
}
