use gerber_plotter::parser::blocks::{
    coordinate_data, d_command, g_command, read_block,
};
use gerber_plotter::parser::extended::{
    aperture_definition, aperture_macro, aperture_template_definition, format_specification,
    unit_command,
};
use gerber_plotter::parser::text::to_chars;
use gerber_plotter::parser::{
    simple_command_block, Aperture, ApertureTemplatePrimitive, Circle, Cmd, Coordinate, Decimal,
    FormatSpecification, GerberCommand, GerberError, Interpolation, NumberSpec, OperationType,
    Rect, Unit,
};

fn dec(mantissa: i64, scale: usize) -> Decimal {
    Decimal { mantissa, scale }
}

fn as_f32(d: Decimal) -> f32 {
    format!("{}e-{}", d.mantissa, d.scale).parse::<f32>().unwrap()
}

#[test]
fn coords_data_command() {
    let cmd = to_chars("X-500");
    let (_, result) = coordinate_data(&cmd, 0).unwrap();

    assert_eq!(
        result,
        GerberCommand::Coordinate { coord: Coordinate::X, value: "-500".into() }
    );
}

#[test]
fn operation_command() {
    let cmd = to_chars("D01*");
    let (_, result) = d_command(&cmd, 0).unwrap();

    assert_eq!(result, GerberCommand::Operation(OperationType::Interpolation));
}

#[test]
fn test_format() {
    let command = to_chars("%FSLAX34Y34*%");
    let (_, r) = format_specification(&command, 0).unwrap();
    assert_eq!(
        r,
        GerberCommand::FormatSpecification(FormatSpecification {
            x: NumberSpec { integer: 3, rational: 4 },
            y: NumberSpec { integer: 3, rational: 4 }
        })
    );
}

#[test]
fn read_aperture_macro() {
    let cmds = to_chars(
        "%AMOC8*\n5,1,8,0,0,1.08239X$1,22.5*%\nG01*\n%ADD10R,0.800000X1.200000*%\n%ADD11C,0.152400*%\n",
    );

    let (_, cmd) = aperture_macro(&cmds, 0).unwrap();

    assert_eq!(
        cmd,
        GerberCommand::ApertureMacro(String::from("OC8*\n5,1,8,0,0,1.08239X$1,22.5*"))
    );
}

#[test]
fn read_aperture_def() {
    let cmds = to_chars("%ADD10R,0.800000X1.200000*%\n%ADD11C,0.152400*%\n");

    let (_, cmd) = aperture_definition(&cmds, 0).unwrap();

    assert_eq!(
        cmd,
        GerberCommand::ApertureDefinition(Aperture {
            name: String::from("10"),
            template: ApertureTemplatePrimitive::R(Rect {
                width: dec(800000, 6),
                height: dec(1200000, 6),
                hole_diameter: None
            })
        })
    );
    if let GerberCommand::ApertureDefinition(Aperture {
        template: ApertureTemplatePrimitive::R(r),
        ..
    }) = cmd
    {
        assert_eq!(as_f32(r.width), 0.8);
        assert_eq!(as_f32(r.height), 1.2);
    } else {
        panic!("wrong");
    }
}

#[test]
fn read_simple_command() {
    let comment = "G04 EAGLE Gerber RS-274X export*\n";
    let code = "G75*\n";
    if let (_, Cmd::Many(commands)) = simple_command_block(comment).unwrap() {
        if let (_, Cmd::Many(code)) = simple_command_block(code).unwrap() {
            assert_eq!(code[0], GerberCommand::Interpolation(Interpolation::MultiQuadrant));
            assert_eq!(
                commands[0],
                GerberCommand::Comment(String::from("EAGLE Gerber RS-274X export"))
            );
            return;
        }
    }
    panic!("wrong");
}

#[test]
fn read_g01() {
    let input = to_chars("G01*");
    let (_, item) = g_command(&input, 0).unwrap();
    assert_eq!(item, GerberCommand::Interpolation(Interpolation::Linear));
}

#[test]
fn read_g02() {
    let input = to_chars("G02*");
    let (_, item) = g_command(&input, 0).unwrap();
    assert_eq!(item, GerberCommand::ClockWiseArc);
}

#[test]
fn read_g03() {
    let input = to_chars("G03*");
    let (_, item) = g_command(&input, 0).unwrap();
    assert_eq!(item, GerberCommand::CounterClockWiseArc);
}

#[test]
fn read_g74() {
    let input = to_chars("G74*");
    let (_, item) = g_command(&input, 0).unwrap();
    assert_eq!(item, GerberCommand::Interpolation(Interpolation::SingleQuadrant));
}

#[test]
fn read_g75() {
    let input = to_chars("G75*");
    let (_, item) = g_command(&input, 0).unwrap();
    assert_eq!(item, GerberCommand::Interpolation(Interpolation::MultiQuadrant));
}

#[test]
fn read_unit_command() {
    let input = to_chars("%MOMM*%");
    let (_, item) = unit_command(&input, 0).unwrap();
    assert_eq!(item, GerberCommand::Unit(Unit::Millimeters));
}

#[test]
fn read_incorrect() {
    let input = to_chars("G88*");
    let err = g_command(&input, 0).unwrap_err();
    assert_eq!(err, GerberError::IncorrectGCode);
}

#[test]
fn read_aperture() {
    let input1 = to_chars("O,0.800000X1.200000*");
    let input2 = to_chars("O,0.800000X1.200000X0.5*");
    let (_, ap) = aperture_template_definition(&input1, 0).unwrap();
    let (_, ap1) = aperture_template_definition(&input2, 0).unwrap();
    assert_eq!(
        ap,
        ApertureTemplatePrimitive::O(Rect {
            width: dec(800000, 6),
            height: dec(1200000, 6),
            hole_diameter: None
        })
    );
    assert_eq!(
        ap1,
        ApertureTemplatePrimitive::O(Rect {
            width: dec(800000, 6),
            height: dec(1200000, 6),
            hole_diameter: Some(dec(5, 1))
        })
    );
    if let ApertureTemplatePrimitive::O(r) = ap1 {
        assert_eq!(as_f32(r.width), 0.8);
        assert_eq!(as_f32(r.height), 1.2);
        assert_eq!(r.hole_diameter.map(as_f32), Some(0.5));
    }
}

#[test]
fn test_split() {
    let ns = NumberSpec { integer: 5, rational: 4 };
    let value = ns.parse("12345").unwrap();
    assert_eq!(value, dec(12345, 4));
    assert!((as_f32(value) - 1.2345f32).abs() <= std::f32::EPSILON);
}

#[test]
fn number_spec() {
    let ns = NumberSpec { integer: 3, rational: 4 };

    assert_eq!((as_f32(ns.parse("50000").unwrap()) - 5.0).abs() < f32::EPSILON, true);
    assert_eq!((as_f32(ns.parse("5000").unwrap()) - 0.5).abs() < f32::EPSILON, true);
    assert_eq!((as_f32(ns.parse("500").unwrap()) - 0.05).abs() < f32::EPSILON, true);
    assert_eq!((as_f32(ns.parse("50").unwrap()) - 0.005).abs() < f32::EPSILON, true);
    assert_eq!((as_f32(ns.parse("1").unwrap()) - 0.0001).abs() < f32::EPSILON, true);
}

#[test]
fn number_spec_rejects_what_is_no_number() {
    let ns = NumberSpec { integer: 3, rational: 4 };
    assert_eq!(ns.parse(""), None);
    assert_eq!(ns.parse("-"), None);
    assert_eq!(ns.parse("12-3"), None);
    assert_eq!(ns.parse("99999999999999999999"), None);
    assert_eq!(ns.parse("-42"), Some(dec(-42, 4)));
    assert_eq!(ns.parse("1.5"), Some(dec(15, 5)));
    assert_eq!(ns.parse("1e2"), Some(dec(100, 4)));
    assert_eq!(ns.parse("1e"), None);
}

#[test]
fn block_reports_position_of_what_is_missing() {
    let input = to_chars("G01Q*");
    assert_eq!(
        read_block(&input, 0),
        Err(GerberError::Syntax(3, gerber_plotter::parser::ErrorKind::Tag))
    );
}

#[test]
fn circle_aperture_with_hole() {
    let input = to_chars("C,0.152400X0.05*");
    let (end, ap) = aperture_template_definition(&input, 0).unwrap();
    assert_eq!(end, 15);
    assert_eq!(
        ap,
        ApertureTemplatePrimitive::C(Circle {
            diameter: dec(152400, 6),
            hole_diameter: Some(dec(5, 2))
        })
    );
}
