//! Reading the extended commands: the ones framed by `%`.

use super::blocks::{agrees, step_agrees};
use super::commands::{
    Aperture, ApertureTemplatePrimitive, Circle, Cmd, ErrorKind, ErrorView,
    FormatSpecification, GerberCommand, GerberError, ImagePolarity, NumberSpec, Polarity, Polygon,
    Rect, TemplateView, Unit,
};
use super::grammar;
use super::number::{is_digit_char, parse_number, scan_digits, Decimal};
use super::scan::{find_char, range_is, skip_spaces, tag};
use super::text::{to_chars, to_text};
use vstd::prelude::*;

verus! {

/// The frame of an extended command as it was found: where the payload
/// starts and ends, and where the command ends.
pub struct Frame {
    pub from: usize,
    pub to: usize,
    pub end: usize,
}

/// Reads `%`, `code`, a payload and `*%` at `pos`.
pub fn framed(s: &Vec<char>, pos: usize, code: &str) -> (read: Result<Frame, GerberError>)
    requires
        pos <= s@.len(),
    ensures
        match read {
            Ok(frame) => {
                &&& pos < frame.from <= frame.to < frame.end <= s@.len()
                &&& grammar::framed(s@, pos as int, code@) == Ok::<(int, Seq<char>), ErrorView>(
                    (frame.end as int, s@.subrange(frame.from as int, frame.to as int)),
                )
            },
            Err(e) => grammar::framed(s@, pos as int, code@) == Err::<(int, Seq<char>), ErrorView>(
                e@,
            ),
        },
{
    if !(pos < s.len() && s[pos] == '%') {
        return Err(GerberError::Syntax(pos, ErrorKind::Char));
    }
    if !tag(s, pos + 1, code) {
        return Err(GerberError::Syntax(pos + 1, ErrorKind::Tag));
    }
    let from = pos + 1 + code.unicode_len();
    let to = find_char(s, from, '*');
    proof {
        reveal_strlit("*%");
    }
    if !tag(s, to, "*%") || s.len() - to < 2 {
        return Err(GerberError::Syntax(to, ErrorKind::Tag));
    }
    Ok(Frame { from, to, end: to + 2 })
}

/// Reads the choice of the unit at `pos`.
pub fn unit_command(s: &Vec<char>, pos: usize) -> (read: Result<
    (usize, GerberCommand),
    GerberError,
>)
    requires
        pos <= s@.len(),
    ensures
        agrees(read, grammar::unit_command(s@, pos as int)),
        read is Ok ==> pos < read->Ok_0.0 <= s@.len(),
{
    match framed(s, pos, "MO") {
        Err(e) => Err(e),
        Ok(frame) => {
            if range_is(s, frame.from, frame.to, "MM") {
                Ok((frame.end, GerberCommand::Unit(Unit::Millimeters)))
            } else if range_is(s, frame.from, frame.to, "IN") {
                Ok((frame.end, GerberCommand::Unit(Unit::Inches)))
            } else {
                Err(GerberError::UnexpectedUnit)
            }
        },
    }
}

/// Reads the polarity of a level at `pos`.
pub fn level_polarity(s: &Vec<char>, pos: usize) -> (read: Result<
    (usize, GerberCommand),
    GerberError,
>)
    requires
        pos <= s@.len(),
    ensures
        agrees(read, grammar::level_polarity(s@, pos as int)),
        read is Ok ==> pos < read->Ok_0.0 <= s@.len(),
{
    match framed(s, pos, "LP") {
        Err(e) => Err(e),
        Ok(frame) => {
            if range_is(s, frame.from, frame.to, "D") {
                Ok((frame.end, GerberCommand::LevelPolarity(Polarity::Dark)))
            } else if range_is(s, frame.from, frame.to, "C") {
                Ok((frame.end, GerberCommand::LevelPolarity(Polarity::Clear)))
            } else {
                Err(GerberError::UnexpectedPolarity(to_text(s, frame.from, frame.to)))
            }
        },
    }
}

/// Reads the polarity of the image at `pos`.
pub fn image_polarity(s: &Vec<char>, pos: usize) -> (read: Result<
    (usize, GerberCommand),
    GerberError,
>)
    requires
        pos <= s@.len(),
    ensures
        agrees(read, grammar::image_polarity(s@, pos as int)),
        read is Ok ==> pos < read->Ok_0.0 <= s@.len(),
{
    match framed(s, pos, "IP") {
        Err(e) => Err(e),
        Ok(frame) => {
            if range_is(s, frame.from, frame.to, "POS") {
                Ok((frame.end, GerberCommand::ImagePolarity(ImagePolarity::Positive)))
            } else if range_is(s, frame.from, frame.to, "NEG") {
                Ok((frame.end, GerberCommand::ImagePolarity(ImagePolarity::Negative)))
            } else {
                Err(GerberError::UnexpectedPolarity(to_text(s, frame.from, frame.to)))
            }
        },
    }
}

/// Reads the name of the image at `pos`.
pub fn image_name(s: &Vec<char>, pos: usize) -> (read: Result<(usize, GerberCommand), GerberError>)
    requires
        pos <= s@.len(),
    ensures
        agrees(read, grammar::image_name(s@, pos as int)),
        read is Ok ==> pos < read->Ok_0.0 <= s@.len(),
{
    match framed(s, pos, "IN") {
        Err(e) => Err(e),
        Ok(frame) => Ok((frame.end, GerberCommand::ImageName(to_text(s, frame.from, frame.to)))),
    }
}

/// Reads an aperture macro at `pos`.
pub fn aperture_macro(s: &Vec<char>, pos: usize) -> (read: Result<
    (usize, GerberCommand),
    GerberError,
>)
    requires
        pos <= s@.len(),
    ensures
        agrees(read, grammar::aperture_macro(s@, pos as int)),
        read is Ok ==> pos < read->Ok_0.0 <= s@.len(),
{
    if !(pos < s.len() && s[pos] == '%') {
        return Err(GerberError::Syntax(pos, ErrorKind::Char));
    }
    proof {
        reveal_strlit("AM");
    }
    if !tag(s, pos + 1, "AM") || s.len() - pos < 3 {
        return Err(GerberError::Syntax(pos + 1, ErrorKind::Tag));
    }
    let from = pos + 3;
    let end = find_char(s, from, '%');
    if end < s.len() {
        Ok((end + 1, GerberCommand::ApertureMacro(to_text(s, from, end))))
    } else {
        Err(GerberError::Syntax(end, ErrorKind::Char))
    }
}

/// The digit `c` as a count.
fn digit_count(c: char) -> (count: usize)
    requires
        super::number::is_digit(c),
    ensures
        count == super::number::digit_value(c) as usize,
        count <= 9,
{
    (c as u32 - '0' as u32) as usize
}

/// Reads the coordinate formats of both axes at `pos`.
pub fn coordinate_spec(s: &Vec<char>, pos: usize) -> (read: Result<
    (usize, FormatSpecification),
    GerberError,
>)
    requires
        pos <= s@.len(),
    ensures
        match read {
            Ok((end, format)) => grammar::coordinate_spec(s@, pos as int) == Ok::<
                (int, FormatSpecification),
                ErrorView,
            >((end as int, format)) && end == pos + 6 <= s@.len(),
            Err(e) => grammar::coordinate_spec(s@, pos as int) == Err::<
                (int, FormatSpecification),
                ErrorView,
            >(e@),
        },
{
    let left = s.len() - pos;
    proof {
        reveal_strlit("X");
        reveal_strlit("Y");
    }
    if !tag(s, pos, "X") {
        return Err(GerberError::Syntax(pos, ErrorKind::Tag));
    }
    if left < 2 {
        return Err(GerberError::Syntax(pos + 1, ErrorKind::Eof));
    }
    if left < 3 {
        return Err(GerberError::Syntax(pos + 2, ErrorKind::Eof));
    }
    if !tag(s, pos + 3, "Y") {
        return Err(GerberError::Syntax(pos + 3, ErrorKind::Tag));
    }
    if left < 5 {
        return Err(GerberError::Syntax(pos + 4, ErrorKind::Eof));
    }
    if left < 6 {
        return Err(GerberError::Syntax(pos + 5, ErrorKind::Eof));
    }
    if !is_digit_char(s[pos + 1]) {
        return Err(GerberError::Syntax(pos + 1, ErrorKind::Digit));
    }
    if !is_digit_char(s[pos + 2]) {
        return Err(GerberError::Syntax(pos + 2, ErrorKind::Digit));
    }
    if !is_digit_char(s[pos + 4]) {
        return Err(GerberError::Syntax(pos + 4, ErrorKind::Digit));
    }
    if !is_digit_char(s[pos + 5]) {
        return Err(GerberError::Syntax(pos + 5, ErrorKind::Digit));
    }
    Ok(
        (
            pos + 6,
            FormatSpecification {
                x: NumberSpec {
                    integer: digit_count(s[pos + 1]),
                    rational: digit_count(s[pos + 2]),
                },
                y: NumberSpec {
                    integer: digit_count(s[pos + 4]),
                    rational: digit_count(s[pos + 5]),
                },
            },
        ),
    )
}

/// Reads the coordinate format command at `pos`.
pub fn format_specification(s: &Vec<char>, pos: usize) -> (read: Result<
    (usize, GerberCommand),
    GerberError,
>)
    requires
        pos <= s@.len(),
    ensures
        agrees(read, grammar::format_specification(s@, pos as int)),
        read is Ok ==> pos < read->Ok_0.0 <= s@.len(),
{
    if !(pos < s.len() && s[pos] == '%') {
        return Err(GerberError::Syntax(pos, ErrorKind::Char));
    }
    proof {
        reveal_strlit("FSLA");
        reveal_strlit("*%");
    }
    if !tag(s, pos + 1, "FSLA") || s.len() - pos < 5 {
        return Err(GerberError::Syntax(pos + 1, ErrorKind::Tag));
    }
    match coordinate_spec(s, pos + 5) {
        Err(e) => Err(e),
        Ok((end, format)) => {
            if !tag(s, end, "*%") || s.len() - end < 2 {
                Err(GerberError::Syntax(end, ErrorKind::Tag))
            } else {
                Ok((end + 2, GerberCommand::FormatSpecification(format)))
            }
        },
    }
}

/// Reads the parameters of an aperture from `pos` to exactly `stop`.
pub fn parameters(s: &Vec<char>, pos: usize, stop: usize) -> (read: Result<
    Vec<Decimal>,
    GerberError,
>)
    requires
        pos <= stop <= s@.len(),
    ensures
        match read {
            Ok(items) => grammar::parameters(s@, pos as int, stop as int) == Ok::<
                (int, Seq<Decimal>),
                ErrorView,
            >((stop as int, items@)) && items@.len() > 0,
            Err(e) => grammar::parameters(s@, pos as int, stop as int) == Err::<
                (int, Seq<Decimal>),
                ErrorView,
            >(e@),
        },
{
    let mut items: Vec<Decimal> = Vec::new();
    let mut at: usize = pos;
    loop
        invariant
            pos <= at <= s@.len(),
            stop <= s@.len(),
            match grammar::parameters(s@, at as int, stop as int) {
                Ok((end, rest)) => grammar::parameters(s@, pos as int, stop as int) == Ok::<
                    (int, Seq<Decimal>),
                    ErrorView,
                >((end, items@ + rest)),
                Err(e) => grammar::parameters(s@, pos as int, stop as int) == Err::<
                    (int, Seq<Decimal>),
                    ErrorView,
                >(e),
            },
        decreases s@.len() - at,
    {
        match parse_number(s, at) {
            None => {
                return Err(GerberError::Syntax(at, ErrorKind::Float));
            },
            Some((end, value)) => {
                if end < s.len() && s[end] == 'X' {
                    proof {
                        match grammar::parameters(s@, end + 1, stop as int) {
                            Ok((e, rest)) => {
                                assert(items@ + (seq![value] + rest) =~= items@.push(value) + rest);
                            },
                            Err(e) => {},
                        }
                    }
                    items.push(value);
                    at = end + 1;
                } else if end == stop {
                    proof {
                        assert(items@ + seq![value] =~= items@.push(value));
                    }
                    items.push(value);
                    return Ok(items);
                } else {
                    return Err(GerberError::Syntax(at, ErrorKind::Float));
                }
            },
        }
    }
}

/// The parameter behind the `needed` ones, if it is the last.
fn hole(items: &Vec<Decimal>, needed: usize) -> (found: Option<Decimal>)
    requires
        needed < usize::MAX,
    ensures
        found == grammar::hole(items@, needed as int),
{
    if items.len() == needed + 1 {
        Some(items[needed])
    } else {
        None
    }
}

/// Makes the shape that the template code `s[from..to]` names out of the
/// parameters `items`. `None` where there are too few of them.
pub fn template_of(s: &Vec<char>, from: usize, to: usize, items: &Vec<Decimal>) -> (made: Option<
    ApertureTemplatePrimitive,
>)
    requires
        from <= to <= s@.len(),
    ensures
        match made {
            Some(template) => grammar::template_of(s@.subrange(from as int, to as int), items@)
                == Some(template@),
            None => grammar::template_of(s@.subrange(from as int, to as int), items@) is None,
        },
{
    if range_is(s, from, to, "C") {
        if items.len() >= 1 {
            Some(
                ApertureTemplatePrimitive::C(
                    Circle { diameter: items[0], hole_diameter: hole(items, 1) },
                ),
            )
        } else {
            None
        }
    } else if range_is(s, from, to, "R") {
        if items.len() >= 2 {
            Some(
                ApertureTemplatePrimitive::R(
                    Rect { width: items[0], height: items[1], hole_diameter: hole(items, 2) },
                ),
            )
        } else {
            None
        }
    } else if range_is(s, from, to, "O") {
        if items.len() >= 2 {
            Some(
                ApertureTemplatePrimitive::O(
                    Rect { width: items[0], height: items[1], hole_diameter: hole(items, 2) },
                ),
            )
        } else {
            None
        }
    } else if range_is(s, from, to, "P") {
        if items.len() >= 3 {
            Some(
                ApertureTemplatePrimitive::P(
                    Polygon {
                        outer_diameter: items[0],
                        number_of_vertices: items[1].truncate(),
                        rotation: items[2],
                        hole_diameter: hole(items, 3),
                    },
                ),
            )
        } else {
            None
        }
    } else {
        Some(ApertureTemplatePrimitive::M(to_text(s, from, to)))
    }
}

/// Reads a template code and its parameters at `pos`; stops before the
/// `*` that ends the command.
pub fn aperture_template_definition(s: &Vec<char>, pos: usize) -> (read: Result<
    (usize, ApertureTemplatePrimitive),
    GerberError,
>)
    requires
        pos <= s@.len(),
    ensures
        match read {
            Ok((end, template)) => grammar::aperture_template_definition(s@, pos as int) == Ok::<
                (int, TemplateView),
                ErrorView,
            >((end as int, template@)) && pos < end <= s@.len(),
            Err(e) => grammar::aperture_template_definition(s@, pos as int) == Err::<
                (int, TemplateView),
                ErrorView,
            >(e@),
        },
{
    let comma = find_char(s, pos, ',');
    if !(comma < s.len()) {
        return Err(GerberError::Syntax(comma, ErrorKind::Tag));
    }
    let stop = find_char(s, comma + 1, '*');
    match parameters(s, comma + 1, stop) {
        Err(e) => Err(e),
        Ok(items) => match template_of(s, pos, comma, &items) {
            Some(template) => Ok((stop, template)),
            None => Err(GerberError::Syntax(stop, ErrorKind::Count)),
        },
    }
}

/// Reads the definition of an aperture at `pos`.
pub fn aperture_definition(s: &Vec<char>, pos: usize) -> (read: Result<
    (usize, GerberCommand),
    GerberError,
>)
    requires
        pos <= s@.len(),
    ensures
        agrees(read, grammar::aperture_definition(s@, pos as int)),
        read is Ok ==> pos < read->Ok_0.0 <= s@.len(),
{
    if !(pos < s.len() && s[pos] == '%') {
        return Err(GerberError::Syntax(pos, ErrorKind::Char));
    }
    proof {
        reveal_strlit("ADD");
        reveal_strlit("*%");
    }
    if !tag(s, pos + 1, "ADD") || s.len() - pos < 4 {
        return Err(GerberError::Syntax(pos + 1, ErrorKind::Tag));
    }
    let from = pos + 4;
    let name_end = scan_digits(s, from);
    match aperture_template_definition(s, name_end) {
        Err(e) => Err(e),
        Ok((end, template)) => {
            if !tag(s, end, "*%") || s.len() - end < 2 {
                Err(GerberError::Syntax(end, ErrorKind::Tag))
            } else {
                let name = to_text(s, from, name_end);
                Ok((end + 2, GerberCommand::ApertureDefinition(Aperture { name, template })))
            }
        },
    }
}

/// Reads one extended command at `pos`.
pub fn extended_body(s: &Vec<char>, pos: usize) -> (read: Result<
    (usize, GerberCommand),
    GerberError,
>)
    requires
        pos <= s@.len(),
    ensures
        agrees(read, grammar::extended_body(s@, pos as int)),
        read is Ok ==> pos < read->Ok_0.0 <= s@.len(),
{
    match unit_command(s, pos) {
        Ok(found) => {
            return Ok(found);
        },
        Err(_) => {},
    }
    match format_specification(s, pos) {
        Ok(found) => {
            return Ok(found);
        },
        Err(_) => {},
    }
    match aperture_macro(s, pos) {
        Ok(found) => {
            return Ok(found);
        },
        Err(_) => {},
    }
    match aperture_definition(s, pos) {
        Ok(found) => {
            return Ok(found);
        },
        Err(_) => {},
    }
    match level_polarity(s, pos) {
        Ok(found) => {
            return Ok(found);
        },
        Err(_) => {},
    }
    match image_polarity(s, pos) {
        Ok(found) => {
            return Ok(found);
        },
        Err(_) => {},
    }
    image_name(s, pos)
}

/// Reads one extended command at `pos` and the white space behind it.
pub fn read_extended(s: &Vec<char>, pos: usize) -> (read: Result<(usize, Cmd), GerberError>)
    requires
        pos <= s@.len(),
    ensures
        step_agrees(read, grammar::extended_command(s@, pos as int)),
        read is Ok ==> pos < read->Ok_0.0 <= s@.len(),
{
    match extended_body(s, pos) {
        Ok((end, command)) => Ok((skip_spaces(s, end), Cmd::One(command))),
        Err(e) => Err(e),
    }
}

/// Reads an extended command from the start of `text`; gives the count of
/// characters read, the white space behind the command included.
pub fn extended_command(text: &str) -> (read: Result<(usize, Cmd), GerberError>)
    ensures
        step_agrees(read, grammar::extended_command(text@, 0)),
{
    let chars = to_chars(text);
    read_extended(&chars, 0)
}

} // verus!
