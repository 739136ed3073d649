//! The grammar of a photoplotter file, as functions from a text and a
//! position to what stands there.
//!
//! A text is a sequence of characters; a position counts the characters
//! before it. A result is the position after what was read, with its value.

use super::commands::{
    ApertureView, Circle, CmdView, CommandView, Coordinate, ErrorKind, ErrorView,
    FormatSpecification, ImagePolarity, Interpolation, NumberSpec, OperationType, Polarity,
    Polygon, Rect, TemplateView, Unit,
};
use super::number::{digit_value, digits_end, is_digit, number_at, Decimal};
use vstd::prelude::*;

verus! {

/// What reading at a position gives: the position behind it and the value,
/// or why nothing could be read.
pub type Parsed<T> = Result<(int, T), ErrorView>;

pub open spec fn is_space(c: char) -> bool {
    c == ' ' || c == '\n' || c == '\t' || c == '\r'
}

/// The characters a coordinate is written with.
pub open spec fn is_coordinate_char(c: char) -> bool {
    is_digit(c) || c == '-'
}

/// The first position at or after `pos` whose character is not `wanted`,
/// or the end of the text.
pub open spec fn run_end(s: Seq<char>, pos: int, wanted: spec_fn(char) -> bool) -> int
    decreases s.len() - pos,
{
    if 0 <= pos < s.len() && wanted(s[pos]) {
        run_end(s, pos + 1, wanted)
    } else {
        pos
    }
}

pub open spec fn spaces_end(s: Seq<char>, pos: int) -> int {
    run_end(s, pos, |c: char| is_space(c))
}

pub open spec fn coordinate_end(s: Seq<char>, pos: int) -> int {
    run_end(s, pos, |c: char| is_coordinate_char(c))
}

pub open spec fn digits_run_end(s: Seq<char>, pos: int) -> int {
    digits_end(s, pos)
}

/// The first position at or after `pos` that holds `stop`, or the end of
/// the text.
pub open spec fn find(s: Seq<char>, pos: int, stop: char) -> int
    decreases s.len() - pos,
{
    if 0 <= pos < s.len() && s[pos] != stop {
        find(s, pos + 1, stop)
    } else {
        pos
    }
}

/// Whether `word` stands at `pos`.
pub open spec fn tag_at(s: Seq<char>, pos: int, word: Seq<char>) -> bool {
    0 <= pos && pos + word.len() <= s.len() && s.subrange(pos, pos + word.len()) == word
}

/// `G` and a two-digit code: the interpolation modes, the arc directions
/// and the contour marks.
pub open spec fn g_command(s: Seq<char>, pos: int) -> Parsed<CommandView> {
    if !tag_at(s, pos, "G"@) {
        Err(ErrorView::Syntax(pos, ErrorKind::Tag))
    } else if pos + 3 > s.len() {
        Err(ErrorView::Syntax(pos + 1, ErrorKind::Eof))
    } else {
        let code = s.subrange(pos + 1, pos + 3);
        if code == "01"@ {
            Ok((pos + 3, CommandView::Interpolation(Interpolation::Linear)))
        } else if code == "02"@ {
            Ok((pos + 3, CommandView::ClockWiseArc))
        } else if code == "03"@ {
            Ok((pos + 3, CommandView::CounterClockWiseArc))
        } else if code == "74"@ {
            Ok((pos + 3, CommandView::Interpolation(Interpolation::SingleQuadrant)))
        } else if code == "75"@ {
            Ok((pos + 3, CommandView::Interpolation(Interpolation::MultiQuadrant)))
        } else if code == "36"@ {
            Ok((pos + 3, CommandView::StartContourMode))
        } else if code == "37"@ {
            Ok((pos + 3, CommandView::FinishConrourMode))
        } else {
            Err(ErrorView::IncorrectGCode)
        }
    }
}

/// `D` and two characters: an operation, or the choice of the aperture of
/// that name.
pub open spec fn d_command(s: Seq<char>, pos: int) -> Parsed<CommandView> {
    if !tag_at(s, pos, "D"@) {
        Err(ErrorView::Syntax(pos, ErrorKind::Tag))
    } else if pos + 3 > s.len() {
        Err(ErrorView::Syntax(pos + 1, ErrorKind::Eof))
    } else {
        let code = s.subrange(pos + 1, pos + 3);
        if code == "01"@ {
            Ok((pos + 3, CommandView::Operation(OperationType::Interpolation)))
        } else if code == "02"@ {
            Ok((pos + 3, CommandView::Operation(OperationType::Move)))
        } else if code == "03"@ {
            Ok((pos + 3, CommandView::Operation(OperationType::Flash)))
        } else {
            Ok((pos + 3, CommandView::ApplyAperture(code)))
        }
    }
}

/// `G04 ` and the text up to the end of the command.
pub open spec fn comment(s: Seq<char>, pos: int) -> Parsed<CommandView> {
    if !tag_at(s, pos, "G04 "@) {
        Err(ErrorView::Syntax(pos, ErrorKind::Tag))
    } else {
        let from = pos + "G04 "@.len();
        let end = find(s, from, '*');
        Ok((end, CommandView::Comment(s.subrange(from, end))))
    }
}

pub open spec fn axis_of(c: char) -> Option<Coordinate> {
    if c == 'X' {
        Some(Coordinate::X)
    } else if c == 'Y' {
        Some(Coordinate::Y)
    } else if c == 'I' {
        Some(Coordinate::I)
    } else if c == 'J' {
        Some(Coordinate::J)
    } else {
        None
    }
}

/// An axis letter and the digits, signs included, that follow it.
pub open spec fn coordinate_data(s: Seq<char>, pos: int) -> Parsed<CommandView> {
    if 0 <= pos < s.len() && axis_of(s[pos]) is Some {
        let end = coordinate_end(s, pos + 1);
        Ok(
            (
                end,
                CommandView::Coordinate {
                    coord: axis_of(s[pos])->0,
                    value: s.subrange(pos + 1, end),
                },
            ),
        )
    } else {
        Err(ErrorView::Syntax(pos, ErrorKind::OneOf))
    }
}

/// `M02`: the end of the file.
pub open spec fn stop_command(s: Seq<char>, pos: int) -> Parsed<CommandView> {
    if tag_at(s, pos, "M02"@) {
        Ok((pos + "M02"@.len(), CommandView::Stop))
    } else {
        Err(ErrorView::Syntax(pos, ErrorKind::Tag))
    }
}

/// One command inside a block: the first of the five kinds that can be
/// read; where none can, the reason the last one gives.
pub open spec fn block_element(s: Seq<char>, pos: int) -> Parsed<CommandView> {
    if g_command(s, pos) is Ok {
        g_command(s, pos)
    } else if d_command(s, pos) is Ok {
        d_command(s, pos)
    } else if comment(s, pos) is Ok {
        comment(s, pos)
    } else if coordinate_data(s, pos) is Ok {
        coordinate_data(s, pos)
    } else {
        stop_command(s, pos)
    }
}

/// The end of a block: `*` with white space around it. Gives the position
/// behind it.
pub open spec fn block_end(s: Seq<char>, pos: int) -> Option<int> {
    let star = spaces_end(s, pos);
    if 0 <= star < s.len() && s[star] == '*' {
        Some(spaces_end(s, star + 1))
    } else {
        None
    }
}

/// The commands from `pos` up to the end of their block. Every command
/// is at least one character long, so that the reading always moves on;
/// the last case below says what would hold if one were not.
pub open spec fn block_commands(s: Seq<char>, pos: int) -> Parsed<Seq<CommandView>>
    decreases s.len() - pos,
{
    match block_end(s, pos) {
        Some(end) => Ok((end, Seq::empty())),
        None => match block_element(s, pos) {
            Err(e) => Err(e),
            Ok((next, command)) => if pos < next <= s.len() {
                match block_commands(s, next) {
                    Err(e) => Err(e),
                    Ok((end, rest)) => Ok((end, seq![command] + rest)),
                }
            } else {
                Err(ErrorView::Syntax(pos, ErrorKind::Eof))
            },
        },
    }
}

/// A block of commands closed by `*`.
pub open spec fn simple_command_block(s: Seq<char>, pos: int) -> Parsed<CmdView> {
    match block_commands(s, pos) {
        Ok((end, commands)) => Ok((end, CmdView::Many(commands))),
        Err(e) => Err(e),
    }
}

/// The frame of most extended commands: `%`, a two-letter `code`, a
/// payload that runs up to `*`, and `*%`. Gives the position behind the
/// frame and the payload.
pub open spec fn framed(s: Seq<char>, pos: int, code: Seq<char>) -> Parsed<Seq<char>> {
    if !(0 <= pos < s.len() && s[pos] == '%') {
        Err(ErrorView::Syntax(pos, ErrorKind::Char))
    } else if !tag_at(s, pos + 1, code) {
        Err(ErrorView::Syntax(pos + 1, ErrorKind::Tag))
    } else {
        let from = pos + 1 + code.len();
        let end = find(s, from, '*');
        if !tag_at(s, end, "*%"@) {
            Err(ErrorView::Syntax(end, ErrorKind::Tag))
        } else {
            Ok((end + "*%"@.len(), s.subrange(from, end)))
        }
    }
}

/// `%MOMM*%` or `%MOIN*%`.
pub open spec fn unit_command(s: Seq<char>, pos: int) -> Parsed<CommandView> {
    match framed(s, pos, "MO"@) {
        Err(e) => Err(e),
        Ok((end, unit)) => if unit == "MM"@ {
            Ok((end, CommandView::Unit(Unit::Millimeters)))
        } else if unit == "IN"@ {
            Ok((end, CommandView::Unit(Unit::Inches)))
        } else {
            Err(ErrorView::UnexpectedUnit)
        },
    }
}

/// `%LPD*%` or `%LPC*%`.
pub open spec fn level_polarity(s: Seq<char>, pos: int) -> Parsed<CommandView> {
    match framed(s, pos, "LP"@) {
        Err(e) => Err(e),
        Ok((end, polarity)) => if polarity == "D"@ {
            Ok((end, CommandView::LevelPolarity(Polarity::Dark)))
        } else if polarity == "C"@ {
            Ok((end, CommandView::LevelPolarity(Polarity::Clear)))
        } else {
            Err(ErrorView::UnexpectedPolarity(polarity))
        },
    }
}

/// `%IPPOS*%` or `%IPNEG*%`.
pub open spec fn image_polarity(s: Seq<char>, pos: int) -> Parsed<CommandView> {
    match framed(s, pos, "IP"@) {
        Err(e) => Err(e),
        Ok((end, polarity)) => if polarity == "POS"@ {
            Ok((end, CommandView::ImagePolarity(ImagePolarity::Positive)))
        } else if polarity == "NEG"@ {
            Ok((end, CommandView::ImagePolarity(ImagePolarity::Negative)))
        } else {
            Err(ErrorView::UnexpectedPolarity(polarity))
        },
    }
}

/// `%IN`, a name, `*%`.
pub open spec fn image_name(s: Seq<char>, pos: int) -> Parsed<CommandView> {
    match framed(s, pos, "IN"@) {
        Err(e) => Err(e),
        Ok((end, name)) => Ok((end, CommandView::ImageName(name))),
    }
}

/// `%AM`, the text of the macro up to the next `%`, and that `%`.
pub open spec fn aperture_macro(s: Seq<char>, pos: int) -> Parsed<CommandView> {
    if !(0 <= pos < s.len() && s[pos] == '%') {
        Err(ErrorView::Syntax(pos, ErrorKind::Char))
    } else if !tag_at(s, pos + 1, "AM"@) {
        Err(ErrorView::Syntax(pos + 1, ErrorKind::Tag))
    } else {
        let from = pos + 1 + "AM"@.len();
        let end = find(s, from, '%');
        if end < s.len() {
            Ok((end + 1, CommandView::ApertureMacro(s.subrange(from, end))))
        } else {
            Err(ErrorView::Syntax(end, ErrorKind::Char))
        }
    }
}

/// The digit at `pos` as a count.
pub open spec fn digit_at(s: Seq<char>, pos: int) -> usize {
    digit_value(s[pos]) as usize
}

/// `X`, two digits, `Y`, two digits: for each axis the count of digits
/// before and after the point.
pub open spec fn coordinate_spec(s: Seq<char>, pos: int) -> Parsed<FormatSpecification> {
    if !tag_at(s, pos, "X"@) {
        Err(ErrorView::Syntax(pos, ErrorKind::Tag))
    } else if pos + 2 > s.len() {
        Err(ErrorView::Syntax(pos + 1, ErrorKind::Eof))
    } else if pos + 3 > s.len() {
        Err(ErrorView::Syntax(pos + 2, ErrorKind::Eof))
    } else if !tag_at(s, pos + 3, "Y"@) {
        Err(ErrorView::Syntax(pos + 3, ErrorKind::Tag))
    } else if pos + 5 > s.len() {
        Err(ErrorView::Syntax(pos + 4, ErrorKind::Eof))
    } else if pos + 6 > s.len() {
        Err(ErrorView::Syntax(pos + 5, ErrorKind::Eof))
    } else if !is_digit(s[pos + 1]) {
        Err(ErrorView::Syntax(pos + 1, ErrorKind::Digit))
    } else if !is_digit(s[pos + 2]) {
        Err(ErrorView::Syntax(pos + 2, ErrorKind::Digit))
    } else if !is_digit(s[pos + 4]) {
        Err(ErrorView::Syntax(pos + 4, ErrorKind::Digit))
    } else if !is_digit(s[pos + 5]) {
        Err(ErrorView::Syntax(pos + 5, ErrorKind::Digit))
    } else {
        Ok(
            (
                pos + 6,
                FormatSpecification {
                    x: NumberSpec { integer: digit_at(s, pos + 1), rational: digit_at(s, pos + 2) },
                    y: NumberSpec { integer: digit_at(s, pos + 4), rational: digit_at(s, pos + 5) },
                },
            ),
        )
    }
}

/// `%FSLA`, the coordinate formats, `*%`.
pub open spec fn format_specification(s: Seq<char>, pos: int) -> Parsed<CommandView> {
    if !(0 <= pos < s.len() && s[pos] == '%') {
        Err(ErrorView::Syntax(pos, ErrorKind::Char))
    } else if !tag_at(s, pos + 1, "FSLA"@) {
        Err(ErrorView::Syntax(pos + 1, ErrorKind::Tag))
    } else {
        match coordinate_spec(s, pos + 1 + "FSLA"@.len()) {
            Err(e) => Err(e),
            Ok((end, format)) => if !tag_at(s, end, "*%"@) {
                Err(ErrorView::Syntax(end, ErrorKind::Tag))
            } else {
                Ok((end + "*%"@.len(), CommandView::FormatSpecification(format)))
            },
        }
    }
}

/// The parameters of an aperture: numbers with `X` between them, from
/// `pos` to exactly `stop`.
pub open spec fn parameters(s: Seq<char>, pos: int, stop: int) -> Parsed<Seq<Decimal>>
    decreases s.len() - pos,
{
    match number_at(s, pos) {
        Some(token) => if !token.fits() || !(pos < token.end <= s.len()) {
            Err(ErrorView::Syntax(pos, ErrorKind::Float))
        } else if token.end < s.len() && s[token.end] == 'X' {
            match parameters(s, token.end + 1, stop) {
                Err(e) => Err(e),
                Ok((end, rest)) => Ok((end, seq![token.decimal()] + rest)),
            }
        } else if token.end == stop {
            Ok((stop, seq![token.decimal()]))
        } else {
            Err(ErrorView::Syntax(pos, ErrorKind::Float))
        },
        None => Err(ErrorView::Syntax(pos, ErrorKind::Float)),
    }
}

/// The parameter after the ones a shape needs is the diameter of its
/// hole, if it is the last one.
pub open spec fn hole(items: Seq<Decimal>, needed: int) -> Option<Decimal> {
    if items.len() == needed + 1 {
        Some(items[needed])
    } else {
        None
    }
}

/// The shape that the template `code` makes of the parameters `items`;
/// `None` where there are too few of them.
pub open spec fn template_of(code: Seq<char>, items: Seq<Decimal>) -> Option<TemplateView> {
    if code == "C"@ {
        if items.len() >= 1 {
            Some(TemplateView::C(Circle { diameter: items[0], hole_diameter: hole(items, 1) }))
        } else {
            None
        }
    } else if code == "R"@ {
        if items.len() >= 2 {
            Some(
                TemplateView::R(
                    Rect { width: items[0], height: items[1], hole_diameter: hole(items, 2) },
                ),
            )
        } else {
            None
        }
    } else if code == "O"@ {
        if items.len() >= 2 {
            Some(
                TemplateView::O(
                    Rect { width: items[0], height: items[1], hole_diameter: hole(items, 2) },
                ),
            )
        } else {
            None
        }
    } else if code == "P"@ {
        if items.len() >= 3 {
            Some(
                TemplateView::P(
                    Polygon {
                        outer_diameter: items[0],
                        number_of_vertices: vertices(items[1]),
                        rotation: items[2],
                        hole_diameter: hole(items, 3),
                    },
                ),
            )
        } else {
            None
        }
    } else {
        Some(TemplateView::M(code))
    }
}

/// A count of vertices from a number: its whole part, held to `i32`.
pub open spec fn vertices(number: Decimal) -> i32 {
    if number.whole_part() > i32::MAX {
        i32::MAX
    } else if number.whole_part() < i32::MIN {
        i32::MIN
    } else {
        number.whole_part() as i32
    }
}

/// A template code, `,`, and the parameters up to the `*` that ends the
/// command.
pub open spec fn aperture_template_definition(s: Seq<char>, pos: int) -> Parsed<TemplateView> {
    let comma = find(s, pos, ',');
    if !(comma < s.len()) {
        Err(ErrorView::Syntax(comma, ErrorKind::Tag))
    } else {
        let stop = find(s, comma + 1, '*');
        match parameters(s, comma + 1, stop) {
            Err(e) => Err(e),
            Ok((end, items)) => match template_of(s.subrange(pos, comma), items) {
                Some(template) => Ok((stop, template)),
                None => Err(ErrorView::Syntax(stop, ErrorKind::Count)),
            },
        }
    }
}

/// `%ADD`, the digits of the name, the template, `*%`.
pub open spec fn aperture_definition(s: Seq<char>, pos: int) -> Parsed<CommandView> {
    if !(0 <= pos < s.len() && s[pos] == '%') {
        Err(ErrorView::Syntax(pos, ErrorKind::Char))
    } else if !tag_at(s, pos + 1, "ADD"@) {
        Err(ErrorView::Syntax(pos + 1, ErrorKind::Tag))
    } else {
        let from = pos + 1 + "ADD"@.len();
        let name_end = digits_run_end(s, from);
        match aperture_template_definition(s, name_end) {
            Err(e) => Err(e),
            Ok((end, template)) => if !tag_at(s, end, "*%"@) {
                Err(ErrorView::Syntax(end, ErrorKind::Tag))
            } else {
                Ok(
                    (
                        end + "*%"@.len(),
                        CommandView::ApertureDefinition(
                            ApertureView { name: s.subrange(from, name_end), template },
                        ),
                    ),
                )
            },
        }
    }
}

/// One extended command: the first of the seven kinds that can be read;
/// where none can, the reason the last one gives.
pub open spec fn extended_body(s: Seq<char>, pos: int) -> Parsed<CommandView> {
    if unit_command(s, pos) is Ok {
        unit_command(s, pos)
    } else if format_specification(s, pos) is Ok {
        format_specification(s, pos)
    } else if aperture_macro(s, pos) is Ok {
        aperture_macro(s, pos)
    } else if aperture_definition(s, pos) is Ok {
        aperture_definition(s, pos)
    } else if level_polarity(s, pos) is Ok {
        level_polarity(s, pos)
    } else if image_polarity(s, pos) is Ok {
        image_polarity(s, pos)
    } else {
        image_name(s, pos)
    }
}

/// An extended command and the white space behind it.
pub open spec fn extended_command(s: Seq<char>, pos: int) -> Parsed<CmdView> {
    match extended_body(s, pos) {
        Ok((end, command)) => Ok((spaces_end(s, end), CmdView::One(command))),
        Err(e) => Err(e),
    }
}

/// The next step at `pos`: a block if one can be read, else an extended
/// command.
pub open spec fn step(s: Seq<char>, pos: int) -> Parsed<CmdView> {
    if simple_command_block(s, pos) is Ok {
        simple_command_block(s, pos)
    } else {
        extended_command(s, pos)
    }
}

/// All the steps from `pos` to the end of the text, or the first failure.
/// Every step is at least one character long; the last case below says
/// what would hold if one were not.
pub open spec fn steps(s: Seq<char>, pos: int) -> Result<Seq<CmdView>, ErrorView>
    decreases s.len() - pos,
{
    if pos >= s.len() {
        Ok(Seq::empty())
    } else {
        match step(s, pos) {
            Err(e) => Err(e),
            Ok((next, cmd)) => if pos < next <= s.len() {
                match steps(s, next) {
                    Err(e) => Err(e),
                    Ok(rest) => Ok(seq![cmd] + rest),
                }
            } else {
                Err(ErrorView::Syntax(pos, ErrorKind::Eof))
            },
        }
    }
}

} // verus!
