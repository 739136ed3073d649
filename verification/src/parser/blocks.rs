//! Reading the commands that stand in blocks: codes, coordinates and
//! comments, each closed by `*`.

use super::commands::{
    Cmd, CmdView, CommandView, Coordinate, ErrorKind, ErrorView, GerberCommand, GerberError,
    Interpolation, OperationType, views,
};
use super::grammar;
use super::grammar::Parsed;
use super::scan::{find_char, range_is, skip_coordinate, skip_spaces, tag};
use super::text::{to_chars, to_text};
use vstd::prelude::*;

verus! {

/// Whether what was read is what the grammar says stands there.
pub open spec fn agrees(
    read: Result<(usize, GerberCommand), GerberError>,
    meant: Parsed<CommandView>,
) -> bool {
    match read {
        Ok((end, command)) => meant == Ok::<(int, CommandView), ErrorView>(
            (end as int, command@),
        ),
        Err(e) => meant == Err::<(int, CommandView), ErrorView>(e@),
    }
}

/// As [`agrees`], for a whole reading step.
pub open spec fn step_agrees(
    read: Result<(usize, Cmd), GerberError>,
    meant: Parsed<CmdView>,
) -> bool {
    match read {
        Ok((end, cmd)) => meant == Ok::<(int, CmdView), ErrorView>((end as int, cmd@)),
        Err(e) => meant == Err::<(int, CmdView), ErrorView>(e@),
    }
}

/// Reads `G` and its two-digit code at `pos`.
pub fn g_command(s: &Vec<char>, pos: usize) -> (read: Result<(usize, GerberCommand), GerberError>)
    requires
        pos <= s@.len(),
    ensures
        agrees(read, grammar::g_command(s@, pos as int)),
        read is Ok ==> read->Ok_0.0 == pos + 3 <= s@.len(),
{
    if !tag(s, pos, "G") {
        return Err(GerberError::Syntax(pos, ErrorKind::Tag));
    }
    proof {
        reveal_strlit("G");
    }
    if s.len() - pos < 3 {
        return Err(GerberError::Syntax(pos + 1, ErrorKind::Eof));
    }
    let end = pos + 3;
    if range_is(s, pos + 1, end, "01") {
        Ok((end, GerberCommand::Interpolation(Interpolation::Linear)))
    } else if range_is(s, pos + 1, end, "02") {
        Ok((end, GerberCommand::ClockWiseArc))
    } else if range_is(s, pos + 1, end, "03") {
        Ok((end, GerberCommand::CounterClockWiseArc))
    } else if range_is(s, pos + 1, end, "74") {
        Ok((end, GerberCommand::Interpolation(Interpolation::SingleQuadrant)))
    } else if range_is(s, pos + 1, end, "75") {
        Ok((end, GerberCommand::Interpolation(Interpolation::MultiQuadrant)))
    } else if range_is(s, pos + 1, end, "36") {
        Ok((end, GerberCommand::StartContourMode))
    } else if range_is(s, pos + 1, end, "37") {
        Ok((end, GerberCommand::FinishConrourMode))
    } else {
        Err(GerberError::IncorrectGCode)
    }
}

/// Reads `D` and its two characters at `pos`.
pub fn d_command(s: &Vec<char>, pos: usize) -> (read: Result<(usize, GerberCommand), GerberError>)
    requires
        pos <= s@.len(),
    ensures
        agrees(read, grammar::d_command(s@, pos as int)),
        read is Ok ==> read->Ok_0.0 == pos + 3 <= s@.len(),
{
    if !tag(s, pos, "D") {
        return Err(GerberError::Syntax(pos, ErrorKind::Tag));
    }
    proof {
        reveal_strlit("D");
    }
    if s.len() - pos < 3 {
        return Err(GerberError::Syntax(pos + 1, ErrorKind::Eof));
    }
    let end = pos + 3;
    if range_is(s, pos + 1, end, "01") {
        Ok((end, GerberCommand::Operation(OperationType::Interpolation)))
    } else if range_is(s, pos + 1, end, "02") {
        Ok((end, GerberCommand::Operation(OperationType::Move)))
    } else if range_is(s, pos + 1, end, "03") {
        Ok((end, GerberCommand::Operation(OperationType::Flash)))
    } else {
        Ok((end, GerberCommand::ApplyAperture(to_text(s, pos + 1, end))))
    }
}

/// Reads a comment at `pos`.
pub fn comment(s: &Vec<char>, pos: usize) -> (read: Result<(usize, GerberCommand), GerberError>)
    requires
        pos <= s@.len(),
    ensures
        agrees(read, grammar::comment(s@, pos as int)),
        read is Ok ==> pos < read->Ok_0.0 <= s@.len(),
{
    proof {
        reveal_strlit("G04 ");
    }
    if !tag(s, pos, "G04 ") || s.len() - pos < 4 {
        return Err(GerberError::Syntax(pos, ErrorKind::Tag));
    }
    let from = pos + 4;
    let end = find_char(s, from, '*');
    Ok((end, GerberCommand::Comment(to_text(s, from, end))))
}

/// The axis that the letter `c` names.
pub fn axis(c: char) -> (found: Option<Coordinate>)
    ensures
        found == grammar::axis_of(c),
{
    if c == 'X' {
        Some(Coordinate::X)
    } else if c == 'Y' {
        Some(Coordinate::Y)
    } else if c == 'I' {
        Some(Coordinate::I)
    } else if c == 'J' {
        Some(Coordinate::J)
    } else {
        None
    }
}

/// Reads an axis letter and its digits at `pos`.
pub fn coordinate_data(s: &Vec<char>, pos: usize) -> (read: Result<
    (usize, GerberCommand),
    GerberError,
>)
    requires
        pos <= s@.len(),
    ensures
        agrees(read, grammar::coordinate_data(s@, pos as int)),
        read is Ok ==> pos < read->Ok_0.0 <= s@.len(),
{
    if pos >= s.len() {
        return Err(GerberError::Syntax(pos, ErrorKind::OneOf));
    }
    match axis(s[pos]) {
        None => Err(GerberError::Syntax(pos, ErrorKind::OneOf)),
        Some(coord) => {
            let end = skip_coordinate(s, pos + 1);
            Ok((end, GerberCommand::Coordinate { coord, value: to_text(s, pos + 1, end) }))
        },
    }
}

/// Reads the end-of-file command at `pos`.
pub fn stop_command(s: &Vec<char>, pos: usize) -> (read: Result<
    (usize, GerberCommand),
    GerberError,
>)
    requires
        pos <= s@.len(),
    ensures
        agrees(read, grammar::stop_command(s@, pos as int)),
        read is Ok ==> pos < read->Ok_0.0 <= s@.len(),
{
    proof {
        reveal_strlit("M02");
    }
    if tag(s, pos, "M02") && s.len() - pos >= 3 {
        Ok((pos + 3, GerberCommand::Stop))
    } else {
        Err(GerberError::Syntax(pos, ErrorKind::Tag))
    }
}

/// Reads one command of a block at `pos`.
pub fn block_element(s: &Vec<char>, pos: usize) -> (read: Result<
    (usize, GerberCommand),
    GerberError,
>)
    requires
        pos <= s@.len(),
    ensures
        agrees(read, grammar::block_element(s@, pos as int)),
        read is Ok ==> pos < read->Ok_0.0 <= s@.len(),
{
    match g_command(s, pos) {
        Ok(found) => {
            return Ok(found);
        },
        Err(_) => {},
    }
    match d_command(s, pos) {
        Ok(found) => {
            return Ok(found);
        },
        Err(_) => {},
    }
    match comment(s, pos) {
        Ok(found) => {
            return Ok(found);
        },
        Err(_) => {},
    }
    match coordinate_data(s, pos) {
        Ok(found) => {
            return Ok(found);
        },
        Err(_) => {},
    }
    stop_command(s, pos)
}

/// Looks for the end of a block at `pos`.
pub fn block_end(s: &Vec<char>, pos: usize) -> (end: Option<usize>)
    requires
        pos <= s@.len(),
    ensures
        end is Some <==> grammar::block_end(s@, pos as int) is Some,
        end is Some ==> end->0 == grammar::block_end(s@, pos as int)->0 && pos < end->0
            <= s@.len(),
{
    let star = skip_spaces(s, pos);
    if star < s.len() && s[star] == '*' {
        Some(skip_spaces(s, star + 1))
    } else {
        None
    }
}

/// Reads the commands of the block that starts at `pos`.
pub fn read_block(s: &Vec<char>, pos: usize) -> (read: Result<(usize, Cmd), GerberError>)
    requires
        pos <= s@.len(),
    ensures
        step_agrees(read, grammar::simple_command_block(s@, pos as int)),
        read is Ok ==> pos < read->Ok_0.0 <= s@.len(),
{
    let mut commands: Vec<GerberCommand> = Vec::new();
    let mut at: usize = pos;
    loop
        invariant
            pos <= at <= s@.len(),
            at == pos ==> commands@.len() == 0,
            match grammar::block_commands(s@, at as int) {
                Ok((end, rest)) => grammar::block_commands(s@, pos as int) == Ok::<
                    (int, Seq<CommandView>),
                    ErrorView,
                >((end, views(commands@) + rest)),
                Err(e) => grammar::block_commands(s@, pos as int) == Err::<
                    (int, Seq<CommandView>),
                    ErrorView,
                >(e),
            },
        decreases s@.len() - at,
    {
        match block_end(s, at) {
            Some(end) => {
                proof {
                    assert(views(commands@) + Seq::<CommandView>::empty() =~= views(commands@));
                }
                return Ok((end, Cmd::Many(commands)));
            },
            None => {},
        }
        match block_element(s, at) {
            Err(e) => {
                return Err(e);
            },
            Ok((next, command)) => {
                proof {
                    let before = views(commands@);
                    let after = views(commands@.push(command));
                    assert(after =~= before + seq![command@]);
                    match grammar::block_commands(s@, next as int) {
                        Ok((end, rest)) => {
                            assert(before + (seq![command@] + rest) =~= after + rest);
                        },
                        Err(e) => {},
                    }
                }
                commands.push(command);
                at = next;
            },
        }
    }
}

/// Reads a block of commands from the start of `text`; gives the count of
/// characters read, the white space behind the block included.
pub fn simple_command_block(text: &str) -> (read: Result<(usize, Cmd), GerberError>)
    ensures
        step_agrees(read, grammar::simple_command_block(text@, 0)),
{
    let chars = to_chars(text);
    read_block(&chars, 0)
}

} // verus!
