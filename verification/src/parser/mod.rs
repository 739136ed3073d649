//! The command stream: what a photoplotter file says, and how it is read.

pub mod blocks;
pub mod commands;
pub mod extended;
pub mod grammar;
pub mod number;
pub mod reader;
pub mod scan;
pub mod text;

pub use blocks::simple_command_block;
pub use commands::{
    Aperture, ApertureTemplatePrimitive, Circle, Cmd, Coordinate, ErrorKind, FormatSpecification,
    GerberCommand, GerberError, ImagePolarity, Interpolation, NumberSpec, OperationType, Polarity,
    Polygon, Rect, Unit,
};
pub use extended::extended_command;
pub use number::Decimal;
pub use reader::GerberReader;
