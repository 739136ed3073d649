//! The commands a photoplotter file is made of, and what reading one can
//! fail with.

use super::number::{number_at, parse_number, Decimal};
use super::text::to_chars;
use vstd::prelude::*;

verus! {

/// The unit in which a file gives its lengths.
#[derive(Debug, PartialEq, Eq, Structural, Clone, Copy)]
pub enum Unit {
    Millimeters,
    Inches,
}

impl Unit {
    /// How many typographic points one unit is, as numerator and
    /// denominator.
    pub open spec fn spec_points_per_unit(&self) -> (u32, u32) {
        match self {
            Unit::Inches => (72u32, 1u32),
            Unit::Millimeters => (360u32, 127u32),
        }
    }

    /// How many typographic points one unit is, as an exact fraction: 72 to
    /// the inch, and 25.4 mm to the inch.
    pub fn points_per_unit(&self) -> (ratio: (u32, u32))
        ensures
            ratio == self.spec_points_per_unit(),
            ratio.1 > 0,
    {
        match self {
            Unit::Inches => (72, 1),
            Unit::Millimeters => (360, 127),
        }
    }
}

/// How many digits a coordinate has before and after its implied point.
#[derive(Debug, PartialEq, Eq, Structural, Clone, Copy)]
pub struct NumberSpec {
    pub integer: usize,
    pub rational: usize,
}

impl NumberSpec {
    /// What the digits `digits` stand for under this format: the number
    /// they write, moved `rational` places to the right of the point.
    pub open spec fn spec_parse(&self, digits: Seq<char>) -> Option<Decimal> {
        match number_at(digits, 0) {
            Some(token) => if token.end == digits.len() && token.fits() && token.decimal().scale
                + self.rational <= usize::MAX {
                Some(
                    Decimal {
                        mantissa: token.decimal().mantissa,
                        scale: (token.decimal().scale + self.rational) as usize,
                    },
                )
            } else {
                None
            },
            None => None,
        }
    }

    /// Reads a coordinate written as `digits`. `None` where `digits` is
    /// not one number from end to end, or is too long to hold.
    pub fn parse(&self, digits: &str) -> (value: Option<Decimal>)
        ensures
            value == self.spec_parse(digits@),
    {
        let chars = to_chars(digits);
        self.parse_chars(&chars)
    }

    /// As [`NumberSpec::parse`], on characters.
    pub fn parse_chars(&self, digits: &Vec<char>) -> (value: Option<Decimal>)
        ensures
            value == self.spec_parse(digits@),
    {
        match parse_number(digits, 0) {
            Some((end, number)) => {
                if end == digits.len() && number.scale <= usize::MAX - self.rational {
                    Some(Decimal { mantissa: number.mantissa, scale: number.scale + self.rational })
                } else {
                    None
                }
            },
            None => None,
        }
    }
}

/// The coordinate formats of the two axes.
#[derive(Debug, PartialEq, Eq, Structural, Clone, Copy)]
pub struct FormatSpecification {
    pub x: NumberSpec,
    pub y: NumberSpec,
}

/// What a `D01`, `D02` or `D03` asks for.
#[derive(Debug, PartialEq, Eq, Structural, Clone, Copy)]
pub enum OperationType {
    Move,
    Interpolation,
    Flash,
}

#[derive(Debug, PartialEq, Eq, Structural, Clone, Copy)]
pub struct Circle {
    pub diameter: Decimal,
    pub hole_diameter: Option<Decimal>,
}

#[derive(Debug, PartialEq, Eq, Structural, Clone, Copy)]
pub struct Rect {
    pub width: Decimal,
    pub height: Decimal,
    pub hole_diameter: Option<Decimal>,
}

#[derive(Debug, PartialEq, Eq, Structural, Clone, Copy)]
pub struct Polygon {
    pub outer_diameter: Decimal,
    pub number_of_vertices: i32,
    pub rotation: Decimal,
    pub hole_diameter: Option<Decimal>,
}

/// The shape of a tool: circle, rectangle, obround, polygon, or a macro
/// known by its name only.
#[derive(Debug, PartialEq, Eq)]
pub enum ApertureTemplatePrimitive {
    C(Circle),
    R(Rect),
    O(Rect),
    P(Polygon),
    M(String),
}

pub enum TemplateView {
    C(Circle),
    R(Rect),
    O(Rect),
    P(Polygon),
    M(Seq<char>),
}

impl View for ApertureTemplatePrimitive {
    type V = TemplateView;

    open spec fn view(&self) -> TemplateView {
        match self {
            ApertureTemplatePrimitive::C(c) => TemplateView::C(*c),
            ApertureTemplatePrimitive::R(r) => TemplateView::R(*r),
            ApertureTemplatePrimitive::O(o) => TemplateView::O(*o),
            ApertureTemplatePrimitive::P(p) => TemplateView::P(*p),
            ApertureTemplatePrimitive::M(name) => TemplateView::M(name@),
        }
    }
}

/// A tool under the name by which the file selects it.
#[derive(Debug, PartialEq, Eq)]
pub struct Aperture {
    pub name: String,
    pub template: ApertureTemplatePrimitive,
}

pub struct ApertureView {
    pub name: Seq<char>,
    pub template: TemplateView,
}

impl View for Aperture {
    type V = ApertureView;

    open spec fn view(&self) -> ApertureView {
        ApertureView { name: self.name@, template: self.template@ }
    }
}

/// Whether a contour adds material or cuts it away.
#[derive(Debug, PartialEq, Eq, Structural, Clone, Copy)]
pub enum Polarity {
    Dark,
    Clear,
}

impl Polarity {
    pub open spec fn spec_switch(&self) -> Polarity {
        match self {
            Polarity::Clear => Polarity::Dark,
            Polarity::Dark => Polarity::Clear,
        }
    }

    /// The other polarity.
    pub fn switch(&self) -> (other: Polarity)
        ensures
            other == self.spec_switch(),
    {
        match self {
            Polarity::Clear => Polarity::Dark,
            Polarity::Dark => Polarity::Clear,
        }
    }

    /// The polarity `depth` levels below a contour of this polarity: it
    /// changes with every level.
    pub open spec fn at_depth(&self, depth: nat) -> Polarity
        decreases depth,
    {
        if depth == 0 {
            *self
        } else {
            self.spec_switch().at_depth((depth - 1) as nat)
        }
    }

    /// Switching twice gives the polarity back.
    pub proof fn lemma_switch_twice(&self)
        ensures
            self.spec_switch().spec_switch() == *self,
    {
    }

    /// Polarity goes by the parity of the depth.
    pub proof fn lemma_at_depth_parity(&self, depth: nat)
        ensures
            self.at_depth(depth) == if depth % 2 == 0 {
                *self
            } else {
                self.spec_switch()
            },
        decreases depth,
    {
        if depth > 0 {
            self.spec_switch().lemma_at_depth_parity((depth - 1) as nat);
        }
    }
}

#[derive(Debug, PartialEq, Eq, Structural, Clone, Copy)]
pub enum ImagePolarity {
    Positive,
    Negative,
}

/// The axis a coordinate belongs to: the target point, or the offset of an
/// arc's centre.
#[derive(Debug, Hash, PartialEq, Eq, Structural, Clone, Copy)]
pub enum Coordinate {
    X,
    Y,
    I,
    J,
}

#[derive(Debug, PartialEq, Eq, Structural, Clone, Copy)]
pub enum Interpolation {
    Linear,
    MultiQuadrant,
    SingleQuadrant,
}

/// One command of a file.
#[derive(Debug, PartialEq, Eq)]
pub enum GerberCommand {
    Stop,
    Operation(OperationType),
    /// The text of an aperture macro, kept as it stands.
    ApertureMacro(String),
    ApertureDefinition(Aperture),
    Unit(Unit),
    FormatSpecification(FormatSpecification),
    Coordinate { coord: Coordinate, value: String },
    Comment(String),
    Interpolation(Interpolation),
    ClockWiseArc,
    CounterClockWiseArc,
    StartContourMode,
    FinishConrourMode,
    ApplyAperture(String),
    LevelPolarity(Polarity),
    ImagePolarity(ImagePolarity),
    ImageName(String),
}

pub enum CommandView {
    Stop,
    Operation(OperationType),
    ApertureMacro(Seq<char>),
    ApertureDefinition(ApertureView),
    Unit(Unit),
    FormatSpecification(FormatSpecification),
    Coordinate { coord: Coordinate, value: Seq<char> },
    Comment(Seq<char>),
    Interpolation(Interpolation),
    ClockWiseArc,
    CounterClockWiseArc,
    StartContourMode,
    FinishConrourMode,
    ApplyAperture(Seq<char>),
    LevelPolarity(Polarity),
    ImagePolarity(ImagePolarity),
    ImageName(Seq<char>),
}

impl View for GerberCommand {
    type V = CommandView;

    open spec fn view(&self) -> CommandView {
        match self {
            GerberCommand::Stop => CommandView::Stop,
            GerberCommand::Operation(op) => CommandView::Operation(*op),
            GerberCommand::ApertureMacro(text) => CommandView::ApertureMacro(text@),
            GerberCommand::ApertureDefinition(a) => CommandView::ApertureDefinition(a@),
            GerberCommand::Unit(u) => CommandView::Unit(*u),
            GerberCommand::FormatSpecification(f) => CommandView::FormatSpecification(*f),
            GerberCommand::Coordinate { coord, value } => CommandView::Coordinate {
                coord: *coord,
                value: value@,
            },
            GerberCommand::Comment(text) => CommandView::Comment(text@),
            GerberCommand::Interpolation(i) => CommandView::Interpolation(*i),
            GerberCommand::ClockWiseArc => CommandView::ClockWiseArc,
            GerberCommand::CounterClockWiseArc => CommandView::CounterClockWiseArc,
            GerberCommand::StartContourMode => CommandView::StartContourMode,
            GerberCommand::FinishConrourMode => CommandView::FinishConrourMode,
            GerberCommand::ApplyAperture(name) => CommandView::ApplyAperture(name@),
            GerberCommand::LevelPolarity(p) => CommandView::LevelPolarity(*p),
            GerberCommand::ImagePolarity(p) => CommandView::ImagePolarity(*p),
            GerberCommand::ImageName(name) => CommandView::ImageName(name@),
        }
    }
}

/// What one reading step yields: one extended command, or the commands of
/// one block.
#[derive(Debug, PartialEq, Eq)]
pub enum Cmd {
    One(GerberCommand),
    Many(Vec<GerberCommand>),
}

pub enum CmdView {
    One(CommandView),
    Many(Seq<CommandView>),
}

/// The views of `commands`, in order.
pub open spec fn views(commands: Seq<GerberCommand>) -> Seq<CommandView> {
    Seq::new(commands.len(), |i: int| commands[i]@)
}

impl View for Cmd {
    type V = CmdView;

    open spec fn view(&self) -> CmdView {
        match self {
            Cmd::One(c) => CmdView::One(c@),
            Cmd::Many(cs) => CmdView::Many(views(cs@)),
        }
    }
}

/// Which piece of syntax was looked for and not found.
#[derive(Debug, PartialEq, Eq, Structural, Clone, Copy)]
pub enum ErrorKind {
    /// A fixed word.
    Tag,
    /// A fixed character.
    Char,
    /// One of the axis letters.
    OneOf,
    /// More characters: the text ended.
    Eof,
    /// A digit.
    Digit,
    /// A number that a [`Decimal`] holds.
    Float,
    /// A further parameter of an aperture.
    Count,
}

/// Why a piece of text is no command.
#[derive(Debug, PartialEq, Eq)]
pub enum GerberError {
    IncorrectGCode,
    UnexpectedUnit,
    UnexpectedPolarity(String),
    /// The count of characters before the place where something else was
    /// expected, and what was expected there.
    Syntax(usize, ErrorKind),
}

pub enum ErrorView {
    IncorrectGCode,
    UnexpectedUnit,
    UnexpectedPolarity(Seq<char>),
    Syntax(int, ErrorKind),
}

impl View for GerberError {
    type V = ErrorView;

    open spec fn view(&self) -> ErrorView {
        match self {
            GerberError::IncorrectGCode => ErrorView::IncorrectGCode,
            GerberError::UnexpectedUnit => ErrorView::UnexpectedUnit,
            GerberError::UnexpectedPolarity(text) => ErrorView::UnexpectedPolarity(text@),
            GerberError::Syntax(at, kind) => ErrorView::Syntax(*at as int, *kind),
        }
    }
}

} // verus!
