//! The state that the commands of a file act on: unit, format, tools, and
//! the path that is being drawn.

use super::circular_direction::CircularDirection;
use super::path::{Path, PathType, PathView};
use super::raw_path::{resolve, RawPath, RawPathElement, RawPathView};
use super::tools::ToolTable;
use crate::parser::commands::{
    Aperture, ApertureTemplatePrimitive, CommandView, Coordinate,
    FormatSpecification, GerberCommand, Interpolation, OperationType, TemplateView, Unit,
};
use crate::parser::number::Decimal;
use vstd::prelude::*;

verus! {

/// Why a command cannot be carried out in the state it meets.
#[derive(Debug, Clone, Copy, PartialEq, Eq, Structural)]
pub enum PlotError {
    /// A coordinate came before any coordinate format.
    FormatNotSet,
    /// The digits of a coordinate are no number.
    BadCoordinate,
    /// No tool of that name is defined.
    ApertureNotFound,
    /// A path was to be started with no tool selected.
    ApertureNotSelected,
    /// Something was to be drawn before any interpolation mode was set.
    InterpolationNotSet,
    /// Half of a diameter is more than a number holds.
    NumberOutOfRange,
}

/// The tool that draws: an aperture, taken out of the table while it is
/// selected, or the contour mode.
#[derive(Debug, PartialEq, Eq)]
pub enum SelectedTool {
    Aperture { key: String, template: ApertureTemplatePrimitive },
    Region,
}

pub enum ToolView {
    Aperture { key: Seq<char>, template: TemplateView },
    Region,
}

impl View for SelectedTool {
    type V = ToolView;

    open spec fn view(&self) -> ToolView {
        match self {
            SelectedTool::Aperture { key, template } => ToolView::Aperture {
                key: key@,
                template: template@,
            },
            SelectedTool::Region => ToolView::Region,
        }
    }
}

/// The coordinates given since the last operation, by axis.
#[derive(Debug, Clone, Copy, PartialEq, Eq, Structural)]
pub struct Accumulator {
    pub x: Option<Decimal>,
    pub y: Option<Decimal>,
    pub i: Option<Decimal>,
    pub j: Option<Decimal>,
}

impl Accumulator {
    pub open spec fn empty() -> Accumulator {
        Accumulator { x: None, y: None, i: None, j: None }
    }

    /// The accumulator with `value` on the axis `coord`.
    pub open spec fn with(self, coord: Coordinate, value: Decimal) -> Accumulator {
        match coord {
            Coordinate::X => Accumulator { x: Some(value), ..self },
            Coordinate::Y => Accumulator { y: Some(value), ..self },
            Coordinate::I => Accumulator { i: Some(value), ..self },
            Coordinate::J => Accumulator { j: Some(value), ..self },
        }
    }
}

/// The state of a plotter.
pub struct PlotterView {
    pub unit: Option<Unit>,
    pub format: Option<FormatSpecification>,
    pub tools: Map<Seq<char>, TemplateView>,
    pub interpolation: Option<Interpolation>,
    pub circular_direction: Option<CircularDirection>,
    pub selected: Option<ToolView>,
    pub collected: Seq<PathView>,
    pub current: Option<RawPathView>,
    pub coords: Accumulator,
}

/// Half of `diameter` as the radius of a circle; `None` where it cannot be
/// held.
pub open spec fn circle_of(diameter: Decimal) -> Option<PathType> {
    if diameter.can_halve() {
        Some(PathType::Circle(diameter.spec_half()))
    } else {
        None
    }
}

/// The kind of path that `tool` draws. Only the outer shape counts: an
/// obround is swept as the box of its width and height, a polygon as a
/// circle of its outer diameter, a macro as a circle of radius one half.
pub open spec fn path_type_of(tool: ToolView) -> Option<PathType> {
    match tool {
        ToolView::Region => Some(PathType::Stroke),
        ToolView::Aperture { template, .. } => match template {
            TemplateView::R(r) => Some(PathType::Rect(r.width, r.height)),
            TemplateView::C(c) => circle_of(c.diameter),
            TemplateView::P(p) => circle_of(p.outer_diameter),
            TemplateView::O(o) => Some(PathType::Rect(o.width, o.height)),
            TemplateView::M(_) => Some(PathType::Circle(Decimal { mantissa: 5, scale: 1 })),
        },
    }
}

/// The table with the tool `tool` put back, if it is an aperture.
pub open spec fn put_back(tools: Map<Seq<char>, TemplateView>, tool: Option<ToolView>) -> Map<
    Seq<char>,
    TemplateView,
> {
    match tool {
        Some(ToolView::Aperture { key, template }) => tools.insert(key, template),
        _ => tools,
    }
}

/// The paths collected once `current` is given up: it joins them if it
/// has drawn anything.
pub open spec fn collected_with(collected: Seq<PathView>, current: Option<RawPathView>) -> Seq<
    PathView,
> {
    match current {
        Some(raw) => if resolve(raw.elements).len() > 0 {
            collected.push(PathView { tp: raw.tp, elements: resolve(raw.elements) })
        } else {
            collected
        },
        None => collected,
    }
}

impl PlotterView {
    /// The state before any command.
    pub open spec fn initial() -> PlotterView {
        PlotterView {
            unit: None,
            format: None,
            tools: Map::empty(),
            interpolation: None,
            circular_direction: None,
            selected: None,
            collected: Seq::empty(),
            current: None,
            coords: Accumulator::empty(),
        }
    }

    /// The path in progress is given up.
    pub open spec fn terminate_path(self) -> PlotterView {
        PlotterView {
            collected: collected_with(self.collected, self.current),
            current: None,
            ..self
        }
    }

    /// A coordinate is noted under the format of the x axis.
    pub open spec fn set_coordinate(self, coord: Coordinate, value: Seq<char>) -> Result<
        PlotterView,
        PlotError,
    > {
        match self.format {
            None => Err(PlotError::FormatNotSet),
            Some(format) => match format.x.spec_parse(value) {
                None => Err(PlotError::BadCoordinate),
                Some(number) => Ok(PlotterView { coords: self.coords.with(coord, number), ..self }),
            },
        }
    }

    /// Contour mode begins: the aperture goes back to the table, the path
    /// in progress ends.
    pub open spec fn start_contour(self) -> PlotterView {
        PlotterView {
            selected: Some(ToolView::Region),
            tools: put_back(self.tools, self.selected),
            ..self
        }.terminate_path()
    }

    /// Contour mode ends: nothing is selected, the path in progress ends.
    pub open spec fn finish_contour(self) -> PlotterView {
        PlotterView {
            selected: None,
            tools: put_back(self.tools, self.selected),
            ..self
        }.terminate_path()
    }

    /// The tool selected so far goes back to the table; the tool `name` is
    /// taken from the table and selected; the path in progress ends. A
    /// name that stands for no tool is an error.
    pub open spec fn apply_aperture(self, name: Seq<char>) -> Result<PlotterView, PlotError> {
        let table = put_back(self.tools, self.selected);
        if !table.dom().contains(name) {
            Err(PlotError::ApertureNotFound)
        } else {
            Ok(
                PlotterView {
                    selected: Some(ToolView::Aperture { key: name, template: table[name] }),
                    tools: table.remove(name),
                    ..self
                }.terminate_path(),
            )
        }
    }

    /// A move: the path in progress ends and a new one starts at the
    /// coordinates given.
    pub open spec fn start_new_path(self) -> Result<PlotterView, PlotError> {
        match self.selected {
            None => Err(PlotError::ApertureNotSelected),
            Some(tool) => match path_type_of(tool) {
                None => Err(PlotError::NumberOutOfRange),
                Some(tp) => Ok(
                    PlotterView {
                        coords: Accumulator { x: None, y: None, ..self.coords },
                        current: Some(
                            RawPathView {
                                tp,
                                elements: seq![
                                    RawPathElement::Start { x: self.coords.x, y: self.coords.y },
                                ],
                            },
                        ),
                        ..self.terminate_path()
                    },
                ),
            },
        }
    }

    /// The step that the coordinates given draw in the mode `mode`.
    pub open spec fn element(self, mode: Interpolation) -> RawPathElement {
        let dir = match self.circular_direction {
            Some(dir) => dir,
            None => CircularDirection::CW,
        };
        let Accumulator { x, y, i, j } = self.coords;
        match mode {
            Interpolation::Linear => RawPathElement::Linear { x, y },
            Interpolation::SingleQuadrant => RawPathElement::SingleQuadrant { x, y, i, j, dir },
            Interpolation::MultiQuadrant => RawPathElement::MultiQuadrant { x, y, i, j, dir },
        }
    }

    /// An interpolation: a step is added to the path in progress. Where
    /// there is none, one is started first, at the origin.
    pub open spec fn interpolation(self) -> Result<PlotterView, PlotError> {
        let used = PlotterView { coords: Accumulator::empty(), ..self };
        let ready = if self.current is None {
            used.start_new_path()
        } else {
            Ok(used)
        };
        match ready {
            Err(e) => Err(e),
            Ok(state) => match self.interpolation {
                None => Err(PlotError::InterpolationNotSet),
                Some(mode) => Ok(
                    PlotterView {
                        current: Some(
                            RawPathView {
                                tp: state.current->0.tp,
                                elements: state.current->0.elements.push(self.element(mode)),
                            },
                        ),
                        ..state
                    },
                ),
            },
        }
    }

    /// What `command` makes of the state.
    pub open spec fn consume(self, command: CommandView) -> Result<PlotterView, PlotError> {
        match command {
            CommandView::StartContourMode => Ok(self.start_contour()),
            CommandView::FinishConrourMode => Ok(self.finish_contour()),
            CommandView::Unit(u) => Ok(PlotterView { unit: Some(u), ..self }),
            CommandView::Coordinate { coord, value } => self.set_coordinate(coord, value),
            CommandView::FormatSpecification(f) => Ok(PlotterView { format: Some(f), ..self }),
            CommandView::ApertureDefinition(a) => Ok(
                PlotterView { tools: self.tools.insert(a.name, a.template), ..self },
            ),
            CommandView::Interpolation(i) => Ok(PlotterView { interpolation: Some(i), ..self }),
            CommandView::ApplyAperture(name) => self.apply_aperture(name),
            CommandView::Operation(op) => match op {
                OperationType::Interpolation => self.interpolation(),
                OperationType::Move => self.start_new_path(),
                OperationType::Flash => Ok(self),
            },
            CommandView::CounterClockWiseArc => Ok(
                PlotterView { circular_direction: Some(CircularDirection::CCW), ..self },
            ),
            CommandView::ClockWiseArc => Ok(
                PlotterView { circular_direction: Some(CircularDirection::CW), ..self },
            ),
            _ => Ok(self),
        }
    }
}

impl PlotterView {
    /// Whether every collected path has at least one element.
    pub open spec fn drawn(self) -> bool {
        forall|i: int|
            0 <= i < self.collected.len() ==> (#[trigger] self.collected[i]).elements.len() > 0
    }

    /// Whether `later` has collected all that this state has, in the same
    /// order, and perhaps more behind it.
    pub open spec fn kept_by(self, later: PlotterView) -> bool {
        &&& self.collected.len() <= later.collected.len()
        &&& later.collected.take(self.collected.len() as int) == self.collected
    }
}

/// No command takes a collected path away or changes it, and every path
/// that a command collects has at least one element.
pub proof fn lemma_collected_paths_stay(state: PlotterView, command: CommandView)
    ensures
        state.consume(command) matches Ok(next) ==> state.kept_by(next) && (state.drawn()
            ==> next.drawn()),
{
    match state.consume(command) {
        Ok(next) => {
            let added = collected_with(state.collected, state.current);
            assert(added.take(state.collected.len() as int) =~= state.collected);
            assert(state.collected.take(state.collected.len() as int) =~= state.collected);
            assert(next.collected == state.collected || next.collected == added);
        },
        Err(_) => {},
    }
}

/// One plotter per file: it takes the commands in order and collects the
/// centrelines that they draw.
pub struct Plotter {
    unit: Option<Unit>,
    format: Option<FormatSpecification>,
    tools: ToolTable,
    interpolation: Option<Interpolation>,
    circular_direction: Option<CircularDirection>,
    selected_aperture: Option<SelectedTool>,
    collected_paths: Vec<Path>,
    current_path: Option<RawPath>,
    coords_accumulator: Accumulator,
}

/// The views of `paths`, in order.
pub open spec fn path_views(paths: Seq<Path>) -> Seq<PathView> {
    Seq::new(paths.len(), |i: int| paths[i]@)
}

impl View for Plotter {
    type V = PlotterView;

    closed spec fn view(&self) -> PlotterView {
        PlotterView {
            unit: self.unit,
            format: self.format,
            tools: self.tools@,
            interpolation: self.interpolation,
            circular_direction: self.circular_direction,
            selected: match self.selected_aperture {
                Some(tool) => Some(tool@),
                None => None,
            },
            collected: path_views(self.collected_paths@),
            current: match self.current_path {
                Some(raw) => Some(raw@),
                None => None,
            },
            coords: self.coords_accumulator,
        }
    }
}

impl Plotter {
    /// What every plotter keeps: no tool name stands in its table twice.
    pub closed spec fn wf(&self) -> bool {
        self.tools.wf()
    }

    /// A plotter that has seen no command.
    pub fn new() -> (plotter: Plotter)
        ensures
            plotter.wf(),
            plotter@ == PlotterView::initial(),
    {
        let plotter = Plotter {
            interpolation: None,
            circular_direction: None,
            selected_aperture: None,
            unit: None,
            format: None,
            tools: ToolTable::new(),
            collected_paths: Vec::new(),
            current_path: None,
            coords_accumulator: Accumulator { x: None, y: None, i: None, j: None },
        };
        proof {
            assert(path_views(plotter.collected_paths@) =~= Seq::<PathView>::empty());
        }
        plotter
    }

    fn terminate_path(&mut self)
        requires
            old(self).wf(),
        ensures
            final(self).wf(),
            final(self)@ == old(self)@.terminate_path(),
    {
        let current = self.current_path.take();
        match current {
            Some(raw) => {
                let path = Path::from_raw(raw);
                if !path.is_empty() {
                    let ghost before = self.collected_paths@;
                    self.collected_paths.push(path);
                    proof {
                        assert(path_views(self.collected_paths@) =~= path_views(before).push(
                            path@,
                        ));
                    }
                }
            },
            None => {},
        }
    }

    fn put_back(&mut self, tool: Option<SelectedTool>)
        requires
            old(self).wf(),
        ensures
            final(self).wf(),
            final(self)@ == (PlotterView {
                tools: put_back(
                    old(self)@.tools,
                    match tool {
                        Some(t) => Some(t@),
                        None => None,
                    },
                ),
                ..old(self)@
            }),
    {
        match tool {
            Some(SelectedTool::Aperture { key, template }) => {
                self.tools.insert(key, template);
            },
            _ => {},
        }
    }

    fn start_contour(&mut self)
        requires
            old(self).wf(),
        ensures
            final(self).wf(),
            final(self)@ == old(self)@.start_contour(),
    {
        let last = self.selected_aperture.take();
        self.selected_aperture = Some(SelectedTool::Region);
        self.put_back(last);
        self.terminate_path();
    }

    fn finish_contour(&mut self)
        requires
            old(self).wf(),
        ensures
            final(self).wf(),
            final(self)@ == old(self)@.finish_contour(),
    {
        let last = self.selected_aperture.take();
        self.put_back(last);
        self.terminate_path();
    }

    fn apply_aperture(&mut self, name: String) -> (done: Result<(), PlotError>)
        requires
            old(self).wf(),
        ensures
            final(self).wf(),
            match done {
                Ok(_) => old(self)@.apply_aperture(name@) == Ok::<PlotterView, PlotError>(
                    final(self)@,
                ),
                Err(e) => old(self)@.apply_aperture(name@) == Err::<PlotterView, PlotError>(e)
                    && final(self)@ == old(self)@,
            },
    {
        let selected_already = match &self.selected_aperture {
            Some(SelectedTool::Aperture { key, .. }) => *key == name,
            _ => false,
        };
        if !selected_already && !self.tools.contains(&name) {
            return Err(PlotError::ApertureNotFound);
        }
        let last = self.selected_aperture.take();
        self.put_back(last);
        match self.tools.remove_entry(&name) {
            Some(tool) => {
                let Aperture { name: key, template } = tool;
                self.selected_aperture = Some(SelectedTool::Aperture { key, template });
            },
            None => {},
        }
        self.terminate_path();
        Ok(())
    }

    fn set_coordinate(&mut self, coord: Coordinate, value: String) -> (done: Result<
        (),
        PlotError,
    >)
        requires
            old(self).wf(),
        ensures
            final(self).wf(),
            match done {
                Ok(_) => old(self)@.set_coordinate(coord, value@) == Ok::<PlotterView, PlotError>(
                    final(self)@,
                ),
                Err(e) => old(self)@.set_coordinate(coord, value@) == Err::<
                    PlotterView,
                    PlotError,
                >(e) && final(self)@ == old(self)@,
            },
    {
        let format = match self.format {
            Some(format) => format,
            None => {
                return Err(PlotError::FormatNotSet);
            },
        };
        let number = match format.x.parse(value.as_str()) {
            Some(number) => number,
            None => {
                return Err(PlotError::BadCoordinate);
            },
        };
        let Accumulator { x, y, i, j } = self.coords_accumulator;
        self.coords_accumulator = match coord {
            Coordinate::X => Accumulator { x: Some(number), y, i, j },
            Coordinate::Y => Accumulator { x, y: Some(number), i, j },
            Coordinate::I => Accumulator { x, y, i: Some(number), j },
            Coordinate::J => Accumulator { x, y, i, j: Some(number) },
        };
        Ok(())
    }

    /// The kind of path that the selected tool draws.
    fn path_type(&self) -> (tp: Result<PathType, PlotError>)
        ensures
            match self@.selected {
                None => tp == Err::<PathType, PlotError>(PlotError::ApertureNotSelected),
                Some(tool) => match path_type_of(tool) {
                    None => tp == Err::<PathType, PlotError>(PlotError::NumberOutOfRange),
                    Some(t) => tp == Ok::<PathType, PlotError>(t),
                },
            },
    {
        let diameter = match &self.selected_aperture {
            None => {
                return Err(PlotError::ApertureNotSelected);
            },
            Some(SelectedTool::Region) => {
                return Ok(PathType::Stroke);
            },
            Some(SelectedTool::Aperture { template, .. }) => match template {
                ApertureTemplatePrimitive::R(r) => {
                    return Ok(PathType::Rect(r.width, r.height));
                },
                ApertureTemplatePrimitive::C(c) => c.diameter,
                ApertureTemplatePrimitive::P(p) => p.outer_diameter,
                ApertureTemplatePrimitive::O(o) => {
                    return Ok(PathType::Rect(o.width, o.height));
                },
                ApertureTemplatePrimitive::M(_) => {
                    return Ok(PathType::Circle(Decimal { mantissa: 5, scale: 1 }));
                },
            },
        };
        match diameter.half() {
            Some(radius) => Ok(PathType::Circle(radius)),
            None => Err(PlotError::NumberOutOfRange),
        }
    }

    fn start_new_path(&mut self) -> (done: Result<(), PlotError>)
        requires
            old(self).wf(),
        ensures
            final(self).wf(),
            match done {
                Ok(_) => old(self)@.start_new_path() == Ok::<PlotterView, PlotError>(final(self)@),
                Err(e) => old(self)@.start_new_path() == Err::<PlotterView, PlotError>(e)
                    && final(self)@ == old(self)@,
            },
    {
        let tp = match self.path_type() {
            Ok(tp) => tp,
            Err(e) => {
                return Err(e);
            },
        };
        let Accumulator { x, y, i, j } = self.coords_accumulator;
        self.coords_accumulator = Accumulator { x: None, y: None, i, j };
        self.terminate_path();
        let mut path = RawPath::start(tp);
        path.push(RawPathElement::Start { x, y });
        proof {
            assert(path.elements@ =~= seq![RawPathElement::Start { x, y }]);
        }
        self.current_path = Some(path);
        Ok(())
    }

    fn interpolation(&mut self) -> (done: Result<(), PlotError>)
        requires
            old(self).wf(),
        ensures
            final(self).wf(),
            match done {
                Ok(_) => old(self)@.interpolation() == Ok::<PlotterView, PlotError>(final(self)@),
                Err(e) => old(self)@.interpolation() == Err::<PlotterView, PlotError>(e)
                    && final(self)@ == old(self)@,
            },
    {
        let fresh = if self.current_path.is_none() {
            match self.path_type() {
                Ok(tp) => Some(tp),
                Err(e) => {
                    return Err(e);
                },
            }
        } else {
            None
        };
        let mode = match self.interpolation {
            Some(mode) => mode,
            None => {
                return Err(PlotError::InterpolationNotSet);
            },
        };
        let Accumulator { x, y, i, j } = self.coords_accumulator;
        self.coords_accumulator = Accumulator { x: None, y: None, i: None, j: None };
        let dir = match self.circular_direction {
            Some(dir) => dir,
            None => CircularDirection::CW,
        };
        let element = match mode {
            Interpolation::Linear => RawPathElement::Linear { x, y },
            Interpolation::SingleQuadrant => RawPathElement::SingleQuadrant { x, y, i, j, dir },
            Interpolation::MultiQuadrant => RawPathElement::MultiQuadrant { x, y, i, j, dir },
        };
        let mut path = match self.current_path.take() {
            Some(path) => path,
            None => {
                let mut path = RawPath::start(fresh.unwrap());
                path.push(RawPathElement::Start { x: None, y: None });
                proof {
                    assert(path.elements@ =~= seq![RawPathElement::Start { x: None, y: None }]);
                }
                path
            },
        };
        path.push(element);
        self.current_path = Some(path);
        Ok(())
    }

    /// Carries out `command`. A command that cannot be carried out leaves
    /// the plotter as it was and says why.
    pub fn consume(&mut self, command: GerberCommand) -> (done: Result<(), PlotError>)
        requires
            old(self).wf(),
        ensures
            final(self).wf(),
            match done {
                Ok(_) => old(self)@.consume(command@) == Ok::<PlotterView, PlotError>(
                    final(self)@,
                ),
                Err(e) => old(self)@.consume(command@) == Err::<PlotterView, PlotError>(e)
                    && final(self)@ == old(self)@,
            },
    {
        match command {
            GerberCommand::StartContourMode => {
                self.start_contour();
                Ok(())
            },
            GerberCommand::FinishConrourMode => {
                self.finish_contour();
                Ok(())
            },
            GerberCommand::Unit(u) => {
                self.unit = Some(u);
                Ok(())
            },
            GerberCommand::Coordinate { coord, value } => self.set_coordinate(coord, value),
            GerberCommand::FormatSpecification(f) => {
                self.format = Some(f);
                Ok(())
            },
            GerberCommand::ApertureDefinition(a) => {
                let Aperture { name, template } = a;
                self.tools.insert(name, template);
                Ok(())
            },
            GerberCommand::Interpolation(i) => {
                self.interpolation = Some(i);
                Ok(())
            },
            GerberCommand::ApplyAperture(name) => self.apply_aperture(name),
            GerberCommand::Operation(op) => match op {
                OperationType::Interpolation => self.interpolation(),
                OperationType::Move => self.start_new_path(),
                OperationType::Flash => Ok(()),
            },
            GerberCommand::CounterClockWiseArc => {
                self.circular_direction = Some(CircularDirection::CCW);
                Ok(())
            },
            GerberCommand::ClockWiseArc => {
                self.circular_direction = Some(CircularDirection::CW);
                Ok(())
            },
            _ => Ok(()),
        }
    }

    /// The unit that the file chose, inches where it chose none. The
    /// choice is given up with it.
    pub fn get_units(&mut self) -> (unit: Unit)
        ensures
            unit == match old(self)@.unit {
                Some(u) => u,
                None => Unit::Inches,
            },
            final(self)@ == (PlotterView { unit: None, ..old(self)@ }),
            old(self).wf() ==> final(self).wf(),
    {
        match self.unit.take() {
            Some(u) => u,
            None => Unit::Inches,
        }
    }

    /// Ends the path in progress and hands over all the centrelines drawn,
    /// in the order in which they were ended.
    pub fn get_result(self) -> (paths: Vec<Path>)
        requires
            self.wf(),
        ensures
            path_views(paths@) == self@.terminate_path().collected,
    {
        let mut plotter = self;
        plotter.terminate_path();
        plotter.collected_paths
    }
}

} // verus!
