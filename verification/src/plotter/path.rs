//! Centrelines as the plotter draws them: exact points joined by lines
//! and arcs, and the tool that is to be swept along them.

use super::circular_direction::CircularDirection;
use crate::parser::number::Decimal;
use vstd::prelude::*;

verus! {

/// A point of the plane, exactly as the file gives it.
#[derive(Debug, Clone, Copy, PartialEq, Eq, Structural)]
pub struct Point {
    pub x: Decimal,
    pub y: Decimal,
}

impl Point {
    /// Whether the two are one place, however their numbers are written.
    pub open spec fn same_place(self, other: Point) -> bool {
        self.x.same_value(other.x) && self.y.same_value(other.y)
    }

    #[verifier::when_used_as_spec(same_place)]
    pub fn coincides(self, other: Point) -> (same: bool)
        ensures
            same == self.same_place(other),
    {
        self.x.equals(&other.x) && self.y.equals(&other.y)
    }
}

/// What a path is: the centreline of a rectangle of this width and height,
/// the centreline of a circle of this radius, or an outline already.
#[derive(Debug, Clone, Copy, PartialEq, Eq, Structural)]
pub enum PathType {
    Rect(Decimal, Decimal),
    Circle(Decimal),
    Stroke,
}

/// An arc as a file gives it: its end, its sense, and the offsets of its
/// centre from its start where the file states them.
#[derive(Debug, Clone, Copy, PartialEq, Eq, Structural)]
pub struct RawArc {
    pub to: Point,
    pub dir: CircularDirection,
    pub i: Option<Decimal>,
    pub j: Option<Decimal>,
}

/// One element of a centreline.
#[derive(Debug, Clone, Copy, PartialEq, Eq, Structural)]
pub enum Segment {
    Line { from: Point, to: Point },
    /// An arc from `from`. In a single quadrant the offsets of the centre
    /// are given without their signs.
    Arc { from: Point, arc: RawArc, single_quadrant: bool },
}

impl Segment {
    pub open spec fn spec_start(self) -> Point {
        match self {
            Segment::Line { from, .. } => from,
            Segment::Arc { from, .. } => from,
        }
    }

    pub open spec fn spec_end(self) -> Point {
        match self {
            Segment::Line { to, .. } => to,
            Segment::Arc { arc, .. } => arc.to,
        }
    }

    /// Where the element starts.
    #[verifier::when_used_as_spec(spec_start)]
    pub fn start(self) -> (point: Point)
        ensures
            point == self.spec_start(),
    {
        match self {
            Segment::Line { from, .. } => from,
            Segment::Arc { from, .. } => from,
        }
    }

    /// Where the element ends.
    #[verifier::when_used_as_spec(spec_end)]
    pub fn end(self) -> (point: Point)
        ensures
            point == self.spec_end(),
    {
        match self {
            Segment::Line { to, .. } => to,
            Segment::Arc { arc, .. } => arc.to,
        }
    }
}

/// Whether the last of `elements` ends where the first starts.
pub open spec fn closes(elements: Seq<Segment>) -> bool {
    elements.len() > 0 && elements.first().spec_start().same_place(elements.last().spec_end())
}

/// Whether each element of `elements` starts where the one before it ends.
pub open spec fn connected(elements: Seq<Segment>) -> bool {
    forall|i: int|
        0 < i < elements.len() ==> (#[trigger] elements[i]).spec_start() == elements[i
            - 1].spec_end()
}

/// A tool and the centreline it follows.
#[derive(Debug, PartialEq, Eq)]
pub struct Path {
    pub tp: PathType,
    pub elements: Vec<Segment>,
}

/// A path with its elements as a sequence.
pub struct PathView {
    pub tp: PathType,
    pub elements: Seq<Segment>,
}

impl View for Path {
    type V = PathView;

    open spec fn view(&self) -> PathView {
        PathView { tp: self.tp, elements: self.elements@ }
    }
}

impl Path {
    /// An empty path for the tool `tp`.
    pub fn new(tp: PathType) -> (path: Path)
        ensures
            path.tp == tp,
            path.elements@.len() == 0,
    {
        Path { tp, elements: Vec::new() }
    }

    /// An outline made of `els`.
    pub fn stroke(els: Vec<Segment>) -> (path: Path)
        ensures
            path.tp == PathType::Stroke,
            path.elements == els,
    {
        Path { tp: PathType::Stroke, elements: els }
    }

    pub fn is_empty(&self) -> (empty: bool)
        ensures
            empty == (self.elements@.len() == 0),
    {
        self.elements.is_empty()
    }

    /// Whether the path is closed: it has elements and ends where it
    /// starts.
    pub fn is_locked(&self) -> (locked: bool)
        ensures
            locked == closes(self.elements@),
    {
        let n = self.elements.len();
        if n == 0 {
            return false;
        }
        self.elements[0].start().coincides(self.elements[n - 1].end())
    }

    /// Appends `element`.
    pub fn add(&mut self, element: Segment)
        ensures
            final(self).tp == old(self).tp,
            final(self).elements@ == old(self).elements@.push(element),
    {
        self.elements.push(element);
    }
}

} // verus!
