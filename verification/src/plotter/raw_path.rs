//! A path as the commands build it: a start and what was drawn from
//! there, each coordinate given only where the file stated it.

use super::circular_direction::CircularDirection;
use super::path::{Path, PathType, PathView, Point, RawArc, Segment};
use crate::parser::number::Decimal;
use vstd::prelude::*;

verus! {

/// One drawing step with the coordinates that the file gave for it.
#[derive(Debug, Clone, Copy, PartialEq, Eq, Structural)]
pub enum RawPathElement {
    SingleQuadrant {
        x: Option<Decimal>,
        y: Option<Decimal>,
        i: Option<Decimal>,
        j: Option<Decimal>,
        dir: CircularDirection,
    },
    MultiQuadrant {
        x: Option<Decimal>,
        y: Option<Decimal>,
        i: Option<Decimal>,
        j: Option<Decimal>,
        dir: CircularDirection,
    },
    Linear { x: Option<Decimal>, y: Option<Decimal> },
    Start { x: Option<Decimal>, y: Option<Decimal> },
}

/// The steps drawn with one tool since the last move.
#[derive(Debug, PartialEq, Eq)]
pub struct RawPath {
    pub tp: PathType,
    pub elements: Vec<RawPathElement>,
}

pub struct RawPathView {
    pub tp: PathType,
    pub elements: Seq<RawPathElement>,
}

impl View for RawPath {
    type V = RawPathView;

    open spec fn view(&self) -> RawPathView {
        RawPathView { tp: self.tp, elements: self.elements@ }
    }
}

/// The number zero.
pub open spec fn zero() -> Decimal {
    Decimal { mantissa: 0, scale: 0 }
}

/// `given` where the file stated it, else `kept`.
pub open spec fn or_kept(given: Option<Decimal>, kept: Decimal) -> Decimal {
    match given {
        Some(value) => value,
        None => kept,
    }
}

/// The point a step leads to from `at`: a coordinate that was not given
/// stays as it is.
pub open spec fn target(x: Option<Decimal>, y: Option<Decimal>, at: Point) -> Point {
    Point { x: or_kept(x, at.x), y: or_kept(y, at.y) }
}

/// Where the pen is after `step`, having been at `at`.
pub open spec fn after(step: RawPathElement, at: Point) -> Point {
    match step {
        RawPathElement::Start { x, y } => Point { x: or_kept(x, zero()), y: or_kept(y, zero()) },
        RawPathElement::Linear { x, y } => target(x, y, at),
        RawPathElement::SingleQuadrant { x, y, .. } => target(x, y, at),
        RawPathElement::MultiQuadrant { x, y, .. } => target(x, y, at),
    }
}

/// What `step` draws from `at`: nothing for a start, else one element.
pub open spec fn drawn(step: RawPathElement, at: Point) -> Option<Segment> {
    match step {
        RawPathElement::Start { .. } => None,
        RawPathElement::Linear { x, y } => Some(Segment::Line { from: at, to: target(x, y, at) }),
        RawPathElement::SingleQuadrant { x, y, i, j, dir } => Some(
            Segment::Arc {
                from: at,
                arc: RawArc { to: target(x, y, at), dir, i, j },
                single_quadrant: true,
            },
        ),
        RawPathElement::MultiQuadrant { x, y, i, j, dir } => Some(
            Segment::Arc {
                from: at,
                arc: RawArc { to: target(x, y, at), dir, i, j },
                single_quadrant: false,
            },
        ),
    }
}

/// The elements that `steps` draw with the pen at `at`.
pub open spec fn resolve_from(steps: Seq<RawPathElement>, at: Point) -> Seq<Segment>
    decreases steps.len(),
{
    if steps.len() == 0 {
        Seq::empty()
    } else {
        let rest = resolve_from(steps.drop_first(), after(steps.first(), at));
        match drawn(steps.first(), at) {
            Some(segment) => seq![segment] + rest,
            None => rest,
        }
    }
}

/// The elements that `steps` draw. The pen starts at the origin; a start
/// moves it.
pub open spec fn resolve(steps: Seq<RawPathElement>) -> Seq<Segment> {
    resolve_from(steps, Point { x: zero(), y: zero() })
}

/// Each element that `steps` draw starts where the one before it ends.
pub proof fn lemma_resolve_connected(steps: Seq<RawPathElement>, at: Point)
    requires
        forall|k: int| 0 < k < steps.len() ==> !(#[trigger] steps[k] is Start),
    ensures
        super::path::connected(resolve_from(steps, at)),
        resolve_from(steps, at).len() > 0 ==> resolve_from(steps, at).first().spec_start() == (
        if steps.first() is Start {
            after(steps.first(), at)
        } else {
            at
        }),
    decreases steps.len(),
{
    if steps.len() > 0 {
        let rest_steps = steps.drop_first();
        let next = after(steps.first(), at);
        assert forall|k: int| 0 < k < rest_steps.len() implies !(#[trigger] rest_steps[k] is Start) by {
            assert(rest_steps[k] == steps[k + 1]);
        }
        lemma_resolve_connected(rest_steps, next);
        let rest = resolve_from(rest_steps, next);
        if rest_steps.len() > 0 {
            assert(rest_steps.first() == steps[1]);
        }
        match drawn(steps.first(), at) {
            Some(segment) => {
                let all = seq![segment] + rest;
                assert forall|i: int| 0 < i < all.len() implies (#[trigger] all[i]).spec_start()
                    == all[i - 1].spec_end() by {
                    if i == 1 {
                        assert(all[1] == rest[0]);
                        assert(all[0] == segment);
                    } else {
                        assert(all[i] == rest[i - 1]);
                        assert(all[i - 1] == rest[i - 2]);
                    }
                }
            },
            None => {},
        }
    }
}

fn kept_or(given: Option<Decimal>, kept: Decimal) -> (value: Decimal)
    ensures
        value == or_kept(given, kept),
{
    match given {
        Some(value) => value,
        None => kept,
    }
}

impl RawPath {
    /// A path for the tool `tp` without any step yet.
    pub fn start(tp: PathType) -> (path: RawPath)
        ensures
            path.tp == tp,
            path.elements@.len() == 0,
    {
        RawPath { tp, elements: Vec::new() }
    }

    /// Adds the step `el`.
    pub fn push(&mut self, el: RawPathElement)
        ensures
            final(self).tp == old(self).tp,
            final(self).elements@ == old(self).elements@.push(el),
    {
        self.elements.push(el);
    }
}

impl Path {
    /// The centreline that the steps of `path` draw.
    pub fn from_raw(path: RawPath) -> (made: Path)
        ensures
            made@ == (PathView { tp: path.tp, elements: resolve(path.elements@) }),
    {
        let mut made = Path::new(path.tp);
        let mut at = Point { x: Decimal { mantissa: 0, scale: 0 }, y: Decimal { mantissa: 0, scale: 0 } };
        let mut k: usize = 0;
        proof {
            assert(path.elements@.skip(0) =~= path.elements@);
            assert(made.elements@ + resolve(path.elements@) =~= resolve(path.elements@));
        }
        while k < path.elements.len()
            invariant
                k <= path.elements@.len(),
                made.tp == path.tp,
                resolve(path.elements@) == made.elements@ + resolve_from(
                    path.elements@.skip(k as int),
                    at,
                ),
            decreases path.elements@.len() - k,
        {
            let step = path.elements[k];
            proof {
                let left = path.elements@.skip(k as int);
                assert(left.first() == step);
                assert(left.drop_first() =~= path.elements@.skip(k + 1));
                match drawn(step, at) {
                    Some(segment) => {
                        let rest = resolve_from(path.elements@.skip(k + 1), after(step, at));
                        assert(made.elements@ + (seq![segment] + rest) =~= made.elements@.push(
                            segment,
                        ) + rest);
                    },
                    None => {},
                }
            }
            match step {
                RawPathElement::Start { x, y } => {
                    at = Point {
                        x: kept_or(x, Decimal { mantissa: 0, scale: 0 }),
                        y: kept_or(y, Decimal { mantissa: 0, scale: 0 }),
                    };
                },
                RawPathElement::Linear { x, y } => {
                    let to = Point { x: kept_or(x, at.x), y: kept_or(y, at.y) };
                    made.add(Segment::Line { from: at, to });
                    at = to;
                },
                RawPathElement::SingleQuadrant { x, y, i, j, dir } => {
                    let to = Point { x: kept_or(x, at.x), y: kept_or(y, at.y) };
                    made.add(
                        Segment::Arc { from: at, arc: RawArc { to, dir, i, j }, single_quadrant: true },
                    );
                    at = to;
                },
                RawPathElement::MultiQuadrant { x, y, i, j, dir } => {
                    let to = Point { x: kept_or(x, at.x), y: kept_or(y, at.y) };
                    made.add(
                        Segment::Arc {
                            from: at,
                            arc: RawArc { to, dir, i, j },
                            single_quadrant: false,
                        },
                    );
                    at = to;
                },
            }
            k += 1;
        }
        proof {
            assert(path.elements@.skip(k as int).len() == 0);
            assert(made.elements@ + Seq::<Segment>::empty() =~= made.elements@);
        }
        made
    }
}

} // verus!
