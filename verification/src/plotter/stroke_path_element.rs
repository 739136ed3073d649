//! What the outline of a swept element is made of: which joins are
//! rounded, which are trimmed, and where caps go.
//!
//! An element is offset to both sides: forward, in its own direction, and
//! backward, against it. At a joint the path turns left, turns right or
//! goes straight on, as seen along the path.

use super::path::PathType;
use super::rect_path_helper::RectDir;
use vstd::prelude::*;

verus! {

/// How the path turns at a joint, seen along the path: the sign of the
/// angle from the direction in which it arrives to the direction in which
/// it leaves.
#[derive(Debug, Clone, Copy, PartialEq, Eq, Structural)]
pub enum Turn {
    /// A positive angle: counter-clockwise.
    Left,
    Straight,
    /// A negative angle: clockwise.
    Right,
}

/// One piece of the offset of an element.
#[derive(Debug, Clone, Copy, PartialEq, Eq, Structural)]
pub enum Piece {
    /// The cap around the start of an open path.
    StartCap,
    /// The element itself, offset. An end that is trimmed lies where the
    /// offset meets the offset of the neighbour; an end that is not lies
    /// at the plain offset of the end of the element.
    Body { trimmed_start: bool, trimmed_end: bool },
    /// The arc around a joint at which the offsets gape.
    Transition,
    /// The cap around the end of an open path.
    EndCap,
}

/// One piece of a cap.
#[derive(Debug, Clone, Copy, PartialEq, Eq, Structural)]
pub enum CapPiece {
    /// Half a circle, clockwise, around the end of the path.
    Arc,
    /// A line between two corners of the aperture as it stands at the end
    /// of the path.
    Line { from: RectDir, to: RectDir },
}

/// Whether `tp` is swept with round joins: only a circle is.
pub open spec fn rounds(tp: PathType) -> bool {
    tp is Circle
}

fn is_round(tp: &PathType) -> (round: bool)
    ensures
        round == rounds(*tp),
{
    matches!(tp, PathType::Circle(_))
}

/// Whether the forward offsets gape at the joint with the next element,
/// so that an arc has to close them. `turn` is how the path turns there.
pub fn has_forward_transition(tp: &PathType, turn: Turn) -> (gapes: bool)
    ensures
        gapes == (rounds(*tp) && turn == Turn::Right),
{
    is_round(tp) && matches!(turn, Turn::Right)
}

/// Whether the forward offsets gape at the joint with the element before.
/// `turn` is how the path turns there.
pub fn has_forward_transition_with_prev(tp: &PathType, turn: Turn) -> (gapes: bool)
    ensures
        gapes == (rounds(*tp) && turn == Turn::Right),
{
    is_round(tp) && matches!(turn, Turn::Right)
}

/// Whether the backward offsets gape at the joint with the element
/// before. `turn` is how the path turns there.
pub fn has_backward_transition(tp: &PathType, turn: Turn) -> (gapes: bool)
    ensures
        gapes == (rounds(*tp) && turn == Turn::Left),
{
    is_round(tp) && matches!(turn, Turn::Left)
}

/// Whether the backward offsets gape at the joint with the next element.
/// `turn` is how the path turns there.
pub fn has_backward_transition_with_next(tp: &PathType, turn: Turn) -> (gapes: bool)
    ensures
        gapes == (rounds(*tp) && turn == Turn::Left),
{
    is_round(tp) && matches!(turn, Turn::Left)
}

/// `piece` if `wanted`, else nothing.
pub open spec fn when(wanted: bool, piece: Piece) -> Seq<Piece> {
    if wanted {
        seq![piece]
    } else {
        Seq::empty()
    }
}

/// The pieces of the forward offset of an element, in order. `prev` and
/// `next` say how the path turns at the joints with its neighbours, where
/// it has them.
pub open spec fn forward_pieces(
    tp: PathType,
    prev: Option<Turn>,
    next: Option<Turn>,
    is_path_locked: bool,
) -> Seq<Piece> {
    let gapes_before = prev matches Some(turn) && rounds(tp) && turn == Turn::Right;
    let gapes_after = next matches Some(turn) && rounds(tp) && turn == Turn::Right;
    when(prev is None && !is_path_locked, Piece::StartCap) + seq![
        Piece::Body {
            trimmed_start: prev is Some && !gapes_before,
            trimmed_end: next is Some && !gapes_after,
        },
    ] + when(gapes_after, Piece::Transition) + when(
        next is None && !is_path_locked,
        Piece::EndCap,
    )
}

/// The pieces of the backward offset of an element, in the order in which
/// they are drawn: against the path.
pub open spec fn backward_pieces(tp: PathType, prev: Option<Turn>, next: Option<Turn>) -> Seq<
    Piece,
> {
    let gapes_before = prev matches Some(turn) && rounds(tp) && turn == Turn::Left;
    let gapes_after = next matches Some(turn) && rounds(tp) && turn == Turn::Left;
    when(gapes_before, Piece::Transition) + seq![
        Piece::Body {
            trimmed_start: next is Some && !gapes_after,
            trimmed_end: prev is Some && !gapes_before,
        },
    ]
}

/// Plans the forward offset of an element. An open path gets a cap at its
/// first and at its last element; a closed one gets none. A joint at
/// which the offsets gape gets an arc behind the element; at any other
/// joint the element is trimmed.
pub fn forward(tp: &PathType, prev: Option<Turn>, next: Option<Turn>, is_path_locked: bool) -> (plan:
    Vec<Piece>)
    ensures
        plan@ == forward_pieces(*tp, prev, next, is_path_locked),
{
    let mut plan: Vec<Piece> = Vec::new();
    let trimmed_start = match prev {
        None => false,
        Some(turn) => !has_forward_transition_with_prev(tp, turn),
    };
    let gapes_after = match next {
        None => false,
        Some(turn) => has_forward_transition(tp, turn),
    };
    if prev.is_none() && !is_path_locked {
        plan.push(Piece::StartCap);
    }
    plan.push(Piece::Body { trimmed_start, trimmed_end: next.is_some() && !gapes_after });
    if gapes_after {
        plan.push(Piece::Transition);
    }
    if next.is_none() && !is_path_locked {
        plan.push(Piece::EndCap);
    }
    proof {
        assert(plan@ =~= forward_pieces(*tp, prev, next, is_path_locked));
    }
    plan
}

/// Plans the backward offset of an element: an arc first where the
/// offsets gape at the joint with the element before, then the element,
/// trimmed at every joint that has no arc.
pub fn backward(tp: &PathType, prev: Option<Turn>, next: Option<Turn>) -> (plan: Vec<Piece>)
    ensures
        plan@ == backward_pieces(*tp, prev, next),
{
    let mut plan: Vec<Piece> = Vec::new();
    let gapes_before = match prev {
        None => false,
        Some(turn) => has_backward_transition(tp, turn),
    };
    let trimmed_start = match next {
        None => false,
        Some(turn) => !has_backward_transition_with_next(tp, turn),
    };
    if gapes_before {
        plan.push(Piece::Transition);
    }
    plan.push(Piece::Body { trimmed_start, trimmed_end: prev.is_some() && !gapes_before });
    proof {
        assert(plan@ =~= backward_pieces(*tp, prev, next));
    }
    plan
}

/// The cap at the end of an open path. `forward` is the direction of
/// sweep there, `backward` the one against it.
pub open spec fn ending_cap(tp: PathType, forward: RectDir, backward: RectDir) -> Seq<CapPiece> {
    match tp {
        PathType::Circle(_) => seq![CapPiece::Arc],
        PathType::Rect(_, _) => if forward.spec_is_ortho() {
            seq![CapPiece::Line { from: forward.spec_end(), to: backward.spec_start() }]
        } else {
            seq![
                CapPiece::Line { from: forward.spec_end(), to: backward.spec_opposite() },
                CapPiece::Line { from: backward.spec_opposite(), to: backward.spec_start() },
            ]
        },
        PathType::Stroke => Seq::empty(),
    }
}

/// The cap at the start of an open path. `forward` is the direction of
/// sweep there, `backward` the one against it.
pub open spec fn starting_cap(tp: PathType, forward: RectDir, backward: RectDir) -> Seq<CapPiece> {
    match tp {
        PathType::Circle(_) => seq![CapPiece::Arc],
        PathType::Rect(_, _) => if backward.spec_is_ortho() {
            seq![CapPiece::Line { from: backward.spec_end(), to: forward.spec_start() }]
        } else {
            seq![
                CapPiece::Line { from: backward.spec_end(), to: forward.spec_opposite() },
                CapPiece::Line { from: forward.spec_opposite(), to: forward.spec_start() },
            ]
        },
        PathType::Stroke => Seq::empty(),
    }
}

/// Plans the cap at the end of an open path: half a circle for a circle;
/// for a rectangle one line along its leading side where the sweep runs
/// along an axis, two lines around its leading corner where it does not.
/// An outline has no caps.
pub fn create_ending_cap(tp: &PathType, forward: RectDir, backward: RectDir) -> (cap: Vec<CapPiece>)
    ensures
        cap@ == ending_cap(*tp, forward, backward),
{
    let mut cap: Vec<CapPiece> = Vec::new();
    match tp {
        PathType::Circle(_) => {
            cap.push(CapPiece::Arc);
        },
        PathType::Rect(_, _) => {
            if forward.is_ortho() {
                cap.push(CapPiece::Line { from: forward.end(), to: backward.start() });
            } else {
                let middle = backward.opposite();
                cap.push(CapPiece::Line { from: forward.end(), to: middle });
                cap.push(CapPiece::Line { from: middle, to: backward.start() });
            }
        },
        PathType::Stroke => {},
    }
    proof {
        assert(cap@ =~= ending_cap(*tp, forward, backward));
    }
    cap
}

/// Plans the cap at the start of an open path, as [`create_ending_cap`]
/// does for its end.
pub fn create_starting_cap(tp: &PathType, forward: RectDir, backward: RectDir) -> (cap: Vec<
    CapPiece,
>)
    ensures
        cap@ == starting_cap(*tp, forward, backward),
{
    let mut cap: Vec<CapPiece> = Vec::new();
    match tp {
        PathType::Circle(_) => {
            cap.push(CapPiece::Arc);
        },
        PathType::Rect(_, _) => {
            if backward.is_ortho() {
                cap.push(CapPiece::Line { from: backward.end(), to: forward.start() });
            } else {
                let middle = forward.opposite();
                cap.push(CapPiece::Line { from: backward.end(), to: middle });
                cap.push(CapPiece::Line { from: middle, to: forward.start() });
            }
        },
        PathType::Stroke => {},
    }
    proof {
        assert(cap@ =~= starting_cap(*tp, forward, backward));
    }
    cap
}

/// A rectangle is never swept with round joins: its offsets have no arcs
/// and are trimmed at every joint.
pub proof fn lemma_rectangle_is_mitred(
    tp: PathType,
    prev: Option<Turn>,
    next: Option<Turn>,
    is_path_locked: bool,
)
    requires
        tp is Rect,
    ensures
        !forward_pieces(tp, prev, next, is_path_locked).contains(Piece::Transition),
        !backward_pieces(tp, prev, next).contains(Piece::Transition),
        forward_pieces(tp, prev, next, is_path_locked).contains(
            Piece::Body { trimmed_start: prev is Some, trimmed_end: next is Some },
        ),
        backward_pieces(tp, prev, next) == seq![
            Piece::Body { trimmed_start: next is Some, trimmed_end: prev is Some },
        ],
{
    let plan = forward_pieces(tp, prev, next, is_path_locked);
    let body = Piece::Body { trimmed_start: prev is Some, trimmed_end: next is Some };
    let caps_before = when(prev is None && !is_path_locked, Piece::StartCap);
    assert(plan[caps_before.len() as int] == body);
    assert(backward_pieces(tp, prev, next) =~= seq![
        Piece::Body { trimmed_start: next is Some, trimmed_end: prev is Some },
    ]);
}

/// A closed path has no caps.
pub proof fn lemma_closed_path_has_no_caps(tp: PathType, prev: Option<Turn>, next: Option<Turn>)
    ensures
        !forward_pieces(tp, prev, next, true).contains(Piece::StartCap),
        !forward_pieces(tp, prev, next, true).contains(Piece::EndCap),
        !backward_pieces(tp, prev, next).contains(Piece::StartCap),
        !backward_pieces(tp, prev, next).contains(Piece::EndCap),
{
}

/// An open path starts with a cap before its first element and ends with
/// a cap behind its last; an element between two others has none.
pub proof fn lemma_open_path_is_capped(tp: PathType, prev: Option<Turn>, next: Option<Turn>)
    ensures
        prev is None ==> forward_pieces(tp, prev, next, false).first() == Piece::StartCap,
        next is None ==> forward_pieces(tp, prev, next, false).last() == Piece::EndCap,
        prev is Some ==> !forward_pieces(tp, prev, next, false).contains(Piece::StartCap),
        next is Some ==> !forward_pieces(tp, prev, next, false).contains(Piece::EndCap),
{
}

/// The offsets gape on one side of a joint at most: where the forward
/// offset of an element has an arc behind it, the backward offset of the
/// next element has none before it.
pub proof fn lemma_one_side_gapes(tp: PathType, turn: Turn, before: Option<Turn>, after: Option<Turn>)
    ensures
        !(forward_pieces(tp, before, Some(turn), false).contains(Piece::Transition)
            && backward_pieces(tp, Some(turn), after).contains(Piece::Transition)),
{
    if turn == Turn::Right {
        assert(!backward_pieces(tp, Some(turn), after).contains(Piece::Transition));
    } else {
        assert(!forward_pieces(tp, before, Some(turn), false).contains(Piece::Transition));
    }
}

/// The plan of both offsets of one element.
#[derive(Debug, PartialEq, Eq)]
pub struct ElementPlan {
    pub forward: Vec<Piece>,
    pub backward: Vec<Piece>,
}

/// How the path turns at the joint before the element at `index`; `None`
/// for the first element. `joints` holds the turn between each element
/// and the next.
pub open spec fn joint_before(joints: Seq<Turn>, index: int) -> Option<Turn> {
    if 0 < index <= joints.len() {
        Some(joints[index - 1])
    } else {
        None
    }
}

/// How the path turns at the joint behind the element at `index`; `None`
/// for the last element.
pub open spec fn joint_after(joints: Seq<Turn>, index: int) -> Option<Turn> {
    if 0 <= index < joints.len() {
        Some(joints[index])
    } else {
        None
    }
}

/// Plans the offsets of every element of a path. `joints` holds the turn
/// between each element and the next, so that the path has one element
/// more than `joints` has turns. The first element has no joint before it
/// and the last none behind it, also where the path is closed.
pub fn stroke_plans(tp: &PathType, joints: &Vec<Turn>, is_path_locked: bool) -> (plans: Vec<
    ElementPlan,
>)
    ensures
        plans@.len() == joints@.len() + 1,
        forall|i: int|
            0 <= i < plans@.len() ==> (#[trigger] plans@[i]).forward@ == forward_pieces(
                *tp,
                joint_before(joints@, i),
                joint_after(joints@, i),
                is_path_locked,
            ) && plans@[i].backward@ == backward_pieces(
                *tp,
                joint_before(joints@, i),
                joint_after(joints@, i),
            ),
{
    let mut plans: Vec<ElementPlan> = Vec::new();
    let n = joints.len();
    let mut i: usize = 0;
    loop
        invariant_except_break
            i <= n == joints@.len(),
            plans@.len() == i,
            forall|k: int|
                0 <= k < plans@.len() ==> (#[trigger] plans@[k]).forward@ == forward_pieces(
                    *tp,
                    joint_before(joints@, k),
                    joint_after(joints@, k),
                    is_path_locked,
                ) && plans@[k].backward@ == backward_pieces(
                    *tp,
                    joint_before(joints@, k),
                    joint_after(joints@, k),
                ),
        ensures
            n == joints@.len(),
            plans@.len() == n + 1,
            forall|k: int|
                0 <= k < plans@.len() ==> (#[trigger] plans@[k]).forward@ == forward_pieces(
                    *tp,
                    joint_before(joints@, k),
                    joint_after(joints@, k),
                    is_path_locked,
                ) && plans@[k].backward@ == backward_pieces(
                    *tp,
                    joint_before(joints@, k),
                    joint_after(joints@, k),
                ),
        decreases n - i,
    {
        let prev = if i == 0 {
            None
        } else {
            Some(joints[i - 1])
        };
        let next = if i < n {
            Some(joints[i])
        } else {
            None
        };
        plans.push(
            ElementPlan {
                forward: forward(tp, prev, next, is_path_locked),
                backward: backward(tp, prev, next),
            },
        );
        if i == n {
            break ;
        }
        i += 1;
    }
    plans
}

} // verus!
