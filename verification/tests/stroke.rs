use gerber_plotter::parser::{Decimal, Polarity};
use gerber_plotter::plotter::rect_path_helper::RectDir::{
    Bottom, Left, LeftBottom, LeftTop, Right, RightBottom, RightTop, Top,
};
use gerber_plotter::plotter::rect_path_helper::{RectDir, Sign};
use gerber_plotter::plotter::region::stroke_path::reversed;
use gerber_plotter::plotter::region::{to_stroke_around_path, Nesting};
use gerber_plotter::plotter::stroke_path_element::{
    backward, create_ending_cap, create_starting_cap, forward, has_backward_transition,
    has_backward_transition_with_next, has_forward_transition, has_forward_transition_with_prev,
};
use gerber_plotter::plotter::{stroke_plans, CapPiece, ElementPlan, PathType, Piece, Turn};

fn dec(mantissa: i64, scale: usize) -> Decimal {
    Decimal { mantissa, scale }
}

fn circle() -> PathType {
    PathType::Circle(dec(5, 1))
}

fn rect() -> PathType {
    PathType::Rect(dec(8, 1), dec(12, 1))
}

fn body(trimmed_start: bool, trimmed_end: bool) -> Piece {
    Piece::Body { trimmed_start, trimmed_end }
}

#[test]
fn a_single_segment_gets_both_caps() {
    assert_eq!(
        forward(&circle(), None, None, false),
        vec![Piece::StartCap, body(false, false), Piece::EndCap]
    );
    assert_eq!(backward(&circle(), None, None), vec![body(false, false)]);
    let outline = [forward(&circle(), None, None, false), backward(&circle(), None, None)].concat();
    assert_eq!(outline.len(), 4);
}

#[test]
fn a_closed_path_gets_no_caps() {
    assert_eq!(forward(&circle(), None, Some(Turn::Left), true), vec![body(false, true)]);
    assert_eq!(forward(&circle(), Some(Turn::Left), None, true), vec![body(true, false)]);
}

#[test]
fn a_circle_rounds_the_outer_side_of_a_turn() {
    assert_eq!(
        forward(&circle(), Some(Turn::Right), Some(Turn::Right), false),
        vec![body(false, false), Piece::Transition]
    );
    assert_eq!(
        backward(&circle(), Some(Turn::Right), Some(Turn::Right)),
        vec![body(true, true)]
    );
    assert_eq!(
        forward(&circle(), Some(Turn::Left), Some(Turn::Left), false),
        vec![body(true, true)]
    );
    assert_eq!(
        backward(&circle(), Some(Turn::Left), Some(Turn::Left)),
        vec![Piece::Transition, body(false, false)]
    );
    assert_eq!(
        forward(&circle(), Some(Turn::Straight), Some(Turn::Straight), false),
        vec![body(true, true)]
    );
}

#[test]
fn a_rectangle_is_always_trimmed() {
    for turn in [Turn::Left, Turn::Straight, Turn::Right] {
        assert_eq!(forward(&rect(), Some(turn), Some(turn), false), vec![body(true, true)]);
        assert_eq!(backward(&rect(), Some(turn), Some(turn)), vec![body(true, true)]);
        assert!(!has_forward_transition(&rect(), turn));
        assert!(!has_backward_transition(&rect(), turn));
        assert!(!has_forward_transition_with_prev(&rect(), turn));
        assert!(!has_backward_transition_with_next(&rect(), turn));
    }
    assert!(has_forward_transition(&circle(), Turn::Right));
    assert!(has_forward_transition_with_prev(&circle(), Turn::Right));
    assert!(has_backward_transition(&circle(), Turn::Left));
    assert!(has_backward_transition_with_next(&circle(), Turn::Left));
    assert!(!has_forward_transition(&circle(), Turn::Left));
    assert!(!has_backward_transition(&circle(), Turn::Straight));
}

#[test]
fn caps_of_a_circle_and_of_a_rectangle() {
    assert_eq!(create_ending_cap(&circle(), RectDir::Right, RectDir::Left), vec![CapPiece::Arc]);
    assert_eq!(create_starting_cap(&circle(), RectDir::Right, RectDir::Left), vec![CapPiece::Arc]);
    assert_eq!(
        create_ending_cap(&rect(), RectDir::Right, RectDir::Left),
        vec![CapPiece::Line { from: RectDir::RightTop, to: RectDir::RightBottom }]
    );
    assert_eq!(
        create_starting_cap(&rect(), RectDir::Right, RectDir::Left),
        vec![CapPiece::Line { from: RectDir::LeftBottom, to: RectDir::LeftTop }]
    );
    assert_eq!(
        create_ending_cap(&rect(), RectDir::RightTop, RectDir::LeftBottom),
        vec![
            CapPiece::Line { from: RectDir::LeftTop, to: RectDir::RightTop },
            CapPiece::Line { from: RectDir::RightTop, to: RectDir::RightBottom },
        ]
    );
    assert_eq!(
        create_starting_cap(&rect(), RectDir::RightTop, RectDir::LeftBottom),
        vec![
            CapPiece::Line { from: RectDir::RightBottom, to: RectDir::LeftBottom },
            CapPiece::Line { from: RectDir::LeftBottom, to: RectDir::LeftTop },
        ]
    );
    assert_eq!(create_ending_cap(&PathType::Stroke, RectDir::Top, RectDir::Bottom), vec![]);
}

#[test]
fn an_open_stroke_is_one_outline() {
    let regions = to_stroke_around_path(vec!['a', 'b', 'c'], vec!['x', 'y'], None);
    assert_eq!(regions.len(), 1);
    assert_eq!(regions[0].starting_polarity, Polarity::Dark);
    assert_eq!(regions[0].paths.data, vec!['a', 'b', 'c', 'y', 'x']);
    assert!(regions[0].paths.is_leaf());
    assert_eq!(reversed(vec![1, 2, 3]), vec![3, 2, 1]);
    assert_eq!(reversed(Vec::<u8>::new()), vec![]);
}

#[test]
fn a_closed_stroke_nests_its_two_offsets() {
    let regions = to_stroke_around_path(vec!['f'], vec!['b'], Some(Nesting::Encloses));
    assert_eq!(regions.len(), 1);
    assert_eq!(regions[0].paths.data, vec!['f']);
    assert_eq!(regions[0].paths.children.len(), 1);
    assert_eq!(regions[0].paths.children[0].data, vec!['b']);

    let regions = to_stroke_around_path(vec!['f'], vec!['b'], Some(Nesting::Within));
    assert_eq!(regions.len(), 1);
    assert_eq!(regions[0].paths.data, vec!['b']);
    assert_eq!(regions[0].paths.children[0].data, vec!['f']);
    assert!(regions[0].paths.children[0].is_leaf());

    let regions = to_stroke_around_path(vec!['f'], vec!['b'], Some(Nesting::Apart));
    assert_eq!(regions.len(), 2);
    assert_eq!(regions[0].paths.data, vec!['f']);
    assert_eq!(regions[1].paths.data, vec!['b']);
    assert!(regions[0].paths.is_leaf() && regions[1].paths.is_leaf());
}

#[test]
fn directions_of_a_rectangle() {
    assert_eq!(RectDir::from_dir(Sign::Positive, Sign::Zero, true, false), Right);
    assert_eq!(RectDir::from_dir(Sign::Negative, Sign::Zero, true, false), Left);
    assert_eq!(RectDir::from_dir(Sign::Zero, Sign::Positive, false, true), Top);
    assert_eq!(RectDir::from_dir(Sign::Zero, Sign::Negative, false, true), Bottom);
    assert_eq!(RectDir::from_dir(Sign::Zero, Sign::Zero, true, true), Bottom);
    assert_eq!(RectDir::from_dir(Sign::Positive, Sign::Positive, false, false), RightTop);
    assert_eq!(RectDir::from_dir(Sign::Negative, Sign::Positive, false, false), LeftTop);
    assert_eq!(RectDir::from_dir(Sign::Negative, Sign::Negative, false, false), LeftBottom);
    assert_eq!(RectDir::from_dir(Sign::Positive, Sign::Negative, false, false), RightBottom);
    assert_eq!(RectDir::from_dir(Sign::Zero, Sign::Positive, false, false), RightTop);
    assert_eq!(RectDir::from_dir(Sign::Zero, Sign::Zero, false, false), RightBottom);
    assert_eq!(RectDir::from_dir(Sign::Negative, Sign::Zero, false, false), LeftBottom);

    for dir in [Left, Right, Top, Bottom] {
        assert!(dir.is_ortho());
        assert!(!dir.start().is_ortho());
        assert!(!dir.end().is_ortho());
        assert_eq!(dir.opposite().opposite(), dir);
    }
    for dir in [LeftBottom, RightBottom, LeftTop, RightTop] {
        assert!(!dir.is_ortho());
        assert_eq!(dir.start(), dir.end());
        assert_eq!(dir.opposite().opposite(), dir);
    }
    assert_eq!(Left.start(), RightBottom);
    assert_eq!(Left.end(), LeftBottom);
    assert_eq!(Right.start(), LeftTop);
    assert_eq!(Right.end(), RightTop);
    assert_eq!(Top.start(), LeftBottom);
    assert_eq!(Top.end(), LeftTop);
    assert_eq!(Bottom.start(), RightTop);
    assert_eq!(Bottom.end(), RightBottom);
    assert_eq!(LeftTop.opposite(), RightBottom);
}

#[test]
fn vectors_of_a_rectangle() {
    let wh = (dec(8, 1), dec(12, 1));
    assert_eq!(RectDir::RightTop.vec(&wh), Some((dec(40, 2), dec(60, 2))));
    assert_eq!(RectDir::LeftBottom.vec(&wh), Some((dec(-40, 2), dec(-60, 2))));
    assert_eq!(RectDir::LeftTop.vec(&wh), Some((dec(-40, 2), dec(60, 2))));
    assert_eq!(RectDir::RightBottom.vec(&wh), Some((dec(40, 2), dec(-60, 2))));
    assert_eq!(RectDir::Left.vec(&wh), Some((dec(-1, 0), dec(0, 0))));
    assert_eq!(RectDir::Top.vec(&wh), Some((dec(0, 0), dec(1, 0))));
    let huge = (dec(i64::MAX, 0), dec(1, 0));
    assert_eq!(RectDir::RightTop.vec(&huge), None);
    assert_eq!(RectDir::Bottom.vec(&huge), Some((dec(0, 0), dec(-1, 0))));
}

#[test]
fn the_plans_of_a_path_follow_its_joints() {
    let plans = stroke_plans(&circle(), &vec![Turn::Right, Turn::Left], false);
    assert_eq!(
        plans,
        vec![
            ElementPlan {
                forward: vec![Piece::StartCap, body(false, false), Piece::Transition],
                backward: vec![body(true, false)],
            },
            ElementPlan {
                forward: vec![body(false, true)],
                backward: vec![body(false, true)],
            },
            ElementPlan {
                forward: vec![body(true, false), Piece::EndCap],
                backward: vec![Piece::Transition, body(false, false)],
            },
        ]
    );
    let single = stroke_plans(&rect(), &vec![], true);
    assert_eq!(
        single,
        vec![ElementPlan { forward: vec![body(false, false)], backward: vec![body(false, false)] }]
    );
}
