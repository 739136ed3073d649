//! The eight directions in which a rectangular aperture can be swept,
//! and the corners of the aperture that lead and trail in each.

use crate::parser::number::Decimal;
use vstd::prelude::*;

verus! {

/// The sign of a number.
#[derive(Debug, Clone, Copy, PartialEq, Eq, Structural)]
pub enum Sign {
    Negative,
    Zero,
    Positive,
}

/// A direction of sweep: along an axis, or into a quadrant. The four
/// quadrants also name the corners of the aperture.
#[derive(Debug, Clone, Copy, PartialEq, Eq, Structural)]
pub enum RectDir {
    LeftBottom,
    RightBottom,
    LeftTop,
    RightTop,
    Left,
    Right,
    Top,
    Bottom,
}

/// `value` with its sign changed.
pub open spec fn negated(value: Decimal) -> Decimal {
    Decimal { mantissa: (-value.mantissa) as i64, scale: value.scale }
}

impl RectDir {
    /// How the direction points along x and along y: -1, 0 or 1 each.
    pub open spec fn signs(self) -> (int, int) {
        match self {
            RectDir::LeftBottom => (-1, -1),
            RectDir::RightBottom => (1, -1),
            RectDir::LeftTop => (-1, 1),
            RectDir::RightTop => (1, 1),
            RectDir::Left => (-1, 0),
            RectDir::Right => (1, 0),
            RectDir::Top => (0, 1),
            RectDir::Bottom => (0, -1),
        }
    }

    pub open spec fn spec_is_ortho(self) -> bool {
        self.signs().0 == 0 || self.signs().1 == 0
    }

    /// Whether the direction runs along an axis.
    pub fn is_ortho(&self) -> (ortho: bool)
        ensures
            ortho == self.spec_is_ortho(),
    {
        match self {
            RectDir::Left => true,
            RectDir::Right => true,
            RectDir::Top => true,
            RectDir::Bottom => true,
            _ => false,
        }
    }

    pub open spec fn spec_from_dir(
        dir_x: Sign,
        dir_y: Sign,
        normal_x_flat: bool,
        normal_y_flat: bool,
    ) -> RectDir {
        if normal_y_flat {
            if dir_y == Sign::Positive {
                RectDir::Top
            } else {
                RectDir::Bottom
            }
        } else if normal_x_flat {
            if dir_x == Sign::Positive {
                RectDir::Right
            } else {
                RectDir::Left
            }
        } else if dir_x == Sign::Negative {
            if dir_y == Sign::Positive {
                RectDir::LeftTop
            } else {
                RectDir::LeftBottom
            }
        } else {
            if dir_y == Sign::Positive {
                RectDir::RightTop
            } else {
                RectDir::RightBottom
            }
        }
    }

    /// The direction of sweep for a tangent with the signs `dir_x` and
    /// `dir_y`. A normal without a y component means a sweep straight up
    /// or down, one without an x component a sweep straight right or left.
    /// Otherwise the sweep goes into the quadrant whose corner lies
    /// furthest along the tangent; of corners that lie equally far the one
    /// to the right wins, then the lower one.
    pub fn from_dir(dir_x: Sign, dir_y: Sign, normal_x_flat: bool, normal_y_flat: bool) -> (dir:
        RectDir)
        ensures
            dir == RectDir::spec_from_dir(dir_x, dir_y, normal_x_flat, normal_y_flat),
            !normal_x_flat && !normal_y_flat ==> !dir.spec_is_ortho(),
            normal_x_flat || normal_y_flat ==> dir.spec_is_ortho(),
    {
        if normal_y_flat {
            if matches!(dir_y, Sign::Positive) {
                RectDir::Top
            } else {
                RectDir::Bottom
            }
        } else if normal_x_flat {
            if matches!(dir_x, Sign::Positive) {
                RectDir::Right
            } else {
                RectDir::Left
            }
        } else if matches!(dir_x, Sign::Negative) {
            if matches!(dir_y, Sign::Positive) {
                RectDir::LeftTop
            } else {
                RectDir::LeftBottom
            }
        } else {
            if matches!(dir_y, Sign::Positive) {
                RectDir::RightTop
            } else {
                RectDir::RightBottom
            }
        }
    }

    pub open spec fn spec_start(self) -> RectDir {
        match self {
            RectDir::Left => RectDir::RightBottom,
            RectDir::Right => RectDir::LeftTop,
            RectDir::Top => RectDir::LeftBottom,
            RectDir::Bottom => RectDir::RightTop,
            RectDir::LeftBottom => RectDir::RightBottom,
            RectDir::RightBottom => RectDir::RightTop,
            RectDir::RightTop => RectDir::LeftTop,
            RectDir::LeftTop => RectDir::LeftBottom,
        }
    }

    /// The corner of the aperture from which the leading edge of a sweep
    /// in this direction starts.
    pub fn start(&self) -> (corner: RectDir)
        ensures
            corner == self.spec_start(),
            !corner.spec_is_ortho(),
    {
        match self {
            RectDir::Left => RectDir::RightBottom,
            RectDir::Right => RectDir::LeftTop,
            RectDir::Top => RectDir::LeftBottom,
            RectDir::Bottom => RectDir::RightTop,
            RectDir::LeftBottom => RectDir::RightBottom,
            RectDir::RightBottom => RectDir::RightTop,
            RectDir::RightTop => RectDir::LeftTop,
            RectDir::LeftTop => RectDir::LeftBottom,
        }
    }

    pub open spec fn spec_end(self) -> RectDir {
        match self {
            RectDir::Left => RectDir::LeftBottom,
            RectDir::Right => RectDir::RightTop,
            RectDir::Top => RectDir::LeftTop,
            RectDir::Bottom => RectDir::RightBottom,
            RectDir::LeftBottom => RectDir::RightBottom,
            RectDir::RightBottom => RectDir::RightTop,
            RectDir::RightTop => RectDir::LeftTop,
            RectDir::LeftTop => RectDir::LeftBottom,
        }
    }

    /// The corner of the aperture at which the leading edge of a sweep in
    /// this direction ends.
    pub fn end(&self) -> (corner: RectDir)
        ensures
            corner == self.spec_end(),
            !corner.spec_is_ortho(),
    {
        match self {
            RectDir::Left => RectDir::LeftBottom,
            RectDir::Right => RectDir::RightTop,
            RectDir::Top => RectDir::LeftTop,
            RectDir::Bottom => RectDir::RightBottom,
            RectDir::LeftBottom => RectDir::RightBottom,
            RectDir::RightBottom => RectDir::RightTop,
            RectDir::RightTop => RectDir::LeftTop,
            RectDir::LeftTop => RectDir::LeftBottom,
        }
    }

    pub open spec fn spec_opposite(self) -> RectDir {
        match self {
            RectDir::Left => RectDir::Right,
            RectDir::Right => RectDir::Left,
            RectDir::Top => RectDir::Bottom,
            RectDir::Bottom => RectDir::Top,
            RectDir::LeftBottom => RectDir::RightTop,
            RectDir::RightBottom => RectDir::LeftTop,
            RectDir::RightTop => RectDir::LeftBottom,
            RectDir::LeftTop => RectDir::RightBottom,
        }
    }

    /// The direction that points the other way.
    pub fn opposite(&self) -> (other: RectDir)
        ensures
            other == self.spec_opposite(),
            other.signs().0 == -self.signs().0,
            other.signs().1 == -self.signs().1,
    {
        match self {
            RectDir::Left => RectDir::Right,
            RectDir::Right => RectDir::Left,
            RectDir::Top => RectDir::Bottom,
            RectDir::Bottom => RectDir::Top,
            RectDir::LeftBottom => RectDir::RightTop,
            RectDir::RightBottom => RectDir::LeftTop,
            RectDir::RightTop => RectDir::LeftBottom,
            RectDir::LeftTop => RectDir::RightBottom,
        }
    }

    /// The vector of the direction for an aperture of width `wh.0` and
    /// height `wh.1`: for a corner, from the centre of the aperture to
    /// that corner; along an axis, of length one.
    pub open spec fn spec_vec(self, wh: (Decimal, Decimal)) -> (Decimal, Decimal) {
        let one = Decimal { mantissa: 1, scale: 0 };
        let zero = Decimal { mantissa: 0, scale: 0 };
        let hw = wh.0.spec_half();
        let hh = wh.1.spec_half();
        match self {
            RectDir::LeftBottom => (negated(hw), negated(hh)),
            RectDir::RightBottom => (hw, negated(hh)),
            RectDir::LeftTop => (negated(hw), hh),
            RectDir::RightTop => (hw, hh),
            RectDir::Left => (negated(one), zero),
            RectDir::Right => (one, zero),
            RectDir::Top => (zero, one),
            RectDir::Bottom => (zero, negated(one)),
        }
    }

    /// The vector of the direction for an aperture of width `wh.0` and
    /// height `wh.1`. `None` where half of the width or of the height
    /// cannot be held.
    pub fn vec(&self, wh: &(Decimal, Decimal)) -> (v: Option<(Decimal, Decimal)>)
        ensures
            v is Some <==> self.spec_is_ortho() || (wh.0.can_halve() && wh.1.can_halve()),
            v is Some ==> v->0 == self.spec_vec(*wh),
    {
        let one = Decimal { mantissa: 1, scale: 0 };
        let minus_one = Decimal { mantissa: -1, scale: 0 };
        let zero = Decimal { mantissa: 0, scale: 0 };
        match self {
            RectDir::Left => {
                return Some((minus_one, zero));
            },
            RectDir::Right => {
                return Some((one, zero));
            },
            RectDir::Top => {
                return Some((zero, one));
            },
            RectDir::Bottom => {
                return Some((zero, minus_one));
            },
            _ => {},
        }
        let hw = match wh.0.half() {
            Some(hw) => hw,
            None => {
                return None;
            },
        };
        let hh = match wh.1.half() {
            Some(hh) => hh,
            None => {
                return None;
            },
        };
        // Half of a number that can be held is never the least number.
        let left = Decimal { mantissa: -hw.mantissa, scale: hw.scale };
        let down = Decimal { mantissa: -hh.mantissa, scale: hh.scale };
        match self {
            RectDir::LeftBottom => Some((left, down)),
            RectDir::RightBottom => Some((hw, down)),
            RectDir::LeftTop => Some((left, hh)),
            _ => Some((hw, hh)),
        }
    }
}

} // verus!
