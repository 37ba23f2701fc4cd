//! The eight directions in which pieces line up.

use vstd::prelude::*;

verus! {

/// A direction on the board. Rows count downwards and columns to the right.
#[derive(Debug, Copy, Clone, PartialEq, Eq, Structural)]
pub enum CountDirection {
    HorizontalRight,
    DiagonalDownRight,
    VerticalDown,
    DiagonalDownLeft,
    HorizontalLeft,
    DiagonalUpLeft,
    VerticalUp,
    DiagonalUpRight,
}

/// A step of `step` from the coordinate `from` stays on the board, whose last
/// coordinate on this axis is `last`.
pub open spec fn step_fits(step: int, from: usize, last: int) -> bool {
    step == 0 || (step > 0 && from < last) || (step < 0 && from > 0)
}

impl CountDirection {
    /// By how much one step changes the row.
    pub open spec fn row_step(self) -> int {
        match self {
            CountDirection::HorizontalRight | CountDirection::HorizontalLeft => 0,
            CountDirection::DiagonalDownRight
            | CountDirection::VerticalDown
            | CountDirection::DiagonalDownLeft => 1,
            CountDirection::DiagonalUpLeft
            | CountDirection::VerticalUp
            | CountDirection::DiagonalUpRight => -1,
        }
    }

    /// By how much one step changes the column.
    pub open spec fn column_step(self) -> int {
        match self {
            CountDirection::VerticalDown | CountDirection::VerticalUp => 0,
            CountDirection::HorizontalRight
            | CountDirection::DiagonalDownRight
            | CountDirection::DiagonalUpRight => 1,
            CountDirection::DiagonalDownLeft
            | CountDirection::HorizontalLeft
            | CountDirection::DiagonalUpLeft => -1,
        }
    }

    /// The cell one step from `coords`, unless `coords` lies on the edge that
    /// the step would cross: the last row or column for a step forward, the
    /// first for a step back. A coordinate that the step does not change is
    /// not looked at.
    pub open spec fn add_to_spec(self, coords: (usize, usize)) -> Option<(usize, usize)> {
        if step_fits(self.row_step(), coords.0, 5) && step_fits(self.column_step(), coords.1, 6) {
            Some(
                ((coords.0 + self.row_step()) as usize, (coords.1 + self.column_step()) as usize),
            )
        } else {
            None
        }
    }

    /// The direction that undoes this one.
    pub open spec fn opposite_spec(self) -> CountDirection {
        match self {
            CountDirection::HorizontalRight => CountDirection::HorizontalLeft,
            CountDirection::DiagonalDownRight => CountDirection::DiagonalUpLeft,
            CountDirection::VerticalDown => CountDirection::VerticalUp,
            CountDirection::DiagonalDownLeft => CountDirection::DiagonalUpRight,
            CountDirection::HorizontalLeft => CountDirection::HorizontalRight,
            CountDirection::DiagonalUpLeft => CountDirection::DiagonalDownRight,
            CountDirection::VerticalUp => CountDirection::VerticalDown,
            CountDirection::DiagonalUpRight => CountDirection::DiagonalDownLeft,
        }
    }

    /// One direction of each of the four lines through a cell.
    pub open spec fn half_side_spec() -> Seq<CountDirection> {
        seq![
            CountDirection::HorizontalRight,
            CountDirection::DiagonalDownRight,
            CountDirection::VerticalDown,
            CountDirection::DiagonalDownLeft,
        ]
    }

    pub fn add_to(&self, coords: (usize, usize)) -> (next: Option<(usize, usize)>)
        ensures
            next == self.add_to_spec(coords),
    {
        let (y, x) = coords;
        match self {
            CountDirection::HorizontalRight => {
                if x < 6 {
                    Some((y, x + 1))
                } else {
                    None
                }
            },
            CountDirection::DiagonalDownRight => {
                if x < 6 && y < 5 {
                    Some((y + 1, x + 1))
                } else {
                    None
                }
            },
            CountDirection::VerticalDown => {
                if y < 5 {
                    Some((y + 1, x))
                } else {
                    None
                }
            },
            CountDirection::DiagonalDownLeft => {
                if x > 0 && y < 5 {
                    Some((y + 1, x - 1))
                } else {
                    None
                }
            },
            CountDirection::HorizontalLeft => {
                if x > 0 {
                    Some((y, x - 1))
                } else {
                    None
                }
            },
            CountDirection::DiagonalUpLeft => {
                if x > 0 && y > 0 {
                    Some((y - 1, x - 1))
                } else {
                    None
                }
            },
            CountDirection::VerticalUp => {
                if y > 0 {
                    Some((y - 1, x))
                } else {
                    None
                }
            },
            CountDirection::DiagonalUpRight => {
                if x < 6 && y > 0 {
                    Some((y - 1, x + 1))
                } else {
                    None
                }
            },
        }
    }

    pub fn opposite(&self) -> (back: CountDirection)
        ensures
            back == self.opposite_spec(),
    {
        match self {
            CountDirection::HorizontalRight => CountDirection::HorizontalLeft,
            CountDirection::DiagonalDownRight => CountDirection::DiagonalUpLeft,
            CountDirection::VerticalDown => CountDirection::VerticalUp,
            CountDirection::DiagonalDownLeft => CountDirection::DiagonalUpRight,
            CountDirection::HorizontalLeft => CountDirection::HorizontalRight,
            CountDirection::DiagonalUpLeft => CountDirection::DiagonalDownRight,
            CountDirection::VerticalUp => CountDirection::VerticalDown,
            CountDirection::DiagonalUpRight => CountDirection::DiagonalDownLeft,
        }
    }

    pub fn half_side() -> (directions: [CountDirection; 4])
        ensures
            directions@ == Self::half_side_spec(),
    {
        let directions = [
            CountDirection::HorizontalRight,
            CountDirection::DiagonalDownRight,
            CountDirection::VerticalDown,
            CountDirection::DiagonalDownLeft,
        ];
        directions
    }
}

} // verus!
