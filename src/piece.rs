//! Pieces, moves and the geometry of the 32 playable squares.
//!
//! Square `i` lies in row `i / 4`; rows with `i % 8 < 4` are "left shifted":
//! their playable squares sit one column further left than in the other rows.
//! The side that sits at the bottom of the board (the player) moves towards
//! square 0, the other side towards square 31.
use vstd::prelude::*;

verus! {

#[derive(Clone, Copy, Debug, PartialEq, Eq, Structural)]
pub enum PieceColor {
    Red,
    Black,
}

impl PieceColor {
    pub open spec fn opposite(self) -> PieceColor {
        match self {
            PieceColor::Red => PieceColor::Black,
            PieceColor::Black => PieceColor::Red,
        }
    }

    pub fn get_opposite(&self) -> (r: PieceColor)
        ensures
            r == self.opposite(),
    {
        match self {
            PieceColor::Red => PieceColor::Black,
            PieceColor::Black => PieceColor::Red,
        }
    }
}

/// The content of one square; an inactive piece stands for an empty square.
#[derive(Clone, Copy, Debug, PartialEq, Eq, Structural)]
pub struct PieceData {
    pub color: PieceColor,
    pub is_active: bool,
    pub is_king: bool,
}

impl PieceData {
    pub open spec fn empty() -> PieceData {
        PieceData { color: PieceColor::Red, is_active: false, is_king: false }
    }

    /// The empty square.
    pub fn const_default() -> (r: PieceData)
        ensures
            r == PieceData::empty(),
    {
        PieceData { color: PieceColor::Red, is_active: false, is_king: false }
    }
}

#[derive(Clone, Copy, Debug, PartialEq, Eq, Structural)]
pub enum Direction {
    UpLeft,
    UpRight,
    DownLeft,
    DownRight,
}

/// Whether the playable squares of `i`'s row start in the leftmost column.
pub open spec fn left_shifted(i: int) -> bool {
    i % 8 < 4
}

impl Direction {
    pub open spec fn left(self) -> bool {
        self is UpLeft || self is DownLeft
    }

    pub open spec fn up(self) -> bool {
        self is UpLeft || self is UpRight
    }

    /// Index difference between square `i` and its neighbour in this direction.
    pub open spec fn offset(self, i: int) -> int {
        match self {
            Direction::UpLeft => if left_shifted(i) { -5 } else { -4 },
            Direction::UpRight => if left_shifted(i) { -4 } else { -3 },
            Direction::DownLeft => if left_shifted(i) { 3 } else { 4 },
            Direction::DownRight => if left_shifted(i) { 4 } else { 5 },
        }
    }

    /// Whether square `i` lies on the board edge that this direction walks off.
    pub open spec fn blocked_at(self, i: int) -> bool {
        (left_shifted(i) && self.left() && i % 4 == 0) || (!left_shifted(i) && !self.left() && i
            % 4 == 3)
    }

    pub fn is_left(&self) -> (r: bool)
        ensures
            r == self.left(),
    {
        matches!(self, Direction::UpLeft | Direction::DownLeft)
    }

    pub fn is_right(&self) -> (r: bool)
        ensures
            r == !self.left(),
    {
        matches!(self, Direction::UpRight | Direction::DownRight)
    }

    pub fn is_up(&self) -> (r: bool)
        ensures
            r == self.up(),
    {
        matches!(self, Direction::UpLeft | Direction::UpRight)
    }

    pub fn is_down(&self) -> (r: bool)
        ensures
            r == !self.up(),
    {
        matches!(self, Direction::DownLeft | Direction::DownRight)
    }

    pub fn get_value(&self, index: usize) -> (r: i32)
        ensures
            r == self.offset(index as int),
    {
        let shifted = index % 8 < 4;
        match self {
            Direction::UpLeft => if shifted { -5 } else { -4 },
            Direction::UpRight => if shifted { -4 } else { -3 },
            Direction::DownLeft => if shifted { 3 } else { 4 },
            Direction::DownRight => if shifted { 4 } else { 5 },
        }
    }

    /// The four directions, in the order in which the search visits them.
    pub fn values() -> (r: [Direction; 4])
        ensures
            r@ == Direction::all(),
    {
        [Direction::UpLeft, Direction::UpRight, Direction::DownLeft, Direction::DownRight]
    }

    pub open spec fn all() -> Seq<Direction> {
        seq![Direction::UpLeft, Direction::UpRight, Direction::DownLeft, Direction::DownRight]
    }
}

} // verus!
