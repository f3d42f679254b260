//! A selectable move: the origin square it starts from and the target entry
//! it performs, as offered to a user picking among the legal moves of a
//! selected piece.
use crate::piece::PieceType;
use vstd::prelude::*;

verus! {

pub struct MoveButton {
    pub from: (usize, usize),
    pub to: (usize, usize, PieceType),
}

impl MoveButton {
    pub fn new(from: (usize, usize), to: (usize, usize, PieceType)) -> (r: Self)
        ensures
            r.from == from,
            r.to == to,
    {
        Self { from, to }
    }

    /// The origin square of the move.
    pub fn from(&self) -> (r: (usize, usize))
        ensures
            r == self.from,
    {
        self.from
    }

    /// The target square and resulting piece type of the move.
    pub fn to(&self) -> (r: (usize, usize, PieceType))
        ensures
            r == self.to,
    {
        self.to
    }

    /// Whether the square names this button's target.
    pub fn inside(&self, x: usize, y: usize) -> (r: bool)
        ensures
            r == (x == self.to.0 && y == self.to.1),
    {
        x == self.to.0 && y == self.to.1
    }
}

} // verus!
