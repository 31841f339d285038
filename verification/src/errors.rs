//! Why a move is refused.
use vstd::prelude::*;
use vstd::string::StringExecFns;
use crate::grid::Pos;

verus! {

/// A move that ends the game.
#[derive(Clone, Copy, Debug, PartialEq, Eq, Structural)]
pub enum InvalidMove {
    /// The head would leave the grid; the cell it would reach.
    OutOfBounds(Pos),
    /// The head would run into the tail.
    TailCollision,
}

impl InvalidMove {
    /// The description of why the move was refused.
    pub open spec fn text(self) -> Seq<char> {
        match self {
            InvalidMove::OutOfBounds(pos) => "out of bounds("@ + pos.text() + ")"@,
            InvalidMove::TailCollision => "tail collision"@,
        }
    }

    /// The description of why the move was refused, as a `String`.
    pub fn to_string(&self) -> (s: String)
        ensures
            s@ == self.text(),
    {
        match self {
            InvalidMove::OutOfBounds(pos) => {
                let mut s = String::from_str("out of bounds(");
                let p = pos.to_string();
                s.append(p.as_str());
                s.append(")");
                s
            },
            InvalidMove::TailCollision => String::from_str("tail collision"),
        }
    }
}

} // verus!
