//! Positions: paths from the root of a term to the action that fires.

use vstd::prelude::*;

verus! {

/// A path into a term.
#[derive(Debug, PartialEq, Eq, Hash)]
pub enum Position {
    /// The action itself: its emission for `None`, and for `Some(k)` the
    /// reception by its `k`-th target.
    Epsilon(Option<usize>),
    /// Into the first operand, or into the body of a loop.
    Left(Box<Position>),
    /// Into the second operand.
    Right(Box<Position>),
    /// Into both operands at once: one observation that fires in the two.
    Both(Box<Position>, Box<Position>),
}

impl Clone for Position {
    fn clone(&self) -> (r: Self)
        ensures
            r == *self,
        decreases *self,
    {
        match self {
            Position::Epsilon(sub) => Position::Epsilon(*sub),
            Position::Left(p) => Position::Left(Box::new((**p).clone())),
            Position::Right(p) => Position::Right(Box::new((**p).clone())),
            Position::Both(p1, p2) => Position::Both(
                Box::new((**p1).clone()),
                Box::new((**p2).clone()),
            ),
        }
    }
}

} // verus!
