//! Codel positions: a row and a column on the codel grid.

use vstd::prelude::*;
use crate::program::{DirectionPointer, Program};

verus! {

/// A codel position, `(row, col)`.
#[derive(Debug, Copy, Clone, PartialEq, Eq, Structural, Hash)]
pub struct Point(pub u32, pub u32);

impl Default for Point {
    /// The origin, where execution starts.
    fn default() -> (p: Point)
        ensures
            p == (Point(0, 0)),
    {
        Point(0, 0)
    }
}

/// The neighbor of `p` one codel away in direction `dp`, or `None` at the
/// grid border.
pub open spec fn spec_next_in_direction(
    p: Point,
    dp: DirectionPointer,
    rows: int,
    cols: int,
) -> Option<Point> {
    match dp {
        DirectionPointer::Right => if p.1 + 1 < cols { Some(Point(p.0, (p.1 + 1) as u32)) } else { None },
        DirectionPointer::Down => if p.0 + 1 < rows { Some(Point((p.0 + 1) as u32, p.1)) } else { None },
        DirectionPointer::Left => if p.1 >= 1 { Some(Point(p.0, (p.1 - 1) as u32)) } else { None },
        DirectionPointer::Up => if p.0 >= 1 { Some(Point((p.0 - 1) as u32, p.1)) } else { None },
    }
}

impl Point {
    /// The row of this position.
    pub fn row(&self) -> (r: &u32)
        ensures
            *r == self.0,
    {
        &self.0
    }

    /// Write access to the row of this position.
    pub fn row_mut(&mut self) -> (r: &mut u32)
        ensures
            *r == old(self).0,
            final(self).0 == *final(r),
            final(self).1 == old(self).1,
    {
        &mut self.0
    }

    /// The column of this position.
    pub fn col(&self) -> (r: &u32)
        ensures
            *r == self.1,
    {
        &self.1
    }

    /// Write access to the column of this position.
    pub fn col_mut(&mut self) -> (r: &mut u32)
        ensures
            *r == old(self).1,
            final(self).1 == *final(r),
            final(self).0 == old(self).0,
    {
        &mut self.1
    }

    /// The neighboring position in direction `dp`, if it is still on the
    /// grid of `program`.
    pub fn next_in_direction(&self, dp: DirectionPointer, program: &Program) -> (r: Option<Point>)
        ensures
            r == spec_next_in_direction(*self, dp, program.rows as int, program.cols as int),
    {
        match dp {
            DirectionPointer::Down => {
                if program.rows > 0 && self.0 < program.rows - 1 {
                    Some(Point(self.0 + 1, self.1))
                } else {
                    None
                }
            },
            DirectionPointer::Up => {
                if self.0 >= 1 {
                    Some(Point(self.0 - 1, self.1))
                } else {
                    None
                }
            },
            DirectionPointer::Right => {
                if program.cols > 0 && self.1 < program.cols - 1 {
                    Some(Point(self.0, self.1 + 1))
                } else {
                    None
                }
            },
            DirectionPointer::Left => {
                if self.1 >= 1 {
                    Some(Point(self.0, self.1 - 1))
                } else {
                    None
                }
            },
        }
    }
}

} // verus!
