use vstd::prelude::*;

verus! {

/// A grid coordinate: `x` is the column, `y` is the row.
#[derive(Clone, Copy, PartialEq, Eq, Structural, Debug)]
pub struct Position {
    pub x: usize,
    pub y: usize,
}

impl Default for Position {
    fn default() -> (r: Self)
        ensures
            r.x == 0 && r.y == 0,
    {
        Position { x: 0, y: 0 }
    }
}

/// The direction in which a content search walks a row or the whole grid.
#[derive(Clone, Copy, PartialEq, Eq, Structural, Debug)]
pub enum SearchDirection {
    Forward,
    Backward,
}

/// A one-line message shown by the interactive shell.
pub struct Status {
    pub message: String,
}

impl Status {
    pub fn from(s: String) -> (r: Self)
        ensures
            r.message@ == s@,
    {
        Status { message: s }
    }
}

impl Default for Status {
    fn default() -> (r: Self)
        ensures
            r.message@ == Seq::<char>::empty(),
    {
        Status { message: String::new() }
    }
}

} // verus!
