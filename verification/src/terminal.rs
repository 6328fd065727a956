use vstd::prelude::*;

verus! {

/// The drawable area of the terminal, in character cells.
#[derive(Clone, Copy, PartialEq, Eq, Structural, Debug)]
pub struct Size {
    pub width: usize,
    pub height: usize,
}

/// The size bookkeeping of the terminal the shell draws into.
///
/// Entering and leaving the raw terminal, and everything written to it, are
/// the shell's business; only the dimensions the grid is laid out in are
/// modelled here.
pub struct Terminal {
    pub size: Size,
}

impl Terminal {
    pub fn size(&self) -> (r: Size)
        ensures
            r == self.size,
    {
        self.size
    }

    /// Record a new terminal size; four lines are reserved for the status,
    /// edit and header chrome, so the drawable height is smaller by four.
    pub fn update_size(&mut self, width: usize, height: usize)
        ensures
            final(self).size.width == width,
            final(self).size.height == if height >= 4 {
                height - 4
            } else {
                0
            },
    {
        let h: usize = if height >= 4 {
            height - 4
        } else {
            0
        };
        self.size = Size { width, height: h };
    }
}

} // verus!
