//! The world grid: a rectangular array of cell tags.
//!
//! A tag is one character: `' '` is an empty cell, `'F'` is the goal marker
//! (transparent to rays and passable), and every other character is a wall
//! variant; `'|'` by convention denotes a vertical-run wall, which matters
//! only for texture-coordinate selection.

use vstd::prelude::*;

verus! {

/// Largest accepted number of rows and of columns.
pub const MAX_DIM: usize = 4096;

/// Largest accepted block size (world units per cell).
pub const MAX_BLOCK: usize = 4096;

/// True of a tag that neither blocks rays nor movement: the empty cell.
pub open spec fn is_empty_tag(c: char) -> bool {
    c == ' '
}

/// True of the goal marker, which is passable and transparent to rays.
pub open spec fn is_goal_tag(c: char) -> bool {
    c == 'F'
}

/// True of a wall tag: anything that is neither empty nor the goal.
pub open spec fn is_solid_tag(c: char) -> bool {
    c != ' ' && c != 'F'
}

/// A rectangular grid of cell tags, read-only during a frame.
pub struct Maze {
    pub grid: Vec<Vec<char>>,
}

impl Maze {
    /// Number of rows.
    pub open spec fn rows_spec(self) -> int {
        self.grid@.len() as int
    }

    /// Number of columns (the common row length; 0 for an empty grid).
    pub open spec fn cols_spec(self) -> int {
        if self.grid@.len() == 0 {
            0
        } else {
            self.grid@[0]@.len() as int
        }
    }

    /// The tag of the cell in row `j`, column `i`.
    pub open spec fn tag_at(self, j: int, i: int) -> char {
        self.grid@[j]@[i]
    }

    /// Well-formedness: the grid is rectangular and its dimensions are small
    /// enough that all pixel and march arithmetic stays in range.
    pub open spec fn wf(self) -> bool {
        &&& self.grid@.len() <= MAX_DIM
        &&& forall|j: int|
            0 <= j < self.grid@.len() ==> (#[trigger] self.grid@[j])@.len() == self.cols_spec()
        &&& self.cols_spec() <= MAX_DIM
    }

    /// Validates a freshly loaded grid: every row must have the same length
    /// (a rectangular grid) and the dimensions must be within bounds.
    /// Returns `None` exactly on a malformed grid, which is a load-time
    /// error for the caller.
    pub fn from_rows(rows: Vec<Vec<char>>) -> (r: Option<Maze>)
        ensures
            match r {
                Some(m) => m.grid@ == rows@ && m.wf(),
                None => !(Maze { grid: rows }).wf(),
            },
    {
        if rows.len() > MAX_DIM {
            return None;
        }
        let cols: usize = if rows.len() == 0 {
            0
        } else {
            rows[0].len()
        };
        if cols > MAX_DIM {
            return None;
        }
        let mut j: usize = 0;
        while j < rows.len()
            invariant
                j <= rows@.len(),
                rows@.len() <= MAX_DIM,
                cols == (Maze { grid: rows }).cols_spec(),
                cols <= MAX_DIM,
                forall|k: int| 0 <= k < j ==> ((Maze { grid: rows }).grid@[k])@.len() == cols,
            decreases rows@.len() - j,
        {
            if rows[j].len() != cols {
                proof {
                    assert((Maze { grid: rows }).grid@[j as int]@.len()
                        != (Maze { grid: rows }).cols_spec());
                }
                return None;
            }
            j += 1;
        }
        let m = Maze { grid: rows };
        proof {
            assert(forall|k: int| 0 <= k < m.grid@.len() ==> (#[trigger] m.grid@[k])@.len()
                == m.cols_spec());
        }
        Some(m)
    }

    /// Number of rows.
    pub fn rows(&self) -> (r: usize)
        ensures
            r == self.rows_spec(),
    {
        self.grid.len()
    }

    /// Number of columns.
    pub fn cols(&self) -> (r: usize)
        requires
            self.wf(),
        ensures
            r == self.cols_spec(),
    {
        if self.grid.len() == 0 {
            0
        } else {
            self.grid[0].len()
        }
    }

    /// The tag of the cell in row `j`, column `i`.
    pub fn cell(&self, j: usize, i: usize) -> (r: char)
        requires
            self.wf(),
            j < self.rows_spec(),
            i < self.cols_spec(),
        ensures
            r == self.tag_at(j as int, i as int),
    {
        self.grid[j][i]
    }
}

} // verus!
