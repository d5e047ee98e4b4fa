use vstd::prelude::*;

use crate::style::Color;
use crate::style::TextStyle;

verus! {

/// One terminal cell: a character together with its style.
#[derive(Clone, Copy, PartialEq, Eq, Structural, Debug)]
pub struct StyledChar {
    pub character: char,
    pub style: TextStyle,
}

/// An anchored image reference: where an image sits in a grid, and an opaque
/// handle under which the drawing side keeps the image itself.
#[derive(Clone, Copy, PartialEq, Eq, Structural, Debug)]
pub struct ImageAnchor {
    pub row: u16,
    pub column: u16,
    pub image_id: u64,
}

/// A rectangular matrix of styled cells, with a background color and the
/// anchors of any images placed over it. Built once per rendered state and
/// never mutated afterwards.
#[derive(Clone, PartialEq, Debug)]
pub struct TerminalGrid {
    pub rows: Vec<Vec<StyledChar>>,
    pub background_color: Option<Color>,
    pub images: Vec<ImageAnchor>,
}

impl TerminalGrid {
    /// The number of rows.
    pub open spec fn height(self) -> nat {
        self.rows@.len()
    }

    /// The column count, read off the representative first row; an empty grid
    /// is zero columns wide.
    pub open spec fn width(self) -> nat {
        if self.rows@.len() == 0 {
            0
        } else {
            self.rows@[0]@.len()
        }
    }

    /// Row `i` as a sequence of cells.
    pub open spec fn row(self, i: int) -> Seq<StyledChar> {
        self.rows@[i]@
    }

    /// Every row has the same length: the grid is rectangular.
    pub open spec fn is_rectangular(self) -> bool {
        forall|i: int| 0 <= i < self.rows@.len() ==> (#[trigger] self.rows@[i])@.len() == self.width()
    }

    /// Every cell carries a well-formed style.
    pub open spec fn styles_wf(self) -> bool {
        forall|i: int, j: int|
            0 <= i < self.rows@.len() && 0 <= j < self.rows@[i]@.len()
                ==> (#[trigger] self.rows@[i]@[j]).style.wf()
    }

    /// The grid invariant, owed by whoever builds a grid.
    pub open spec fn wf(self) -> bool {
        self.is_rectangular() && self.styles_wf()
    }

    /// Checks the grid invariant at run time, for callers that assemble a grid
    /// from unchecked input.
    pub fn is_well_formed(&self) -> (r: bool)
        ensures
            r == self.wf(),
    {
        let height = self.rows.len();
        let mut i: usize = 0;
        while i < height
            invariant
                i <= height,
                height == self.rows@.len(),
                forall|k: int| 0 <= k < i ==> (#[trigger] self.rows@[k])@.len() == self.width(),
                forall|k: int, j: int|
                    0 <= k < i && 0 <= j < self.rows@[k]@.len()
                        ==> (#[trigger] self.rows@[k]@[j]).style.wf(),
            decreases height - i,
        {
            let row = &self.rows[i];
            if row.len() != self.rows[0].len() {
                return false;
            }
            let row_len = row.len();
            let mut j: usize = 0;
            while j < row_len
                invariant
                    j <= row_len,
                    row_len == row@.len(),
                    i < self.rows@.len(),
                    row@ == self.rows@[i as int]@,
                    forall|k: int| 0 <= k < j ==> (#[trigger] row@[k]).style.wf(),
                decreases row_len - j,
            {
                if row[j].style.size < 1 {
                    proof {
                        assert(!(self.rows@[i as int]@[j as int]).style.wf());
                    }
                    return false;
                }
                j += 1;
            }
            i += 1;
        }
        true
    }
}

} // verus!
