//! The extent: the part of the table that is worth drawing.
//!
//! It is the smallest rectangle that holds the middle cell and every cell a
//! grain has reached, widened by a margin on each side as far as the table
//! goes.

use crate::model::{center_index, coords_of, lemma_center_coords, lemma_row_in_table, Model, State};
use vstd::prelude::*;

verus! {

/// Cells by which the extent is wider than what it has to hold.
pub const MARGIN: usize = 10;

impl State {
    /// Column and row of the middle cell.
    pub open spec fn center(self) -> (int, int) {
        coords_of(self.width as int, center_index(self.width as int, self.height as int))
    }

    /// The column of each cell that a grain has reached, with the middle
    /// column in place of the others.
    pub open spec fn columns(self) -> Seq<int> {
        Seq::new(
            self.cells.len(),
            |i: int|
                if self.cells[i].borged {
                    coords_of(self.width as int, i).0
                } else {
                    self.center().0
                },
        )
    }

    /// The row of each cell that a grain has reached, with the middle row
    /// in place of the others.
    pub open spec fn rows(self) -> Seq<int> {
        Seq::new(
            self.cells.len(),
            |i: int|
                if self.cells[i].borged {
                    coords_of(self.width as int, i).1
                } else {
                    self.center().1
                },
        )
    }

    /// Left column, top row, width and height of the extent.
    pub open spec fn extent(self) -> (int, int, int, int) {
        let left = if self.columns().min() >= MARGIN {
            self.columns().min() - MARGIN
        } else {
            0
        };
        let right = if self.columns().max() + MARGIN <= self.width {
            self.columns().max() + MARGIN
        } else {
            self.width as int
        };
        let top = if self.rows().min() >= MARGIN {
            self.rows().min() - MARGIN
        } else {
            0
        };
        let bottom = if self.rows().max() + MARGIN <= self.height {
            self.rows().max() + MARGIN
        } else {
            self.height as int
        };
        (left, top, right - left, bottom - top)
    }

    /// The extent lies on the table and holds every cell that a grain has
    /// reached, and the middle cell.
    pub proof fn lemma_extent_covers(self)
        requires
            self.wf(),
        ensures
            0 <= self.extent().0,
            0 <= self.extent().1,
            0 < self.extent().2,
            0 < self.extent().3,
            self.extent().0 + self.extent().2 <= self.width,
            self.extent().1 + self.extent().3 <= self.height,
            self.extent().0 <= self.center().0 < self.extent().0 + self.extent().2,
            self.extent().1 <= self.center().1 < self.extent().1 + self.extent().3,
            forall|i: int|
                0 <= i < self.cells.len() && (#[trigger] self.cells[i]).borged ==> {
                    &&& self.extent().0 <= coords_of(self.width as int, i).0 < self.extent().0
                        + self.extent().2
                    &&& self.extent().1 <= coords_of(self.width as int, i).1 < self.extent().1
                        + self.extent().3
                },
    {
        let w = self.width as int;
        let h = self.height as int;
        let c = center_index(w, h);
        lemma_center_coords(w, h);
        self.columns().min_ensures();
        self.columns().max_ensures();
        self.rows().min_ensures();
        self.rows().max_ensures();
        assert(self.columns()[c] == self.center().0);
        assert(self.rows()[c] == self.center().1);
        assert forall|i: int| 0 <= i < self.cells.len() implies 0 <= #[trigger] self.columns()[i]
            < w by {
            lemma_row_in_table(w, h, i);
        }
        assert forall|i: int| 0 <= i < self.cells.len() implies 0 <= #[trigger] self.rows()[i]
            < h by {
            lemma_row_in_table(w, h, i);
        }
        let a = choose|i: int| 0 <= i < self.columns().len() && self.columns()[i] == self.columns().min();
        let b = choose|i: int| 0 <= i < self.columns().len() && self.columns()[i] == self.columns().max();
        let p = choose|i: int| 0 <= i < self.rows().len() && self.rows()[i] == self.rows().min();
        let q = choose|i: int| 0 <= i < self.rows().len() && self.rows()[i] == self.rows().max();
        assert(0 <= self.columns()[a] && self.columns()[b] < w);
        assert(0 <= self.rows()[p] && self.rows()[q] < h);
        assert forall|i: int| 0 <= i < self.cells.len() && (#[trigger] self.cells[i]).borged implies {
            &&& self.extent().0 <= coords_of(w, i).0 < self.extent().0 + self.extent().2
            &&& self.extent().1 <= coords_of(w, i).1 < self.extent().1 + self.extent().3
        } by {
            assert(self.columns()[i] == coords_of(w, i).0);
            assert(self.rows()[i] == coords_of(w, i).1);
        }
    }
}

impl Model {
    /// Left column, top row, width and height of the part of the table that
    /// is in use: every cell a grain has reached, and the middle cell, with
    /// a margin of ten cells where the table has them.
    ///
    /// The corner has to fit 32 bits and the sides 16, which they do on any
    /// table with sides below 65536.
    pub fn find_extent(&self) -> (extent: (u32, u32, u16, u16))
        requires
            self.wf(),
            self@.extent().0 <= u32::MAX,
            self@.extent().1 <= u32::MAX,
            self@.extent().2 <= u16::MAX,
            self@.extent().3 <= u16::MAX,
        ensures
            (extent.0 as int, extent.1 as int, extent.2 as int, extent.3 as int)
                == self@.extent(),
            extent.0 + extent.2 <= self.width,
            extent.1 + extent.3 <= self.height,
            forall|i: int|
                0 <= i < self.cells.len() && (#[trigger] self.cells@[i]).borged ==> {
                    &&& extent.0 <= coords_of(self.width as int, i).0 < extent.0 + extent.2
                    &&& extent.1 <= coords_of(self.width as int, i).1 < extent.1 + extent.3
                },
    {
        proof {
            self@.lemma_extent_covers();
        }
        proof {
            self.lemma_wf_sized();
        }
        let (center_x, center_y) = self.calc_center_xy();
        let mut min_x = center_x;
        let mut max_x = center_x;
        let mut min_y = center_y;
        let mut max_y = center_y;
        let ghost w = self.width as int;
        let ghost h = self.height as int;
        let ghost columns = self@.columns();
        let ghost rows = self@.rows();
        let ghost center = center_index(w, h);
        proof {
            lemma_center_coords(w, h);
            assert(columns[center] == center_x);
            assert(rows[center] == center_y);
        }
        let mut i: usize = 0;
        while i < self.cells.len()
            invariant
                self.wf(),
                w == self.width,
                h == self.height,
                columns == self@.columns(),
                rows == self@.rows(),
                i <= self.cells.len(),
                0 <= center < self.cells.len(),
                columns[center] == center_x,
                rows[center] == center_y,
                self@.center() == (center_x as int, center_y as int),
                min_x <= center_x <= max_x < self.width,
                min_y <= center_y <= max_y < self.height,
                forall|j: int| 0 <= j < i ==> min_x <= #[trigger] columns[j] <= max_x,
                forall|j: int| 0 <= j < i ==> min_y <= #[trigger] rows[j] <= max_y,
                exists|j: int| 0 <= j < columns.len() && #[trigger] columns[j] == min_x,
                exists|j: int| 0 <= j < columns.len() && #[trigger] columns[j] == max_x,
                exists|j: int| 0 <= j < rows.len() && #[trigger] rows[j] == min_y,
                exists|j: int| 0 <= j < rows.len() && #[trigger] rows[j] == max_y,
            decreases self.cells.len() - i,
        {
            if self.cells[i].borged {
                let (this_x, this_y) = self.idx_to_xy(i);
                proof {
                    assert(columns[i as int] == this_x);
                    assert(rows[i as int] == this_y);
                }
                if this_x < min_x {
                    min_x = this_x;
                }
                if this_x > max_x {
                    max_x = this_x;
                }
                if this_y < min_y {
                    min_y = this_y;
                }
                if this_y > max_y {
                    max_y = this_y;
                }
            } else {
                proof {
                    assert(columns[i as int] == center_x);
                    assert(rows[i as int] == center_y);
                }
            }
            i = i + 1;
        }
        proof {
            columns.min_ensures();
            columns.max_ensures();
            rows.min_ensures();
            rows.max_ensures();
            assert(min_x == columns.min());
            assert(max_x == columns.max());
            assert(min_y == rows.min());
            assert(max_y == rows.max());
        }
        if min_x >= MARGIN {
            min_x = min_x - MARGIN;
        } else {
            min_x = 0;
        }
        if max_x <= self.width - 1 && self.width - max_x >= MARGIN {
            max_x = max_x + MARGIN;
        } else {
            max_x = self.width;
        }
        if min_y >= MARGIN {
            min_y = min_y - MARGIN;
        } else {
            min_y = 0;
        }
        if max_y <= self.height - 1 && self.height - max_y >= MARGIN {
            max_y = max_y + MARGIN;
        } else {
            max_y = self.height;
        }
        (min_x as u32, min_y as u32, (max_x - min_x) as u16, (max_y - min_y) as u16)
    }
}

} // verus!
