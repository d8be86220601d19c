//! A picture of a part of the table, pixel by pixel.

use crate::hues::{blank, Rgba};
use crate::model::{index_of, Model, State};
use vstd::prelude::*;

verus! {

impl State {
    /// The part of the table that starts at column `left` of row `top` and
    /// is `across` cells wide and `down` cells high lies on the table, but
    /// for its last column and its last row, which are not looked at.
    pub open spec fn can_paint(self, left: int, top: int, across: int, down: int) -> bool {
        &&& 1 <= across
        &&& 1 <= down
        &&& 0 <= left
        &&& 0 <= top
        &&& left + across - 1 <= self.width
        &&& top + down - 1 <= self.height
    }

    /// The pixel at column `x` of row `y` of the picture: the colour of the
    /// cell that lies there, and nothing in the last column and the last
    /// row of the picture.
    pub open spec fn pixel(self, left: int, top: int, across: int, down: int, x: int, y: int) -> Rgba {
        if x < across - 1 && y < down - 1 {
            self.hues.shade_of(self.cells[index_of(self.width as int, left + x, top + y)])
        } else {
            blank()
        }
    }

    /// The picture, row after row.
    pub open spec fn picture(self, left: int, top: int, across: int, down: int) -> Seq<Rgba> {
        Seq::new(
            (across * down) as nat,
            |i: int| self.pixel(left, top, across, down, i % across, i / across),
        )
    }
}

impl Model {
    /// Paints the part of the table whose top left cell is at column `tlx`
    /// of row `tly`, as a picture of `x_width` by `y_height` pixels, one
    /// pixel for each cell, row after row. The last column and the last row
    /// of the picture are left blank.
    pub fn paint(&self, tlx: u32, tly: u32, x_width: u16, y_height: u16) -> (pixels: Vec<Rgba>)
        requires
            self.wf(),
            self@.can_paint(tlx as int, tly as int, x_width as int, y_height as int),
        ensures
            pixels@ == self@.picture(tlx as int, tly as int, x_width as int, y_height as int),
    {
        let ghost s = self@;
        let ghost left = tlx as int;
        let ghost top = tly as int;
        let across = x_width as usize;
        let down = y_height as usize;
        let ghost want = s.picture(left, top, across as int, down as int);
        let mut pixels: Vec<Rgba> = Vec::new();
        let mut row: usize = 0;
        proof {
            self.lemma_wf_sized();
        }
        while row < down
            invariant
                self.wf(),
                self.sized(),
                s == self@,
                left == tlx,
                top == tly,
                across == x_width,
                down == y_height,
                s.can_paint(left, top, across as int, down as int),
                want == s.picture(left, top, across as int, down as int),
                row <= down,
                pixels.len() == row * across,
                forall|i: int| 0 <= i < pixels.len() ==> pixels@[i] == want[i],
            decreases down - row,
        {
            let mut column: usize = 0;
            proof {
                assert(row * across + across == (row + 1) * across) by (nonlinear_arith);
                assert((row + 1) * across <= down * across) by (nonlinear_arith)
                    requires
                        row < down,
                ;
            }
            while column < across
                invariant
                    self.wf(),
                    self.sized(),
                    s == self@,
                    left == tlx,
                    top == tly,
                    across == x_width,
                    down == y_height,
                    s.can_paint(left, top, across as int, down as int),
                    want == s.picture(left, top, across as int, down as int),
                    row < down,
                    column <= across,
                    (row + 1) * across <= down * across,
                    row * across + across == (row + 1) * across,
                    pixels.len() == row * across + column,
                    forall|i: int| 0 <= i < pixels.len() ==> pixels@[i] == want[i],
                decreases across - column,
            {
                let ghost i = row * across + column;
                proof {
                    vstd::arithmetic::div_mod::lemma_fundamental_div_mod_converse(
                        i as int,
                        across as int,
                        row as int,
                        column as int,
                    );
                }
                let color = if column < across - 1 && row < down - 1 {
                    let idx = self.xy_to_idx(column + tlx as usize, row + tly as usize);
                    self.hues.shade(self.cells[idx])
                } else {
                    Rgba { r: 0, g: 0, b: 0, a: 0 }
                };
                pixels.push(color);
                column = column + 1;
            }
            row = row + 1;
        }
        proof {
            assert(pixels.len() == down * across);
            assert(down * across == across * down) by (nonlinear_arith);
            assert(pixels@ =~= want);
        }
        pixels
    }
}

} // verus!
