//! The simulation state: the lattice, its counters, the sources and the
//! palette, with the arithmetic that maps coordinates to cells.

use crate::cell::{Cell, CRITICAL};
use crate::hues::{default_hues, hues_from_draws, Hues};
use crate::pile::grain_sum;
use vstd::arithmetic::div_mod::{lemma_fundamental_div_mod, lemma_fundamental_div_mod_converse};
use vstd::arithmetic::mul::{lemma_mul_inequality, lemma_mul_is_commutative};
use vstd::prelude::*;

verus! {

/// Width of the table that a new model starts with.
pub const MODEL_WIDTH: usize = 3_000;

/// Height of the table that a new model starts with.
pub const MODEL_HEIGHT: usize = 3_000;

/// Number of grains after which a running simulation is paused.
pub const MAX_ITERATIONS: usize = 16_777_216;

/// The most sources that can drop grains at the same time.
pub const MAX_DROPS: usize = 32;

/// Grains dropped per tick by a new model.
pub const DEFAULT_INTERVAL: usize = 1_024;

/// Why a table of the asked size cannot be made.
#[derive(Clone, Copy, Debug, PartialEq, Eq, Structural)]
pub enum TableError {
    /// A side of the table is zero, so it has no cell.
    Empty,
    /// The number of cells does not fit the machine's index type.
    TooBig,
}

/// A model is the table on which sandpiles form, with all that is needed to
/// go on dropping grains.
#[derive(Clone, Debug, PartialEq, Eq)]
pub struct Model {
    /// The cells, row after row: cell `(x, y)` stands at `y * width + x`.
    pub cells: Vec<Cell>,
    pub width: usize,
    pub height: usize,
    /// Grains dropped so far.
    pub total_grains: usize,
    /// Grains that fell off the table.
    pub lost_grains: usize,
    /// The cell of each source; only the first `active_cells` are in use.
    pub drop_cells: [usize; MAX_DROPS],
    /// The source whose turn it is.
    pub ac: usize,
    /// Number of sources.
    pub active_cells: usize,
    pub hues: Hues,
    /// Grains dropped per tick.
    pub interval: usize,
    /// Number of topples that the last grain caused.
    pub avalanche: usize,
}

/// What a model is, apart from how the machine holds it: every field as a
/// plain mathematical value. The contracts of the model speak of this.
pub struct State {
    pub width: nat,
    pub height: nat,
    pub cells: Seq<Cell>,
    pub total_grains: nat,
    pub lost_grains: nat,
    pub drop_cells: Seq<usize>,
    pub ac: nat,
    pub active_cells: nat,
    pub hues: Hues,
    pub interval: nat,
    pub avalanche: nat,
}

impl View for Model {
    type V = State;

    open spec fn view(&self) -> State {
        State {
            width: self.width as nat,
            height: self.height as nat,
            cells: self.cells@,
            total_grains: self.total_grains as nat,
            lost_grains: self.lost_grains as nat,
            drop_cells: self.drop_cells@,
            ac: self.ac as nat,
            active_cells: self.active_cells as nat,
            hues: self.hues,
            interval: self.interval as nat,
            avalanche: self.avalanche as nat,
        }
    }
}

/// The grain counts of a row of cells.
pub open spec fn grains_of(cells: Seq<Cell>) -> Seq<int> {
    Seq::new(cells.len(), |i: int| cells[i].grains as int)
}

/// The cell that no grain has reached.
pub open spec fn untouched() -> Cell {
    Cell { grains: 0, borged: false }
}

impl State {
    /// The grain counts of the cells, as the toppling rules see them.
    pub open spec fn grains(self) -> Seq<int> {
        grains_of(self.cells)
    }

    /// The sources in use point at cells of the table, the unused entries
    /// are zero, and the turn is with one of the sources in use.
    pub open spec fn sources_wf(self) -> bool {
        &&& self.drop_cells.len() == MAX_DROPS
        &&& self.active_cells <= MAX_DROPS
        &&& forall|k: int| 0 <= k < self.active_cells ==> self.drop_cells[k] < self.cells.len()
        &&& forall|k: int| self.active_cells <= k < MAX_DROPS ==> self.drop_cells[k] == 0
        &&& (self.ac < self.active_cells || self.ac == 0)
    }

    /// What holds of a model between any two operations: the table has
    /// cells and the cells fill it, every cell is stable, a cell that no
    /// grain has reached is empty, the sources are in order, and every grain
    /// ever dropped is either on the table or was lost over its edge.
    pub open spec fn wf(self) -> bool {
        &&& 1 <= self.width
        &&& 1 <= self.height
        &&& self.cells.len() == self.width * self.height
        &&& forall|i: int| 0 <= i < self.cells.len() ==> (#[trigger] self.cells[i]).grains < CRITICAL
        &&& forall|i: int|
            0 <= i < self.cells.len() ==> ((#[trigger] self.cells[i]).grains > 0
                ==> self.cells[i].borged)
        &&& self.sources_wf()
        &&& self.total_grains == grain_sum(self.grains()) + self.lost_grains
    }

    /// A new `width` by `height` table without grains or sources.
    pub open spec fn fresh(width: nat, height: nat) -> State {
        State {
            width,
            height,
            cells: Seq::new(width * height, |i: int| untouched()),
            total_grains: 0,
            lost_grains: 0,
            drop_cells: Seq::new(MAX_DROPS as nat, |k: int| 0usize),
            ac: 0,
            active_cells: 0,
            hues: default_hues(),
            interval: DEFAULT_INTERVAL as nat,
            avalanche: 0,
        }
    }
}

/// The index of the cell in column `x` of row `y`.
pub open spec fn index_of(w: int, x: int, y: int) -> int {
    y * w + x
}

/// Column and row of the cell at `idx`.
pub open spec fn coords_of(w: int, idx: int) -> (int, int) {
    (idx % w, idx / w)
}

/// The cell taken as the middle of a `w` by `h` table. With an even number
/// of rows it lies in row `h / 2`, at column `w / 2` or `(w - 1) / 2` as `w`
/// is even or odd; with an odd number of rows it is cell `(w * h - 1) / 2`.
pub open spec fn center_index(w: int, h: int) -> int {
    if h % 2 == 0 {
        if w % 2 == 0 {
            (w * h) / 2 + w / 2
        } else {
            (w * h) / 2 + (w - 1) / 2
        }
    } else {
        (w * h - 1) / 2
    }
}

/// All cells of a fresh table hold no grain.
pub proof fn lemma_grain_sum_zero(g: Seq<int>)
    requires
        forall|i: int| 0 <= i < g.len() ==> g[i] == 0,
    ensures
        grain_sum(g) == 0,
    decreases g.len(),
{
    if g.len() > 0 {
        lemma_grain_sum_zero(g.drop_last());
    }
}

/// Coordinates and index determine each other: the cell at column `x < w`
/// of row `y` has index `y * w + x`, and that index leads back to `(x, y)`.
pub proof fn lemma_coords_of_index(w: int, x: int, y: int)
    requires
        0 <= x < w,
        0 <= y,
    ensures
        coords_of(w, index_of(w, x, y)) == (x, y),
        index_of(w, x, y) >= 0,
{
    lemma_fundamental_div_mod_converse(y * w + x, w, y, x);
    assert(y * w >= 0) by (nonlinear_arith)
        requires
            y >= 0,
            w > 0,
    ;
}

/// The other way round: an index is that of its own coordinates.
pub proof fn lemma_index_of_coords(w: int, idx: int)
    requires
        0 < w,
        0 <= idx,
    ensures
        index_of(w, coords_of(w, idx).0, coords_of(w, idx).1) == idx,
        0 <= coords_of(w, idx).0 < w,
        0 <= coords_of(w, idx).1,
{
    lemma_fundamental_div_mod(idx, w);
    lemma_mul_is_commutative(w, idx / w);
    assert(idx / w >= 0) by (nonlinear_arith)
        requires
            idx >= 0,
            w > 0,
    ;
}

/// A cell of a `w` by `h` table lies in one of its `h` rows, and the cell at
/// column `x` of row `y < h` is one of its `w * h` cells.
pub proof fn lemma_index_in_table(w: int, h: int, x: int, y: int)
    requires
        0 <= x < w,
        0 <= y < h,
    ensures
        0 <= index_of(w, x, y) < w * h,
{
    assert(0 <= y * w + x < w * h) by (nonlinear_arith)
        requires
            0 <= x < w,
            0 <= y < h,
    ;
}

/// The row of a cell of a `w` by `h` table is one of its `h` rows.
pub proof fn lemma_row_in_table(w: int, h: int, idx: int)
    requires
        0 < w,
        0 <= idx < w * h,
    ensures
        0 <= idx / w < h,
        0 <= idx % w < w,
{
    lemma_fundamental_div_mod(idx, w);
    let q = idx / w;
    let r = idx % w;
    assert(0 <= q < h) by (nonlinear_arith)
        requires
            0 < w,
            0 <= w * q + r < w * h,
            0 <= r < w,
    ;
}

/// Where the middle cell lies: in row `h / 2`, at column `w / 2`, or one
/// column before it where the rows are odd in number and the columns even.
pub proof fn lemma_center_coords(w: int, h: int)
    requires
        1 <= w,
        1 <= h,
    ensures
        0 <= center_index(w, h) < w * h,
        coords_of(w, center_index(w, h)).1 == h / 2,
        coords_of(w, center_index(w, h)).0 == if h % 2 == 1 && w % 2 == 0 {
            w / 2 - 1
        } else {
            w / 2
        },
{
    let k = h / 2;
    let j = w / 2;
    let c = center_index(w, h);
    let x = if h % 2 == 1 && w % 2 == 0 {
        j - 1
    } else {
        j
    };
    assert(w * h == 2 * (k * w) + (h % 2) * w) by (nonlinear_arith)
        requires
            h == 2 * k + h % 2,
    ;
    assert(c == k * w + x);
    lemma_fundamental_div_mod_converse(c, w, k, x);
    lemma_index_in_table(w, h, x, k);
}

impl Model {
    /// The grain counts of the cells, as the toppling rules see them.
    pub open spec fn grains(&self) -> Seq<int> {
        grains_of(self.cells@)
    }

    /// The table has at least one cell, and no more than can be indexed.
    pub open spec fn sized(&self) -> bool {
        &&& 1 <= self.width
        &&& 1 <= self.height
        &&& self.width * self.height <= usize::MAX
    }

    /// The model is in order: see [`State::wf`].
    pub open spec fn wf(&self) -> bool {
        self@.wf()
    }

    /// A model that is in order has a table that the machine can index.
    pub proof fn lemma_wf_sized(&self)
        requires
            self.wf(),
        ensures
            self.sized(),
            self.cells.len() == self.width * self.height,
    {
        assert(self@.cells.len() == self.cells.len());
    }

    /// A fresh table of the given size. A table without cells, or with more
    /// cells than can be indexed, is refused.
    pub fn with_size(width: usize, height: usize) -> (made: Result<Model, TableError>)
        ensures
            match made {
                Ok(model) => model.wf() && model@ == State::fresh(width as nat, height as nat),
                Err(TableError::Empty) => width == 0 || height == 0,
                Err(TableError::TooBig) => width > 0 && height > 0 && width * height > usize::MAX,
            },
    {
        if width == 0 || height == 0 {
            return Err(TableError::Empty);
        }
        match width.checked_mul(height) {
            None => Err(TableError::TooBig),
            Some(size) => {
                let model = Model {
                    cells: vec![Cell::default(); size],
                    width,
                    height,
                    total_grains: 0,
                    lost_grains: 0,
                    drop_cells: [0usize; MAX_DROPS],
                    ac: 0,
                    active_cells: 0,
                    hues: Hues::default(),
                    interval: DEFAULT_INTERVAL,
                    avalanche: 0,
                };
                proof {
                    lemma_grain_sum_zero(model.grains());
                    assert(model@.cells =~= State::fresh(width as nat, height as nat).cells);
                    assert(model@.drop_cells =~= State::fresh(width as nat, height as nat).drop_cells);
                }
                Ok(model)
            },
        }
    }

    /// The table that the simulation starts with: 3000 by 3000 cells.
    pub fn default() -> (model: Model)
        ensures
            model.wf(),
            model@ == State::fresh(MODEL_WIDTH as nat, MODEL_HEIGHT as nat),
    {
        let size: usize = MODEL_WIDTH * MODEL_HEIGHT;
        let model = Model {
            cells: vec![Cell::default(); size],
            width: MODEL_WIDTH,
            height: MODEL_HEIGHT,
            total_grains: 0,
            lost_grains: 0,
            drop_cells: [0usize; MAX_DROPS],
            ac: 0,
            active_cells: 0,
            hues: Hues::default(),
            interval: DEFAULT_INTERVAL,
            avalanche: 0,
        };
        proof {
            lemma_grain_sum_zero(model.grains());
            assert(model@.cells =~= State::fresh(MODEL_WIDTH as nat, MODEL_HEIGHT as nat).cells);
            assert(model@.drop_cells =~= State::fresh(
                MODEL_WIDTH as nat,
                MODEL_HEIGHT as nat,
            ).drop_cells);
        }
        model
    }

    /// Gives the cells with grains new random colours, drawn after seeding
    /// the generator with the number of grains dropped so far.
    pub fn random_colors(&mut self)
        ensures
            exists|d: Seq<u8>|
                d.len() == 12 && (forall|k: int| 0 <= k < 12 ==> d[k] < 255) && final(self)@
                    == (State { hues: #[trigger] hues_from_draws(d), ..old(self)@ }),
    {
        self.hues = Hues::random(self.total_grains as u64);
    }

    /// The index of the cell in the middle of the table.
    pub fn calc_center_idx(&self) -> (idx: usize)
        requires
            self.sized(),
        ensures
            idx == center_index(self.width as int, self.height as int),
            idx < self.width * self.height,
    {
        proof {
            lemma_center_coords(self.width as int, self.height as int);
        }
        let size: usize = self.width * self.height;
        if self.height % 2 == 0 {
            if self.width % 2 == 0 {
                (size / 2) + (self.width / 2)
            } else {
                (size / 2) + ((self.width - 1) / 2)
            }
        } else {
            (size - 1) / 2
        }
    }

    /// Column and row of the cell in the middle of the table.
    pub fn calc_center_xy(&self) -> (xy: (usize, usize))
        requires
            self.sized(),
        ensures
            (xy.0 as int, xy.1 as int) == coords_of(
                self.width as int,
                center_index(self.width as int, self.height as int),
            ),
            xy.0 < self.width,
            xy.1 == self.height / 2,
    {
        proof {
            lemma_center_coords(self.width as int, self.height as int);
        }
        let center: usize = self.calc_center_idx();
        self.idx_to_xy(center)
    }

    /// The index of the cell at column `x` of row `y`.
    pub fn xy_to_idx(&self, x: usize, y: usize) -> (idx: usize)
        requires
            self.sized(),
            x < self.width,
            y < self.height,
        ensures
            idx == index_of(self.width as int, x as int, y as int),
            idx < self.width * self.height,
            coords_of(self.width as int, idx as int) == (x as int, y as int),
    {
        proof {
            lemma_index_in_table(self.width as int, self.height as int, x as int, y as int);
            lemma_coords_of_index(self.width as int, x as int, y as int);
            lemma_mul_inequality(y as int, self.height as int, self.width as int);
        }
        (y * self.width) + x
    }

    /// Column and row of the cell at `idx`.
    pub fn idx_to_xy(&self, idx: usize) -> (xy: (usize, usize))
        requires
            1 <= self.width,
        ensures
            (xy.0 as int, xy.1 as int) == coords_of(self.width as int, idx as int),
            index_of(self.width as int, xy.0 as int, xy.1 as int) == idx,
            xy.0 < self.width,
            idx < self.width * self.height ==> xy.1 < self.height,
    {
        proof {
            lemma_index_of_coords(self.width as int, idx as int);
            if idx < self.width * self.height {
                lemma_row_in_table(self.width as int, self.height as int, idx as int);
            }
        }
        let y: usize = idx / self.width;
        let x: usize = idx % self.width;
        (x, y)
    }
}

} // verus!
