//! The toppling engine: dropping one grain and resolving the avalanche.
//!
//! A toppled cell hands out its four grains one after the other, up, down,
//! left, right, and a neighbour that reaches four grains topples at once,
//! before the next grain is handed out. The cells that still have grains to
//! hand out are kept on a work-list, so an avalanche of any size runs in a
//! plain loop.

use crate::cell::Cell;
use crate::model::{Model, State};
use crate::pile::{
    avalanche_size, fire_all, grain_sum, has_neighbor, inflow, legal, lemma_fire_all_len,
    lemma_legal_push, lemma_received_push, lemma_stabilized_by, neighbor, received, sends,
    stabilized, stable, topples, unit,
};
use crate::rest::{
    lemma_grain_sum_nonnegative, lemma_grain_sum_update, lemma_lying_weight_nonnegative,
    lemma_lying_weight_update, lemma_neighbor_in_range, lemma_weight_nonnegative, lying_weight,
    weight,
};
use vstd::arithmetic::div_mod::lemma_mod_multiples_basic;
use vstd::prelude::*;

verus! {

/// The lattice `g` with one more grain on cell `c`.
pub open spec fn with_grain(g: Seq<int>, c: int) -> Seq<int> {
    g.update(c, g[c] + 1)
}

/// A count of topples as far as the counter can hold it.
pub open spec fn capped(count: int) -> int {
    if count > usize::MAX {
        usize::MAX as int
    } else {
        count
    }
}

/// A toppled cell that has handed out the grains for the directions before
/// `dir` and still owes the others.
#[derive(Clone, Copy)]
struct Frame {
    cell: usize,
    dir: u8,
}

/// Every cell of the work-list is a cell of the lattice and still owes a
/// grain.
spec fn frames_ok(n: int, stack: Seq<Frame>) -> bool {
    forall|k: int| 0 <= k < stack.len() ==> (#[trigger] stack[k]).cell < n && stack[k].dir < 4
}

/// Grains that `f` still owes to cell `i`.
spec fn owed_by(w: int, n: int, f: Frame, i: int) -> int {
    (if f.dir <= 0 { unit(sends(w, n, f.cell as int, 0, i)) } else { 0 })
    + (if f.dir <= 1 { unit(sends(w, n, f.cell as int, 1, i)) } else { 0 })
    + (if f.dir <= 2 { unit(sends(w, n, f.cell as int, 2, i)) } else { 0 })
    + (if f.dir <= 3 { unit(sends(w, n, f.cell as int, 3, i)) } else { 0 })
}

/// Grains on their way to cell `i`.
spec fn owed_to(w: int, n: int, stack: Seq<Frame>, i: int) -> int
    decreases stack.len(),
{
    if stack.len() == 0 {
        0
    } else {
        owed_to(w, n, stack.drop_last(), i) + owed_by(w, n, stack.last(), i)
    }
}

/// Grains on their way, to a cell or over the edge.
spec fn owed(stack: Seq<Frame>) -> int
    decreases stack.len(),
{
    if stack.len() == 0 {
        0
    } else {
        owed(stack.drop_last()) + (4 - stack.last().dir)
    }
}

/// The weight of the grains that `f` still owes, each counted one heavier
/// than it will be where it lands.
spec fn owed_weight_by(w: int, n: int, f: Frame) -> int {
    (if f.dir <= 0 { weight(w, n, neighbor(w, f.cell as int, 0)) + 1 } else { 0 })
    + (if f.dir <= 1 { weight(w, n, neighbor(w, f.cell as int, 1)) + 1 } else { 0 })
    + (if f.dir <= 2 { weight(w, n, neighbor(w, f.cell as int, 2)) + 1 } else { 0 })
    + (if f.dir <= 3 { weight(w, n, neighbor(w, f.cell as int, 3)) + 1 } else { 0 })
}

/// The weight of all grains on their way.
spec fn owed_weight(w: int, n: int, stack: Seq<Frame>) -> int
    decreases stack.len(),
{
    if stack.len() == 0 {
        0
    } else {
        owed_weight(w, n, stack.drop_last()) + owed_weight_by(w, n, stack.last())
    }
}

/// What every step of an avalanche makes smaller: the weight of all grains,
/// lying or on their way.
spec fn potential(w: int, n: int, g: Seq<int>, stack: Seq<Frame>) -> int {
    lying_weight(w, n, g) + owed_weight(w, n, stack)
}

/// How the engine's state, in the middle of an avalanche, relates to the
/// toppling rules: with the grains on their way already counted where they
/// will land, the cells are what the topples so far make of the start.
spec fn cascading(
    w: int,
    n: int,
    start: Seq<int>,
    cells: Seq<Cell>,
    stack: Seq<Frame>,
    trace: Seq<int>,
) -> bool {
    &&& 1 <= w
    &&& n % w == 0
    &&& start.len() == n
    &&& cells.len() == n
    &&& frames_ok(n, stack)
    &&& legal(start, w, trace)
    &&& forall|i: int| 0 <= i < n ==> (#[trigger] cells[i]).grains < 4
    &&& forall|i: int|
        0 <= i < n ==> (#[trigger] cells[i]).grains + owed_to(w, n, stack, i) == fire_all(
            start,
            w,
            trace,
        )[i]
}

/// Grains that the topples of `trace` have sent to cell `i` and that have
/// arrived there.
spec fn delivered(w: int, n: int, stack: Seq<Frame>, trace: Seq<int>, i: int) -> int {
    received(w, n, trace.to_multiset(), i) - owed_to(w, n, stack, i)
}

/// Which cells a grain has reached: those it had reached before, the cell
/// the grain was dropped on, and every cell to which a topple has already
/// delivered a grain.
spec fn reached(
    w: int,
    n: int,
    before: Seq<Cell>,
    source: int,
    cells: Seq<Cell>,
    stack: Seq<Frame>,
    trace: Seq<int>,
) -> bool {
    &&& forall|i: int| 0 <= i < n ==> #[trigger] delivered(w, n, stack, trace, i) >= 0
    &&& forall|i: int|
        0 <= i < n ==> (#[trigger] cells[i]).borged == (before[i].borged || i == source
            || delivered(w, n, stack, trace, i) > 0)
}

/// No cell is owed less than nothing.
proof fn lemma_owed_nonnegative(w: int, n: int, stack: Seq<Frame>, i: int)
    ensures
        owed_to(w, n, stack, i) >= 0,
    decreases stack.len(),
{
    if stack.len() > 0 {
        lemma_owed_nonnegative(w, n, stack.drop_last(), i);
    }
}

/// Nor are all of them together.
proof fn lemma_owed_total_nonnegative(stack: Seq<Frame>)
    requires
        forall|k: int| 0 <= k < stack.len() ==> (#[trigger] stack[k]).dir < 4,
    ensures
        owed(stack) >= 0,
    decreases stack.len(),
{
    if stack.len() > 0 {
        lemma_owed_total_nonnegative(stack.drop_last());
    }
}

/// Grains on their way do not weigh less than nothing.
proof fn lemma_owed_weight_nonnegative(w: int, n: int, stack: Seq<Frame>)
    requires
        1 <= w,
        frames_ok(n, stack),
    ensures
        owed_weight(w, n, stack) >= 0,
    decreases stack.len(),
{
    if stack.len() > 0 {
        let f = stack.last();
        lemma_owed_weight_nonnegative(w, n, stack.drop_last());
        lemma_weight_nonnegative(w, n, neighbor(w, f.cell as int, 0));
        lemma_weight_nonnegative(w, n, neighbor(w, f.cell as int, 1));
        lemma_weight_nonnegative(w, n, neighbor(w, f.cell as int, 2));
        lemma_weight_nonnegative(w, n, neighbor(w, f.cell as int, 3));
    }
}

/// The four grains of a toppling cell, on their way, weigh no more than
/// they did lying on the cell.
proof fn lemma_topple_weight(w: int, n: int, c: usize)
    requires
        1 <= w,
    ensures
        owed_weight_by(w, n, Frame { cell: c, dir: 0 }) <= 4 * weight(w, n, c as int),
{
    let k = c as int;
    assert((k - w) * (k - w) + (k + w) * (k + w) + (k - 1) * (k - 1) + (k + 1) * (k + 1) == 4 * (k
        * k) + 2 * (w * w) + 2) by (nonlinear_arith);
    assert(w * w >= 1) by (nonlinear_arith)
        requires
            1 <= w,
    ;
}

/// The work-list after its last cell has handed out the next grain it owes.
spec fn handed_out(stack: Seq<Frame>) -> Seq<Frame> {
    let f = stack.last();
    if f.dir < 3 {
        stack.drop_last().push(Frame { cell: f.cell, dir: (f.dir + 1) as u8 })
    } else {
        stack.drop_last()
    }
}

/// Handing out a grain takes it off the list of grains that are owed.
proof fn lemma_hand_out(w: int, n: int, stack: Seq<Frame>)
    requires
        1 <= w,
        n % w == 0,
        frames_ok(n, stack),
        stack.len() > 0,
    ensures
        frames_ok(n, handed_out(stack)),
        owed(handed_out(stack)) == owed(stack) - 1,
        owed(stack) >= 1,
        owed_weight(w, n, handed_out(stack)) == owed_weight(w, n, stack) - weight(
            w,
            n,
            neighbor(w, stack.last().cell as int, stack.last().dir as int),
        ) - 1,
        weight(w, n, neighbor(w, stack.last().cell as int, stack.last().dir as int)) >= 0,
{
    let f = stack.last();
    let rest = handed_out(stack);
    if f.dir < 3 {
        assert(rest.drop_last() =~= stack.drop_last());
    }
    assert forall|k: int| 0 <= k < rest.len() implies (#[trigger] rest[k]).cell < n && rest[k].dir
        < 4 by {
        if k < stack.len() - 1 {
            assert(rest[k] == stack[k]);
        }
    }
    lemma_weight_nonnegative(w, n, neighbor(w, f.cell as int, f.dir as int));
    lemma_owed_total_nonnegative(stack.drop_last());
}

/// The grain that was handed out is no longer owed to the cell it went to.
proof fn lemma_hand_out_to(w: int, n: int, stack: Seq<Frame>, i: int)
    requires
        frames_ok(n, stack),
        stack.len() > 0,
    ensures
        owed_to(w, n, handed_out(stack), i) == owed_to(w, n, stack, i) - unit(
            sends(w, n, stack.last().cell as int, stack.last().dir as int, i),
        ),
        owed_to(w, n, handed_out(stack), i) >= 0,
{
    let f = stack.last();
    if f.dir < 3 {
        assert(handed_out(stack).drop_last() =~= stack.drop_last());
    }
    lemma_owed_nonnegative(w, n, handed_out(stack), i);
}

/// A cell that topples joins the work-list owing four grains, which weigh
/// no more than they did on the cell.
proof fn lemma_topple(w: int, n: int, stack: Seq<Frame>, c: usize)
    requires
        1 <= w,
        frames_ok(n, stack),
        0 <= c < n,
    ensures
        frames_ok(n, stack.push(Frame { cell: c, dir: 0 })),
        owed(stack.push(Frame { cell: c, dir: 0 })) == owed(stack) + 4,
        owed_weight(w, n, stack.push(Frame { cell: c, dir: 0 })) <= owed_weight(w, n, stack) + 4
            * weight(w, n, c as int),
{
    assert(stack.push(Frame { cell: c, dir: 0 }).drop_last() =~= stack);
    lemma_topple_weight(w, n, c);
}

/// What a topple of `c` does to cell `i`: the grains owed to it, what the
/// topples so far make of it, and what it has been sent.
proof fn lemma_topple_to(
    w: int,
    n: int,
    start: Seq<int>,
    stack: Seq<Frame>,
    trace: Seq<int>,
    c: usize,
    i: int,
)
    requires
        start.len() == n,
        legal(start, w, trace),
        0 <= c < n,
        0 <= i < n,
        fire_all(start, w, trace)[c as int] >= 4,
    ensures
        legal(start, w, trace.push(c as int)),
        owed_to(w, n, stack.push(Frame { cell: c, dir: 0 }), i) == owed_to(w, n, stack, i)
            + inflow(w, n, c as int, i),
        fire_all(start, w, trace.push(c as int))[i] == fire_all(start, w, trace)[i] - 4 * unit(
            i == c,
        ) + inflow(w, n, c as int, i),
        received(w, n, trace.push(c as int).to_multiset(), i) == received(
            w,
            n,
            trace.to_multiset(),
            i,
        ) + inflow(w, n, c as int, i),
{
    assert(stack.push(Frame { cell: c, dir: 0 }).drop_last() =~= stack);
    lemma_legal_push(start, w, trace, c as int);
    lemma_fire_all_len(start, w, trace);
    lemma_received_push(w, n, trace, c as int, i);
}

/// The cell that gets the grain which `cell` sends in direction `dir`, if
/// that grain stays on the table.
fn target(width: usize, size: usize, cell: usize, dir: u8) -> (t: Option<usize>)
    requires
        1 <= width,
        size % width == 0,
        cell < size,
        dir < 4,
    ensures
        t is Some == has_neighbor(width as int, size as int, cell as int, dir as int),
        t matches Some(i) ==> i == neighbor(width as int, cell as int, dir as int) && i < size,
{
    proof {
        if has_neighbor(width as int, size as int, cell as int, dir as int) {
            lemma_neighbor_in_range(width as int, size as int, cell as int, dir as int);
        }
    }
    if dir == 0 {
        if cell < width {
            None
        } else {
            Some(cell - width)
        }
    } else if dir == 1 {
        if width >= size - cell {
            None
        } else {
            Some(cell + width)
        }
    } else if dir == 2 {
        if cell % width == 0 {
            None
        } else {
            Some(cell - 1)
        }
    } else {
        if (cell + 1) % width == 0 {
            None
        } else {
            Some(cell + 1)
        }
    }
}

impl State {
    /// The model after one grain has been dropped on cell `source` and the
    /// avalanche has come to rest: the cells hold what the pile stabilizes
    /// to, a cell counts as reached if it was so before, if the grain was
    /// dropped on it or if a toppling neighbour sent it a grain, the grains
    /// that left the table are lost, and `avalanche` counts the topples.
    pub open spec fn grain_dropped(self, source: int) -> State {
        let w = self.width as int;
        let n = self.cells.len() as int;
        let start = with_grain(self.grains(), source);
        let rest = stabilized(start, w);
        State {
            cells: Seq::new(
                self.cells.len(),
                |i: int|
                    Cell {
                        grains: rest[i] as u8,
                        borged: self.cells[i].borged || i == source || received(
                            w,
                            n,
                            topples(start, w),
                            i,
                        ) > 0,
                    },
            ),
            total_grains: self.total_grains + 1,
            lost_grains: (self.lost_grains + grain_sum(start) - grain_sum(rest)) as nat,
            avalanche: capped(avalanche_size(start, w) as int) as nat,
            ..self
        }
    }
}

impl Model {
    /// Everything but the cells and the three counters that a grain changes.
    spec fn same_setup(&self, other: &Model) -> bool {
        &&& self.width == other.width
        &&& self.height == other.height
        &&& self.drop_cells == other.drop_cells
        &&& self.ac == other.ac
        &&& self.active_cells == other.active_cells
        &&& self.hues == other.hues
        &&& self.interval == other.interval
    }

    /// Drops one grain of sand on cell `source` and lets the pile come to
    /// rest. A cell that reaches four grains topples; what falls over the
    /// edge of the table is counted as lost. `avalanche` becomes the number
    /// of topples this grain caused.
    pub fn add_grain(&mut self, source: usize)
        requires
            old(self).wf(),
            source < old(self).cells.len(),
            old(self).total_grains < usize::MAX,
        ensures
            final(self).wf(),
            final(self)@ == old(self)@.grain_dropped(source as int),
            stable(final(self).grains()),
            final(self).total_grains == grain_sum(final(self).grains()) + final(self).lost_grains,
    {
        let ghost before = *self;
        let ghost w = self.width as int;
        let ghost n = self.cells.len() as int;
        let ghost start = with_grain(self.grains(), source as int);
        let ghost mut trace: Seq<int> = Seq::empty();
        let width = self.width;
        let size = self.cells.len();
        let mut stack: Vec<Frame> = Vec::new();

        proof {
            lemma_mod_multiples_basic(self.height as int, w);
            vstd::arithmetic::mul::lemma_mul_is_commutative(w, self.height as int);
            lemma_grain_sum_update(self.grains(), source as int, self.grains()[source as int] + 1);
            assert(trace.to_multiset().len() == 0) by {
                trace.to_multiset_ensures();
            }
        }
        self.total_grains = self.total_grains + 1;
        self.avalanche = 0;
        let landed = self.cells[source];
        if landed.grains >= 3 {
            self.cells.set(source, Cell { grains: 0, borged: true });
            self.avalanche = 1;
            stack.push(Frame { cell: source, dir: 0 });
            proof {
                let none = Seq::<Frame>::empty();
                assert(stack@ =~= none.push(Frame { cell: source, dir: 0 }));
                lemma_topple(w, n, none, source);
                assert forall|i: int| 0 <= i < n implies {
                    &&& (#[trigger] self.cells@[i]).grains + owed_to(w, n, stack@, i) == fire_all(
                        start,
                        w,
                        trace.push(source as int),
                    )[i]
                } by {
                    lemma_topple_to(w, n, start, none, trace, source, i);
                }
                assert forall|i: int| 0 <= i < n implies #[trigger] delivered(
                    w,
                    n,
                    stack@,
                    trace.push(source as int),
                    i,
                ) == 0 by {
                    lemma_topple_to(w, n, start, none, trace, source, i);
                }
                lemma_topple_to(w, n, start, none, trace, source, 0);
                trace = trace.push(source as int);
                assert(self.grains() =~= start.update(source as int, 0));
                lemma_grain_sum_update(start, source as int, 0);
            }
        } else {
            self.cells.set(source, Cell { grains: (landed.grains + 1) as u8, borged: true });
            proof {
                assert(self.grains() =~= start);
                assert forall|i: int| 0 <= i < n implies #[trigger] delivered(
                    w,
                    n,
                    stack@,
                    trace,
                    i,
                ) == 0 by {}
            }
        }

        while stack.len() > 0
            invariant
                self.same_setup(&before),
                self.sized(),
                self@.sources_wf(),
                before.wf(),
                w == self.width,
                width == self.width,
                n == self.cells.len(),
                size == self.cells.len(),
                n == self.width * self.height,
                source < n,
                start == with_grain(before.grains(), source as int),
                cascading(w, n, start, self.cells@, stack@, trace),
                reached(w, n, before.cells@, source as int, self.cells@, stack@, trace),
                forall|i: int|
                    0 <= i < n ==> ((#[trigger] self.cells[i]).grains > 0 ==> self.cells[i].borged),
                self.total_grains == before.total_grains + 1,
                self.total_grains == grain_sum(self.grains()) + self.lost_grains + owed(stack@),
                self.lost_grains + grain_sum(self.grains()) + owed(stack@) == before.lost_grains
                    + grain_sum(start),
                self.avalanche == capped(trace.len() as int),
            decreases potential(w, n, self.grains(), stack@),
        {
            let ghost cells0 = self.cells@;
            let ghost stack0 = stack@;
            let ghost grains0 = self.grains();
            let ghost trace0 = trace;
            proof {
                lemma_hand_out(w, n, stack0);
                lemma_grain_sum_nonnegative(grains0);
            }
            let f = stack.pop().unwrap();
            if f.dir < 3 {
                stack.push(Frame { cell: f.cell, dir: f.dir + 1 });
            }
            let ghost rest = stack@;
            assert(rest == handed_out(stack0));
            match target(width, size, f.cell, f.dir) {
                None => {
                    self.lost_grains = self.lost_grains + 1;
                    proof {
                        assert forall|i: int| 0 <= i < n implies owed_to(w, n, rest, i) == owed_to(
                            w,
                            n,
                            stack0,
                            i,
                        ) by {
                            lemma_hand_out_to(w, n, stack0, i);
                        }
assert forall|i: int| 0 <= i < n implies delivered(w, n, stack0, trace0, i)
                            == #[trigger] delivered(w, n, stack@, trace, i) by {
                            lemma_hand_out_to(w, n, stack0, i);
                        }
                    }
                },
                Some(t) => {
                    let hit = self.cells[t];
                    proof {
                        lemma_hand_out_to(w, n, stack0, t as int);
                    }
                    if hit.grains >= 3 {
                        self.cells.set(t, Cell { grains: 0, borged: true });
                        if self.avalanche < usize::MAX {
                            self.avalanche = self.avalanche + 1;
                        }
                        stack.push(Frame { cell: t, dir: 0 });
                        proof {
                            lemma_topple(w, n, rest, t);
                            assert forall|i: int| 0 <= i < n implies {
                                &&& owed_to(w, n, stack@, i) == owed_to(w, n, stack0, i) - unit(
                                    i == t,
                                ) + inflow(w, n, t as int, i)
                                &&& fire_all(start, w, trace0.push(t as int))[i] == fire_all(
                                    start,
                                    w,
                                    trace0,
                                )[i] - 4 * unit(i == t) + inflow(w, n, t as int, i)
                                &&& received(w, n, trace0.push(t as int).to_multiset(), i)
                                    == received(w, n, trace0.to_multiset(), i) + inflow(
                                    w,
                                    n,
                                    t as int,
                                    i,
                                )
                            } by {
                                lemma_hand_out_to(w, n, stack0, i);
                                lemma_topple_to(w, n, start, rest, trace0, t, i);
                            }
                            lemma_topple_to(w, n, start, rest, trace0, t, 0);
                            trace = trace0.push(t as int);
                            assert(self.grains() =~= grains0.update(
                                t as int,
                                grains0[t as int] + (-3),
                            ));
                            lemma_grain_sum_update(grains0, t as int, 0);
                            lemma_lying_weight_update(w, n, grains0, t as int, -3);
                            assert forall|i: int| 0 <= i < n implies #[trigger] delivered(
                                w,
                                n,
                                stack@,
                                trace,
                                i,
                            ) == delivered(w, n, stack0, trace0, i) + unit(i == t) by {}
                        }
                    } else {
                        self.cells.set(t, Cell { grains: (hit.grains + 1) as u8, borged: true });
                        proof {
                            assert forall|i: int| 0 <= i < n implies owed_to(w, n, rest, i)
                                == owed_to(w, n, stack0, i) - unit(i == t) by {
                                lemma_hand_out_to(w, n, stack0, i);
                            }
                            assert(self.grains() =~= grains0.update(
                                t as int,
                                grains0[t as int] + 1,
                            ));
                            lemma_grain_sum_update(grains0, t as int, grains0[t as int] + 1);
                            lemma_lying_weight_update(w, n, grains0, t as int, 1);
                            assert forall|i: int| 0 <= i < n implies #[trigger] delivered(
                                w,
                                n,
                                stack@,
                                trace,
                                i,
                            ) == delivered(w, n, stack0, trace0, i) + unit(i == t) by {}
                        }
                    }
                },
            }
            proof {
                lemma_lying_weight_nonnegative(w, n, self.grains());
                lemma_owed_weight_nonnegative(w, n, stack@);
            }
        }

        proof {
            lemma_fire_all_len(start, w, trace);
            assert(self.grains() =~= fire_all(start, w, trace));
            lemma_stabilized_by(start, w, trace);
            assert(self@.cells =~= before@.grain_dropped(source as int).cells);
            self@.lemma_wf_at_rest();
        }
    }
}

} // verus!
