//! What holds of every grain that is dropped.
//!
//! A model that is in order stays in order: after each grain the pile is at
//! rest, with fewer than four grains on every cell, and every grain that was
//! ever dropped is on the table or was lost over its edge.

use crate::cell::Cell;
use crate::model::State;
use crate::pile::{
    fire, fire_all, grain_sum, has_neighbor, inflow, lemma_fire_all_by_counts, lemma_legal_push,
    lemma_received_push, lemma_stabilized_by, relaxation, stabilized, stabilizes, stable,
    topples, unit,
};
use crate::rest::{
    lemma_comes_to_rest, lemma_fire_sums, lemma_grain_sum_update, lemma_legal_nonnegative,
    lemma_mass_never_grows,
};
use crate::topple::with_grain;
use vstd::arithmetic::div_mod::lemma_mod_multiples_basic;
use vstd::prelude::*;

verus! {

impl State {
    /// The pile with one more grain on cell `source`, before it topples.
    pub open spec fn loaded(self, source: int) -> Seq<int> {
        with_grain(self.grains(), source)
    }

    /// A model that is in order has a pile that is at rest.
    pub proof fn lemma_wf_at_rest(self)
        requires
            self.wf(),
        ensures
            stable(self.grains()),
            self.total_grains == grain_sum(self.grains()) + self.lost_grains,
    {
        assert forall|i: int| 0 <= i < self.grains().len() implies self.grains()[i] < 4 by {
            assert(self.cells[i].grains < 4);
        }
    }

    /// The pile with one more grain comes to rest.
    pub proof fn lemma_loaded_comes_to_rest(self, source: int)
        requires
            self.wf(),
            0 <= source < self.cells.len(),
        ensures
            stabilizes(self.loaded(source), self.width as int, relaxation(
                self.loaded(source),
                self.width as int,
            )),
            stabilized(self.loaded(source), self.width as int).len() == self.cells.len(),
            forall|i: int|
                0 <= i < self.cells.len() ==> 0 <= #[trigger] stabilized(
                    self.loaded(source),
                    self.width as int,
                )[i] < 4,
            grain_sum(self.loaded(source)) == grain_sum(self.grains()) + 1,
            grain_sum(stabilized(self.loaded(source), self.width as int)) <= grain_sum(
                self.loaded(source),
            ),
    {
        let w = self.width as int;
        let start = self.loaded(source);
        lemma_mod_multiples_basic(self.height as int, w);
        vstd::arithmetic::mul::lemma_mul_is_commutative(w, self.height as int);
        assert forall|i: int| 0 <= i < start.len() implies start[i] >= 0 by {
            assert(self.cells[i].grains >= 0);
        }
        lemma_comes_to_rest(start, w);
        let t = relaxation(start, w);
        lemma_legal_nonnegative(start, w, t);
        lemma_mass_never_grows(start, w, t);
        lemma_grain_sum_update(self.grains(), source, self.grains()[source] + 1);
    }

    /// Dropping a grain on a model that is in order leaves it in order: the
    /// cells hold what the pile with the grain comes to rest at, none of
    /// them four grains, and every grain ever dropped is on the table or
    /// was lost.
    pub proof fn lemma_grain_dropped(self, source: int)
        requires
            self.wf(),
            0 <= source < self.cells.len(),
        ensures
            self.grain_dropped(source).wf(),
            self.grain_dropped(source).grains() == stabilized(
                self.loaded(source),
                self.width as int,
            ),
            stable(self.grain_dropped(source).grains()),
            self.grain_dropped(source).total_grains == self.total_grains + 1,
            self.grain_dropped(source).total_grains == grain_sum(
                self.grain_dropped(source).grains(),
            ) + self.grain_dropped(source).lost_grains,
            self.grain_dropped(source).lost_grains >= self.lost_grains,
    {
        let w = self.width as int;
        let n = self.cells.len() as int;
        let start = self.loaded(source);
        let rest = stabilized(start, w);
        let after = self.grain_dropped(source);
        self.lemma_loaded_comes_to_rest(source);
        assert(after.grains() =~= rest) by {
            assert forall|i: int| 0 <= i < n implies after.grains()[i] == rest[i] by {
                assert(0 <= rest[i] < 4);
                assert(after.cells[i].grains == rest[i] as u8);
            }
        }
        assert forall|i: int| 0 <= i < n implies (#[trigger] after.cells[i]).grains < 4 by {
            assert(0 <= rest[i] < 4);
        }
        assert forall|i: int| 0 <= i < n && (#[trigger] after.cells[i]).grains
            > 0 implies after.cells[i].borged by {
            assert(0 <= rest[i] < 4);
            lemma_fire_all_by_counts(start, w, relaxation(start, w), i);
            if !self.cells[i].borged {
                assert(self.cells[i].grains == 0);
            }
        }
        after.lemma_wf_at_rest_of(rest);
    }

    /// The cells of a model hold a pile at rest if their grain counts do.
    proof fn lemma_wf_at_rest_of(self, rest: Seq<int>)
        requires
            self.grains() == rest,
            forall|i: int| 0 <= i < rest.len() ==> 0 <= #[trigger] rest[i] < 4,
        ensures
            stable(self.grains()),
    {
    }

    /// The model after a grain has come to lie on cell `source` without a
    /// topple.
    pub open spec fn grain_laid(self, source: int) -> State {
        State {
            cells: self.cells.update(
                source,
                Cell { grains: (self.cells[source].grains + 1) as u8, borged: true },
            ),
            total_grains: self.total_grains + 1,
            avalanche: 0,
            ..self
        }
    }

    /// A grain dropped on a cell with fewer than three grains lies there:
    /// no cell topples and no other cell changes.
    pub proof fn lemma_grain_lies(self, source: int)
        requires
            self.wf(),
            0 <= source < self.cells.len(),
            self.cells[source].grains < 3,
        ensures
            self.grain_dropped(source) == self.grain_laid(source),
    {
        let w = self.width as int;
        let n = self.cells.len() as int;
        let start = self.loaded(source);
        let none = Seq::<int>::empty();
        assert forall|i: int| 0 <= i < start.len() implies start[i] < 4 by {
            assert(self.cells[i].grains < 4);
        }
        lemma_stabilized_by(start, w, none);
        assert(none.to_multiset().len() == 0) by {
            none.to_multiset_ensures();
        }
        assert(self.grain_dropped(source).cells =~= self.grain_laid(source).cells);
    }

    /// The model after cell `source` has toppled once and no other cell:
    /// the cell is empty, each of its neighbours has one grain more, and
    /// the grains for which it has no neighbour are lost.
    pub open spec fn toppled_once(self, source: int) -> State {
        let w = self.width as int;
        let n = self.cells.len() as int;
        State {
            cells: Seq::new(
                self.cells.len(),
                |i: int|
                    if i == source {
                        Cell { grains: 0, borged: true }
                    } else if inflow(w, n, source, i) > 0 {
                        Cell { grains: (self.cells[i].grains + 1) as u8, borged: true }
                    } else {
                        self.cells[i]
                    },
            ),
            total_grains: self.total_grains + 1,
            lost_grains: (self.lost_grains + 4 - unit(has_neighbor(w, n, source, 0)) - unit(
                has_neighbor(w, n, source, 1),
            ) - unit(has_neighbor(w, n, source, 2)) - unit(has_neighbor(w, n, source, 3))) as nat,
            avalanche: 1,
            ..self
        }
    }

    /// A cell gets at most one grain from a topple, and none from its own.
    pub proof fn lemma_inflow_once(w: int, n: int, c: int, i: int)
        requires
            1 <= w,
        ensures
            0 <= inflow(w, n, c, i) <= 1,
            inflow(w, n, c, c) == 0,
    {
        if w == 1 {
            assert(c % 1 == 0);
            assert((c + 1) % 1 == 0);
        }
    }

    /// A grain dropped on a cell with three grains, none of whose
    /// neighbours has three, topples that cell and no other.
    pub proof fn lemma_one_topple(self, source: int)
        requires
            self.wf(),
            0 <= source < self.cells.len(),
            self.cells[source].grains == 3,
            forall|i: int|
                0 <= i < self.cells.len() && inflow(
                    self.width as int,
                    self.cells.len() as int,
                    source,
                    i,
                ) > 0 ==> (#[trigger] self.cells[i]).grains < 3,
        ensures
            self.grain_dropped(source) == self.toppled_once(source),
    {
        let w = self.width as int;
        let n = self.cells.len() as int;
        let start = self.loaded(source);
        let none = Seq::<int>::empty();
        let once = seq![source];
        let rest = fire(start, w, source);
        assert(once =~= none.push(source));
        assert(fire_all(start, w, none) == start);
        assert(start[source] == 4);
        lemma_legal_push(start, w, none, source);
        assert forall|i: int| 0 <= i < rest.len() implies rest[i] < 4 by {
            Self::lemma_inflow_once(w, n, source, i);
            assert(self.cells[i].grains < 4);
        }
        lemma_stabilized_by(start, w, once);
        assert(none.to_multiset().len() == 0) by {
            none.to_multiset_ensures();
        }
        lemma_mod_multiples_basic(self.height as int, w);
        vstd::arithmetic::mul::lemma_mul_is_commutative(w, self.height as int);
        lemma_fire_sums(start, w, source);
        let after = self.grain_dropped(source);
        let told = self.toppled_once(source);
        assert(after.cells =~= told.cells) by {
            assert forall|i: int| 0 <= i < n implies after.cells[i] == told.cells[i] by {
                Self::lemma_inflow_once(w, n, source, i);
                lemma_received_push(w, n, none, source, i);
                assert(self.cells[i].grains < 4);
                if i != source && inflow(w, n, source, i) == 0 {
                    if !self.cells[i].borged {
                        assert(self.cells[i].grains == 0);
                    }
                }
            }
        }
    }

    /// Any number of grains dropped in turn leave a model in order, with
    /// the sources as they were and as many grains more.
    pub proof fn lemma_after_drops(self, k: nat)
        requires
            self.wf(),
            self.active_cells > 0,
        ensures
            self.after_drops(k).wf(),
            self.after_drops(k).total_grains == self.total_grains + k,
            self.after_drops(k).active_cells == self.active_cells,
            self.after_drops(k).drop_cells == self.drop_cells,
            self.after_drops(k).cells.len() == self.cells.len(),
            self.after_drops(k).width == self.width,
            self.after_drops(k).height == self.height,
            self.after_drops(k).interval == self.interval,
            self.after_drops(k).hues == self.hues,
            stable(self.after_drops(k).grains()),
        decreases k,
    {
        if k == 0 {
            self.lemma_wf_at_rest();
        } else {
            let before = self.after_drops((k - 1) as nat);
            self.lemma_after_drops((k - 1) as nat);
            before.lemma_grain_dropped(before.current_source());
        }
    }

    /// A tick leaves a model in order.
    pub proof fn lemma_ticked(self)
        requires
            self.wf(),
        ensures
            self.ticked().wf(),
            stable(self.ticked().grains()),
            self.ticked().total_grains == grain_sum(self.ticked().grains())
                + self.ticked().lost_grains,
            self.ticked().total_grains == if self.active_cells == 0 {
                self.total_grains
            } else {
                self.total_grains + self.interval
            },
    {
        if self.active_cells == 0 {
            self.lemma_wf_at_rest();
        } else {
            self.lemma_after_drops(self.interval);
        }
    }
}

} // verus!
