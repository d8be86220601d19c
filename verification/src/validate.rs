//! Checking at run time that a model is in order.
//!
//! The fields of a model are open to its users. Whoever has set them by hand,
//! or has read them from a file, can ask here whether the model is fit for
//! the engine.

use crate::cell::CRITICAL;
use crate::model::{Model, MAX_DROPS};
use crate::pile::grain_sum;
use vstd::prelude::*;

verus! {

/// The sum of the first `k` grain counts grows by the next.
pub proof fn lemma_grain_sum_take(g: Seq<int>, k: int)
    requires
        0 <= k < g.len(),
    ensures
        grain_sum(g.take(k + 1)) == grain_sum(g.take(k)) + g[k],
{
    assert(g.take(k + 1).drop_last() =~= g.take(k));
}

impl Model {
    /// Are the sources in order?
    fn sources_in_order(&self) -> (ok: bool)
        ensures
            ok == self@.sources_wf(),
    {
        if self.active_cells > MAX_DROPS {
            return false;
        }
        if self.ac >= self.active_cells && self.ac != 0 {
            return false;
        }
        let mut k: usize = 0;
        while k < MAX_DROPS
            invariant
                k <= MAX_DROPS,
                self.active_cells <= MAX_DROPS,
                forall|j: int|
                    0 <= j < k && j < self.active_cells ==> self.drop_cells@[j] < self.cells.len(),
                forall|j: int| self.active_cells <= j < k ==> self.drop_cells@[j] == 0,
            decreases MAX_DROPS - k,
        {
            if k < self.active_cells {
                if self.drop_cells[k] >= self.cells.len() {
                    return false;
                }
            } else {
                if self.drop_cells[k] != 0 {
                    return false;
                }
            }
            k = k + 1;
        }
        true
    }

    /// Is the model in order? See [`State::wf`](crate::model::State::wf).
    pub fn is_wf(&self) -> (ok: bool)
        ensures
            ok == self.wf(),
    {
        if self.width == 0 || self.height == 0 {
            return false;
        }
        match self.width.checked_mul(self.height) {
            None => {
                assert(self@.cells.len() == self.cells.len());
                return false;
            },
            Some(size) => {
                if size != self.cells.len() {
                    return false;
                }
            },
        }
        if !self.sources_in_order() {
            return false;
        }
        let ghost grains = self.grains();
        let mut on_table: u128 = 0;
        let mut i: usize = 0;
        proof {
            assert(grains.take(0) =~= Seq::<int>::empty());
        }
        while i < self.cells.len()
            invariant
                i <= self.cells.len(),
                grains == self.grains(),
                on_table == grain_sum(grains.take(i as int)),
                on_table <= 3 * i,
                forall|j: int| 0 <= j < i ==> (#[trigger] self.cells[j]).grains < CRITICAL,
                forall|j: int|
                    0 <= j < i ==> ((#[trigger] self.cells[j]).grains > 0 ==> self.cells[j].borged),
            decreases self.cells.len() - i,
        {
            let cell = self.cells[i];
            if cell.grains >= CRITICAL {
                return false;
            }
            if cell.grains > 0 && !cell.borged {
                return false;
            }
            proof {
                lemma_grain_sum_take(grains, i as int);
            }
            on_table = on_table + cell.grains as u128;
            i = i + 1;
        }
        proof {
            assert(grains.take(i as int) =~= grains);
        }
        self.total_grains as u128 == on_table + self.lost_grains as u128
    }
}

} // verus!
