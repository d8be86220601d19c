//! The sources: where grains are dropped, and whose turn it is.
//!
//! Up to [`MAX_DROPS`] cells can be sources at the same time. A tick drops
//! `interval` grains, one on each source in turn, in the order in which the
//! sources were registered.

use crate::model::{Model, State, MAX_DROPS};
use crate::pile::{grain_sum, stable};
use vstd::prelude::*;

verus! {

/// From this interval on a tick is not made longer.
pub const MAX_INTERVAL: usize = 16_384;

/// Why a cell was not taken as a source.
#[derive(Clone, Copy, Debug, PartialEq, Eq, Structural)]
pub enum SourceError {
    /// All [`MAX_DROPS`] sources are in use.
    CapacityExceeded,
    /// The index is not that of a cell of the table.
    OutsideTable,
}

impl State {
    /// The model with cell `index` as one more source, last in turn.
    pub open spec fn source_added(self, index: usize) -> State {
        State {
            drop_cells: self.drop_cells.update(self.active_cells as int, index),
            active_cells: self.active_cells + 1,
            ..self
        }
    }

    /// The cell of the source whose turn it is.
    pub open spec fn current_source(self) -> int {
        self.drop_cells[self.ac as int] as int
    }

    /// The turn goes to the next source, and after the last to the first.
    pub open spec fn turn_passed(self) -> State {
        State {
            ac: if self.ac + 1 < self.active_cells {
                self.ac + 1
            } else {
                0
            },
            ..self
        }
    }

    /// One grain is dropped on the source whose turn it is, and the turn
    /// passes on.
    pub open spec fn next_dropped(self) -> State {
        self.grain_dropped(self.current_source()).turn_passed()
    }

    /// The model after `k` grains have been dropped by the sources in turn.
    pub open spec fn after_drops(self, k: nat) -> State
        decreases k,
    {
        if k == 0 {
            self
        } else {
            self.after_drops((k - 1) as nat).next_dropped()
        }
    }

    /// The interval four times as long, unless it has reached
    /// [`MAX_INTERVAL`].
    pub open spec fn longer_interval(self) -> State {
        State {
            interval: if self.interval < MAX_INTERVAL {
                self.interval * 4
            } else {
                self.interval
            },
            ..self
        }
    }

    /// The interval a quarter as long, as long as it is above one grain.
    pub open spec fn shorter_interval(self) -> State {
        State {
            interval: if self.interval > 1 {
                self.interval / 4
            } else {
                self.interval
            },
            ..self
        }
    }

    /// What a tick makes of the model: `interval` grains dropped in turn,
    /// or nothing where there is no source.
    pub open spec fn ticked(self) -> State {
        if self.active_cells == 0 {
            self
        } else {
            self.after_drops(self.interval)
        }
    }
}

impl Model {
    /// Makes cell `index` a source, last in turn. Nothing changes if all
    /// sources are in use or if the table has no such cell.
    pub fn register_source(&mut self, index: usize) -> (done: Result<(), SourceError>)
        requires
            old(self).wf(),
        ensures
            final(self).wf(),
            match done {
                Ok(()) => {
                    &&& old(self).active_cells < MAX_DROPS
                    &&& index < old(self).cells.len()
                    &&& final(self)@ == old(self)@.source_added(index)
                },
                Err(SourceError::CapacityExceeded) => {
                    &&& old(self).active_cells == MAX_DROPS
                    &&& final(self)@ == old(self)@
                },
                Err(SourceError::OutsideTable) => {
                    &&& old(self).active_cells < MAX_DROPS
                    &&& index >= old(self).cells.len()
                    &&& final(self)@ == old(self)@
                },
            },
    {
        if self.active_cells >= MAX_DROPS {
            return Err(SourceError::CapacityExceeded);
        }
        if index >= self.cells.len() {
            return Err(SourceError::OutsideTable);
        }
        self.drop_cells[self.active_cells] = index;
        self.active_cells = self.active_cells + 1;
        Ok(())
    }

    /// Makes the ticks four times as long, up to 65536 grains.
    pub fn increase_interval(&mut self)
        ensures
            final(self)@ == old(self)@.longer_interval(),
            old(self).wf() ==> final(self).wf(),
    {
        if self.interval < MAX_INTERVAL {
            self.interval = self.interval * 4;
        }
    }

    /// Makes the ticks a quarter as long, down to one grain.
    pub fn decrease_interval(&mut self)
        ensures
            final(self)@ == old(self)@.shorter_interval(),
            old(self).wf() ==> final(self).wf(),
    {
        if self.interval > 1 {
            self.interval = self.interval / 4;
        }
    }

    /// The cell on which the next grain is to be dropped; the turn passes to
    /// the source after it. `None` where there is no source.
    pub fn next_source(&mut self) -> (next: Option<usize>)
        requires
            old(self).wf(),
        ensures
            final(self).wf(),
            match next {
                Some(cell) => {
                    &&& old(self).active_cells > 0
                    &&& cell == old(self)@.current_source()
                    &&& cell < old(self).cells.len()
                    &&& final(self)@ == old(self)@.turn_passed()
                },
                None => old(self).active_cells == 0 && final(self)@ == old(self)@,
            },
    {
        if self.active_cells == 0 {
            return None;
        }
        let cell = self.drop_cells[self.ac];
        if self.active_cells - 1 > self.ac {
            self.ac = self.ac + 1;
        } else {
            self.ac = 0;
        }
        Some(cell)
    }

    /// Drops `interval` grains, one on each source in turn, letting the pile
    /// come to rest after each. Without a source nothing is dropped.
    pub fn tick(&mut self)
        requires
            old(self).wf(),
            old(self).total_grains + old(self).interval <= usize::MAX,
        ensures
            final(self).wf(),
            final(self)@ == old(self)@.ticked(),
            stable(final(self).grains()),
            final(self).total_grains == grain_sum(final(self).grains()) + final(self).lost_grains,
    {
        proof {
            self@.lemma_wf_at_rest();
        }
        if self.active_cells == 0 {
            return ;
        }
        let ghost before = self@;
        let grains = self.interval;
        let mut dropped: usize = 0;
        while dropped < grains
            invariant
                self.wf(),
                dropped <= grains,
                grains == before.interval,
                before.active_cells > 0,
                before.total_grains + before.interval <= usize::MAX,
                self@ == before.after_drops(dropped as nat),
                self.total_grains == before.total_grains + dropped,
                self.active_cells == before.active_cells,
                self.interval == before.interval,
            decreases grains - dropped,
        {
            let ghost now = self@;
            match self.next_source() {
                Some(cell) => {
                    proof {
                        assert(self@.grain_dropped(cell as int) == now.grain_dropped(
                            cell as int,
                        ).turn_passed());
                    }
                    self.add_grain(cell);
                },
                None => {},
            }
            dropped = dropped + 1;
        }
    }
}

} // verus!
