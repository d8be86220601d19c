//! The order in which grains are dropped does not matter.
//!
//! A pile that has come to rest and then gets a grain ends where it would
//! have ended with the grain on it from the start. So two grains leave the
//! same cells behind, and the same grains lost, whichever is dropped first.

use crate::model::State;
use crate::pile::{
    fire_all, grain_sum, legal, lemma_fire_all_len, lemma_stabilized_by, received, relaxation,
    stabilized, stabilizes, topples,
};
use crate::rest::{lemma_comes_to_rest, lemma_legal_nonnegative};
use crate::topple::with_grain;
use vstd::arithmetic::div_mod::lemma_mod_multiples_basic;
use vstd::prelude::*;
use vstd::seq_lib::lemma_multiset_commutative;

verus! {

/// An order of topples that is legal stays legal where cells hold more, and
/// leaves every cell as much more as it held.
pub proof fn lemma_legal_with_more(g: Seq<int>, more: Seq<int>, w: int, t: Seq<int>)
    requires
        g.len() == more.len(),
        forall|i: int| 0 <= i < g.len() ==> more[i] >= g[i],
        legal(g, w, t),
    ensures
        legal(more, w, t),
        fire_all(more, w, t).len() == g.len(),
        fire_all(g, w, t).len() == g.len(),
        forall|i: int|
            0 <= i < g.len() ==> #[trigger] fire_all(more, w, t)[i] == fire_all(g, w, t)[i]
                + more[i] - g[i],
    decreases t.len(),
{
    if t.len() > 0 {
        lemma_legal_with_more(g, more, w, t.drop_last());
    }
}

/// Two legal orders of topples, one after the other, are one legal order.
pub proof fn lemma_legal_concat(g: Seq<int>, w: int, a: Seq<int>, b: Seq<int>)
    requires
        legal(g, w, a),
        legal(fire_all(g, w, a), w, b),
    ensures
        legal(g, w, a + b),
        fire_all(g, w, a + b) == fire_all(fire_all(g, w, a), w, b),
    decreases b.len(),
{
    lemma_fire_all_len(g, w, a);
    if b.len() == 0 {
        assert(a + b =~= a);
    } else {
        lemma_legal_concat(g, w, a, b.drop_last());
        assert((a + b).drop_last() =~= a + b.drop_last());
        assert((a + b).last() == b.last());
    }
}

/// A grain on a pile that has come to rest leads where the grain would have
/// led on the pile as it was: to the same pile at rest, by the topples of
/// both avalanches together.
pub proof fn lemma_rest_then_grain(g: Seq<int>, w: int, c: int)
    requires
        1 <= w,
        g.len() % (w as nat) == 0,
        forall|i: int| 0 <= i < g.len() ==> g[i] >= 0,
        0 <= c < g.len(),
    ensures
        stabilized(with_grain(stabilized(g, w), c), w) == stabilized(with_grain(g, c), w),
        topples(with_grain(g, c), w) == topples(g, w).add(
            topples(with_grain(stabilized(g, w), c), w),
        ),
        stabilizes(with_grain(g, c), w, relaxation(with_grain(g, c), w)),
{
    lemma_comes_to_rest(g, w);
    let first = relaxation(g, w);
    let rested = stabilized(g, w);
    lemma_legal_nonnegative(g, w, first);
    let loaded = with_grain(g, c);
    let reloaded = with_grain(rested, c);
    lemma_legal_with_more(g, loaded, w, first);
    assert(fire_all(loaded, w, first) =~= reloaded);
    lemma_comes_to_rest(reloaded, w);
    let second = relaxation(reloaded, w);
    lemma_legal_concat(loaded, w, first, second);
    lemma_stabilized_by(loaded, w, first + second);
    lemma_multiset_commutative(first, second);
}

impl State {
    /// What two grains, dropped one after the other, leave behind: the
    /// cells hold what the pile with both grains comes to rest at, a cell
    /// counts as reached if it was so before, if one of the grains was
    /// dropped on it, or if a topple on the way sent it a grain.
    pub proof fn lemma_two_drops(self, a: int, b: int)
        requires
            self.wf(),
            0 <= a < self.cells.len(),
            0 <= b < self.cells.len(),
        ensures
            ({
                let both = with_grain(with_grain(self.grains(), a), b);
                let after = self.grain_dropped(a).grain_dropped(b);
                &&& after.wf()
                &&& after.cells.len() == self.cells.len()
                &&& after.grains() == stabilized(both, self.width as int)
                &&& after.total_grains == self.total_grains + 2
                &&& after.total_grains == grain_sum(after.grains()) + after.lost_grains
                &&& forall|i: int|
                    0 <= i < self.cells.len() ==> (#[trigger] after.cells[i]).borged == (
                    self.cells[i].borged || i == a || i == b || received(
                        self.width as int,
                        self.cells.len() as int,
                        topples(both, self.width as int),
                        i,
                    ) > 0)
            }),
    {
        let w = self.width as int;
        let n = self.cells.len() as int;
        let one = self.loaded(a);
        let both = with_grain(one, b);
        let first = self.grain_dropped(a);
        let after = first.grain_dropped(b);
        lemma_mod_multiples_basic(self.height as int, w);
        vstd::arithmetic::mul::lemma_mul_is_commutative(w, self.height as int);
        self.lemma_grain_dropped(a);
        first.lemma_grain_dropped(b);
        assert forall|i: int| 0 <= i < one.len() implies one[i] >= 0 by {
            assert(self.cells[i].grains >= 0);
        }
        lemma_rest_then_grain(one, w, b);
        let t1 = topples(one, w);
        let t2 = topples(with_grain(stabilized(one, w), b), w);
        assert forall|i: int| 0 <= i < n implies (#[trigger] after.cells[i]).borged == (
        self.cells[i].borged || i == a || i == b || received(w, n, topples(both, w), i) > 0) by {
            assert(received(w, n, t1.add(t2), i) == received(w, n, t1, i) + received(w, n, t2, i));
            assert(received(w, n, t1, i) >= 0);
            assert(received(w, n, t2, i) >= 0);
            assert(first.cells[i].borged == (self.cells[i].borged || i == a || received(
                w,
                n,
                t1,
                i,
            ) > 0));
        }
    }

    /// Two grains leave the same cells behind, and the same grains on the
    /// table and lost, whichever of them is dropped first.
    pub proof fn lemma_drops_commute(self, a: int, b: int)
        requires
            self.wf(),
            0 <= a < self.cells.len(),
            0 <= b < self.cells.len(),
        ensures
            self.grain_dropped(a).grain_dropped(b).cells == self.grain_dropped(b).grain_dropped(
                a,
            ).cells,
            self.grain_dropped(a).grain_dropped(b).total_grains == self.grain_dropped(
                b,
            ).grain_dropped(a).total_grains,
            self.grain_dropped(a).grain_dropped(b).lost_grains == self.grain_dropped(
                b,
            ).grain_dropped(a).lost_grains,
    {
        let g = self.grains();
        let ab = self.grain_dropped(a).grain_dropped(b);
        let ba = self.grain_dropped(b).grain_dropped(a);
        self.lemma_two_drops(a, b);
        self.lemma_two_drops(b, a);
        assert(with_grain(with_grain(g, a), b) =~= with_grain(with_grain(g, b), a));
        assert(ab.cells =~= ba.cells) by {
            assert forall|i: int| 0 <= i < self.cells.len() implies ab.cells[i] == ba.cells[i] by {
                assert(ab.grains()[i] == ba.grains()[i]);
                assert(ab.cells[i].borged == ba.cells[i].borged);
            }
        }
    }
}

} // verus!
