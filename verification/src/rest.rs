//! Every pile comes to rest.
//!
//! Each grain is given a weight by where it lies, such that the four grains
//! of a toppling cell weigh less where they land than they did on the cell.
//! The weight of the pile then falls with every topple and cannot fall
//! below zero, so only so many topples can follow one another.

use crate::pile::{
    fire, fire_all, grain_sum, has_neighbor, legal, lemma_fire_all_len, neighbor, stabilizes,
    stable, unit,
};
use vstd::arithmetic::div_mod::lemma_small_mod;
use vstd::prelude::*;

verus! {

/// The weight of a grain at index `j`; it is positive on the lattice and one
/// row around it, and the four neighbours of a cell together weigh less
/// than four times the cell.
pub open spec fn weight(w: int, n: int, j: int) -> int {
    (n + w) * (n + w) - j * j
}

/// The weight of the grains that lie on the cells.
pub open spec fn lying_weight(w: int, n: int, g: Seq<int>) -> int
    decreases g.len(),
{
    if g.len() == 0 {
        0
    } else {
        lying_weight(w, n, g.drop_last()) + g.last() * weight(w, n, g.len() - 1)
    }
}

/// Cells without debt hold no less than nothing together.
pub proof fn lemma_grain_sum_nonnegative(g: Seq<int>)
    requires
        forall|i: int| 0 <= i < g.len() ==> g[i] >= 0,
    ensures
        grain_sum(g) >= 0,
    decreases g.len(),
{
    if g.len() > 0 {
        lemma_grain_sum_nonnegative(g.drop_last());
    }
}

/// Changing one cell changes the sum by as much.
pub proof fn lemma_grain_sum_update(g: Seq<int>, i: int, v: int)
    requires
        0 <= i < g.len(),
    ensures
        grain_sum(g.update(i, v)) == grain_sum(g) - g[i] + v,
    decreases g.len(),
{
    if i == g.len() - 1 {
        assert(g.update(i, v).drop_last() =~= g.drop_last());
    } else {
        assert(g.update(i, v).drop_last() =~= g.drop_last().update(i, v));
        lemma_grain_sum_update(g.drop_last(), i, v);
    }
}

/// Adding `delta` grains to one cell adds `delta` times its weight.
pub proof fn lemma_lying_weight_update(w: int, n: int, g: Seq<int>, i: int, delta: int)
    requires
        0 <= i < g.len(),
    ensures
        lying_weight(w, n, g.update(i, g[i] + delta)) == lying_weight(w, n, g) + delta * weight(
            w,
            n,
            i,
        ),
    decreases g.len(),
{
    let u = g.update(i, g[i] + delta);
    if i == g.len() - 1 {
        assert(u.drop_last() =~= g.drop_last());
        let x = weight(w, n, i);
        let a = g[i];
        assert((a + delta) * x == a * x + delta * x) by (nonlinear_arith);
    } else {
        assert(u.drop_last() =~= g.drop_last().update(i, g[i] + delta));
        lemma_lying_weight_update(w, n, g.drop_last(), i, delta);
    }
}

/// No index within one row of the lattice has a negative weight.
pub proof fn lemma_weight_nonnegative(w: int, n: int, j: int)
    requires
        0 <= w,
        0 <= n,
        -w <= j <= n + w,
    ensures
        weight(w, n, j) >= 0,
{
    assert((n + w) * (n + w) - j * j >= 0) by (nonlinear_arith)
        requires
            0 <= w,
            0 <= n,
            -w <= j <= n + w,
    ;
}

/// Grains on the lattice do not weigh less than nothing.
pub proof fn lemma_lying_weight_nonnegative(w: int, n: int, g: Seq<int>)
    requires
        0 <= w,
        g.len() <= n,
        forall|i: int| 0 <= i < g.len() ==> g[i] >= 0,
    ensures
        lying_weight(w, n, g) >= 0,
    decreases g.len(),
{
    if g.len() > 0 {
        lemma_lying_weight_nonnegative(w, n, g.drop_last());
        lemma_weight_nonnegative(w, n, g.len() - 1);
        let a = g.last();
        let x = weight(w, n, g.len() - 1);
        assert(a * x >= 0) by (nonlinear_arith)
            requires
                a >= 0,
                x >= 0,
        ;
    }
}

/// A neighbour that exists is a cell of the lattice.
pub proof fn lemma_neighbor_in_range(w: int, n: int, c: int, d: int)
    requires
        1 <= w,
        n % w == 0,
        0 <= c < n,
        0 <= d < 4,
        has_neighbor(w, n, c, d),
    ensures
        0 <= neighbor(w, c, d) < n,
{
    if d == 2 {
        if c == 0 {
            lemma_small_mod(0, w as nat);
        }
    }
}

/// One grain more on cell `i`, if `more` holds.
pub open spec fn bumped(g: Seq<int>, more: bool, i: int) -> Seq<int> {
    if more {
        g.update(i, g[i] + 1)
    } else {
        g
    }
}

/// A topple takes four grains off the pile and puts one back for each
/// neighbour that the cell has: this is what it does to the sum of the
/// grains and to their weight.
pub proof fn lemma_fire_sums(g: Seq<int>, w: int, c: int)
    requires
        1 <= w,
        g.len() % (w as nat) == 0,
        0 <= c < g.len(),
    ensures
        grain_sum(fire(g, w, c)) == grain_sum(g) - 4 + unit(has_neighbor(w, g.len() as int, c, 0))
            + unit(has_neighbor(w, g.len() as int, c, 1)) + unit(
            has_neighbor(w, g.len() as int, c, 2),
        ) + unit(has_neighbor(w, g.len() as int, c, 3)),
        lying_weight(w, g.len() as int, fire(g, w, c)) <= lying_weight(w, g.len() as int, g) - 4
            * weight(w, g.len() as int, c) + weight(w, g.len() as int, neighbor(w, c, 0)) + weight(
            w,
            g.len() as int,
            neighbor(w, c, 1),
        ) + weight(w, g.len() as int, neighbor(w, c, 2)) + weight(
            w,
            g.len() as int,
            neighbor(w, c, 3),
        ),
{
    let n = g.len() as int;
    let h0 = has_neighbor(w, n, c, 0);
    let h1 = has_neighbor(w, n, c, 1);
    let h2 = has_neighbor(w, n, c, 2);
    let h3 = has_neighbor(w, n, c, 3);
    if h0 {
        lemma_neighbor_in_range(w, n, c, 0);
    }
    if h1 {
        lemma_neighbor_in_range(w, n, c, 1);
    }
    if h2 {
        lemma_neighbor_in_range(w, n, c, 2);
    }
    if h3 {
        lemma_neighbor_in_range(w, n, c, 3);
    }
    let u0 = g.update(c, g[c] + (-4));
    let u1 = bumped(u0, h0, neighbor(w, c, 0));
    let u2 = bumped(u1, h1, neighbor(w, c, 1));
    let u3 = bumped(u2, h2, neighbor(w, c, 2));
    let u4 = bumped(u3, h3, neighbor(w, c, 3));
    assert(u4 =~= fire(g, w, c));
    lemma_grain_sum_update(g, c, g[c] + (-4));
    lemma_lying_weight_update(w, n, g, c, -4);
    lemma_weight_nonnegative(w, n, neighbor(w, c, 0));
    lemma_weight_nonnegative(w, n, neighbor(w, c, 1));
    lemma_weight_nonnegative(w, n, neighbor(w, c, 2));
    lemma_weight_nonnegative(w, n, neighbor(w, c, 3));
    if h0 {
        lemma_grain_sum_update(u0, neighbor(w, c, 0), u0[neighbor(w, c, 0)] + 1);
        lemma_lying_weight_update(w, n, u0, neighbor(w, c, 0), 1);
    }
    if h1 {
        lemma_grain_sum_update(u1, neighbor(w, c, 1), u1[neighbor(w, c, 1)] + 1);
        lemma_lying_weight_update(w, n, u1, neighbor(w, c, 1), 1);
    }
    if h2 {
        lemma_grain_sum_update(u2, neighbor(w, c, 2), u2[neighbor(w, c, 2)] + 1);
        lemma_lying_weight_update(w, n, u2, neighbor(w, c, 2), 1);
    }
    if h3 {
        lemma_grain_sum_update(u3, neighbor(w, c, 3), u3[neighbor(w, c, 3)] + 1);
        lemma_lying_weight_update(w, n, u3, neighbor(w, c, 3), 1);
    }
}

/// A topple makes the pile lighter.
pub proof fn lemma_fire_lightens(g: Seq<int>, w: int, c: int)
    requires
        1 <= w,
        g.len() % (w as nat) == 0,
        0 <= c < g.len(),
    ensures
        lying_weight(w, g.len() as int, fire(g, w, c)) < lying_weight(w, g.len() as int, g),
{
    lemma_fire_sums(g, w, c);
    assert((c - w) * (c - w) + (c + w) * (c + w) + (c - 1) * (c - 1) + (c + 1) * (c + 1) == 4 * (c
        * c) + 2 * (w * w) + 2) by (nonlinear_arith);
    assert(w * w >= 1) by (nonlinear_arith)
        requires
            1 <= w,
    ;
}

/// A legal order of topples never takes a cell below zero.
pub proof fn lemma_legal_nonnegative(g: Seq<int>, w: int, t: Seq<int>)
    requires
        legal(g, w, t),
        forall|i: int| 0 <= i < g.len() ==> g[i] >= 0,
    ensures
        fire_all(g, w, t).len() == g.len(),
        forall|i: int| 0 <= i < g.len() ==> fire_all(g, w, t)[i] >= 0,
    decreases t.len(),
{
    if t.len() > 0 {
        lemma_legal_nonnegative(g, w, t.drop_last());
    }
}

/// No topple adds a grain: after a legal order of topples the pile holds no
/// more than before.
pub proof fn lemma_mass_never_grows(g: Seq<int>, w: int, t: Seq<int>)
    requires
        1 <= w,
        g.len() % (w as nat) == 0,
        legal(g, w, t),
    ensures
        grain_sum(fire_all(g, w, t)) <= grain_sum(g),
    decreases t.len(),
{
    if t.len() > 0 {
        lemma_mass_never_grows(g, w, t.drop_last());
        lemma_fire_all_len(g, w, t.drop_last());
        lemma_fire_sums(fire_all(g, w, t.drop_last()), w, t.last());
    }
}

/// What one topple followed by an order of topples comes to.
pub proof fn lemma_fire_first(g: Seq<int>, w: int, c: int, t: Seq<int>)
    requires
        0 <= c < g.len(),
        g[c] >= 4,
        legal(fire(g, w, c), w, t),
    ensures
        legal(g, w, seq![c] + t),
        fire_all(g, w, seq![c] + t) == fire_all(fire(g, w, c), w, t),
    decreases t.len(),
{
    let whole = seq![c] + t;
    let next = fire(g, w, c);
    if t.len() == 0 {
        assert(whole.drop_last() =~= Seq::<int>::empty());
        assert(whole.last() == c);
        assert(legal(g, w, whole.drop_last()));
        assert(fire_all(g, w, whole.drop_last()) == g);
        assert(legal(g, w, whole));
    } else {
        lemma_fire_first(g, w, c, t.drop_last());
        assert(whole.drop_last() =~= seq![c] + t.drop_last());
        assert(whole.last() == t.last());
        assert(next.len() == g.len());
        assert(fire_all(g, w, whole.drop_last()) == fire_all(next, w, t.drop_last()));
        assert(fire_all(next, w, t.drop_last())[t.last()] >= 4);
        assert(legal(g, w, whole));
    }
}

/// Every pile comes to rest: whatever the cells hold, some legal order of
/// topples leaves no cell with four grains.
pub proof fn lemma_comes_to_rest(g: Seq<int>, w: int)
    requires
        1 <= w,
        g.len() % (w as nat) == 0,
        forall|i: int| 0 <= i < g.len() ==> g[i] >= 0,
    ensures
        exists|t: Seq<int>| stabilizes(g, w, t),
    decreases lying_weight(w, g.len() as int, g),
{
    if stable(g) {
        assert(stabilizes(g, w, Seq::<int>::empty()));
    } else {
        let c = choose|i: int| 0 <= i < g.len() && g[i] >= 4;
        let next = fire(g, w, c);
        lemma_fire_lightens(g, w, c);
        lemma_lying_weight_nonnegative(w, g.len() as int, next);
        lemma_comes_to_rest(next, w);
        let t = choose|t: Seq<int>| stabilizes(next, w, t);
        lemma_fire_first(g, w, c, t);
        assert(stabilizes(g, w, seq![c] + t));
    }
}

} // verus!
