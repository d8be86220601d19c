//! The chip-firing rules of the sandpile, stated over plain grain counts.
//!
//! A lattice of `n` cells in rows of `w` is a sequence of `n` integers, cell
//! `c` sitting in row `c / w` and column `c % w`. A cell holding four or more
//! grains may topple: it loses four grains and hands one to each neighbour
//! that exists; grains sent over the edge are gone. The central fact proved
//! here is that it does not matter in which order unstable cells topple:
//! every order that ends in a stable lattice topples each cell equally often
//! and ends in the same lattice.

use vstd::multiset::Multiset;
use vstd::prelude::*;
use vstd::seq_lib::to_multiset_build;

verus! {

/// Does cell `c` have a neighbour in direction `d`?
/// Directions are numbered in firing order: 0 up, 1 down, 2 left, 3 right.
pub open spec fn has_neighbor(w: int, n: int, c: int, d: int) -> bool {
    if d == 0 {
        c >= w
    } else if d == 1 {
        c + w < n
    } else if d == 2 {
        c % w != 0
    } else {
        (c + 1) % w != 0
    }
}

/// The index that lies next to `c` in direction `d`.
pub open spec fn neighbor(w: int, c: int, d: int) -> int {
    if d == 0 {
        c - w
    } else if d == 1 {
        c + w
    } else if d == 2 {
        c - 1
    } else {
        c + 1
    }
}

/// A topple of `c` sends a grain to `i` in direction `d`.
pub open spec fn sends(w: int, n: int, c: int, d: int, i: int) -> bool {
    has_neighbor(w, n, c, d) && neighbor(w, c, d) == i
}

/// One if `b` holds, and zero if not.
pub open spec fn unit(b: bool) -> int {
    if b {
        1
    } else {
        0
    }
}

/// Grains that cell `i` gets from one topple of cell `c`.
pub open spec fn inflow(w: int, n: int, c: int, i: int) -> int {
    unit(sends(w, n, c, 0, i)) + unit(sends(w, n, c, 1, i)) + unit(sends(w, n, c, 2, i)) + unit(
        sends(w, n, c, 3, i),
    )
}

/// The lattice after cell `c` has toppled once.
pub open spec fn fire(g: Seq<int>, w: int, c: int) -> Seq<int> {
    Seq::new(
        g.len(),
        |i: int| g[i] - (if i == c { 4int } else { 0int }) + inflow(w, g.len() as int, c, i),
    )
}

/// The lattice after the cells of `t` have toppled, first to last.
pub open spec fn fire_all(g: Seq<int>, w: int, t: Seq<int>) -> Seq<int>
    decreases t.len(),
{
    if t.len() == 0 {
        g
    } else {
        fire(fire_all(g, w, t.drop_last()), w, t.last())
    }
}

/// Every topple of `t` happens at a cell of the lattice that holds at least
/// four grains at that moment.
pub open spec fn legal(g: Seq<int>, w: int, t: Seq<int>) -> bool
    decreases t.len(),
{
    t.len() == 0 || {
        &&& legal(g, w, t.drop_last())
        &&& 0 <= t.last() < g.len()
        &&& fire_all(g, w, t.drop_last())[t.last()] >= 4
    }
}

/// No cell can topple.
pub open spec fn stable(g: Seq<int>) -> bool {
    forall|i: int| 0 <= i < g.len() ==> g[i] < 4
}

/// `t` is a legal order of topples that leaves the lattice stable.
pub open spec fn stabilizes(g: Seq<int>, w: int, t: Seq<int>) -> bool {
    legal(g, w, t) && stable(fire_all(g, w, t))
}

/// Some order of topples that stabilizes `g`, if there is one.
pub open spec fn relaxation(g: Seq<int>, w: int) -> Seq<int> {
    choose|t: Seq<int>| stabilizes(g, w, t)
}

/// The stable lattice that `g` topples down to.
pub open spec fn stabilized(g: Seq<int>, w: int) -> Seq<int> {
    fire_all(g, w, relaxation(g, w))
}

/// How often each cell topples while `g` stabilizes.
pub open spec fn topples(g: Seq<int>, w: int) -> Multiset<int> {
    relaxation(g, w).to_multiset()
}

/// The number of topples it takes to stabilize `g`.
pub open spec fn avalanche_size(g: Seq<int>, w: int) -> nat {
    relaxation(g, w).len()
}

/// Grains that cell `i` gets when the cells of `m` topple: one for each
/// topple of each of its neighbours.
pub open spec fn received(w: int, n: int, m: Multiset<int>, i: int) -> int {
    (if has_neighbor(w, n, i, 0) { m.count(neighbor(w, i, 0)) as int } else { 0 })
    + (if has_neighbor(w, n, i, 1) { m.count(neighbor(w, i, 1)) as int } else { 0 })
    + (if has_neighbor(w, n, i, 2) { m.count(neighbor(w, i, 2)) as int } else { 0 })
    + (if has_neighbor(w, n, i, 3) { m.count(neighbor(w, i, 3)) as int } else { 0 })
}

/// The sum of all grain counts.
pub open spec fn grain_sum(g: Seq<int>) -> int
    decreases g.len(),
{
    if g.len() == 0 {
        0
    } else {
        grain_sum(g.drop_last()) + g.last()
    }
}

/// Toppling keeps the number of cells.
pub proof fn lemma_fire_all_len(g: Seq<int>, w: int, t: Seq<int>)
    ensures
        fire_all(g, w, t).len() == g.len(),
    decreases t.len(),
{
    if t.len() > 0 {
        lemma_fire_all_len(g, w, t.drop_last());
    }
}

/// One more topple at the end of a legal order.
pub proof fn lemma_legal_push(g: Seq<int>, w: int, t: Seq<int>, c: int)
    requires
        legal(g, w, t),
        0 <= c < g.len(),
        fire_all(g, w, t)[c] >= 4,
    ensures
        legal(g, w, t.push(c)),
        fire_all(g, w, t.push(c)) == fire(fire_all(g, w, t), w, c),
{
    assert(t.push(c).drop_last() =~= t);
}

/// One more topple of `c` brings every neighbour of `c` one more grain.
pub proof fn lemma_received_push(w: int, n: int, t: Seq<int>, c: int, i: int)
    requires
        0 <= c < n,
        0 <= i < n,
    ensures
        t.push(c).to_multiset().count(i) == t.to_multiset().count(i) + unit(c == i),
        received(w, n, t.push(c).to_multiset(), i) == received(w, n, t.to_multiset(), i) + inflow(
            w,
            n,
            c,
            i,
        ),
{
    to_multiset_build(t, c);
    let mp = t.to_multiset();
    let mt = t.push(c).to_multiset();
    assert(mt.count(i) == mp.count(i) + unit(c == i));
    assert(mt.count(i - w) == mp.count(i - w) + unit(c == i - w));
    assert(mt.count(i + w) == mp.count(i + w) + unit(c == i + w));
    assert(mt.count(i - 1) == mp.count(i - 1) + unit(c == i - 1));
    assert(mt.count(i + 1) == mp.count(i + 1) + unit(c == i + 1));
    // A grain sent one way arrives from the opposite side.
    assert(sends(w, n, c, 0, i) == (has_neighbor(w, n, i, 1) && neighbor(w, i, 1) == c));
    assert(sends(w, n, c, 1, i) == (has_neighbor(w, n, i, 0) && neighbor(w, i, 0) == c));
    assert(sends(w, n, c, 2, i) == (has_neighbor(w, n, i, 3) && neighbor(w, i, 3) == c));
    assert(sends(w, n, c, 3, i) == (has_neighbor(w, n, i, 2) && neighbor(w, i, 2) == c));
}

/// What a legal order of topples leaves in each cell depends only on how
/// often each cell toppled: a cell loses four grains for each topple of its
/// own and gains one for each topple of a neighbour.
pub proof fn lemma_fire_all_by_counts(g: Seq<int>, w: int, t: Seq<int>, i: int)
    requires
        legal(g, w, t),
        0 <= i < g.len(),
    ensures
        fire_all(g, w, t)[i] == g[i] - 4 * t.to_multiset().count(i) + received(
            w,
            g.len() as int,
            t.to_multiset(),
            i,
        ),
    decreases t.len(),
{
    if t.len() == 0 {
        assert(t.to_multiset().len() == 0) by {
            t.to_multiset_ensures();
        }
    } else {
        let p = t.drop_last();
        lemma_fire_all_by_counts(g, w, p, i);
        lemma_fire_all_len(g, w, p);
        assert(t =~= p.push(t.last()));
        lemma_received_push(w, g.len() as int, p, t.last(), i);
    }
}

/// Least action: a legal order of topples never topples any cell more often
/// than an order that reaches a stable lattice.
pub proof fn lemma_least_action(g: Seq<int>, w: int, a: Seq<int>, b: Seq<int>, c: int)
    requires
        stabilizes(g, w, a),
        legal(g, w, b),
    ensures
        b.to_multiset().count(c) <= a.to_multiset().count(c),
    decreases b.len(),
{
    let n = g.len() as int;
    if b.len() == 0 {
        assert(b.to_multiset().len() == 0) by {
            b.to_multiset_ensures();
        }
    } else {
        let p = b.drop_last();
        let x = b.last();
        lemma_least_action(g, w, a, p, c);
        assert(b =~= p.push(x));
        to_multiset_build(p, x);
        if c == x && p.to_multiset().count(x) >= a.to_multiset().count(x) {
            // Then `x` holds at least as much after `a` as before its topple
            // in `b`, so `a` would leave it unstable.
            lemma_least_action(g, w, a, p, x - w);
            lemma_least_action(g, w, a, p, x + w);
            lemma_least_action(g, w, a, p, x - 1);
            lemma_least_action(g, w, a, p, x + 1);
            lemma_fire_all_by_counts(g, w, a, x);
            lemma_fire_all_by_counts(g, w, p, x);
            lemma_fire_all_len(g, w, a);
            assert(fire_all(g, w, a)[x] >= fire_all(g, w, p)[x]);
            assert(false);
        }
    }
}

/// The order of topples does not matter: two legal orders that both reach a
/// stable lattice topple every cell equally often, are equally long and
/// reach the same lattice.
pub proof fn lemma_stabilization_unique(g: Seq<int>, w: int, a: Seq<int>, b: Seq<int>)
    requires
        stabilizes(g, w, a),
        stabilizes(g, w, b),
    ensures
        a.to_multiset() == b.to_multiset(),
        a.len() == b.len(),
        fire_all(g, w, a) == fire_all(g, w, b),
{
    assert forall|c: int| a.to_multiset().count(c) == b.to_multiset().count(c) by {
        lemma_least_action(g, w, a, b, c);
        lemma_least_action(g, w, b, a, c);
    }
    assert(a.to_multiset() =~= b.to_multiset());
    a.to_multiset_ensures();
    b.to_multiset_ensures();
    lemma_fire_all_len(g, w, a);
    lemma_fire_all_len(g, w, b);
    assert forall|i: int| 0 <= i < g.len() implies fire_all(g, w, a)[i] == fire_all(g, w, b)[i] by {
        lemma_fire_all_by_counts(g, w, a, i);
        lemma_fire_all_by_counts(g, w, b, i);
    }
    assert(fire_all(g, w, a) =~= fire_all(g, w, b));
}

/// Any one stabilizing order tells what `g` stabilizes to.
pub proof fn lemma_stabilized_by(g: Seq<int>, w: int, t: Seq<int>)
    requires
        stabilizes(g, w, t),
    ensures
        stabilizes(g, w, relaxation(g, w)),
        stabilized(g, w) == fire_all(g, w, t),
        topples(g, w) == t.to_multiset(),
        avalanche_size(g, w) == t.len(),
{
    lemma_stabilization_unique(g, w, relaxation(g, w), t);
}

/// A stable lattice stays as it is.
pub proof fn lemma_stable_is_stabilized(g: Seq<int>, w: int)
    requires
        stable(g),
    ensures
        stabilized(g, w) == g,
        avalanche_size(g, w) == 0,
{
    lemma_stabilized_by(g, w, Seq::empty());
}

} // verus!
