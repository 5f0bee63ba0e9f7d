//! Connected components of the solid field.
//!
//! Two solid cells belong to one body when a chain of face neighbours joins
//! them. Contact at a corner alone is no contact: no flux crosses a corner.

use vstd::prelude::*;
use vstd::multiset::*;
use vstd::seq_lib::*;
use crate::field::SolidField;
use crate::grid;

verus! {

/// The label of fluid cells.
pub const FLUID: usize = usize::MAX;

/// A chain of solid cells, each a face neighbour of the one before it.
pub open spec fn is_chain(field: &SolidField, p: Seq<int>) -> bool {
    &&& p.len() > 0
    &&& forall|s: int|
        0 <= s < p.len() ==> 0 <= #[trigger] p[s] < field.grid.cells() && field.solid(p[s])
    &&& forall|s: int, t: int|
        0 <= s && t == s + 1 && t < p.len() ==> touching(field, #[trigger] p[s], #[trigger] p[t])
}

/// Two interior cells of the field's grid share a face.
pub open spec fn touching(field: &SolidField, i: int, j: int) -> bool {
    grid::adjacent(field.grid.nz as int, field.grid.nr as int, i, j)
}

/// The chain leads from `i` to `j`.
pub open spec fn joins(field: &SolidField, p: Seq<int>, i: int, j: int) -> bool {
    is_chain(field, p) && p[0] == i && p.last() == j
}

/// A chain of solid cells leads from `i` to `j`.
pub open spec fn connected(field: &SolidField, i: int, j: int) -> bool {
    exists|p: Seq<int>| joins(field, p, i, j)
}

/// An interior position that is solid.
pub open spec fn solid_cell(field: &SolidField, i: int) -> bool {
    0 <= i < field.grid.cells() && field.solid(i)
}

/// How many cells carry the label `b`.
pub open spec fn tally(label: Seq<usize>, b: usize) -> nat {
    label.to_multiset().count(b)
}

proof fn lemma_touching_symmetric(field: &SolidField, i: int, j: int)
    requires
        field.wf(),
        0 <= i < field.grid.cells(),
        touching(field, i, j),
    ensures
        touching(field, j, i),
        0 <= j < field.grid.cells(),
        i != j,
{
    let nz = field.grid.nz as int;
    let nr = field.grid.nr as int;
    let d = choose|d: int| 0 <= d < 4 && #[trigger] grid::neighbour(nz, nr, i, d) == Some(j);
    grid::law_neighbour_is_mutual(nz, nr, i, d);
}

proof fn lemma_connected_self(field: &SolidField, i: int)
    requires
        solid_cell(field, i),
    ensures
        connected(field, i, i),
{
    assert(joins(field, seq![i], i, i));
}

proof fn lemma_connected_step(field: &SolidField, i: int, j: int, k: int)
    requires
        connected(field, i, j),
        touching(field, j, k),
        solid_cell(field, k),
    ensures
        connected(field, i, k),
{
    let p = choose|p: Seq<int>| joins(field, p, i, j);
    let q = p.push(k);
    assert forall|s: int, t: int| 0 <= s && t == s + 1 && t < q.len() implies touching(
        field,
        #[trigger] q[s],
        #[trigger] q[t],
    ) by {
        if t < p.len() {
            assert(touching(field, p[s], p[t]));
        } else {
            assert(q[s] == p.last());
        }
    }
    assert(joins(field, q, i, k));
}

/// Being connected is symmetric.
pub proof fn law_connected_symmetric(field: &SolidField, i: int, j: int)
    requires
        field.wf(),
        connected(field, i, j),
    ensures
        connected(field, j, i),
{
    let p = choose|p: Seq<int>| joins(field, p, i, j);
    let q = p.reverse();
    assert forall|s: int| 0 <= s < q.len() implies 0 <= #[trigger] q[s] < field.grid.cells()
        && field.solid(q[s]) by {
        assert(q[s] == p[p.len() - 1 - s]);
    }
    assert forall|s: int, t: int| 0 <= s && t == s + 1 && t < q.len() implies touching(
        field,
        #[trigger] q[s],
        #[trigger] q[t],
    ) by {
        let a = p.len() - 1 - t;
        let b = p.len() - 1 - s;
        assert(touching(field, p[a], p[b]));
        lemma_touching_symmetric(field, p[a], p[b]);
    }
    assert(joins(field, q, j, i));
}

/// Being connected is transitive.
pub proof fn law_connected_transitive(field: &SolidField, i: int, j: int, k: int)
    requires
        connected(field, i, j),
        connected(field, j, k),
    ensures
        connected(field, i, k),
{
    let p = choose|p: Seq<int>| joins(field, p, i, j);
    let q = choose|q: Seq<int>| joins(field, q, j, k);
    let r = p + q.subrange(1, q.len() as int);
    assert forall|s: int| 0 <= s < r.len() implies 0 <= #[trigger] r[s] < field.grid.cells()
        && field.solid(r[s]) by {
        if s < p.len() {
            assert(r[s] == p[s]);
        } else {
            assert(r[s] == q[s - p.len() + 1]);
        }
    }
    assert forall|s: int, t: int| 0 <= s && t == s + 1 && t < r.len() implies touching(
        field,
        #[trigger] r[s],
        #[trigger] r[t],
    ) by {
        if t < p.len() {
            assert(touching(field, p[s], p[t]));
        } else {
            let b = t - p.len() + 1;
            let a = b - 1;
            assert(r[s] == q[a]);
            assert(r[t] == q[b]);
            assert(touching(field, q[a], q[b]));
        }
    }
    assert(r.last() == k) by {
        if q.len() == 1 {
            assert(r.last() == p.last());
        }
    }
    assert(joins(field, r, i, k));
}

/// Labelled cells are solid, and a labelled cell's solid neighbours carry its label.
pub open spec fn spread(field: &SolidField, label: Seq<usize>) -> bool {
    &&& label.len() == field.grid.cells()
    &&& forall|i: int| 0 <= i < label.len() && #[trigger] label[i] != FLUID ==> field.solid(i)
    &&& forall|i: int, j: int|
        0 <= i < label.len() && label[i] != FLUID && solid_cell(field, j) && #[trigger] touching(
            field,
            i,
            j,
        ) ==> label[j] == label[i]
}

/// Labels `seed` and everything connected to it with `id`, and counts the cells.
fn flood(field: &SolidField, label: &mut Vec<usize>, seed: usize, id: usize) -> (count: usize)
    requires
        field.wf(),
        spread(field, old(label)@),
        solid_cell(field, seed as int),
        old(label)[seed as int] == FLUID,
        id < FLUID,
        forall|i: int| 0 <= i < old(label).len() ==> #[trigger] old(label)[i] != id,
    ensures
        spread(field, final(label)@),
        final(label)[seed as int] == id,
        forall|i: int|
            0 <= i < final(label).len() ==> #[trigger] final(label)[i] == old(label)[i] || (
            final(label)[i] == id && old(label)[i] == FLUID && connected(field, seed as int, i)),
        count == tally(final(label)@, id),
        forall|b: usize| b != id && b != FLUID ==> tally(final(label)@, b) == tally(old(label)@, b),
{
    broadcast use group_to_multiset_ensures;

    let g = &field.grid;
    let ghost before = label@;
    assert(tally(before, id) == 0) by {
        if before.to_multiset().count(id) > 0 {
            assert(before.contains(id));
        }
    }
    label.set(seed, id);
    let mut queue: Vec<usize> = Vec::new();
    queue.push(seed);
    let mut count: usize = 0;
    proof {
        lemma_connected_self(field, seed as int);
        assert(queue@[0] == seed);
        assert forall|i: int, j: int|
            0 <= i < label.len() && label@[i] != FLUID && !(label@[i] == id && queue@.contains(
                i as usize,
            )) && solid_cell(field, j) && #[trigger] touching(field, i, j) implies label@[j]
            == label@[i] by {
            if j == seed {
                assert(before[j] == before[i]);
            }
        }
    }
    while queue.len() > 0
        invariant
            g == &field.grid,
            field.wf(),
            spread(field, before),
            solid_cell(field, seed as int),
            before[seed as int] == FLUID,
            id < FLUID,
            forall|i: int| 0 <= i < before.len() ==> #[trigger] before[i] != id,
            label.len() == before.len(),
            label[seed as int] == id,
            forall|i: int|
                0 <= i < label.len() ==> #[trigger] label[i] == before[i] || (label[i] == id
                    && before[i] == FLUID && field.solid(i) && connected(field, seed as int, i)),
            forall|s: int|
                0 <= s < queue.len() ==> #[trigger] queue[s] < label.len() && label[queue[s] as int]
                    == id,
            forall|i: int, j: int|
                0 <= i < label.len() && label[i] != FLUID && !(label[i] == id && queue@.contains(
                    i as usize,
                )) && solid_cell(field, j) && #[trigger] touching(field, i, j) ==> label[j]
                    == label[i],
            count + queue.len() == tally(label@, id),
            forall|b: usize| b != id && b != FLUID ==> tally(label@, b) == tally(before, b),
        decreases tally(label@, FLUID), queue.len(),
    {
        broadcast use group_to_multiset_ensures;

        let ghost pending = queue@;
        let ghost fluid_before = tally(label@, FLUID);
        let cur: usize = queue[queue.len() - 1];
        queue.pop();
        proof {
            assert forall|x: usize| pending.contains(x) implies x == cur || queue@.contains(x) by {
                let s = choose|s: int| 0 <= s < pending.len() && pending[s] == x;
                if s < pending.len() - 1 {
                    assert(queue@[s] == x);
                }
            }
            assert(tally(label@, id) <= label@.len()) by {
                label@.to_multiset_ensures();
            }
        }
        count = count + 1;
        let mut d: usize = 0;
        while d < 4
            invariant
                g == &field.grid,
                field.wf(),
                d <= 4,
                spread(field, before),
                id < FLUID,
                forall|i: int| 0 <= i < before.len() ==> #[trigger] before[i] != id,
                label.len() == before.len(),
                label[seed as int] == id,
                cur < label.len(),
                label[cur as int] == id,
                forall|i: int|
                    0 <= i < label.len() ==> #[trigger] label[i] == before[i] || (label[i] == id
                        && before[i] == FLUID && field.solid(i) && connected(
                        field,
                        seed as int,
                        i,
                    )),
                forall|s: int|
                    0 <= s < queue.len() ==> #[trigger] queue[s] < label.len()
                        && label[queue[s] as int] == id,
                forall|i: int, j: int|
                    0 <= i < label.len() && i != cur && label[i] != FLUID && !(label[i] == id
                        && queue@.contains(i as usize)) && solid_cell(field, j)
                        && #[trigger] touching(field, i, j) ==> label[j] == label[i],
                forall|e: int|
                    0 <= e < d ==> match #[trigger] grid::neighbour(
                        g.nz as int,
                        g.nr as int,
                        cur as int,
                        e,
                    ) {
                        Some(j) => solid_cell(field, j) ==> label[j] == id,
                        None => true,
                    },
                count + queue.len() == tally(label@, id),
                forall|b: usize| b != id && b != FLUID ==> tally(label@, b) == tally(before, b),
                tally(label@, FLUID) <= fluid_before,
                tally(label@, FLUID) == fluid_before ==> queue.len() < pending.len(),
            decreases 4 - d,
        {
            broadcast use group_to_multiset_ensures;

            match g.neighbour(cur, d) {
                Some(j) => {
                    if field.is_solid(j) && label[j] == FLUID {
                        let ghost was = label@;
                        let ghost was_queue = queue@;
                        proof {
                            lemma_connected_step(field, seed as int, cur as int, j as int);
                            assert forall|i: int|
                                0 <= i < was.len() && was[i] != FLUID && i != cur && touching(
                                    field,
                                    i,
                                    j as int,
                                ) implies was_queue.contains(i as usize) && was[i] == id by {
                                if !(was[i] == id && was_queue.contains(i as usize)) {
                                    assert(was[j as int] == was[i]);
                                }
                            }
                        }
                        label.set(j, id);
                        queue.push(j);
                        proof {
                            assert(queue@.last() == j);
                            assert forall|x: usize| was_queue.contains(x) implies queue@.contains(
                                x,
                            ) by {
                                let s = choose|s: int|
                                    0 <= s < was_queue.len() && was_queue[s] == x;
                                assert(queue@[s] == x);
                            }
                            assert(queue@[queue@.len() - 1] == j);
                            assert(queue@.contains(j));
                        }
                    } else {
                        proof {
                            if field.solid(j as int) {
                                assert(label@[j as int] == id) by {
                                    if label@[j as int] != id {
                                        lemma_touching_symmetric(field, cur as int, j as int);
                                        assert(touching(field, j as int, cur as int));
                                        assert(label@[j as int] == before[j as int]);
                                    }
                                }
                            }
                        }
                    }
                },
                None => {},
            }
            d = d + 1;
        }
    }
    proof {
        assert(forall|x: usize| !queue@.contains(x));
    }
    count
}

/// The solid cells of a field, told apart by body.
#[derive(Debug, Clone)]
pub struct Bodies {
    pub label: Vec<usize>,
    pub counts: Vec<usize>,
}

impl Bodies {
    /// The labelling is that of the connected components of `field`: fluid cells
    /// carry no body, two solid cells carry the same body exactly when they are
    /// connected, the counts are cell counts, and a body is numbered only after
    /// its predecessor has appeared in row-major order.
    pub open spec fn labels(&self, field: &SolidField) -> bool {
        &&& self.label.len() == field.grid.cells()
        &&& self.counts.len() < FLUID
        &&& forall|i: int|
            0 <= i < self.label.len() ==> (#[trigger] self.label[i] == FLUID <==> !field.solid(i))
        &&& forall|i: int|
            0 <= i < self.label.len() && field.solid(i) ==> #[trigger] self.label[i]
                < self.counts.len()
        &&& forall|i: int, j: int|
            #![trigger self.label[i], self.label[j]]
            #![trigger connected(field, i, j)]
            solid_cell(field, i) && solid_cell(field, j) ==> (self.label[i] == self.label[j]
                <==> connected(field, i, j))
        &&& forall|b: int|
            0 <= b < self.counts.len() ==> #[trigger] self.counts[b] == tally(
                self.label@,
                b as usize,
            ) && self.counts[b] >= 1
        &&& forall|i: int|
            solid_cell(field, i) && 0 < #[trigger] self.label[i] ==> exists|j: int|
                0 <= j < i && #[trigger] self.label[j] == self.label[i] - 1
    }

    /// Number of disconnected bodies.
    pub fn count(&self) -> (r: usize)
        ensures
            r == self.counts.len(),
    {
        self.counts.len()
    }

    /// Body of an interior cell, or `None` if the cell is fluid.
    pub fn label(&self, idx: usize) -> (r: Option<usize>)
        requires
            idx < self.label.len(),
        ensures
            r == (if self.label[idx as int] == FLUID {
                None
            } else {
                Some(self.label[idx as int])
            }),
    {
        if self.label[idx] == FLUID {
            None
        } else {
            Some(self.label[idx])
        }
    }

    /// Cell count of a body; zero when there is no such body.
    pub fn cells(&self, body: usize) -> (r: usize)
        ensures
            r == (if body < self.counts.len() {
                self.counts[body as int] as int
            } else {
                0
            }),
    {
        if body < self.counts.len() {
            self.counts[body]
        } else {
            0
        }
    }

    /// Predicate for one body, ready to hand to a force integral.
    pub fn selector(&self, body: usize) -> (f: impl Fn(usize) -> bool + '_)
        ensures
            forall|idx: usize| idx < self.label.len() ==> #[trigger] call_requires(f, (idx,)),
            forall|idx: usize, b: bool|
                #[trigger] call_ensures(f, (idx,), b) ==> b == (self.label[idx as int] == body),
    {
        move |idx: usize| -> (b: bool)
            requires
                idx < self.label.len(),
            ensures
                b == (self.label[idx as int] == body),
            { self.label[idx] == body }
    }

    /// Body `a` stands before body `b`: larger, or as large with a smaller number.
    pub open spec fn precedes(&self, a: usize, b: usize) -> bool {
        ||| self.counts[a as int] > self.counts[b as int]
        ||| self.counts[a as int] == self.counts[b as int] && a < b
    }

    /// All bodies, largest first; bodies of one size in the order of their numbers.
    pub fn by_size(&self) -> (ids: Vec<usize>)
        ensures
            ids.len() == self.counts.len(),
            forall|b: usize| b < self.counts.len() <==> #[trigger] ids@.contains(b),
            forall|s: int, t: int|
                0 <= s < t < ids.len() ==> self.precedes(#[trigger] ids[s], #[trigger] ids[t]),
    {
        let mut ids: Vec<usize> = Vec::new();
        let mut b: usize = 0;
        while b < self.counts.len()
            invariant
                b <= self.counts.len(),
                ids.len() == b,
                forall|s: int| 0 <= s < ids.len() ==> #[trigger] ids[s] < b,
                forall|c: usize| c < b ==> #[trigger] ids@.contains(c),
                forall|s: int, t: int|
                    0 <= s < t < ids.len() ==> self.precedes(#[trigger] ids[s], #[trigger] ids[t]),
            decreases self.counts.len() - b,
        {
            let mut p: usize = ids.len();
            while p > 0 && self.counts[ids[p - 1]] < self.counts[b]
                invariant
                    b < self.counts.len(),
                    p <= ids.len(),
                    ids.len() == b,
                    forall|s: int| 0 <= s < ids.len() ==> #[trigger] ids[s] < b,
                    forall|s: int|
                        p <= s < ids.len() ==> self.counts[#[trigger] ids[s] as int]
                            < self.counts[b as int],
                decreases p,
            {
                p = p - 1;
            }
            let ghost was = ids@;
            ids.insert(p, b);
            proof {
                assert forall|c: usize| c < b + 1 implies #[trigger] ids@.contains(c) by {
                    if c == b {
                        assert(ids@[p as int] == b);
                    } else {
                        assert(was.contains(c));
                        let s = choose|s: int| 0 <= s < was.len() && was[s] == c;
                        if s < p {
                            assert(ids@[s] == c);
                        } else {
                            assert(ids@[s + 1] == c);
                        }
                    }
                }
                assert forall|s: int, t: int| 0 <= s < t < ids@.len() implies self.precedes(
                    #[trigger] ids@[s],
                    #[trigger] ids@[t],
                ) by {
                    let s0 = if s < p {
                        s
                    } else {
                        s - 1
                    };
                    let t0 = if t < p {
                        t
                    } else {
                        t - 1
                    };
                    if t < p {
                        assert(self.precedes(was[s], was[t]));
                    } else if s > p {
                        assert(self.precedes(was[s0], was[t0]));
                    } else if s == p {
                        assert(ids@[t] == was[t0]);
                    } else if t == p {
                        assert(ids@[s] == was[s]);
                        assert(p >= 1);
                        if s < p - 1 {
                            assert(self.precedes(was[s], was[p - 1]));
                        }
                    } else {
                        assert(self.precedes(was[s], was[t0]));
                    }
                }
            }
            b = b + 1;
        }
        proof {
            assert forall|c: usize| ids@.contains(c) implies c < self.counts.len() by {
                let s = choose|s: int| 0 <= s < ids@.len() && ids@[s] == c;
            }
        }
        ids
    }
}

proof fn lemma_label_along_chain(field: &SolidField, label: Seq<usize>, p: Seq<int>, n: int)
    requires
        spread(field, label),
        is_chain(field, p),
        label[p[0]] != FLUID,
        0 <= n < p.len(),
    ensures
        label[p[n]] == label[p[0]],
    decreases n,
{
    if n > 0 {
        lemma_label_along_chain(field, label, p, n - 1);
        assert(touching(field, p[n - 1], p[n]));
    }
}

/// Labels the connected components of the solid field.
pub fn label_bodies(solid: &SolidField) -> (r: Bodies)
    requires
        solid.wf(),
    ensures
        r.labels(solid),
{
    broadcast use group_to_multiset_ensures;

    let n: usize = solid.grid.len();
    let mut label: Vec<usize> = Vec::new();
    let mut k: usize = 0;
    while k < n
        invariant
            k <= n,
            label.len() == k,
            forall|i: int| 0 <= i < k ==> #[trigger] label[i] == FLUID,
        decreases n - k,
    {
        label.push(FLUID);
        k = k + 1;
    }
    let mut counts: Vec<usize> = Vec::new();
    let ghost mut roots: Seq<int> = Seq::empty();
    k = 0;
    while k < n
        invariant
            solid.wf(),
            n == solid.grid.cells(),
            n <= isize::MAX,
            k <= n,
            counts.len() <= k,
            roots.len() == counts.len(),
            spread(solid, label@),
            forall|i: int| 0 <= i < k && solid.solid(i) ==> #[trigger] label[i] != FLUID,
            forall|i: int|
                0 <= i < label.len() && #[trigger] label[i] != FLUID ==> label[i] < counts.len()
                    && roots[label[i] as int] <= i && connected(solid, roots[label[i] as int], i),
            forall|b: int|
                0 <= b < roots.len() ==> 0 <= #[trigger] roots[b] < k && label[roots[b]] == b,
            forall|a: int, b: int| 0 <= a < b < roots.len() ==> #[trigger] roots[a]
                < #[trigger] roots[b],
            forall|b: int|
                0 <= b < counts.len() ==> #[trigger] counts[b] == tally(label@, b as usize),
        decreases n - k,
    {
        if solid.is_solid(k) && label[k] == FLUID {
            let id: usize = counts.len();
            let ghost was = label@;
            proof {
                lemma_connected_self(solid, k as int);
            }
            let count: usize = flood(solid, &mut label, k, id);
            counts.push(count);
            proof {
                roots = roots.push(k as int);
                assert forall|i: int| 0 <= i < label@.len() && #[trigger] label@[i] != FLUID implies
                    label@[i] < counts@.len() && roots[label@[i] as int] <= i && connected(
                    solid,
                    roots[label@[i] as int],
                    i,
                ) by {
                    if label@[i] != was[i] {
                        if i < k {
                            assert(was[i] != FLUID);
                        }
                    }
                }
                assert forall|b: int| 0 <= b < counts@.len() implies #[trigger] counts@[b] == tally(
                    label@,
                    b as usize,
                ) by {}
            }
        }
        k = k + 1;
    }
    proof {
        assert forall|i: int, j: int|
            solid_cell(solid, i) && solid_cell(solid, j) implies (#[trigger] label@[i]
            == #[trigger] label@[j] <==> connected(solid, i, j)) by {
            if label@[i] == label@[j] {
                let root = roots[label@[i] as int];
                law_connected_symmetric(solid, root, i);
                law_connected_transitive(solid, i, root, j);
            }
            if connected(solid, i, j) {
                let p = choose|p: Seq<int>| joins(solid, p, i, j);
                lemma_label_along_chain(solid, label@, p, p.len() - 1);
            }
        }
        assert forall|b: int| 0 <= b < counts@.len() implies #[trigger] counts@[b] >= 1 by {
            assert(label@[roots[b]] == b);
            assert(label@.contains(b as usize));
        }
        assert forall|i: int| solid_cell(solid, i) && 0 < #[trigger] label@[i] implies exists|j: int|
            0 <= j < i && #[trigger] label@[j] == label@[i] - 1 by {
            let b = label@[i] as int;
            assert(roots[b - 1] < roots[b]);
            assert(label@[roots[b - 1]] == b - 1);
        }
    }
    Bodies { label, counts }
}

/// The sum of a list of counts.
pub open spec fn total(counts: Seq<usize>) -> int
    decreases counts.len(),
{
    if counts.len() == 0 {
        0
    } else {
        total(counts.drop_last()) + counts.last()
    }
}

/// How many of the first `n` interior cells are solid.
pub open spec fn solid_cells(field: &SolidField, n: int) -> int
    decreases n,
{
    if n <= 0 {
        0
    } else {
        solid_cells(field, n - 1) + if field.solid(n - 1) {
            1int
        } else {
            0
        }
    }
}

spec fn tallies(label: Seq<usize>, m: int) -> int
    decreases m,
{
    if m <= 0 {
        0
    } else {
        tallies(label, m - 1) + tally(label, (m - 1) as usize)
    }
}

proof fn lemma_tallies_push(label: Seq<usize>, v: usize, m: int)
    requires
        0 <= m <= FLUID,
    ensures
        tallies(label.push(v), m) == tallies(label, m) + if v < m {
            1int
        } else {
            0
        },
    decreases m,
{
    broadcast use group_to_multiset_ensures;

    if m > 0 {
        lemma_tallies_push(label, v, m - 1);
    }
}

proof fn lemma_tallies_empty(m: int)
    ensures
        tallies(Seq::empty(), m) == 0,
    decreases m,
{
    broadcast use group_to_multiset_ensures;

    if m > 0 {
        lemma_tallies_empty(m - 1);
        assert(Seq::<usize>::empty().to_multiset().len() == 0);
        assert(tally(Seq::empty(), (m - 1) as usize) == 0);
    }
}

proof fn lemma_tallies_count_solid(bodies: &Bodies, field: &SolidField, n: int)
    requires
        bodies.labels(field),
        0 <= n <= bodies.label.len(),
    ensures
        tallies(bodies.label@.take(n), bodies.counts.len() as int) == solid_cells(field, n),
    decreases n,
{
    if n == 0 {
        assert(bodies.label@.take(0) =~= Seq::empty());
        lemma_tallies_empty(bodies.counts.len() as int);
    } else {
        lemma_tallies_count_solid(bodies, field, n - 1);
        assert(bodies.label@.take(n) =~= bodies.label@.take(n - 1).push(bodies.label[n - 1]));
        lemma_tallies_push(
            bodies.label@.take(n - 1),
            bodies.label[n - 1],
            bodies.counts.len() as int,
        );
        assert(bodies.label[n - 1] == FLUID <==> !field.solid(n - 1));
    }
}

proof fn lemma_total_is_tallies(bodies: &Bodies, field: &SolidField, m: int)
    requires
        bodies.labels(field),
        0 <= m <= bodies.counts.len(),
    ensures
        total(bodies.counts@.take(m)) == tallies(bodies.label@, m),
    decreases m,
{
    if m > 0 {
        lemma_total_is_tallies(bodies, field, m - 1);
        assert(bodies.counts@.take(m).drop_last() =~= bodies.counts@.take(m - 1));
        assert(bodies.counts[m - 1] == tally(bodies.label@, (m - 1) as usize));
    }
}

/// Every solid cell belongs to exactly one body: the cell counts of the bodies
/// add up to the number of solid cells.
pub proof fn law_counts_add_up(bodies: &Bodies, field: &SolidField)
    requires
        field.wf(),
        bodies.labels(field),
    ensures
        total(bodies.counts@) == solid_cells(field, field.grid.cells()),
{
    lemma_total_is_tallies(bodies, field, bodies.counts.len() as int);
    lemma_tallies_count_solid(bodies, field, bodies.label.len() as int);
    assert(bodies.counts@.take(bodies.counts.len() as int) =~= bodies.counts@);
    assert(bodies.label@.take(bodies.label.len() as int) =~= bodies.label@);
}

/// Body zero contains the solid cell that comes first in row-major order.
pub proof fn law_first_body_comes_first(bodies: &Bodies, field: &SolidField, i: int)
    requires
        field.wf(),
        bodies.labels(field),
        solid_cell(field, i),
        forall|j: int| 0 <= j < i ==> !field.solid(j),
    ensures
        bodies.label[i] == 0,
{
    if bodies.label[i] > 0 {
        let j = choose|j: int| 0 <= j < i && #[trigger] bodies.label[j] == bodies.label[i] - 1;
        assert(bodies.label[j] == FLUID);
    }
}

/// Solid cells that share a face belong to one body, along the axis and across it.
pub proof fn law_face_neighbours_share_a_body(
    bodies: &Bodies,
    field: &SolidField,
    iz: int,
    ir: int,
)
    requires
        field.wf(),
        bodies.labels(field),
        field.grid.inside(iz, ir),
        field.solid(field.grid.at(iz, ir)),
    ensures
        iz + 1 < field.grid.nz && field.solid(field.grid.at(iz + 1, ir))
            ==> bodies.label[field.grid.at(iz + 1, ir)] == bodies.label[field.grid.at(iz, ir)],
        ir + 1 < field.grid.nr && field.solid(field.grid.at(iz, ir + 1))
            ==> bodies.label[field.grid.at(iz, ir + 1)] == bodies.label[field.grid.at(iz, ir)],
{
    let g = &field.grid;
    let nz = g.nz as int;
    let nr = g.nr as int;
    let k = g.at(iz, ir);
    grid::law_interior_layout(nz, nr, iz, ir);
    grid::law_neighbour_coordinates(nz, nr, iz, ir);
    assert(solid_cell(field, k));
    lemma_connected_self(field, k);
    if iz + 1 < nz && field.solid(g.at(iz + 1, ir)) {
        grid::law_interior_layout(nz, nr, iz + 1, ir);
        assert(grid::neighbour(nz, nr, k, 1) == Some(g.at(iz + 1, ir)));
        assert(touching(field, k, g.at(iz + 1, ir)));
        lemma_connected_step(field, k, k, g.at(iz + 1, ir));
        assert(solid_cell(field, g.at(iz + 1, ir)));
        assert(bodies.label[k] == bodies.label[g.at(iz + 1, ir)]);
    }
    if ir + 1 < nr && field.solid(g.at(iz, ir + 1)) {
        grid::law_interior_layout(nz, nr, iz, ir + 1);
        assert(grid::neighbour(nz, nr, k, 3) == Some(g.at(iz, ir + 1)));
        assert(touching(field, k, g.at(iz, ir + 1)));
        lemma_connected_step(field, k, k, g.at(iz, ir + 1));
        assert(solid_cell(field, g.at(iz, ir + 1)));
        assert(bodies.label[k] == bodies.label[g.at(iz, ir + 1)]);
    }
}

/// Bodies are apart: cells of two bodies are never the ends of a chain of solid cells in
/// which each shares a face with the next, and cells of one body always are.
pub proof fn law_bodies_are_apart(bodies: &Bodies, field: &SolidField, i: int, j: int)
    requires
        field.wf(),
        bodies.labels(field),
        0 <= i < field.grid.cells() && field.solid(i),
        0 <= j < field.grid.cells() && field.solid(j),
    ensures
        bodies.label[i] == bodies.label[j] <==> exists|p: Seq<int>| #[trigger]
            chains(field, p, i, j),
{
    assert(solid_cell(field, i) && solid_cell(field, j));
    assert(bodies.label[i] == bodies.label[j] <==> connected(field, i, j));
    if connected(field, i, j) {
        let p = choose|p: Seq<int>| joins(field, p, i, j);
        assert forall|s: int, t: int| 0 <= s && t == s + 1 && t < p.len() implies grid::adjacent(
            field.grid.nz as int,
            field.grid.nr as int,
            #[trigger] p[s],
            #[trigger] p[t],
        ) by {
            assert(touching(field, p[s], p[t]));
        }
        assert(chains(field, p, i, j));
    }
    if exists|p: Seq<int>| #[trigger] chains(field, p, i, j) {
        let p = choose|p: Seq<int>| #[trigger] chains(field, p, i, j);
        assert(joins(field, p, i, j));
    }
}

/// The cells lead from `i` to `j`, all of them solid and each sharing a face with the next.
pub open spec fn chains(field: &SolidField, p: Seq<int>, i: int, j: int) -> bool {
    &&& p.len() > 0
    &&& p[0] == i
    &&& p[p.len() - 1] == j
    &&& forall|s: int|
        0 <= s < p.len() ==> 0 <= #[trigger] p[s] < field.grid.cells() && field.solid(p[s])
    &&& forall|s: int, t: int|
        0 <= s && t == s + 1 && t < p.len() ==> grid::adjacent(
            field.grid.nz as int,
            field.grid.nr as int,
            #[trigger] p[s],
            #[trigger] p[t],
        )
}

} // verus!
