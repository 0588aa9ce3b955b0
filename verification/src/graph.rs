//! The graph store and its runtime.
//!
//! Nodes live in a capacity-bounded arena; edges are index pairs that always
//! point forward (every edge runs from a lower index to a higher one, which
//! the compiler guarantees because a unit can only draw from nodes that
//! already exist). Clearing and rebuilding the whole store is how patches are
//! replaced. Processing a node pulls every ancestor exactly once, in index
//! order, so one invocation advances each involved unit by one frame.

use vstd::prelude::*;
use crate::fx::{sat64, sat_add};
use crate::unit::{
    Unit, UnitModel, unit_run, arity_ok, wf_m, bufs_view, FRAME,
};

verus! {

/// Capacity of the node arena.
pub const MAX_NODES: usize = 512;

/// Capacity of the edge list.
pub const MAX_EDGES: usize = 512;

/// The sink marker: a bound name beginning with this byte (`~`) designates
/// its node's output as part of the final mix.
pub const B_TILDE: u8 = 126;

/// The graph of units, the forward edges between them, and the name table.
/// Units and their output buffers live in two parallel arenas.
pub struct GraphStore {
    pub units: Vec<Unit>,
    pub bufs: Vec<Vec<i64>>,
    pub edges: Vec<(u32, u32)>,
    pub names: Vec<(Vec<u8>, u32)>,
}

/// Ghost image of the graph store.
pub struct GraphModel {
    pub units: Seq<UnitModel>,
    pub bufs: Seq<Seq<i64>>,
    pub edges: Seq<(int, int)>,
    pub names: Seq<(Seq<u8>, int)>,
}

/// A buffer of silence.
pub open spec fn zbuf() -> Seq<i64> {
    Seq::new(FRAME as nat, |i: int| 0i64)
}

impl GraphModel {
    /// Structural soundness: bounded arenas, forward edges, valid name
    /// bindings with unique names, well-formed units, full-length buffers.
    pub open spec fn wf(self) -> bool {
        &&& self.units.len() == self.bufs.len()
        &&& self.units.len() <= MAX_NODES
        &&& self.edges.len() <= MAX_EDGES
        &&& forall|i: int| 0 <= i < self.units.len() ==> wf_m(#[trigger] self.units[i])
        &&& forall|i: int| 0 <= i < self.bufs.len() ==> (#[trigger] self.bufs[i]).len() == FRAME
        &&& forall|k: int|
            0 <= k < self.edges.len() ==> 0 <= (#[trigger] self.edges[k]).0 < self.edges[k].1
                < self.units.len()
        &&& forall|k: int|
            0 <= k < self.names.len() ==> 0 <= (#[trigger] self.names[k]).1 < self.units.len()
        &&& forall|k1: int, k2: int|
            0 <= k1 < k2 < self.names.len() ==> (#[trigger] self.names[k1]).0 != (
            #[trigger] self.names[k2]).0
    }

    /// The empty graph.
    pub open spec fn empty() -> GraphModel {
        GraphModel { units: Seq::empty(), bufs: Seq::empty(), edges: Seq::empty(), names: Seq::empty() }
    }
}

/// First binding of `name` in the table, if any.
pub open spec fn find_name(names: Seq<(Seq<u8>, int)>, name: Seq<u8>) -> Option<int>
    decreases names.len(),
{
    if names.len() == 0 {
        None
    } else if names[0].0 == name {
        Some(0int)
    } else {
        match find_name(names.skip(1), name) {
            Some(k) => Some(k + 1),
            None => None,
        }
    }
}

/// The node handle `name` is bound to, if any.
pub open spec fn lookup_spec(names: Seq<(Seq<u8>, int)>, name: Seq<u8>) -> Option<int> {
    match find_name(names, name) {
        Some(k) => Some(names[k].1),
        None => None,
    }
}

/// The name table after binding `name` to `idx`: rebinding overwrites in
/// place, a fresh name is appended.
pub open spec fn bind_spec(names: Seq<(Seq<u8>, int)>, name: Seq<u8>, idx: int) -> Seq<
    (Seq<u8>, int),
> {
    match find_name(names, name) {
        Some(k) => names.update(k, (name, idx)),
        None => names.push((name, idx)),
    }
}

pub proof fn lemma_find_name(names: Seq<(Seq<u8>, int)>, name: Seq<u8>)
    ensures
        match find_name(names, name) {
            Some(k) => 0 <= k < names.len() && names[k].0 == name && forall|j: int|
                0 <= j < k ==> (#[trigger] names[j]).0 != name,
            None => forall|j: int| 0 <= j < names.len() ==> (#[trigger] names[j]).0 != name,
        },
    decreases names.len(),
{
    if names.len() > 0 && names[0].0 != name {
        lemma_find_name(names.skip(1), name);
        assert forall|j: int| 1 <= j < names.len() implies (#[trigger] names[j]).0 == names.skip(
            1,
        )[j - 1].0 by {}
    }
}

/// `find_name` is pinned by "no earlier match, and `k` matches".
pub proof fn lemma_find_name_at(names: Seq<(Seq<u8>, int)>, name: Seq<u8>, k: int)
    requires
        0 <= k < names.len(),
        names[k].0 == name,
        forall|j: int| 0 <= j < k ==> (#[trigger] names[j]).0 != name,
    ensures
        find_name(names, name) == Some(k),
{
    lemma_find_name(names, name);
    match find_name(names, name) {
        Some(kk) => {
            if kk < k {
                assert(names[kk].0 == name);
                assert(false);
            }
            if kk > k {
                assert(names[k].0 != name);
                assert(false);
            }
        },
        None => {
            assert(names[k].0 != name);
            assert(false);
        },
    }
}

/// `find_name` finds nothing when no entry matches.
pub proof fn lemma_find_name_none(names: Seq<(Seq<u8>, int)>, name: Seq<u8>)
    requires
        forall|j: int| 0 <= j < names.len() ==> (#[trigger] names[j]).0 != name,
    ensures
        find_name(names, name) is None,
{
    lemma_find_name(names, name);
    match find_name(names, name) {
        Some(kk) => {
            assert(names[kk].0 == name);
            assert(false);
        },
        None => {},
    }
}

/// Rebinding an existing name in place keeps the graph well formed.
pub proof fn lemma_rebind_wf(g: GraphModel, name: Seq<u8>, idx: int, k: int)
    requires
        g.wf(),
        0 <= k < g.names.len(),
        g.names[k].0 == name,
        0 <= idx < g.units.len(),
    ensures
        (GraphModel { names: g.names.update(k, (name, idx)), ..g }).wf(),
{
    let nm = g.names.update(k, (name, idx));
    assert forall|j: int| 0 <= j < nm.len() implies 0 <= (#[trigger] nm[j]).1 < g.units.len() by {
        if j != k {
            assert(nm[j] == g.names[j]);
        }
    }
    assert forall|j: int| 0 <= j < nm.len() implies (#[trigger] nm[j]).0 == g.names[j].0 by {}
    assert forall|k1: int, k2: int|
        0 <= k1 < k2 < nm.len() implies (#[trigger] nm[k1]).0 != (#[trigger] nm[k2]).0 by {
        assert(g.names[k1].0 != g.names[k2].0);
    }
}

/// Replacing one unit and its buffer with well-formed values keeps the
/// graph well formed.
pub proof fn lemma_update_wf(g: GraphModel, i: int, u: UnitModel, b: Seq<i64>)
    requires
        g.wf(),
        0 <= i < g.units.len(),
        wf_m(u),
        b.len() == FRAME,
    ensures
        (GraphModel { units: g.units.update(i, u), bufs: g.bufs.update(i, b), ..g }).wf(),
{
    let nu = g.units.update(i, u);
    let nb = g.bufs.update(i, b);
    assert forall|j: int| 0 <= j < nu.len() implies wf_m(#[trigger] nu[j]) by {
        if j != i {
            assert(nu[j] == g.units[j]);
        }
    }
    assert forall|j: int| 0 <= j < nb.len() implies (#[trigger] nb[j]).len() == FRAME by {
        if j != i {
            assert(nb[j] == g.bufs[j]);
        }
    }
}

/// Whether node `i` feeds node `n` through the forward edge relation (or is
/// `n` itself): the set of nodes one processing pass must advance.
pub open spec fn marked_at(edges: Seq<(int, int)>, n: int, i: int) -> bool
    decreases n - i,
{
    if i == n {
        true
    } else if i < 0 || i > n {
        false
    } else {
        exists|k: int|
            0 <= k < edges.len() && (#[trigger] edges[k]).0 == i && i < edges[k].1 <= n
                && marked_at(edges, n, edges[k].1)
    }
}

/// Sources of the edges that target `t`, among the first `upto` edges, in
/// edge-arrival order: the input-slot order of node `t`.
pub open spec fn in_srcs(edges: Seq<(int, int)>, t: int, upto: int) -> Seq<int>
    decreases upto,
{
    if upto <= 0 {
        Seq::empty()
    } else {
        let p = in_srcs(edges, t, upto - 1);
        if edges[upto - 1].1 == t {
            p.push(edges[upto - 1].0)
        } else {
            p
        }
    }
}

/// The input buffers node `t` sees, in slot order.
pub open spec fn inputs_of(g: GraphModel, t: int) -> Seq<Seq<i64>> {
    in_srcs(g.edges, t, g.edges.len() as int).map_values(|s: int| g.bufs[s])
}

/// One node of a processing pass for sink `n`: if node `i` is involved and
/// supports its input count, it consumes its inputs' current buffers and
/// refreshes its own; otherwise nothing changes.
pub open spec fn run_step(g: GraphModel, n: int, i: int) -> GraphModel {
    if marked_at(g.edges, n, i) {
        let ins = inputs_of(g, i);
        if arity_ok(g.units[i], ins.len() as int) {
            let r = unit_run(g.units[i], ins, FRAME as nat);
            GraphModel { units: g.units.update(i, r.0), bufs: g.bufs.update(i, r.1), ..g }
        } else {
            g
        }
    } else {
        g
    }
}

/// The graph after the first `i` nodes of a processing pass for sink `n`.
pub open spec fn run_upto(g: GraphModel, n: int, i: int) -> GraphModel
    decreases i,
{
    if i <= 0 {
        g
    } else {
        run_step(run_upto(g, n, i - 1), n, i - 1)
    }
}

/// One full processing pass for sink `n`: every ancestor of `n` advances by
/// one frame, in index order, so inputs are always fresh.
pub open spec fn run_node_spec(g: GraphModel, n: int) -> GraphModel {
    run_upto(g, n, n + 1)
}

/// Mutable access to one vector element, exposing the update relation.
fn vec_index_mut<T>(vec: &mut Vec<T>, i: usize) -> (element: &mut T)
    requires
        i < old(vec)@.len(),
    ensures
        *element == old(vec)@[i as int],
        final(vec)@ == old(vec)@.update(i as int, *final(element)),
{
    &mut vec[i]
}

/// A fresh buffer of silence.
fn zero_buf() -> (r: Vec<i64>)
    ensures
        r@ == zbuf(),
{
    let mut r: Vec<i64> = Vec::new();
    while r.len() < FRAME
        invariant
            r@.len() <= FRAME,
            forall|i: int| 0 <= i < r@.len() ==> r@[i] == 0i64,
        decreases FRAME - r@.len(),
    {
        r.push(0);
    }
    proof {
        assert(r@ =~= zbuf());
    }
    r
}

/// A copy of a buffer, element by element.
pub(crate) fn copy_buf(src: &Vec<i64>) -> (r: Vec<i64>)
    ensures
        r@ == src@,
{
    let mut r: Vec<i64> = Vec::new();
    let mut i: usize = 0;
    while i < src.len()
        invariant
            i <= src@.len(),
            r@ =~= src@.take(i as int),
        decreases src@.len() - i,
    {
        let v = src[i];
        r.push(v);
        i = i + 1;
    }
    proof {
        assert(r@ =~= src@);
    }
    r
}

/// Whether two byte names are equal.
pub(crate) fn bytes_eq(a: &Vec<u8>, b: &Vec<u8>) -> (r: bool)
    ensures
        r <==> a@ == b@,
{
    if a.len() != b.len() {
        proof {
            assert(a@ != b@);
        }
        return false;
    }
    let mut i: usize = 0;
    while i < a.len()
        invariant
            i <= a@.len(),
            a@.len() == b@.len(),
            forall|j: int| 0 <= j < i ==> a@[j] == b@[j],
        decreases a@.len() - i,
    {
        if a[i] != b[i] {
            return false;
        }
        i = i + 1;
    }
    proof {
        assert(a@ =~= b@);
    }
    true
}

impl GraphStore {
    /// The ghost image of the store.
    pub open spec fn model(self) -> GraphModel {
        GraphModel {
            units: Seq::new(self.units@.len(), |i: int| self.units@[i].model()),
            bufs: Seq::new(self.bufs@.len(), |i: int| self.bufs@[i]@),
            edges: Seq::new(
                self.edges@.len(),
                |k: int| (self.edges@[k].0 as int, self.edges@[k].1 as int),
            ),
            names: Seq::new(self.names@.len(), |k: int| (self.names@[k].0@, self.names@[k].1 as int)),
        }
    }

    pub open spec fn wf(self) -> bool {
        self.model().wf()
    }

    /// An empty store.
    pub fn new() -> (r: GraphStore)
        ensures
            r.model() == GraphModel::empty(),
            r.wf(),
    {
        let r = GraphStore { units: Vec::new(), bufs: Vec::new(), edges: Vec::new(), names: Vec::new() };
        proof {
            assert(r.model().units =~= GraphModel::empty().units);
            assert(r.model().bufs =~= GraphModel::empty().bufs);
            assert(r.model().edges =~= GraphModel::empty().edges);
            assert(r.model().names =~= GraphModel::empty().names);
        }
        r
    }

    /// Inserts a unit as a new node with a silent buffer and returns its
    /// handle; fails exactly when the arena is full.
    pub fn add_node(&mut self, u: Unit) -> (r: Option<u32>)
        requires
            old(self).wf(),
            u.wf(),
        ensures
            final(self).wf(),
            r is Some <==> old(self).model().units.len() < MAX_NODES,
            match r {
                Some(idx) => {
                    &&& idx as int == old(self).model().units.len()
                    &&& final(self).model().units == old(self).model().units.push(u.model())
                    &&& final(self).model().bufs == old(self).model().bufs.push(zbuf())
                    &&& final(self).model().edges == old(self).model().edges
                    &&& final(self).model().names == old(self).model().names
                },
                None => *final(self) == *old(self),
            },
    {
        if self.units.len() >= MAX_NODES {
            return None;
        }
        let idx: u32 = self.units.len() as u32;
        self.units.push(u);
        self.bufs.push(zero_buf());
        proof {
            assert(self.model().units =~= old(self).model().units.push(u.model()));
            assert(self.model().bufs =~= old(self).model().bufs.push(zbuf()));
            assert(self.model().edges =~= old(self).model().edges);
            assert(self.model().names =~= old(self).model().names);
        }
        Some(idx)
    }

    /// Adds a forward edge from `s` to `t`; fails exactly when the edge list
    /// is full. Only forward edges exist in this graph, so the pair must be
    /// ascending and in range.
    pub fn add_edge(&mut self, s: u32, t: u32) -> (r: Option<()>)
        requires
            old(self).wf(),
            s < t,
            (t as int) < old(self).model().units.len(),
        ensures
            final(self).wf(),
            r is Some <==> old(self).model().edges.len() < MAX_EDGES,
            match r {
                Some(_) => {
                    &&& final(self).model().edges == old(self).model().edges.push(
                        (s as int, t as int),
                    )
                    &&& final(self).model().units == old(self).model().units
                    &&& final(self).model().bufs == old(self).model().bufs
                    &&& final(self).model().names == old(self).model().names
                },
                None => *final(self) == *old(self),
            },
    {
        if self.edges.len() >= MAX_EDGES {
            return None;
        }
        self.edges.push((s, t));
        proof {
            assert(self.model().edges =~= old(self).model().edges.push((s as int, t as int)));
            assert(self.model().units =~= old(self).model().units);
            assert(self.model().bufs =~= old(self).model().bufs);
            assert(self.model().names =~= old(self).model().names);
        }
        Some(())
    }

    /// The node handle a name is bound to, if any.
    pub fn lookup(&self, name: &Vec<u8>) -> (r: Option<u32>)
        requires
            self.wf(),
        ensures
            match r {
                Some(idx) => lookup_spec(self.model().names, name@) == Some(idx as int) && (
                idx as int) < self.model().units.len(),
                None => lookup_spec(self.model().names, name@) is None,
            },
    {
        let mut k: usize = 0;
        while k < self.names.len()
            invariant
                self.wf(),
                k <= self.names@.len(),
                forall|j: int| 0 <= j < k ==> (#[trigger] self.model().names[j]).0 != name@,
            decreases self.names@.len() - k,
        {
            if bytes_eq(&self.names[k].0, &name) {
                proof {
                    assert(self.model().names[k as int] == (
                        self.names@[k as int].0@,
                        self.names@[k as int].1 as int,
                    ));
                    lemma_find_name_at(self.model().names, name@, k as int);
                }
                return Some(self.names[k].1);
            }
            k = k + 1;
        }
        proof {
            lemma_find_name_none(self.model().names, name@);
        }
        None
    }

    /// Binds a name to a node handle, shadowing any previous binding of the
    /// same name in place; fails exactly when the table is full and the name
    /// is fresh.
    pub fn bind(&mut self, name: Vec<u8>, idx: u32) -> (r: Option<()>)
        requires
            old(self).wf(),
            (idx as int) < old(self).model().units.len(),
        ensures
            final(self).wf(),
            r is Some <==> (find_name(old(self).model().names, name@) is Some || old(
                self,
            ).model().names.len() < MAX_NODES),
            match r {
                Some(_) => {
                    &&& final(self).model().names == bind_spec(
                        old(self).model().names,
                        name@,
                        idx as int,
                    )
                    &&& final(self).model().units == old(self).model().units
                    &&& final(self).model().bufs == old(self).model().bufs
                    &&& final(self).model().edges == old(self).model().edges
                },
                None => *final(self) == *old(self),
            },
    {
        let ghost g0 = self.model();
        let ghost names0 = g0.names;
        let mut k: usize = 0;
        while k < self.names.len()
            invariant
                old(self).wf(),
                *self == *old(self),
                g0 == self.model(),
                names0 == g0.names,
                (idx as int) < g0.units.len(),
                k <= self.names@.len(),
                forall|j: int| 0 <= j < k ==> (#[trigger] g0.names[j]).0 != name@,
            decreases self.names@.len() - k,
        {
            if bytes_eq(&self.names[k].0, &name) {
                proof {
                    assert(g0.names[k as int] == (
                        self.names@[k as int].0@,
                        self.names@[k as int].1 as int,
                    ));
                    lemma_find_name_at(names0, name@, k as int);
                    lemma_rebind_wf(g0, name@, idx as int, k as int);
                }
                self.names.set(k, (name, idx));
                proof {
                    assert(self.model().names =~= names0.update(
                        k as int,
                        (names0[k as int].0, idx as int),
                    ));
                    assert(self.model().names =~= bind_spec(names0, name@, idx as int));
                    assert(self.model().units =~= g0.units);
                    assert(self.model().bufs =~= g0.bufs);
                    assert(self.model().edges =~= g0.edges);
                    assert(self.model() =~= (GraphModel {
                        names: names0.update(k as int, (name@, idx as int)),
                        ..g0
                    }));
                }
                return Some(());
            }
            k = k + 1;
        }
        proof {
            lemma_find_name_none(names0, name@);
        }
        if self.names.len() >= MAX_NODES {
            return None;
        }
        self.names.push((name, idx));
        proof {
            assert(find_name(names0, name@) is None);
            assert(self.model().names =~= bind_spec(names0, name@, idx as int));
            assert(self.model().units =~= g0.units);
            assert(self.model().bufs =~= g0.bufs);
            assert(self.model().edges =~= g0.edges);
        }
        Some(())
    }
}

impl GraphStore {
    /// One processing pass for node `n`: pulls every ancestor of `n`
    /// (through the forward edges) exactly once, in index order, so every
    /// unit sees the frame its inputs just produced.
    pub fn run_node(&mut self, n: u32)
        requires
            old(self).wf(),
            (n as int) < old(self).model().units.len(),
        ensures
            final(self).wf(),
            final(self).model() == run_node_spec(old(self).model(), n as int),
            final(self).model().edges == old(self).model().edges,
            final(self).model().names == old(self).model().names,
            final(self).model().units.len() == old(self).model().units.len(),
    {
        let ghost g0 = self.model();
        let nn: usize = n as usize;
        let count: usize = self.units.len();
        let mut marked: Vec<bool> = Vec::new();
        while marked.len() < count
            invariant
                marked@.len() <= count,
                forall|j: int| 0 <= j < marked@.len() ==> marked@[j] == false,
            decreases count - marked@.len(),
        {
            marked.push(false);
        }
        marked.set(nn, true);
        let mut i: usize = nn;
        while i > 0
            invariant
                old(self).wf(),
                *self == *old(self),
                g0 == self.model(),
                i <= nn < count,
                nn == n as usize,
                count == self.units@.len(),
                g0.units.len() == count,
                marked@.len() == count,
                forall|j: int| i <= j <= nn ==> marked@[j] == marked_at(g0.edges, n as int, j),
            decreases i,
        {
            i = i - 1;
            let mut found = false;
            let mut k: usize = 0;
            while k < self.edges.len()
                invariant
                    old(self).wf(),
                    *self == *old(self),
                    g0 == self.model(),
                    i < nn < count,
                    nn == n as usize,
                    count == self.units@.len(),
                    g0.units.len() == count,
                    marked@.len() == count,
                    k <= self.edges@.len(),
                    g0.edges.len() == self.edges@.len(),
                    forall|j: int|
                        i < j <= nn ==> marked@[j] == marked_at(g0.edges, n as int, j),
                    found == exists|k2: int|
                        0 <= k2 < k && (#[trigger] g0.edges[k2]).0 == i as int && (i as int)
                            < g0.edges[k2].1 <= n as int && marked_at(
                            g0.edges,
                            n as int,
                            g0.edges[k2].1,
                        ),
                decreases self.edges@.len() - k,
            {
                let e = self.edges[k];
                proof {
                    assert(g0.edges[k as int] == (
                        self.edges@[k as int].0 as int,
                        self.edges@[k as int].1 as int,
                    ));
                    assert(0 <= g0.edges[k as int].0 < g0.edges[k as int].1 < g0.units.len());
                }
                let cond: bool = if (e.0 as usize) == i && e.1 <= n {
                    proof {
                        assert(g0.edges[k as int].0 == i as int);
                        assert((i as int) < g0.edges[k as int].1 <= n as int);
                        assert(marked@[g0.edges[k as int].1] == marked_at(
                            g0.edges,
                            n as int,
                            g0.edges[k as int].1,
                        ));
                    }
                    marked[e.1 as usize]
                } else {
                    false
                };
                proof {
                    if cond {
                        assert(g0.edges[k as int].0 == i as int && (i as int)
                            < g0.edges[k as int].1 <= n as int && marked_at(
                            g0.edges,
                            n as int,
                            g0.edges[k as int].1,
                        ));
                    } else {
                        assert(!(g0.edges[k as int].0 == i as int && (i as int)
                            < g0.edges[k as int].1 <= n as int && marked_at(
                            g0.edges,
                            n as int,
                            g0.edges[k as int].1,
                        )));
                    }
                }
                if cond {
                    found = true;
                }
                k = k + 1;
            }
            proof {
                assert(i as int != n as int);
                assert(marked_at(g0.edges, n as int, i as int) == found);
            }
            marked.set(i, found);
        }
        let mut i: usize = 0;
        while i <= nn
            invariant
                old(self).wf(),
                i <= nn + 1,
                nn < count,
                self.wf(),
                g0 == old(self).model(),
                self.model() == run_upto(g0, n as int, i as int),
                self.model().edges == g0.edges,
                self.model().names == g0.names,
                self.units@.len() == count,
                self.bufs@.len() == count,
                self.edges@.len() == g0.edges.len(),
                marked@.len() == count,
                forall|j: int| 0 <= j <= nn ==> marked@[j] == marked_at(g0.edges, n as int, j),
            decreases nn + 1 - i,
        {
            let ghost gc = self.model();
            if marked[i] {
                let mut ins: Vec<Vec<i64>> = Vec::new();
                let mut k: usize = 0;
                while k < self.edges.len()
                    invariant
                        gc == self.model(),
                        self.wf(),
                        i < count,
                        count == self.units@.len(),
                        k <= self.edges@.len(),
                        gc.edges.len() == self.edges@.len(),
                        bufs_view(ins@) =~= in_srcs(gc.edges, i as int, k as int).map_values(
                            |s: int| gc.bufs[s],
                        ),
                    decreases self.edges@.len() - k,
                {
                    let e = self.edges[k];
                    proof {
                        assert(gc.edges[k as int] == (
                            self.edges@[k as int].0 as int,
                            self.edges@[k as int].1 as int,
                        ));
                        assert(0 <= gc.edges[k as int].0 < gc.edges[k as int].1 < gc.units.len());
                    }
                    if (e.1 as usize) == i {
                        let b = copy_buf(&self.bufs[e.0 as usize]);
                        ins.push(b);
                        proof {
                            assert(ins@[ins@.len() - 1]@ == gc.bufs[gc.edges[k as int].0]);
                            let p = in_srcs(gc.edges, i as int, k as int);
                            let c = in_srcs(gc.edges, i as int, (k + 1) as int);
                            assert(c == p.push(gc.edges[k as int].0));
                            assert(c.map_values(|s: int| gc.bufs[s]) =~= p.map_values(
                                |s: int| gc.bufs[s],
                            ).push(gc.bufs[gc.edges[k as int].0]));
                            assert(bufs_view(ins@) =~= c.map_values(|s: int| gc.bufs[s]));
                        }
                    } else {
                        proof {
                            assert(in_srcs(gc.edges, i as int, (k + 1) as int) == in_srcs(
                                gc.edges,
                                i as int,
                                k as int,
                            ));
                        }
                    }
                    k = k + 1;
                }
                proof {
                    assert(bufs_view(ins@) =~= inputs_of(gc, i as int));
                    assert forall|j: int| 0 <= j < ins@.len() implies (#[trigger] ins@[j])@.len()
                        == FRAME by {
                        assert(ins@[j]@ == bufs_view(ins@)[j]);
                        let srcs = in_srcs(gc.edges, i as int, gc.edges.len() as int);
                        lemma_in_srcs_range(gc.edges, i as int, gc.edges.len() as int, gc.units.len() as int);
                        assert(bufs_view(ins@)[j] == gc.bufs[srcs[j]]);
                    }
                    assert(self.model().units[i as int] == self.units@[i as int].model());
                    assert(self.model().bufs[i as int] == self.bufs@[i as int]@);
                }
                let u = vec_index_mut(&mut self.units, i);
                let b = vec_index_mut(&mut self.bufs, i);
                u.process(&ins, b);
                proof {
                    let nu = self.model().units;
                    let nb = self.model().bufs;
                    assert(nu =~= gc.units.update(i as int, self.units@[i as int].model()));
                    assert(nb =~= gc.bufs.update(i as int, self.bufs@[i as int]@));
                    if arity_ok(gc.units[i as int], inputs_of(gc, i as int).len() as int) {
                        assert(self.units@[i as int].model() == unit_run(
                            gc.units[i as int],
                            inputs_of(gc, i as int),
                            FRAME as nat,
                        ).0);
                        assert(self.bufs@[i as int]@ == unit_run(
                            gc.units[i as int],
                            inputs_of(gc, i as int),
                            FRAME as nat,
                        ).1);
                        assert(self.model() =~= run_step(gc, n as int, i as int));
                    } else {
                        assert(nu =~= gc.units);
                        assert(nb =~= gc.bufs);
                        assert(self.model() =~= run_step(gc, n as int, i as int));
                    }
                    lemma_update_wf(
                        gc,
                        i as int,
                        self.units@[i as int].model(),
                        self.bufs@[i as int]@,
                    );
                    assert(self.model() =~= (GraphModel {
                        units: gc.units.update(i as int, self.units@[i as int].model()),
                        bufs: gc.bufs.update(i as int, self.bufs@[i as int]@),
                        ..gc
                    }));
                }
            } else {
                proof {
                    assert(!marked_at(g0.edges, n as int, i as int));
                    assert(run_step(gc, n as int, i as int) == gc);
                }
            }
            i = i + 1;
        }
    }
}

/// Every input source index lies inside the node arena.
pub proof fn lemma_in_srcs_range(edges: Seq<(int, int)>, t: int, upto: int, len: int)
    requires
        upto <= edges.len(),
        forall|k: int| 0 <= k < edges.len() ==> 0 <= (#[trigger] edges[k]).0 < edges[k].1 < len,
    ensures
        forall|j: int|
            0 <= j < in_srcs(edges, t, upto).len() ==> 0 <= #[trigger] in_srcs(edges, t, upto)[j]
                < len,
    decreases upto,
{
    if upto > 0 {
        lemma_in_srcs_range(edges, t, upto - 1, len);
        let cur = in_srcs(edges, t, upto);
        let p = in_srcs(edges, t, upto - 1);
        assert forall|j: int| 0 <= j < cur.len() implies 0 <= #[trigger] cur[j] < len by {
            if j < p.len() {
                assert(cur[j] == p[j]);
                assert(0 <= p[j] < len);
            } else {
                assert(cur[j] == edges[upto - 1].0);
            }
        }
    }
}

/// Whether a bound name designates its node as a sink: it begins with the
/// output marker byte.
pub open spec fn is_sink(name: Seq<u8>) -> bool {
    name.len() > 0 && name[0] == B_TILDE
}

/// Sample-wise saturating sum of two buffers.
pub open spec fn sum_bufs(a: Seq<i64>, b: Seq<i64>) -> Seq<i64> {
    Seq::new(a.len(), |i: int| sat64(a[i] as int + b[i] as int) as i64)
}

/// The graph and the mixed output after the first `k` name-table entries of
/// one frame: every sink entry, in table order, gets a fresh processing pass
/// and its buffer is summed into the mix.
pub open spec fn frame_upto(g: GraphModel, k: int) -> (GraphModel, Seq<i64>)
    decreases k,
{
    if k <= 0 {
        (g, zbuf())
    } else {
        let p = frame_upto(g, k - 1);
        let e = p.0.names[k - 1];
        if is_sink(e.0) {
            let g2 = run_node_spec(p.0, e.1);
            (g2, sum_bufs(p.1, g2.bufs[e.1]))
        } else {
            p
        }
    }
}

/// One whole output frame: the sink scan over the full name table.
pub open spec fn frame_spec(g: GraphModel) -> (GraphModel, Seq<i64>) {
    frame_upto(g, g.names.len() as int)
}

impl GraphStore {
    /// Computes one frame of the final mix: every currently bound sink node
    /// gets one processing pass, in name-table order, and the sink buffers
    /// are summed sample-wise (saturating) into the returned frame.
    pub fn run_frame(&mut self) -> (out: Vec<i64>)
        requires
            old(self).wf(),
        ensures
            final(self).wf(),
            final(self).model() == frame_spec(old(self).model()).0,
            out@ == frame_spec(old(self).model()).1,
            out@.len() == FRAME,
            final(self).model().names == old(self).model().names,
            final(self).model().edges == old(self).model().edges,
            final(self).model().units.len() == old(self).model().units.len(),
    {
        let ghost g0 = self.model();
        let mut out: Vec<i64> = zero_buf();
        let mut k: usize = 0;
        while k < self.names.len()
            invariant
                self.wf(),
                k <= self.names@.len(),
                self.model().names == g0.names,
                self.model().edges == g0.edges,
                self.model().units.len() == g0.units.len(),
                self.model() == frame_upto(g0, k as int).0,
                out@ == frame_upto(g0, k as int).1,
                out@.len() == FRAME,
            decreases self.names@.len() - k,
        {
            let ghost gc = self.model();
            let idx: u32 = self.names[k].1;
            let is_s: bool = self.names[k].0.len() > 0 && self.names[k].0[0] == B_TILDE;
            proof {
                assert(gc.names[k as int] == (
                    self.names@[k as int].0@,
                    self.names@[k as int].1 as int,
                ));
                assert(is_s == is_sink(gc.names[k as int].0));
                assert(0 <= gc.names[k as int].1 < gc.units.len());
            }
            if is_s {
                self.run_node(idx);
                let ghost g2 = self.model();
                let ghost out_prev = out@;
                proof {
                    assert(g2 == run_node_spec(gc, idx as int));
                    assert(g2.bufs[idx as int].len() == FRAME);
                    assert(g2.bufs[idx as int] == self.bufs@[idx as usize as int]@);
                }
                let mut j: usize = 0;
                while j < FRAME
                    invariant
                        j <= FRAME,
                        g2 == self.model(),
                        self.wf(),
                        (idx as int) < g2.units.len(),
                        g2.bufs[idx as int] == self.bufs@[idx as int]@,
                        self.bufs@[idx as int]@.len() == FRAME,
                        (idx as int) < self.bufs@.len(),
                        out@.len() == FRAME,
                        out_prev.len() == FRAME,
                        forall|t: int|
                            0 <= t < j ==> out@[t] as int == sat64(
                                out_prev[t] as int + g2.bufs[idx as int][t] as int,
                            ),
                        forall|t: int| j <= t < FRAME ==> out@[t] == out_prev[t],
                    decreases FRAME - j,
                {
                    let v = sat_add(out[j], self.bufs[idx as usize][j]);
                    out.set(j, v);
                    j = j + 1;
                }
                proof {
                    assert(out@ =~= sum_bufs(out_prev, g2.bufs[idx as int]));
                    assert(frame_upto(g0, (k + 1) as int).0 == g2);
                    assert(frame_upto(g0, (k + 1) as int).1 == out@);
                }
            } else {
                proof {
                    assert(frame_upto(g0, (k + 1) as int) == frame_upto(g0, k as int));
                }
            }
            k = k + 1;
        }
        out
    }
}

} // verus!
