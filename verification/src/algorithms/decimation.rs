//! The collapse loop of mesh decimation.
//!
//! Decimation scores candidate edges by a quadric error and tries them cheapest
//! first. The scoring and the ordering are geometry, done by the caller; this module
//! holds the decisions around them: when decimation starts at all, which edges may be
//! candidates, and, for each candidate the caller pops, whether the loop stops, skips
//! it, or collapses it, and which neighbours of the merged vertex become new
//! candidates.
use vstd::prelude::*;
use crate::mesh::construction::{edge_code, lemma_edge_code_injective};
use crate::mesh::halfedge::{HalfEdgeMesh, MeshView, VertexId};
use crate::mesh::topology::{TopologyError, collapse_edge};
use crate::mesh::collapse_laws::law_collapse_vertex_count;
use crate::utils::text::decimal;
use std::collections::HashSet;

verus! {

/// The undirected edge between two vertex ids, smaller id first.
pub open spec fn edge_pair(a: VertexId, b: VertexId) -> (u32, u32) {
    if a.0 <= b.0 {
        (a.0, b.0)
    } else {
        (b.0, a.0)
    }
}

/// Does vertex `v` exist and lie on a boundary?
pub open spec fn boundary_vertex<P>(m: MeshView<P>, v: VertexId) -> bool {
    m.v_live(v.0 as int) && m.vertices[v.0 as int].is_boundary
}

/// The neighbours `ns` of `v` that may still be paired with it: both exist and their
/// edge has not been tried.
pub open spec fn fresh_neighbors<P>(
    m: MeshView<P>,
    tried: Set<(u32, u32)>,
    v: VertexId,
    ns: Seq<VertexId>,
) -> Seq<VertexId>
    decreases ns.len(),
{
    if ns.len() == 0 {
        Seq::empty()
    } else {
        let n = ns.last();
        fresh_neighbors(m, tried, v, ns.drop_last()) + if m.v_live(v.0 as int) && m.v_live(n.0 as int)
            && !tried.contains(edge_pair(v, n)) {
            seq![n]
        } else {
            Seq::empty()
        }
    }
}

/// A neighbour is fresh exactly when it is among `ns`, both it and `v` exist, and
/// its edge with `v` has not been tried: an edge tried before never comes back as a
/// candidate, and every untried edge to an existing neighbour does.
pub proof fn law_fresh_neighbors_untried<P>(
    m: MeshView<P>,
    tried: Set<(u32, u32)>,
    v: VertexId,
    ns: Seq<VertexId>,
)
    ensures
        forall|n: VertexId| #[trigger]
            fresh_neighbors(m, tried, v, ns).contains(n) <==> (ns.contains(n) && m.v_live(v.0 as int)
                && m.v_live(n.0 as int) && !tried.contains(edge_pair(v, n))),
    decreases ns.len(),
{
    if ns.len() > 0 {
        let d = ns.drop_last();
        let last = ns.last();
        law_fresh_neighbors_untried(m, tried, v, d);
        let f0 = fresh_neighbors(m, tried, v, d);
        let keep = m.v_live(v.0 as int) && m.v_live(last.0 as int) && !tried.contains(edge_pair(v, last));
        let tail = if keep {
            seq![last]
        } else {
            Seq::<VertexId>::empty()
        };
        let f = fresh_neighbors(m, tried, v, ns);
        assert(f == f0 + tail);
        assert forall|n: VertexId|
            #[trigger] f.contains(n) <==> (ns.contains(n) && m.v_live(v.0 as int) && m.v_live(n.0 as int)
                && !tried.contains(edge_pair(v, n))) by {
            if f.contains(n) {
                let i = choose|i: int| 0 <= i < f.len() && f[i] == n;
                if i < f0.len() {
                    assert(f0[i] == n);
                    assert(f0.contains(n));
                    let j = choose|j: int| 0 <= j < d.len() && d[j] == n;
                    assert(ns[j] == n);
                } else {
                    assert(tail[i - f0.len()] == n);
                    assert(n == last);
                    assert(ns[ns.len() - 1] == n);
                }
            }
            if ns.contains(n) && m.v_live(v.0 as int) && m.v_live(n.0 as int) && !tried.contains(edge_pair(v, n)) {
                let j = choose|j: int| 0 <= j < ns.len() && ns[j] == n;
                if j < ns.len() - 1 {
                    assert(d[j] == n);
                    assert(d.contains(n));
                    assert(f0.contains(n));
                    let i = choose|i: int| 0 <= i < f0.len() && f0[i] == n;
                    assert(f[i] == n);
                } else {
                    assert(n == last);
                    assert(f[f0.len() as int] == n);
                }
            }
        }
    }
}

/// What one candidate led to.
pub enum CollapseStep {
    /// The loop is over: the iteration cap is passed or the target reached.
    Stop,
    /// The candidate was passed over: a vertex is gone or its edge was tried before.
    Skip,
    /// The edge was collapsed into the vertex; the neighbours listed may be new
    /// candidates with it.
    Collapsed(VertexId, Vec<VertexId>),
    /// The collapse was refused.
    Failed(TopologyError),
}

/// The state of the collapse loop.
pub struct CollapseLoop {
    /// Vertex count to stop at.
    pub target: usize,
    /// Number of candidates that may be popped.
    pub max_iterations: usize,
    /// Candidates popped so far.
    pub iterations: usize,
    /// Codes of the undirected edges tried so far.
    pub tried: HashSet<u64>,
}

impl CollapseLoop {
    /// The edges tried so far.
    pub open spec fn tried(self) -> Set<(u32, u32)> {
        Set::new(|k: (u32, u32)| k.0 <= k.1 && self.tried@.contains(edge_code(k.0, k.1)))
    }

    /// Does decimation to `target` vertices reduce a mesh of `vertex_count` vertices at
    /// all? It does nothing unless the target is below the vertex count.
    pub fn reduces(vertex_count: usize, target: usize) -> (r: bool)
        ensures
            r == (target < vertex_count),
    {
        target < vertex_count
    }

    /// Start the loop for a mesh of `vertex_count` vertices, to be brought down to
    /// `target`, with `candidates` candidate edges. There is nothing to do when the
    /// target is not below the vertex count or there is no candidate; otherwise up to
    /// twice as many candidates as there are may be popped.
    pub fn start(vertex_count: usize, target: usize, candidates: usize) -> (r: Option<Self>)
        requires
            candidates <= usize::MAX / 2,
        ensures
            r is None <==> (target >= vertex_count || candidates == 0),
            r matches Some(l) ==> l.target == target && l.max_iterations == 2 * candidates
                && l.iterations == 0 && l.tried() == Set::<(u32, u32)>::empty(),
    {
        if target >= vertex_count || candidates == 0 {
            return None;
        }
        let l = CollapseLoop { target, max_iterations: candidates * 2, iterations: 0, tried: HashSet::new() };
        proof {
            assert(l.tried() =~= Set::<(u32, u32)>::empty());
        }
        Some(l)
    }

    /// Try the candidate edge `v0 -> v1`, to be merged at `position`; `inverts` tells
    /// whether moving the merged vertex there would turn a face over.
    pub fn try_candidate<P>(
        &mut self,
        mesh: &mut HalfEdgeMesh<P>,
        v0: VertexId,
        v1: VertexId,
        position: P,
        inverts: bool,
    ) -> (r: CollapseStep)
        requires
            old(mesh).wf(),
            old(self).iterations < usize::MAX,
        ensures
            final(mesh).wf(),
            final(self).target == old(self).target,
            final(self).max_iterations == old(self).max_iterations,
            final(self).iterations == old(self).iterations + 1,
            final(self).iterations > old(self).max_iterations || old(mesh)@.vertex_count() <= old(self).target
                ==> r is Stop && final(mesh)@ == old(mesh)@ && final(self).tried() == old(self).tried(),
            final(self).iterations <= old(self).max_iterations && old(mesh)@.vertex_count() > old(self).target
                && (!old(mesh)@.v_live(v0.0 as int) || !old(mesh)@.v_live(v1.0 as int) || old(self).tried().contains(
                edge_pair(v0, v1),
            )) ==> r is Skip && final(mesh)@ == old(mesh)@ && final(self).tried() == old(self).tried(),
            final(self).iterations <= old(self).max_iterations && old(mesh)@.vertex_count() > old(self).target
                && old(mesh)@.v_live(v0.0 as int) && old(mesh)@.v_live(v1.0 as int) && !old(self).tried().contains(
                edge_pair(v0, v1),
            ) ==> {
                &&& final(self).tried() == old(self).tried().insert(edge_pair(v0, v1))
                &&& (old(mesh)@.find_edge(v0.0 as int, v1.0 as int) is Some && old(mesh)@.collapse_link_ok(
                    v0.0 as int,
                    v1.0 as int,
                ) && !inverts) ==> final(mesh)@ == old(mesh)@.collapsed(v0.0 as int, v1.0 as int, position)
                    && (r matches CollapseStep::Collapsed(m, ns) && m == v0 && ns@ == fresh_neighbors(
                    final(mesh)@,
                    final(self).tried(),
                    v0,
                    final(mesh)@.neighbors(v0.0 as int),
                ) && (forall|n: VertexId| #[trigger] ns@.contains(n) <==> (final(mesh)@.neighbors(
                    v0.0 as int,
                ).contains(n) && final(mesh)@.v_live(n.0 as int) && !final(self).tried().contains(
                    edge_pair(v0, n),
                ))))
                &&& old(mesh)@.find_edge(v0.0 as int, v1.0 as int) is None && !old(mesh)@.edge_between(v0.0 as int, v1.0 as int)
                    ==> final(mesh)@ == old(mesh)@ && (r matches CollapseStep::Failed(TopologyError::InvalidEdge(msg))
                    && msg@ == "No edge between vertices "@ + decimal(v0.0 as nat) + " and "@ + decimal(v1.0 as nat))
                &&& old(mesh)@.find_edge(v0.0 as int, v1.0 as int) is None && old(mesh)@.edge_between(v0.0 as int, v1.0 as int)
                    ==> final(mesh)@ == old(mesh)@ && (r matches CollapseStep::Failed(TopologyError::BoundaryEdge))
                &&& (old(mesh)@.find_edge(v0.0 as int, v1.0 as int) is Some && (!old(mesh)@.collapse_link_ok(
                    v0.0 as int,
                    v1.0 as int,
                ) || inverts)) ==> final(mesh)@ == old(mesh)@ && (r matches CollapseStep::Failed(
                    TopologyError::NonManifoldCollapse,
                ))
            },
    {
        self.iterations = self.iterations + 1;
        if self.iterations > self.max_iterations {
            return CollapseStep::Stop;
        }
        if mesh.vertex_count() <= self.target {
            return CollapseStep::Stop;
        }
        if mesh.vertex(v0).is_none() || mesh.vertex(v1).is_none() {
            return CollapseStep::Skip;
        }
        let key = Self::key(v0, v1);
        if self.tried.contains(&key) {
            return CollapseStep::Skip;
        }
        let ghost before = self.tried();
        self.tried.insert(key);
        proof {
            let k = edge_pair(v0, v1);
            assert forall|x: (u32, u32)| #[trigger] self.tried().contains(x) == before.insert(k).contains(x) by {
                lemma_edge_code_injective(x.0, x.1, k.0, k.1);
            }
            assert(self.tried() =~= before.insert(k));
        }
        match collapse_edge(mesh, v0, v1, position, inverts) {
            Ok(merged) => {
                let ns = mesh.vertex_neighbors(merged);
                let fresh = self.fresh(mesh, merged, &ns);
                proof {
                    law_fresh_neighbors_untried(mesh@, self.tried(), merged, ns@);
                }
                CollapseStep::Collapsed(merged, fresh)
            },
            Err(e) => CollapseStep::Failed(e),
        }
    }

    /// The code of the undirected edge `a - b`.
    fn key(a: VertexId, b: VertexId) -> (k: u64)
        ensures
            k == edge_code(edge_pair(a, b).0, edge_pair(a, b).1),
    {
        let lo = if a.0 <= b.0 { a.0 } else { b.0 };
        let hi = if a.0 <= b.0 { b.0 } else { a.0 };
        ((lo as u64) << 32u64) | (hi as u64)
    }

    /// Was the edge `a - b` tried?
    fn was_tried(&self, a: VertexId, b: VertexId) -> (r: bool)
        ensures
            r == self.tried().contains(edge_pair(a, b)),
    {
        let k = Self::key(a, b);
        self.tried.contains(&k)
    }

    /// The neighbours `ns` of `v` that may still be paired with it.
    fn fresh<P>(&self, mesh: &HalfEdgeMesh<P>, v: VertexId, ns: &Vec<VertexId>) -> (r: Vec<VertexId>)
        requires
            mesh.wf(),
        ensures
            r@ == fresh_neighbors(mesh@, self.tried(), v, ns@),
            forall|n: VertexId| #[trigger] r@.contains(n) <==> (ns@.contains(n) && mesh@.v_live(v.0 as int)
                && mesh@.v_live(n.0 as int) && !self.tried().contains(edge_pair(v, n))),
    {
        let mut out: Vec<VertexId> = Vec::new();
        let mut i: usize = 0;
        proof {
            assert(ns@.take(0) =~= Seq::<VertexId>::empty());
        }
        while i < ns.len()
            invariant
                i <= ns@.len(),
                mesh.wf(),
                out@ == fresh_neighbors(mesh@, self.tried(), v, ns@.take(i as int)),
            decreases ns.len() - i,
        {
            let n = ns[i];
            proof {
                assert(ns@.take(i + 1).drop_last() =~= ns@.take(i as int));
            }
            if mesh.vertex(v).is_some() && mesh.vertex(n).is_some() && !self.was_tried(v, n) {
                out.push(n);
            }
            proof {
                assert(out@ =~= fresh_neighbors(mesh@, self.tried(), v, ns@.take(i + 1)));
            }
            i = i + 1;
        }
        proof {
            assert(ns@.take(ns@.len() as int) =~= ns@);
            law_fresh_neighbors_untried(mesh@, self.tried(), v, ns@);
        }
        out
    }
}

/// May the edge `v0 - v1` be a decimation candidate? When boundaries are preserved,
/// an edge between two boundary vertices may not.
pub fn admits_edge<P>(mesh: &HalfEdgeMesh<P>, v0: VertexId, v1: VertexId, preserve_boundary: bool) -> (r: bool)
    requires
        mesh.wf(),
    ensures
        r == !(preserve_boundary && boundary_vertex(mesh@, v0) && boundary_vertex(mesh@, v1)),
{
    if preserve_boundary {
        let b0 = match mesh.vertex(v0) {
            Some(v) => v.is_boundary,
            None => false,
        };
        let b1 = match mesh.vertex(v1) {
            Some(v) => v.is_boundary,
            None => false,
        };
        if b0 && b1 {
            return false;
        }
    }
    true
}

/// A collapse in the loop never takes the mesh below the target: it happens only while
/// the mesh has more vertices than the target, and it removes exactly one.
pub proof fn law_collapse_keeps_target<P>(m: MeshView<P>, v0: VertexId, v1: VertexId, target: nat, position: P)
    requires
        m.wf(),
        m.vertex_count() > target,
        m.v_live(v1.0 as int),
        m.find_edge(v0.0 as int, v1.0 as int) is Some,
    ensures
        m.collapsed(v0.0 as int, v1.0 as int, position).vertex_count() == m.vertex_count() - 1,
        m.collapsed(v0.0 as int, v1.0 as int, position).vertex_count() >= target,
{
    law_collapse_vertex_count(m, v0.0 as int, v1.0 as int, position);
}

} // verus!
