//! Mesh quality report: face kinds, boundary edges and poles.
//!
//! Checks for the mesh problems that matter for animation: n-gons (faces with more
//! than four sides), degenerate faces, non-manifold edges and poles (vertices with
//! more than six edges).
use vstd::prelude::*;
use crate::mesh::halfedge::{FaceId, HalfEdgeMesh, MeshView, VertexId};

verus! {

/// Topological quality report of a mesh.
#[derive(Debug, Clone)]
pub struct MeshQualityReport {
    pub vertex_count: usize,
    pub face_count: usize,
    pub triangle_count: usize,
    pub quad_count: usize,
    pub ngon_count: usize,
    pub boundary_edge_count: usize,
    pub non_manifold_edges: Vec<(u32, u32)>,
    pub degenerate_faces: Vec<FaceId>,
    pub flipped_faces: Vec<FaceId>,
    /// (vertex, edge count) for every vertex with more than six edges.
    pub poles: Vec<(VertexId, usize)>,
}

/// Largest edge count a vertex may have before it counts as a pole.
pub const MAX_POLE_VALENCE: usize = 6;

impl<P> MeshView<P> {
    /// Number of faces among `fs` with exactly `n` vertices (`n` of 3 or 4), or with
    /// any other count (`n` of 0).
    pub open spec fn count_kind(self, fs: Seq<int>, n: nat) -> nat
        decreases fs.len(),
    {
        if fs.len() == 0 {
            0
        } else {
            let k = self.face_verts(fs.last()).len();
            let hit = if n == 0 {
                k != 3 && k != 4
            } else {
                k == n
            };
            self.count_kind(fs.drop_last(), n) + if hit {
                1nat
            } else {
                0nat
            }
        }
    }

    /// Number of live half-edges below `j` without a twin.
    pub open spec fn boundary_halfedges_below(self, j: nat) -> nat
        decreases j,
    {
        if j == 0 {
            0
        } else {
            self.boundary_halfedges_below((j - 1) as nat) + if self.he_live(j - 1)
                && self.halfedges[j - 1].twin is None {
                1nat
            } else {
                0nat
            }
        }
    }

    /// The live half-edges with an index below `j` that have no twin.
    pub open spec fn open_halfedges_below(self, j: int) -> Set<int> {
        Set::new(|h: int| h < j && self.he_live(h) && self.halfedges[h].twin is None)
    }

    /// The live half-edges that have no twin: the boundary of the mesh.
    pub open spec fn open_halfedges(self) -> Set<int> {
        Set::new(|h: int| self.he_live(h) && self.halfedges[h].twin is None)
    }

    /// The poles among vertices `vs`: each with its number of neighbours, in order.
    pub open spec fn poles_of(self, vs: Seq<int>) -> Seq<(VertexId, usize)>
        decreases vs.len(),
    {
        if vs.len() == 0 {
            Seq::empty()
        } else {
            let v = vs.last();
            let n = self.neighbors(v).len();
            self.poles_of(vs.drop_last()) + if n > MAX_POLE_VALENCE {
                seq![(VertexId(v as u32), n as usize)]
            } else {
                Seq::empty()
            }
        }
    }
}

impl MeshQualityReport {
    /// Ready for animation: no n-gons, no non-manifold edges, no degenerate faces and
    /// no vertex with more than six edges.
    pub open spec fn animation_ready(self) -> bool {
        &&& self.ngon_count == 0
        &&& self.non_manifold_edges@.len() == 0
        &&& self.degenerate_faces@.len() == 0
        &&& forall|i: int| 0 <= i < self.poles@.len() ==> (#[trigger] self.poles@[i]).1 <= MAX_POLE_VALENCE
    }

    pub fn is_animation_ready(&self) -> (r: bool)
        ensures
            r == self.animation_ready(),
    {
        if self.ngon_count != 0 || self.non_manifold_edges.len() != 0 || self.degenerate_faces.len() != 0 {
            return false;
        }
        let mut i: usize = 0;
        while i < self.poles.len()
            invariant
                i <= self.poles@.len(),
                forall|j: int| 0 <= j < i ==> (#[trigger] self.poles@[j]).1 <= MAX_POLE_VALENCE,
            decreases self.poles.len() - i,
        {
            if self.poles[i].1 > MAX_POLE_VALENCE {
                return false;
            }
            i = i + 1;
        }
        true
    }
}

/// The checks of animation readiness, in the order they are reported.
#[derive(Debug, Clone, Copy, PartialEq, Eq, Structural)]
pub enum ReadinessCheck {
    /// No face has more than four sides.
    NoNgons,
    /// No edge carries more than two faces.
    NoNonManifoldEdges,
    /// No face has (almost) zero area.
    NoDegenerateFaces,
    /// No vertex has more than six edges.
    NoExcessivePoles,
    /// No edge lies on a boundary.
    Watertight,
}

/// The outcome of one check: whether it passed, and how many offending elements there
/// are (n-gons, non-manifold edges, degenerate faces, poles with more than six edges,
/// boundary half-edges).
#[derive(Debug, Clone, Copy, PartialEq, Eq, Structural)]
pub struct CheckOutcome {
    pub check: ReadinessCheck,
    pub passed: bool,
    pub count: usize,
}

/// Number of poles among `poles` with more than six edges.
pub open spec fn excessive_poles(poles: Seq<(VertexId, usize)>) -> nat
    decreases poles.len(),
{
    if poles.len() == 0 {
        0
    } else {
        excessive_poles(poles.drop_last()) + if poles.last().1 > MAX_POLE_VALENCE {
            1nat
        } else {
            0nat
        }
    }
}

/// The outcome of every readiness check, in order.
pub open spec fn readiness(r: MeshQualityReport, watertight: bool) -> Seq<CheckOutcome> {
    seq![
        CheckOutcome { check: ReadinessCheck::NoNgons, passed: r.ngon_count == 0, count: r.ngon_count },
        CheckOutcome {
            check: ReadinessCheck::NoNonManifoldEdges,
            passed: r.non_manifold_edges@.len() == 0,
            count: r.non_manifold_edges@.len() as usize,
        },
        CheckOutcome {
            check: ReadinessCheck::NoDegenerateFaces,
            passed: r.degenerate_faces@.len() == 0,
            count: r.degenerate_faces@.len() as usize,
        },
        CheckOutcome {
            check: ReadinessCheck::NoExcessivePoles,
            passed: excessive_poles(r.poles@) == 0,
            count: excessive_poles(r.poles@) as usize,
        },
        CheckOutcome { check: ReadinessCheck::Watertight, passed: watertight, count: r.boundary_edge_count },
    ]
}

proof fn lemma_excessive_poles_zero(poles: Seq<(VertexId, usize)>)
    ensures
        (excessive_poles(poles) == 0) <==> (forall|i: int| 0 <= i < poles.len() ==> (#[trigger] poles[i]).1 <= MAX_POLE_VALENCE),
    decreases poles.len(),
{
    if poles.len() > 0 {
        let d = poles.drop_last();
        lemma_excessive_poles_zero(d);
        if excessive_poles(poles) == 0 {
            assert forall|i: int| 0 <= i < poles.len() implies (#[trigger] poles[i]).1 <= MAX_POLE_VALENCE by {
                if i < poles.len() - 1 {
                    assert(poles[i] == d[i]);
                }
            }
        }
        if forall|i: int| 0 <= i < poles.len() ==> (#[trigger] poles[i]).1 <= MAX_POLE_VALENCE {
            assert forall|i: int| 0 <= i < d.len() implies (#[trigger] d[i]).1 <= MAX_POLE_VALENCE by {
                assert(d[i] == poles[i]);
            }
            assert(poles[poles.len() - 1].1 <= MAX_POLE_VALENCE);
        }
    }
}

proof fn lemma_boundary_below<P>(m: MeshView<P>, j: nat)
    ensures
        m.open_halfedges_below(j as int).finite(),
        m.boundary_halfedges_below(j) == m.open_halfedges_below(j as int).len(),
        (m.boundary_halfedges_below(j) == 0) <==> (forall|h: int|
            #![trigger m.halfedges[h]]
            h < j && m.he_live(h) ==> m.halfedges[h].twin is Some),
    decreases j,
{
    let s = m.open_halfedges_below(j as int);
    if j == 0 {
        assert(s =~= Set::<int>::empty());
    } else {
        let i = j - 1;
        lemma_boundary_below(m, i as nat);
        let s0 = m.open_halfedges_below(i);
        if m.he_live(i) && m.halfedges[i].twin is None {
            assert(s =~= s0.insert(i));
            assert(!s0.contains(i));
        } else {
            assert(s =~= s0);
        }
        if m.boundary_halfedges_below(j) == 0 {
            assert forall|h: int| #![trigger m.halfedges[h]] h < j && m.he_live(h) implies m.halfedges[h].twin is Some by {
                if h < i {
                    assert(m.halfedges[h].twin is Some);
                }
            }
        }
    }
}

/// The boundary count of a mesh counts its live half-edges without a twin, whatever
/// free slots the mesh holds; it is zero exactly when the mesh is watertight.
pub proof fn law_boundary_count_counts_open_halfedges<P>(m: MeshView<P>)
    ensures
        m.open_halfedges().finite(),
        m.boundary_halfedges_below(m.halfedges.len()) == m.open_halfedges().len(),
        (m.boundary_halfedges_below(m.halfedges.len()) == 0) <==> m.watertight(),
{
    let n = m.halfedges.len();
    lemma_boundary_below(m, n);
    assert(m.open_halfedges_below(n as int) =~= m.open_halfedges());
    if m.boundary_halfedges_below(n) == 0 {
        assert forall|h: int| #![trigger m.halfedges[h]] m.he_live(h) implies m.halfedges[h].twin is Some by {
            assert(h < n);
        }
    }
}

/// A report is animation-ready exactly when its first four readiness checks pass
/// (watertightness is reported but not required).
pub proof fn law_ready_iff_checks_pass(r: MeshQualityReport, watertight: bool)
    ensures
        r.animation_ready() <==> (forall|i: int| 0 <= i < 4 ==> (#[trigger] readiness(r, watertight)[i]).passed),
{
    lemma_excessive_poles_zero(r.poles@);
    let c = readiness(r, watertight);
    if forall|i: int| 0 <= i < 4 ==> (#[trigger] readiness(r, watertight)[i]).passed {
        assert(c[0].passed && c[1].passed && c[2].passed && c[3].passed);
    }
}

impl MeshQualityReport {
    /// The readiness checks of the report, for a mesh that is `watertight` or not.
    pub fn readiness_checks(&self, watertight: bool) -> (r: Vec<CheckOutcome>)
        ensures
            r@ == readiness(*self, watertight),
    {
        let mut bad: usize = 0;
        let mut i: usize = 0;
        proof {
            assert(self.poles@.take(0) =~= Seq::<(VertexId, usize)>::empty());
        }
        while i < self.poles.len()
            invariant
                i <= self.poles@.len(),
                bad == excessive_poles(self.poles@.take(i as int)),
                bad <= i,
            decreases self.poles.len() - i,
        {
            proof {
                assert(self.poles@.take(i + 1).drop_last() =~= self.poles@.take(i as int));
            }
            if self.poles[i].1 > MAX_POLE_VALENCE {
                bad = bad + 1;
            }
            i = i + 1;
        }
        proof {
            assert(self.poles@.take(self.poles@.len() as int) =~= self.poles@);
        }
        let r = vec![
            CheckOutcome { check: ReadinessCheck::NoNgons, passed: self.ngon_count == 0, count: self.ngon_count },
            CheckOutcome {
                check: ReadinessCheck::NoNonManifoldEdges,
                passed: self.non_manifold_edges.len() == 0,
                count: self.non_manifold_edges.len(),
            },
            CheckOutcome {
                check: ReadinessCheck::NoDegenerateFaces,
                passed: self.degenerate_faces.len() == 0,
                count: self.degenerate_faces.len(),
            },
            CheckOutcome { check: ReadinessCheck::NoExcessivePoles, passed: bad == 0, count: bad },
            CheckOutcome { check: ReadinessCheck::Watertight, passed: watertight, count: self.boundary_edge_count },
        ];
        proof {
            assert(r@ =~= readiness(*self, watertight));
        }
        r
    }
}

/// Build the quality report of a mesh. `degenerate_faces` are the faces found to have
/// (almost) zero area, which the geometry decides.
pub fn analyze_mesh<P>(mesh: &HalfEdgeMesh<P>, degenerate_faces: Vec<FaceId>) -> (r: MeshQualityReport)
    requires
        mesh.wf(),
    ensures
        r.vertex_count == mesh@.vertex_count(),
        r.face_count == mesh@.face_count(),
        r.triangle_count == mesh@.count_kind(mesh@.live_face_ids(), 3),
        r.quad_count == mesh@.count_kind(mesh@.live_face_ids(), 4),
        r.ngon_count == mesh@.count_kind(mesh@.live_face_ids(), 0),
        r.boundary_edge_count == mesh@.boundary_halfedges_below(mesh@.halfedges.len()),
        r.boundary_edge_count == mesh@.open_halfedges().len(),
        (r.boundary_edge_count == 0) <==> mesh@.watertight(),
        r.non_manifold_edges@.len() == 0,
        r.degenerate_faces@ == degenerate_faces@,
        r.flipped_faces@.len() == 0,
        r.poles@ == mesh@.poles_of(mesh@.live_vertex_ids()),
        r.triangle_count + r.quad_count + r.ngon_count == r.face_count,
{
    let ghost m = mesh@;
    let faces = mesh.faces();
    let mut triangle_count: usize = 0;
    let mut quad_count: usize = 0;
    let mut ngon_count: usize = 0;
    let ghost ids = m.live_face_ids();
    let mut i: usize = 0;
    while i < faces.len()
        invariant
            i <= faces@.len(),
            mesh.wf(),
            m == mesh@,
            ids == m.live_face_ids(),
            faces@.len() == ids.len(),
            forall|k: int| 0 <= k < faces@.len() ==> (#[trigger] faces@[k]).0.0 as int == ids[k],
            triangle_count == m.count_kind(ids.take(i as int), 3),
            quad_count == m.count_kind(ids.take(i as int), 4),
            ngon_count == m.count_kind(ids.take(i as int), 0),
            triangle_count + quad_count + ngon_count == i,
        decreases faces.len() - i,
    {
        let fid = faces[i].0;
        let verts = mesh.face_vertices(fid);
        proof {
            assert(ids.take(i + 1).drop_last() =~= ids.take(i as int));
            assert(fid.0 as int == ids[i as int]);
        }
        if verts.len() == 3 {
            triangle_count = triangle_count + 1;
        } else if verts.len() == 4 {
            quad_count = quad_count + 1;
        } else {
            ngon_count = ngon_count + 1;
        }
        i = i + 1;
    }
    proof {
        assert(ids.take(ids.len() as int) =~= ids);
        lemma_live_face_ids_len(m);
    }
    let hn = mesh.halfedge_slots();
    let mut boundary_edge_count: usize = 0;
    let mut j: usize = 0;
    while j < hn
        invariant
            j <= hn,
            hn == m.halfedges.len(),
            mesh.wf(),
            m == mesh@,
            boundary_edge_count == m.boundary_halfedges_below(j as nat),
            boundary_edge_count <= j,
        decreases hn - j,
    {
        match mesh.halfedge(crate::mesh::halfedge::HalfEdgeId(j as u32)) {
            Some(he) => {
                if he.twin.is_none() {
                    boundary_edge_count = boundary_edge_count + 1;
                }
            },
            None => {},
        }
        j = j + 1;
    }
    proof {
        law_boundary_count_counts_open_halfedges(m);
    }
    let verts = mesh.vertices();
    let ghost vids = m.live_vertex_ids();
    let mut poles: Vec<(VertexId, usize)> = Vec::new();
    let mut k: usize = 0;
    while k < verts.len()
        invariant
            k <= verts@.len(),
            mesh.wf(),
            m == mesh@,
            vids == m.live_vertex_ids(),
            verts@.len() == vids.len(),
            forall|x: int| 0 <= x < verts@.len() ==> (#[trigger] verts@[x]).0.0 as int == vids[x],
            poles@ == m.poles_of(vids.take(k as int)),
        decreases verts.len() - k,
    {
        let vid = verts[k].0;
        let neighbors = mesh.vertex_neighbors(vid);
        proof {
            assert(vids.take(k + 1).drop_last() =~= vids.take(k as int));
            assert(vid.0 as int == vids[k as int]);
            assert(VertexId(vids[k as int] as u32) == vid);
        }
        if neighbors.len() > MAX_POLE_VALENCE {
            poles.push((vid, neighbors.len()));
        }
        proof {
            assert(poles@ =~= m.poles_of(vids.take(k + 1)));
        }
        k = k + 1;
    }
    proof {
        assert(vids.take(vids.len() as int) =~= vids);
    }
    MeshQualityReport {
        vertex_count: mesh.vertex_count(),
        face_count: mesh.face_count(),
        triangle_count,
        quad_count,
        ngon_count,
        boundary_edge_count,
        non_manifold_edges: Vec::new(),
        degenerate_faces,
        flipped_faces: Vec::new(),
        poles,
    }
}

/// Is the topology suitable for Catmull-Clark subdivision: is every face a quad?
pub fn is_subdiv_ready<P>(mesh: &HalfEdgeMesh<P>) -> (r: bool)
    requires
        mesh.wf(),
    ensures
        r <==> forall|f: int| #[trigger] mesh@.f_live(f) ==> mesh@.face_verts(f).len() == 4,
{
    let n = mesh.face_slots();
    let mut i: usize = 0;
    while i < n
        invariant
            i <= n,
            n == mesh@.faces.len(),
            mesh.wf(),
            forall|f: int| 0 <= f < i && #[trigger] mesh@.f_live(f) ==> mesh@.face_verts(f).len() == 4,
        decreases n - i,
    {
        let fid = FaceId(i as u32);
        if mesh.face(fid).is_some() {
            let verts = mesh.face_vertices(fid);
            if verts.len() != 4 {
                return false;
            }
        }
        i = i + 1;
    }
    true
}

proof fn lemma_ids_below_len<P>(keep: spec_fn(int) -> bool, n: nat)
    ensures
        MeshView::<P>::ids_below(keep, n).len() == Set::new(|i: int| 0 <= i < n && keep(i)).len(),
        Set::new(|i: int| 0 <= i < n && keep(i)).finite(),
    decreases n,
{
    let s = Set::new(|i: int| 0 <= i < n && keep(i));
    if n == 0 {
        assert(s =~= Set::<int>::empty());
    } else {
        lemma_ids_below_len::<P>(keep, (n - 1) as nat);
        let t = Set::new(|i: int| 0 <= i < n - 1 && keep(i));
        if keep(n - 1) {
            assert(s =~= t.insert(n - 1));
        } else {
            assert(s =~= t);
        }
    }
}

/// There are as many live face ids as live faces.
proof fn lemma_live_face_ids_len<P>(m: MeshView<P>)
    requires
        m.wf(),
    ensures
        m.live_face_ids().len() == m.face_count(),
{
    lemma_ids_below_len::<P>(|f: int| m.f_live(f), m.faces.len());
    crate::mesh::halfedge::lemma_free_list_len(m.free_faces, m.faces.len());
    assert(Set::new(|i: int| 0 <= i < m.faces.len() && (|f: int| m.f_live(f))(i)) =~= Set::new(
        |i: int| 0 <= i < m.faces.len() && !m.free_faces.contains(i as u32),
    ));
}

} // verus!
