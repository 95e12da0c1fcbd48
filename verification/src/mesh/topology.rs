//! Topology operations: edge collapse and edge flip.
use vstd::prelude::*;
use crate::mesh::halfedge::{FaceId, HalfEdge, HalfEdgeId, HalfEdgeMesh, MeshError, MeshView, VertexId};
use crate::mesh::traversal::{ids, lemma_first_to, lemma_outgoing};
use crate::utils::text::{decimal, push_decimal};

verus! {

/// Errors of the topology operations.
#[derive(Debug, Clone)]
pub enum TopologyError {
    NonManifoldCollapse,
    InvalidFlip,
    DegenerateFace,
    BoundaryEdge,
    InvalidEdge(String),
    InvalidTopology(String),
    MeshError(MeshError),
}

/// Index of an optional face, or -1.
pub open spec fn face_index(f: Option<FaceId>) -> int {
    match f {
        Some(x) => x.0 as int,
        None => -1,
    }
}

/// `acc` followed by the entries of `xs` it does not hold yet, each once, in order.
pub open spec fn append_new(acc: Seq<FaceId>, xs: Seq<FaceId>) -> Seq<FaceId>
    decreases xs.len(),
{
    if xs.len() == 0 {
        acc
    } else {
        let r = append_new(acc, xs.drop_last());
        if r.contains(xs.last()) {
            r
        } else {
            r.push(xs.last())
        }
    }
}

impl<P> MeshView<P> {

    /// The half-edge `v0 -> v1` found by `find_edge`.
    pub open spec fn edge_first(self, v0: int, v1: int) -> int {
        match self.find_edge(v0, v1) {
            Some(p) => p.0,
            None => -1,
        }
    }

    /// The twin of the half-edge `v0 -> v1` found by `find_edge`.
    pub open spec fn edge_second(self, v0: int, v1: int) -> int {
        match self.find_edge(v0, v1) {
            Some(p) => p.1,
            None => -1,
        }
    }

    /// Point every half-edge of `hs` except `skip` at origin `v`, in order.
    pub open spec fn set_origins(self, hs: Seq<int>, skip: int, v: VertexId) -> Self
        decreases hs.len(),
    {
        if hs.len() == 0 {
            self
        } else {
            let m = self.set_origins(hs.drop_last(), skip, v);
            if hs.last() == skip {
                m
            } else {
                m.set_origin(hs.last(), v)
            }
        }
    }

    /// Close the gap half-edge `h` leaves in face `f`: its neighbours link to each
    /// other, and the face takes the one after it.
    pub open spec fn patch(self, f: int, h: int) -> Self {
        let prev = self.halfedges[h].prev;
        let next = self.halfedges[h].next;
        self.set_next(prev.0 as int, next).set_prev(next.0 as int, prev).set_face_he(f, next)
    }

    /// The twins of `x` and `y` (either may be missing) become twins of each other:
    /// the half-edges across the two other sides of a triangle that goes away.
    pub open spec fn join_twins(self, x: int, y: int) -> Self {
        let tx = self.halfedges[x].twin;
        let ty = self.halfedges[y].twin;
        let r1 = match tx {
            Some(t) => self.set_twin(t.0 as int, ty),
            None => self,
        };
        match ty {
            Some(t) => r1.set_twin(t.0 as int, tx),
            None => r1,
        }
    }

    /// The face `f` of half-edge `h` is a triangle.
    pub open spec fn tri_side(self, h: int, f: Option<FaceId>) -> bool {
        f is Some && self.halfedges[self.halfedges[h].next.0 as int].next == self.halfedges[h].prev
    }

    /// Take away the triangle `f` beside a collapsed half-edge `h`: the twins across
    /// its two other sides are joined, those two half-edges and the face are deleted,
    /// and its far corner, if it started at one of them, starts at the joined twin.
    pub open spec fn drop_triangle(self, h: int, f: Option<FaceId>) -> Self {
        let n = self.halfedges[h].next.0 as int;
        let p = self.halfedges[h].prev.0 as int;
        let c = self.halfedges[p].origin.0 as int;
        let m1 = self.join_twins(n, p);
        let m2 = if m1.v_live(c) && m1.vertices[c].halfedge == Some(HalfEdgeId(p as u32)) {
            m1.set_vertex_he(c, self.halfedges[n].twin)
        } else {
            m1
        };
        m2.delete_face(face_index(f)).delete_halfedge(n).delete_halfedge(p)
    }

    /// A half-edge that leaves the merged vertex after a collapse: across the removed
    /// triangle on `a`'s side, or `a`'s successor when that face stays, else the same
    /// on `b`'s side.
    pub open spec fn merged_start(self, a: int, b: int, f01: Option<FaceId>, f10: Option<FaceId>) -> Option<HalfEdgeId> {
        let ca = if self.tri_side(a, f01) {
            self.halfedges[self.halfedges[a].prev.0 as int].twin
        } else if f01 is Some {
            Some(self.halfedges[a].next)
        } else {
            None
        };
        let cb = if self.tri_side(b, f10) {
            self.halfedges[self.halfedges[b].prev.0 as int].twin
        } else if f10 is Some {
            Some(self.halfedges[b].next)
        } else {
            None
        };
        if ca is Some {
            ca
        } else {
            cb
        }
    }

    /// The link condition of a collapse: `v0` and `v1` share exactly the faces on either
    /// side of the edge (one face for a boundary edge, two otherwise).
    pub open spec fn collapse_link_ok(self, v0: int, v1: int) -> bool {
        let a = self.edge_first(v0, v1);
        let b = self.edge_second(v0, v1);
        let is_boundary = self.halfedges[a].twin is None || self.halfedges[b].twin is None;
        self.shared_face_count(v0, v1) == if is_boundary {
            1nat
        } else {
            2nat
        }
    }

    /// First stage of a collapse: the half-edges leaving `v1` (but its twin `b`) now
    /// leave `v0`, and the faces on either side of the edge skip its half-edges.
    #[verifier::opaque]
    pub open spec fn collapse_patched(self, v0: int, v1: int, a: int, b: int) -> Self {
        let f01 = self.halfedges[a].face;
        let f10 = self.halfedges[b].face;
        let m1 = self.set_origins(self.outgoing(v1), b, VertexId(v0 as u32));
        let m2 = match f01 {
            Some(f) => m1.patch(f.0 as int, a),
            None => m1,
        };
        match f10 {
            Some(f) => m2.patch(f.0 as int, b),
            None => m2,
        }
    }

    /// Second stage of a collapse: each side of the edge that is a triangle goes away
    /// (its outer twins joined), a side with a longer face keeps it, one side shorter;
    /// `v0` takes a surviving outgoing half-edge and the target payload; the edge's
    /// half-edges and `v1` are deleted; boundary flags are recomputed.
    #[verifier::opaque]
    pub open spec fn collapse_finish(
        self,
        v0: int,
        v1: int,
        a: int,
        b: int,
        f01: Option<FaceId>,
        f10: Option<FaceId>,
        target: P,
    ) -> Self {
        let m1 = if self.tri_side(a, f01) {
            self.drop_triangle(a, f01)
        } else {
            self
        };
        let m2 = if self.tri_side(b, f10) {
            m1.drop_triangle(b, f10)
        } else {
            m1
        };
        let m3 = m2.set_vertex_he(v0, self.merged_start(a, b, f01, f10)).set_position(v0, target);
        m3.delete_halfedge(a).delete_halfedge(b).delete_vertex(v1).with_boundary_flags()
    }

    /// The mesh after merging `v1` into `v0` at `target` across the edge `v0 -> v1`.
    pub open spec fn collapsed(self, v0: int, v1: int, target: P) -> Self {
        let a = self.edge_first(v0, v1);
        let b = self.edge_second(v0, v1);
        self.collapse_patched(v0, v1, a, b).collapse_finish(
            v0,
            v1,
            a,
            b,
            self.halfedges[a].face,
            self.halfedges[b].face,
            target,
        )
    }


    /// The faces of `fs` whose vertex list leaves out `v`, in order.
    pub open spec fn faces_without(self, fs: Seq<FaceId>, v: VertexId) -> Seq<FaceId>
        decreases fs.len(),
    {
        if fs.len() == 0 {
            Seq::empty()
        } else {
            self.faces_without(fs.drop_last(), v) + if self.face_verts(fs.last().0 as int).contains(v) {
                Seq::empty()
            } else {
                seq![fs.last()]
            }
        }
    }

    /// The faces whose shape a collapse of `v0 -> v1` changes without removing them:
    /// faces around `v0` without `v1`, then faces around `v1` without `v0` not yet listed.
    pub open spec fn affected_faces(self, v0: int, v1: int) -> Seq<FaceId> {
        append_new(
            self.faces_without(self.vertex_face_list(v0), VertexId(v1 as u32)),
            self.faces_without(self.vertex_face_list(v1), VertexId(v0 as u32)),
        )
    }

    /// The flip of the edge `v0 -> v1` would stop on a missing element: one of the
    /// half-edges it reads is dead, or `v1` is.
    pub open spec fn flip_panics(self, v0: int, v1: int) -> bool {
        match self.find_edge(v0, v1) {
            None => false,
            Some(p) => {
                let a = p.0;
                let b = p.1;
                let fa = self.halfedges[a].face;
                let fb = self.halfedges[b].face;
                let an = self.halfedges[a].next.0 as int;
                let bn = self.halfedges[b].next.0 as int;
                let h23 = self.halfedges[an].next.0 as int;
                let h03 = self.halfedges[bn].next.0 as int;
                &&& fa is Some && fb is Some
                &&& (!self.he_live(bn) || (self.face_verts(face_index(fa)).len() == 3
                    && self.face_verts(face_index(fb)).len() == 3 && (!self.he_live(h23)
                    || !self.he_live(h03) || (self.halfedges[h23].next.0 == a
                    && self.halfedges[h03].next.0 == b && !self.v_live(v1)))))
            }
        }
    }

    /// The flip can be done: both sides are triangles closing back on the edge.
    pub open spec fn flip_ok(self, v0: int, v1: int) -> bool {
        let a = self.edge_first(v0, v1);
        let b = self.edge_second(v0, v1);
        let an = self.halfedges[a].next.0 as int;
        let bn = self.halfedges[b].next.0 as int;
        &&& self.find_edge(v0, v1) is Some
        &&& self.halfedges[a].face is Some
        &&& self.halfedges[b].face is Some
        &&& self.face_verts(face_index(self.halfedges[a].face)).len() == 3
        &&& self.face_verts(face_index(self.halfedges[b].face)).len() == 3
        &&& self.halfedges[self.halfedges[an].next.0 as int].next.0 == a
        &&& self.halfedges[self.halfedges[bn].next.0 as int].next.0 == b
    }

    /// The rewiring of a flip, given the half-edges it touches: `a` (`v0 -> v1`) and
    /// its twin `b`; `h12`, `h23` after `a` and `h30`, `h03` after `b`; the faces `fa`,
    /// `fb` of `a` and `b`; and the origins `v2`, `v3` given to `a` and `b`.
    #[verifier::opaque]
    pub open spec fn flip_links(
        self,
        v0: int,
        v1: int,
        a: HalfEdgeId,
        b: HalfEdgeId,
        h12: HalfEdgeId,
        h23: HalfEdgeId,
        h30: HalfEdgeId,
        h03: HalfEdgeId,
        fa: Option<FaceId>,
        fb: Option<FaceId>,
        v2: VertexId,
        v3: VertexId,
    ) -> Self {
        let m1 = self.set_next(a.0 as int, h23).set_prev(h23.0 as int, a).set_next(h23.0 as int, h30).set_prev(
            h30.0 as int,
            h23,
        ).set_next(h30.0 as int, a).set_prev(a.0 as int, h30).set_face(a.0 as int, fa).set_face(
            h23.0 as int,
            fa,
        ).set_face(h30.0 as int, fa).set_face_he(face_index(fa), a);
        let m2 = m1.set_next(b.0 as int, h03).set_prev(h03.0 as int, b).set_next(h03.0 as int, h12).set_prev(
            h12.0 as int,
            h03,
        ).set_next(h12.0 as int, b).set_prev(b.0 as int, h12).set_face(b.0 as int, fb).set_face(
            h03.0 as int,
            fb,
        ).set_face(h12.0 as int, fb).set_face_he(face_index(fb), b);
        let m3 = m2.set_origin(a.0 as int, v2).set_origin(b.0 as int, v3);
        let m4 = if m3.vertices[v0].halfedge == Some(a) {
            m3.set_vertex_he(v0, Some(h30))
        } else {
            m3
        };
        let m5 = if m4.vertices[v1].halfedge == Some(b) {
            m4.set_vertex_he(v1, Some(h12))
        } else {
            m4
        };
        m5.with_boundary_flags()
    }

    /// The mesh after flipping the edge `v0 -> v1` inside its two triangles
    /// `v0 -> v1 -> v2` and `v1 -> v0 -> v3`: the edge's half-edges now run `v3 -> v2`
    /// (in `v3 -> v2 -> v0`) and `v2 -> v3` (in `v2 -> v3 -> v1`).
    pub open spec fn flipped(self, v0: int, v1: int) -> Self {
        let a = self.edge_first(v0, v1);
        let b = self.edge_second(v0, v1);
        let h12 = self.halfedges[a].next;
        let h30 = self.halfedges[b].next;
        self.flip_links(
            v0,
            v1,
            HalfEdgeId(a as u32),
            HalfEdgeId(b as u32),
            h12,
            self.halfedges[h12.0 as int].next,
            h30,
            self.halfedges[h30.0 as int].next,
            self.halfedges[a].face,
            self.halfedges[b].face,
            self.halfedges[self.halfedges[h30.0 as int].next.0 as int].origin,
            self.halfedges[self.halfedges[h12.0 as int].next.0 as int].origin,
        )
    }

    /// Number of distinct faces around both `v0` and `v1`.
    pub open spec fn shared_face_count(self, v0: int, v1: int) -> nat {
        self.vertex_face_list(v0).to_set().intersect(self.vertex_face_list(v1).to_set()).len()
    }
}

/// Find the half-edge `v0 -> v1` and its twin.
pub(crate) fn find_edge_halfedges<P>(mesh: &HalfEdgeMesh<P>, v0: VertexId, v1: VertexId) -> (r:
    Option<(HalfEdgeId, HalfEdgeId)>)
    requires
        mesh.wf(),
    ensures
        r == (match mesh@.find_edge(v0.0 as int, v1.0 as int) {
            Some((a, b)) => Some((HalfEdgeId(a as u32), HalfEdgeId(b as u32))),
            None => None,
        }),
{
    let ring = collect_outgoing_halfedges(mesh, v0);
    let ghost m = mesh@;
    let ghost hs = m.outgoing(v0.0 as int);
    proof {
        lemma_outgoing(m, v0.0 as int);
    }
    let mut i: usize = 0;
    while i < ring.len()
        invariant
            i <= ring.len(),
            m == mesh@,
            mesh.wf(),
            ring@ == ids(hs),
            hs == m.outgoing(v0.0 as int),
            forall|j: int| 0 <= j < hs.len() ==> m.usable(#[trigger] hs[j]),
            m.first_to(hs.take(i as int), v1.0 as int) == i,
        decreases ring.len() - i,
    {
        proof {
            assert(ring@[i as int] == HalfEdgeId(hs[i as int] as u32));
            assert(m.usable(hs[i as int]));
            assert(hs.take(i + 1).drop_last() =~= hs.take(i as int));
        }
        let h = ring[i];
        if mesh.target_of(h).0 == v1.0 {
            proof {
                assert(m.first_to(hs.take(i + 1), v1.0 as int) == i);
                lemma_first_to_prefix(m, hs, v1.0 as int, i as int + 1);
            }
            let he = mesh.halfedge(h).unwrap();
            proof {
                assert(h.0 as int == hs[i as int]);
                assert(m.first_to(hs, v1.0 as int) == i);
                assert(hs == m.outgoing(v0.0 as int));
                assert(he.twin == m.halfedges[hs[i as int]].twin);
                if let Some(t) = he.twin {
                    assert(m.find_edge(v0.0 as int, v1.0 as int) == if m.he_live(t.0 as int) { Some((hs[i as int], t.0 as int)) } else { None::<(int, int)> });
                } else {
                    assert(m.find_edge(v0.0 as int, v1.0 as int) == None::<(int, int)>);
                }
            }
            match he.twin {
                Some(t) => {
                    if mesh.halfedge(t).is_some() {
                        return Some((h, t));
                    } else {
                        return None;
                    }
                },
                None => {
                    return None;
                },
            }
        }
        i = i + 1;
    }
    proof {
        assert(hs.take(hs.len() as int) =~= hs);
    }
    None
}

/// Once the first match lies inside a prefix, it is the first match of the whole list.
pub proof fn lemma_first_to_prefix<P>(m: MeshView<P>, hs: Seq<int>, v1: int, n: int)
    requires
        0 <= n <= hs.len(),
        m.first_to(hs.take(n), v1) < n,
    ensures
        m.first_to(hs, v1) == m.first_to(hs.take(n), v1),
    decreases hs.len() - n,
{
    if n < hs.len() {
        assert(hs.take(n + 1).drop_last() =~= hs.take(n));
        lemma_first_to_prefix(m, hs, v1, n + 1);
    } else {
        assert(hs.take(n) =~= hs);
    }
}

/// The outgoing half-edges around a vertex.
pub(crate) fn collect_outgoing_halfedges<P>(mesh: &HalfEdgeMesh<P>, vid: VertexId) -> (r: Vec<
    HalfEdgeId,
>)
    requires
        mesh.wf(),
    ensures
        r@ == ids(mesh@.outgoing(vid.0 as int)),
{
    let ghost m = mesh@;
    let mut out: Vec<HalfEdgeId> = Vec::new();
    if mesh.vertex(vid).is_none() {
        proof {
            assert(ids(m.outgoing(vid.0 as int)) =~= Seq::<HalfEdgeId>::empty());
        }
        return out;
    }
    let n = mesh.halfedge_slots();
    let mut j: usize = 0;
    while j < n
        invariant
            j <= n,
            n == m.halfedges.len(),
            m == mesh@,
            mesh.wf(),
            m.v_live(vid.0 as int),
            out@ == ids(m.out_scan(vid.0 as int, j as nat)),
        decreases n - j,
    {
        let h = HalfEdgeId(j as u32);
        if let Some(he) = mesh.halfedge(h) {
            if mesh.halfedge(he.next).is_some() && he.origin.0 == vid.0 {
                out.push(h);
                proof {
                    assert(ids(m.out_scan(vid.0 as int, (j + 1) as nat)) =~= ids(m.out_scan(vid.0 as int, j as nat)).push(h));
                }
            }
        }
        j = j + 1;
    }
    out
}

/// Number of distinct faces that both `a` and `b` list.
fn count_shared(a: &Vec<FaceId>, b: &Vec<FaceId>) -> (n: usize)
    ensures
        n == a@.to_set().intersect(b@.to_set()).len(),
{
    let mut n: usize = 0;
    let mut i: usize = 0;
    proof {
        assert(a@.take(0).to_set() =~= Set::<FaceId>::empty());
        assert(a@.take(0).to_set().intersect(b@.to_set()) =~= Set::<FaceId>::empty());
    }
    while i < a.len()
        invariant
            i <= a.len(),
            n == a@.take(i as int).to_set().intersect(b@.to_set()).len(),
            n <= i,
        decreases a.len() - i,
    {
        let f = a[i];
        let ghost before = a@.take(i as int).to_set().intersect(b@.to_set());
        proof {
            assert(a@.take(i + 1) =~= a@.take(i as int).push(f));
        }
        let mut seen_before = false;
        let mut j: usize = 0;
        while j < i
            invariant
                j <= i,
                i < a.len(),
                f == a@[i as int],
                seen_before == exists|k: int| 0 <= k < j && a@[k] == f,
            decreases i - j,
        {
            if a[j] == f {
                seen_before = true;
            }
            j = j + 1;
        }
        let mut in_b = false;
        let mut k: usize = 0;
        while k < b.len()
            invariant
                k <= b.len(),
                in_b == exists|x: int| 0 <= x < k && b@[x] == f,
            decreases b.len() - k,
        {
            if b[k] == f {
                in_b = true;
            }
            k = k + 1;
        }
        proof {
            broadcast use vstd::seq_lib::seq_to_set_is_finite;
            broadcast use vstd::set::group_set_axioms;
            a@.take(i as int).lemma_push_to_set_commute(f);
            let after = a@.take(i + 1).to_set().intersect(b@.to_set());
            vstd::set_lib::lemma_len_intersect::<FaceId>(a@.take(i as int).to_set(), b@.to_set());
            if seen_before || !in_b {
                assert(after =~= before) by {
                    if seen_before {
                        let k0 = choose|k0: int| 0 <= k0 < i && a@[k0] == f;
                        assert(a@.take(i as int)[k0] == f);
                    }
                    if !in_b {
                        assert(!b@.contains(f));
                    }
                }
            } else {
                assert(!a@.take(i as int).to_set().contains(f)) by {
                    if a@.take(i as int).contains(f) {
                        let k0 = choose|k0: int| 0 <= k0 < i && a@.take(i as int)[k0] == f;
                        assert(a@[k0] == f);
                    }
                }
                assert(b@.contains(f));
                assert(after =~= before.insert(f));
                assert(!before.contains(f));
            }
        }
        if !seen_before && in_b {
            n = n + 1;
        }
        i = i + 1;
    }
    proof {
        assert(a@.take(a.len() as int) =~= a@);
    }
    n
}


/// Close the gap a collapsed half-edge leaves in its face.
fn patch_face_after_collapse<P>(mesh: &mut HalfEdgeMesh<P>, fid: FaceId, collapsed_he: HalfEdgeId) -> (r: Result<(), TopologyError>)
    requires
        old(mesh).wf(),
        old(mesh)@.he_live(collapsed_he.0 as int),
    ensures
        r is Ok,
        final(mesh).wf(),
        final(mesh)@ == old(mesh)@.patch(fid.0 as int, collapsed_he.0 as int),
{
    let he = match mesh.halfedge(collapsed_he) {
        Some(h) => *h,
        None => {
            return Err(TopologyError::InvalidEdge(String::from_str("Collapsed half-edge not found")));
        },
    };
    let prev_he = he.prev;
    let next_he = he.next;
    mesh.set_halfedge_next(prev_he, next_he);
    mesh.set_halfedge_prev(next_he, prev_he);
    mesh.set_face_halfedge(fid, next_he);
    Ok(())
}

/// Taking away a triangle changes no successor or predecessor and no slot count.
pub proof fn lemma_drop_triangle_links<P>(m: MeshView<P>, h: int, f: Option<FaceId>)
    ensures
        m.drop_triangle(h, f).halfedges.len() == m.halfedges.len(),
        m.drop_triangle(h, f).vertices.len() == m.vertices.len(),
        m.drop_triangle(h, f).free_vertices == m.free_vertices,
        forall|x: int|
            0 <= x < m.halfedges.len() ==> (#[trigger] m.drop_triangle(h, f).halfedges[x]).next == m.halfedges[x].next
                && m.drop_triangle(h, f).halfedges[x].prev == m.halfedges[x].prev,
{
}

/// Join the twins of `x` and `y`, see `MeshView::join_twins`.
fn join_twins<P>(mesh: &mut HalfEdgeMesh<P>, x: HalfEdgeId, y: HalfEdgeId)
    requires
        old(mesh).wf(),
        (x.0 as int) < old(mesh)@.halfedges.len(),
        (y.0 as int) < old(mesh)@.halfedges.len(),
    ensures
        final(mesh).wf(),
        final(mesh)@ == old(mesh)@.join_twins(x.0 as int, y.0 as int),
{
    proof {
        assert(old(mesh)@.he_refs_ok(x.0 as int));
        assert(old(mesh)@.he_refs_ok(y.0 as int));
    }
    let tx = mesh.halfedge_at(x).twin;
    let ty = mesh.halfedge_at(y).twin;
    if let Some(t) = tx {
        mesh.set_halfedge_twin(t, ty);
    }
    if let Some(t) = ty {
        mesh.set_halfedge_twin(t, tx);
    }
}

/// Take away the triangle beside a collapsed half-edge, see `MeshView::drop_triangle`.
fn drop_triangle<P>(mesh: &mut HalfEdgeMesh<P>, h: HalfEdgeId, f: FaceId)
    requires
        old(mesh).wf(),
        (h.0 as int) < old(mesh)@.halfedges.len(),
        (old(mesh)@.halfedges[h.0 as int].next.0 as int) < old(mesh)@.halfedges.len(),
        (old(mesh)@.halfedges[h.0 as int].prev.0 as int) < old(mesh)@.halfedges.len(),
    ensures
        final(mesh).wf(),
        final(mesh)@ == old(mesh)@.drop_triangle(h.0 as int, Some(f)),
{
    let ghost m0 = mesh@;
    let he = mesh.halfedge_at(h);
    let n = he.next;
    let p = he.prev;
    let hn = mesh.halfedge_at(n);
    let hp = mesh.halfedge_at(p);
    proof {
        assert(m0.he_refs_ok(n.0 as int));
    }
    join_twins(mesh, n, p);
    let c = hp.origin;
    let starts_at_p = match mesh.vertex(c) {
        Some(v) => v.halfedge == Some(p),
        None => false,
    };
    if starts_at_p {
        mesh.set_vertex_halfedge(c, hn.twin);
    }
    mesh.remove_face(f);
    mesh.remove_halfedge(n);
    mesh.remove_halfedge(p);
}

/// Does some walkable half-edge leaving `v0` end at `v1`?
fn has_half_to<P>(mesh: &HalfEdgeMesh<P>, v0: VertexId, v1: VertexId) -> (r: bool)
    requires
        mesh.wf(),
    ensures
        r == mesh@.half_to(v0.0 as int, v1.0 as int),
{
    let ring = collect_outgoing_halfedges(mesh, v0);
    let ghost m = mesh@;
    let ghost hs = m.outgoing(v0.0 as int);
    proof {
        lemma_outgoing(m, v0.0 as int);
    }
    let mut i: usize = 0;
    while i < ring.len()
        invariant
            i <= ring.len(),
            m == mesh@,
            mesh.wf(),
            ring@ == ids(hs),
            hs == m.outgoing(v0.0 as int),
            forall|j: int| 0 <= j < hs.len() ==> m.usable(#[trigger] hs[j]),
            m.first_to(hs.take(i as int), v1.0 as int) == i,
        decreases ring.len() - i,
    {
        proof {
            assert(ring@[i as int] == HalfEdgeId(hs[i as int] as u32));
            assert(m.usable(hs[i as int]));
            assert(hs.take(i + 1).drop_last() =~= hs.take(i as int));
        }
        let h = ring[i];
        if mesh.target_of(h).0 == v1.0 {
            proof {
                assert(m.first_to(hs.take(i + 1), v1.0 as int) == i);
                lemma_first_to_prefix(m, hs, v1.0 as int, i as int + 1);
            }
            return true;
        }
        i = i + 1;
    }
    proof {
        assert(hs.take(hs.len() as int) =~= hs);
    }
    false
}

/// The message for a missing edge.
fn no_edge_message(v0: u32, v1: u32) -> (s: String)
    ensures
        s@ == "No edge between vertices "@ + decimal(v0 as nat) + " and "@ + decimal(v1 as nat),
{
    let mut s = String::from_str("No edge between vertices ");
    push_decimal(&mut s, v0);
    s.append(" and ");
    push_decimal(&mut s, v1);
    s
}


/// First stage of a collapse, see `MeshView::collapse_patched`.
fn collapse_patch_stage<P>(mesh: &mut HalfEdgeMesh<P>, v0: VertexId, v1: VertexId, he_01: HalfEdgeId, he_10: HalfEdgeId)
    requires
        old(mesh).wf(),
        old(mesh)@.v_live(v0.0 as int),
        old(mesh)@.he_live(he_01.0 as int),
        old(mesh)@.he_live(he_10.0 as int),
    ensures
        final(mesh).wf(),
        final(mesh)@ == old(mesh)@.collapse_patched(v0.0 as int, v1.0 as int, he_01.0 as int, he_10.0 as int),
        final(mesh)@.he_live(he_01.0 as int),
        final(mesh)@.he_live(he_10.0 as int),
        final(mesh)@.v_live(v0.0 as int),
{
    let ghost m0 = mesh@;
    let ghost b = he_10.0 as int;
    let h01 = *mesh.halfedge(he_01).unwrap();
    let h10 = *mesh.halfedge(he_10).unwrap();
    let face_01 = h01.face;
    let face_10 = h10.face;
    let v1_outgoing = collect_outgoing_halfedges(mesh, v1);
    let ghost outs = m0.outgoing(v1.0 as int);
    let mut i: usize = 0;
    while i < v1_outgoing.len()
        invariant
            i <= v1_outgoing.len(),
            v1_outgoing@ == ids(outs),
            outs == m0.outgoing(v1.0 as int),
            mesh.wf(),
            m0.wf(),
            m0.v_live(v0.0 as int),
            mesh@ == m0.set_origins(outs.take(i as int), b, VertexId(v0.0)),
            mesh@.vertices.len() == m0.vertices.len(),
            b == he_10.0 as int,
        decreases v1_outgoing.len() - i,
    {
        let heid = v1_outgoing[i];
        proof {
            lemma_outgoing(m0, v1.0 as int);
            assert(outs.take(i + 1).drop_last() =~= outs.take(i as int));
            assert(heid == HalfEdgeId(outs[i as int] as u32));
            assert(m0.usable(outs[i as int]));
            assert(heid.0 as int == outs[i as int]);
            lemma_set_origins_keeps(m0, outs.take(i as int), b, VertexId(v0.0));
        }
        if heid.0 != he_10.0 {
            mesh.set_halfedge_origin(heid, v0);
        }
        i = i + 1;
    }
    proof {
        assert(outs.take(outs.len() as int) =~= outs);
        lemma_set_origins_keeps(m0, outs, b, VertexId(v0.0));
    }
    let ghost m1 = mesh@;
    if let Some(f01) = face_01 {
        let _ = patch_face_after_collapse(mesh, f01, he_01);
    }
    let ghost m2 = mesh@;
    if let Some(f10) = face_10 {
        let _ = patch_face_after_collapse(mesh, f10, he_10);
    }
    proof {
        reveal(MeshView::collapse_patched);
        assert(m1.free_halfedges == m0.free_halfedges);
        assert(m2.free_halfedges == m0.free_halfedges);
        assert(mesh@.free_halfedges == m0.free_halfedges);
        assert(mesh@.free_vertices == m0.free_vertices);
        assert(mesh@.halfedges.len() == m0.halfedges.len());
        assert(mesh@.vertices.len() == m0.vertices.len());
    }
}

/// Second stage of a collapse, see `MeshView::collapse_finish`.
fn collapse_finish_stage<P>(
    mesh: &mut HalfEdgeMesh<P>,
    v0: VertexId,
    v1: VertexId,
    he_01: HalfEdgeId,
    he_10: HalfEdgeId,
    face_01: Option<FaceId>,
    face_10: Option<FaceId>,
    target_position: P,
)
    requires
        old(mesh).wf(),
        old(mesh)@.he_live(he_01.0 as int),
        old(mesh)@.he_live(he_10.0 as int),
    ensures
        final(mesh).wf(),
        final(mesh)@ == old(mesh)@.collapse_finish(v0.0 as int, v1.0 as int, he_01.0 as int, he_10.0 as int, face_01, face_10, target_position),
{
    let ghost p0 = mesh@;
    let h01 = mesh.halfedge_at(he_01);
    let h10 = mesh.halfedge_at(he_10);
    proof {
        assert(p0.he_refs_ok(he_01.0 as int));
        assert(p0.he_refs_ok(he_10.0 as int));
    }
    let tri_a = face_01.is_some() && mesh.halfedge_at(h01.next).next == h01.prev;
    let tri_b = face_10.is_some() && mesh.halfedge_at(h10.next).next == h10.prev;
    let ca = if tri_a {
        mesh.halfedge_at(h01.prev).twin
    } else if face_01.is_some() {
        Some(h01.next)
    } else {
        None
    };
    let cb = if tri_b {
        mesh.halfedge_at(h10.prev).twin
    } else if face_10.is_some() {
        Some(h10.next)
    } else {
        None
    };
    let start = if ca.is_some() { ca } else { cb };
    proof {
        assert(start == p0.merged_start(he_01.0 as int, he_10.0 as int, face_01, face_10));
        assert(tri_a == p0.tri_side(he_01.0 as int, face_01));
        assert(tri_b == p0.tri_side(he_10.0 as int, face_10));
        assert(p0.he_refs_ok(h01.prev.0 as int));
        assert(p0.he_refs_ok(h10.prev.0 as int));
    }
    proof {
        lemma_drop_triangle_links(p0, he_01.0 as int, face_01);
    }
    if tri_a {
        drop_triangle(mesh, he_01, face_01.unwrap());
    }
    let ghost m1 = mesh@;
    proof {
        assert(m1 == if p0.tri_side(he_01.0 as int, face_01) {
            p0.drop_triangle(he_01.0 as int, face_01)
        } else {
            p0
        });
        assert(m1.halfedges.len() == p0.halfedges.len());
        assert(m1.halfedges[he_10.0 as int].next == p0.halfedges[he_10.0 as int].next);
        assert(m1.halfedges[he_10.0 as int].prev == p0.halfedges[he_10.0 as int].prev);
        lemma_drop_triangle_links(m1, he_10.0 as int, face_10);
    }
    if tri_b {
        drop_triangle(mesh, he_10, face_10.unwrap());
    }
    let ghost m2 = mesh@;
    proof {
        assert(m2 == if p0.tri_side(he_10.0 as int, face_10) {
            m1.drop_triangle(he_10.0 as int, face_10)
        } else {
            m1
        });
        assert(m2.halfedges.len() == p0.halfedges.len());
    }
    mesh.set_vertex_halfedge(v0, start);
    mesh.set_vertex_position(v0, target_position);
    mesh.remove_halfedge(he_01);
    mesh.remove_halfedge(he_10);
    mesh.remove_vertex(v1);
    mesh.update_topology();
    proof {
        reveal(MeshView::collapse_finish);
    }
}

/// The rewiring of a collapse whose checks passed.
fn collapse_rewire<P>(mesh: &mut HalfEdgeMesh<P>, v0: VertexId, v1: VertexId, he_01: HalfEdgeId, he_10: HalfEdgeId, target_position: P)
    requires
        old(mesh).wf(),
        old(mesh)@.v_live(v0.0 as int),
        old(mesh)@.he_live(he_01.0 as int),
        old(mesh)@.he_live(he_10.0 as int),
    ensures
        final(mesh).wf(),
        final(mesh)@ == old(mesh)@.collapse_patched(v0.0 as int, v1.0 as int, he_01.0 as int, he_10.0 as int).collapse_finish(
            v0.0 as int,
            v1.0 as int,
            he_01.0 as int,
            he_10.0 as int,
            old(mesh)@.halfedges[he_01.0 as int].face,
            old(mesh)@.halfedges[he_10.0 as int].face,
            target_position,
        ),
{
    let face_01 = mesh.halfedge(he_01).unwrap().face;
    let face_10 = mesh.halfedge(he_10).unwrap().face;
    collapse_patch_stage(mesh, v0, v1, he_01, he_10);
    collapse_finish_stage(mesh, v0, v1, he_01, he_10, face_01, face_10, target_position);
}

/// Collapse the edge `v0 -> v1` by merging `v1` into `v0`, which moves to
/// `target_position`.
///
/// `inverts` is the geometric verdict on the collapse: whether moving the merged
/// vertex to `target_position` would flip the orientation of one of the faces
/// `collapse_affected_faces` lists. Fails when no half-edge joins `v0` and `v1`, when
/// they are joined only by a half-edge without a live twin, in either direction (a
/// boundary edge), when `v0` and `v1` share other faces than the two beside the edge, and
/// when `inverts` holds.
pub fn collapse_edge<P>(
    mesh: &mut HalfEdgeMesh<P>,
    v0: VertexId,
    v1: VertexId,
    target_position: P,
    inverts: bool,
) -> (r: Result<VertexId, TopologyError>)
    requires
        old(mesh).wf(),
    ensures
        final(mesh).wf(),
        old(mesh)@.find_edge(v0.0 as int, v1.0 as int) is None && !old(mesh)@.edge_between(v0.0 as int, v1.0 as int) ==> final(mesh)@ == old(mesh)@ && (r matches Err(
            TopologyError::InvalidEdge(msg),
        ) && msg@ == "No edge between vertices "@ + decimal(v0.0 as nat) + " and "@ + decimal(v1.0 as nat)),
        old(mesh)@.find_edge(v0.0 as int, v1.0 as int) is None && old(mesh)@.edge_between(v0.0 as int, v1.0 as int) ==> final(mesh)@ == old(mesh)@ && (r matches Err(
            TopologyError::BoundaryEdge,
        )),
        old(mesh)@.find_edge(v0.0 as int, v1.0 as int) is Some && (!old(mesh)@.collapse_link_ok(v0.0 as int, v1.0 as int) || inverts)
            ==> final(mesh)@ == old(mesh)@ && (r matches Err(TopologyError::NonManifoldCollapse)),
        old(mesh)@.find_edge(v0.0 as int, v1.0 as int) is Some && old(mesh)@.collapse_link_ok(v0.0 as int, v1.0 as int) && !inverts
            ==> r == Ok::<VertexId, TopologyError>(v0) && final(mesh)@ == old(mesh)@.collapsed(v0.0 as int, v1.0 as int, target_position),
{
    let ghost m0 = mesh@;
    let (he_01, he_10) = match find_edge_halfedges(mesh, v0, v1) {
        Some(p) => p,
        None => {
            if has_half_to(mesh, v0, v1) || has_half_to(mesh, v1, v0) {
                return Err(TopologyError::BoundaryEdge);
            }
            return Err(TopologyError::InvalidEdge(no_edge_message(v0.0, v1.0)));
        },
    };
    let ghost a = he_01.0 as int;
    let ghost b = he_10.0 as int;
    proof {
        lemma_find_edge_live(m0, v0.0 as int, v1.0 as int);
    }
    let h01 = *mesh.halfedge(he_01).unwrap();
    let h10 = *mesh.halfedge(he_10).unwrap();
    let is_boundary = h01.twin.is_none() || h10.twin.is_none();
    let v0_faces = mesh.vertex_faces(v0);
    let v1_faces = mesh.vertex_faces(v1);
    let shared = count_shared(&v0_faces, &v1_faces);
    let expected: usize = if is_boundary { 1 } else { 2 };
    if shared != expected {
        return Err(TopologyError::NonManifoldCollapse);
    }
    if inverts {
        return Err(TopologyError::NonManifoldCollapse);
    }
    collapse_rewire(mesh, v0, v1, he_01, he_10, target_position);
    Ok(v0)
}


/// Do the topological checks of a collapse of `v0 -> v1` pass: the edge exists and
/// the two vertices share exactly the faces beside it? The geometric check (no face
/// turned over) is the caller's.
pub fn collapse_allowed<P>(mesh: &HalfEdgeMesh<P>, v0: VertexId, v1: VertexId) -> (r: bool)
    requires
        mesh.wf(),
    ensures
        r == (mesh@.find_edge(v0.0 as int, v1.0 as int) is Some && mesh@.collapse_link_ok(
            v0.0 as int,
            v1.0 as int,
        )),
{
    let ghost m0 = mesh@;
    let (he_01, he_10) = match find_edge_halfedges(mesh, v0, v1) {
        Some(p) => p,
        None => {
            return false;
        },
    };
    proof {
        lemma_find_edge_live(m0, v0.0 as int, v1.0 as int);
    }
    let h01 = *mesh.halfedge(he_01).unwrap();
    let h10 = *mesh.halfedge(he_10).unwrap();
    let is_boundary = h01.twin.is_none() || h10.twin.is_none();
    let v0_faces = mesh.vertex_faces(v0);
    let v1_faces = mesh.vertex_faces(v1);
    let shared = count_shared(&v0_faces, &v1_faces);
    let expected: usize = if is_boundary { 1 } else { 2 };
    shared == expected
}

/// Faces whose shape a collapse of `v0 -> v1` changes without removing them: the
/// faces around `v0` that leave out `v1`, then the faces around `v1` that leave out
/// `v0` and are not listed yet. The collapse is rejected when one of them would be
/// turned over by moving the merged vertex.
pub fn collapse_affected_faces<P>(mesh: &HalfEdgeMesh<P>, v0: VertexId, v1: VertexId) -> (r: Vec<FaceId>)
    requires
        mesh.wf(),
    ensures
        r@ == mesh@.affected_faces(v0.0 as int, v1.0 as int),
{
    let ghost m = mesh@;
    let f0 = mesh.vertex_faces(v0);
    let mut affected: Vec<FaceId> = Vec::new();
    let mut i: usize = 0;
    while i < f0.len()
        invariant
            i <= f0.len(),
            mesh.wf(),
            m == mesh@,
            f0@ == m.vertex_face_list(v0.0 as int),
            affected@ == m.faces_without(f0@.take(i as int), v1),
        decreases f0.len() - i,
    {
        let fid = f0[i];
        let verts = mesh.face_vertices(fid);
        let found = vec_contains_vertex(&verts, v1);
        if !found {
            affected.push(fid);
        }
        proof {
            assert(f0@.take(i + 1).drop_last() =~= f0@.take(i as int));
        }
        i = i + 1;
    }
    proof {
        assert(f0@.take(f0@.len() as int) =~= f0@);
    }
    let ghost first = affected@;
    let f1 = mesh.vertex_faces(v1);
    let mut keep: Vec<FaceId> = Vec::new();
    let mut j: usize = 0;
    while j < f1.len()
        invariant
            j <= f1.len(),
            mesh.wf(),
            m == mesh@,
            f1@ == m.vertex_face_list(v1.0 as int),
            keep@ == m.faces_without(f1@.take(j as int), v0),
        decreases f1.len() - j,
    {
        let fid = f1[j];
        let verts = mesh.face_vertices(fid);
        let found = vec_contains_vertex(&verts, v0);
        if !found {
            keep.push(fid);
        }
        proof {
            assert(f1@.take(j + 1).drop_last() =~= f1@.take(j as int));
        }
        j = j + 1;
    }
    proof {
        assert(f1@.take(f1@.len() as int) =~= f1@);
    }
    let mut k: usize = 0;
    while k < keep.len()
        invariant
            k <= keep.len(),
            affected@ == append_new(first, keep@.take(k as int)),
        decreases keep.len() - k,
    {
        let fid = keep[k];
        let seen = vec_contains_face(&affected, fid);
        if !seen {
            affected.push(fid);
        }
        proof {
            assert(keep@.take(k + 1).drop_last() =~= keep@.take(k as int));
        }
        k = k + 1;
    }
    proof {
        assert(keep@.take(keep@.len() as int) =~= keep@);
    }
    affected
}

fn vec_contains_vertex(v: &Vec<VertexId>, x: VertexId) -> (r: bool)
    ensures
        r == v@.contains(x),
{
    let mut i: usize = 0;
    while i < v.len()
        invariant
            i <= v.len(),
            forall|j: int| 0 <= j < i ==> v@[j] != x,
        decreases v.len() - i,
    {
        if v[i] == x {
            return true;
        }
        i = i + 1;
    }
    false
}

fn vec_contains_face(v: &Vec<FaceId>, x: FaceId) -> (r: bool)
    ensures
        r == v@.contains(x),
{
    let mut i: usize = 0;
    while i < v.len()
        invariant
            i <= v.len(),
            forall|j: int| 0 <= j < i ==> v@[j] != x,
        decreases v.len() - i,
    {
        if v[i] == x {
            return true;
        }
        i = i + 1;
    }
    false
}

/// The rewiring of a flip whose checks passed, see `MeshView::flip_links`.
fn flip_rewire<P>(
    mesh: &mut HalfEdgeMesh<P>,
    v0: VertexId,
    v1: VertexId,
    he_01: HalfEdgeId,
    he_10: HalfEdgeId,
    he_12: HalfEdgeId,
    he_23: HalfEdgeId,
    he_30: HalfEdgeId,
    he_03: HalfEdgeId,
    he_01_face: Option<FaceId>,
    he_10_face: Option<FaceId>,
    v2: VertexId,
    v3: VertexId,
)
    requires
        old(mesh).wf(),
        old(mesh)@.v_live(v0.0 as int),
        old(mesh)@.v_live(v1.0 as int),
        (v2.0 as int) < old(mesh)@.vertices.len(),
        (v3.0 as int) < old(mesh)@.vertices.len(),
        old(mesh)@.he_live(he_01.0 as int),
        old(mesh)@.he_live(he_10.0 as int),
        old(mesh)@.he_live(he_12.0 as int),
        old(mesh)@.he_live(he_23.0 as int),
        old(mesh)@.he_live(he_30.0 as int),
        old(mesh)@.he_live(he_03.0 as int),
        he_01_face is Some && (face_index(he_01_face) < old(mesh)@.faces.len()),
        he_10_face is Some && (face_index(he_10_face) < old(mesh)@.faces.len()),
    ensures
        final(mesh).wf(),
        final(mesh)@ == old(mesh)@.flip_links(v0.0 as int, v1.0 as int, he_01, he_10, he_12, he_23, he_30, he_03, he_01_face, he_10_face, v2, v3),
{
    mesh.set_halfedge_next(he_01, he_23);
    mesh.set_halfedge_prev(he_23, he_01);
    mesh.set_halfedge_next(he_23, he_30);
    mesh.set_halfedge_prev(he_30, he_23);
    mesh.set_halfedge_next(he_30, he_01);
    mesh.set_halfedge_prev(he_01, he_30);
    mesh.set_halfedge_face(he_01, he_01_face);
    mesh.set_halfedge_face(he_23, he_01_face);
    mesh.set_halfedge_face(he_30, he_01_face);
    mesh.set_face_halfedge(he_01_face.unwrap(), he_01);
    mesh.set_halfedge_next(he_10, he_03);
    mesh.set_halfedge_prev(he_03, he_10);
    mesh.set_halfedge_next(he_03, he_12);
    mesh.set_halfedge_prev(he_12, he_03);
    mesh.set_halfedge_next(he_12, he_10);
    mesh.set_halfedge_prev(he_10, he_12);
    mesh.set_halfedge_face(he_10, he_10_face);
    mesh.set_halfedge_face(he_03, he_10_face);
    mesh.set_halfedge_face(he_12, he_10_face);
    mesh.set_face_halfedge(he_10_face.unwrap(), he_10);
    mesh.set_halfedge_origin(he_01, v2);
    mesh.set_halfedge_origin(he_10, v3);
    if mesh.vertex(v0).unwrap().halfedge == Some(he_01) {
        mesh.set_vertex_halfedge(v0, Some(he_30));
    }
    if mesh.vertex(v1).unwrap().halfedge == Some(he_10) {
        mesh.set_vertex_halfedge(v1, Some(he_12));
    }
    mesh.update_topology();
    proof {
        reveal(MeshView::flip_links);
    }
}

/// Flip the edge `v0 -> v1` shared by two triangles, so that it joins their two
/// opposite corners instead (see `MeshView::flipped`). An edge whose half-edge, in
/// either direction, has no live twin is a boundary edge and is refused.
pub fn flip_edge<P>(mesh: &mut HalfEdgeMesh<P>, v0: VertexId, v1: VertexId) -> (r: Result<(), TopologyError>)
    requires
        old(mesh).wf(),
        !old(mesh)@.flip_panics(v0.0 as int, v1.0 as int),
    ensures
        final(mesh).wf(),
        r is Ok <==> old(mesh)@.flip_ok(v0.0 as int, v1.0 as int),
        r is Ok ==> final(mesh)@ == old(mesh)@.flipped(v0.0 as int, v1.0 as int),
        r is Err ==> final(mesh)@ == old(mesh)@,
        old(mesh)@.find_edge(v0.0 as int, v1.0 as int) is None && !old(mesh)@.edge_between(v0.0 as int, v1.0 as int) ==> (r matches Err(TopologyError::InvalidEdge(msg)) && msg@ == "Edge not found"@),
        (r matches Err(TopologyError::InvalidEdge(_))) ==> old(mesh)@.find_edge(v0.0 as int, v1.0 as int) is None && !old(mesh)@.edge_between(v0.0 as int, v1.0 as int),
        (r matches Err(TopologyError::BoundaryEdge)) <==> ((old(mesh)@.find_edge(v0.0 as int, v1.0 as int) is None && old(mesh)@.edge_between(v0.0 as int, v1.0 as int))
            || (old(mesh)@.find_edge(v0.0 as int, v1.0 as int) is Some && (old(mesh)@.halfedges[old(mesh)@.edge_first(v0.0 as int, v1.0 as int)].face is None
            || old(mesh)@.halfedges[old(mesh)@.edge_second(v0.0 as int, v1.0 as int)].face is None))),
        (r matches Err(TopologyError::InvalidFlip)) <==> (old(mesh)@.find_edge(v0.0 as int, v1.0 as int) is Some
            && old(mesh)@.halfedges[old(mesh)@.edge_first(v0.0 as int, v1.0 as int)].face is Some
            && old(mesh)@.halfedges[old(mesh)@.edge_second(v0.0 as int, v1.0 as int)].face is Some
            && (old(mesh)@.face_verts(face_index(old(mesh)@.halfedges[old(mesh)@.edge_first(v0.0 as int, v1.0 as int)].face)).len() != 3
            || old(mesh)@.face_verts(face_index(old(mesh)@.halfedges[old(mesh)@.edge_second(v0.0 as int, v1.0 as int)].face)).len() != 3)),
        r matches Err(TopologyError::InvalidTopology(msg)) ==> msg@ == "Unexpected face structure"@,
        r matches Err(e) ==> (e is InvalidEdge || e is BoundaryEdge || e is InvalidFlip || e is InvalidTopology),
{
    let ghost m0 = mesh@;
    let (he_01, he_10) = match find_edge_halfedges(mesh, v0, v1) {
        Some(p) => p,
        None => {
            if has_half_to(mesh, v0, v1) || has_half_to(mesh, v1, v0) {
                return Err(TopologyError::BoundaryEdge);
            }
            let e = TopologyError::InvalidEdge(String::from_str("Edge not found"));
            proof {
                reveal_strlit("Edge not found");
            }
            return Err(e);
        },
    };
    proof {
        lemma_find_edge_live(m0, v0.0 as int, v1.0 as int);
    }
    let h01 = *mesh.halfedge(he_01).unwrap();
    let h10 = *mesh.halfedge(he_10).unwrap();
    let he_01_face = h01.face;
    let he_10_face = h10.face;
    if he_01_face.is_none() || he_10_face.is_none() {
        return Err(TopologyError::BoundaryEdge);
    }
    let he_01_next = h01.next;
    let he_10_next = h10.next;
    let f0_verts = mesh.face_vertices(he_01_face.unwrap());
    let f1_verts = mesh.face_vertices(he_10_face.unwrap());
    if f0_verts.len() != 3 || f1_verts.len() != 3 {
        return Err(TopologyError::InvalidFlip);
    }
    let he_23 = mesh.halfedge(he_01_next).unwrap().next;
    let he_03 = mesh.halfedge(he_10_next).unwrap().next;
    if mesh.halfedge(he_23).unwrap().next.0 != he_01.0 {
        let e = TopologyError::InvalidTopology(String::from_str("Unexpected face structure"));
        proof {
            reveal_strlit("Unexpected face structure");
        }
        return Err(e);
    }
    if mesh.halfedge(he_03).unwrap().next.0 != he_10.0 {
        let e = TopologyError::InvalidTopology(String::from_str("Unexpected face structure"));
        proof {
            reveal_strlit("Unexpected face structure");
        }
        return Err(e);
    }
    let v2 = mesh.halfedge(he_23).unwrap().origin;
    let v3 = mesh.halfedge(he_03).unwrap().origin;
    proof {
        assert(m0.he_refs_ok(he_01.0 as int));
        assert(m0.he_refs_ok(he_10.0 as int));
        assert(m0.flip_ok(v0.0 as int, v1.0 as int));
    }
    flip_rewire(mesh, v0, v1, he_01, he_10, he_01_next, he_23, he_10_next, he_03, he_01_face, he_10_face, v3, v2);
    Ok(())
}

/// Is the face a quad (four vertices)?
pub fn is_valid_quad<P>(mesh: &HalfEdgeMesh<P>, face: FaceId) -> (r: bool)
    requires
        mesh.wf(),
    ensures
        r == (mesh@.face_verts(face.0 as int).len() == 4),
{
    let verts = mesh.face_vertices(face);
    verts.len() == 4
}

/// Changing origins changes nothing but origins.
pub proof fn lemma_set_origins_keeps<P>(m: MeshView<P>, hs: Seq<int>, skip: int, v: VertexId)
    ensures
        ({
            let r = m.set_origins(hs, skip, v);
            &&& r.halfedges.len() == m.halfedges.len()
            &&& r.vertices == m.vertices
            &&& r.faces == m.faces
            &&& r.free_vertices == m.free_vertices
            &&& r.free_halfedges == m.free_halfedges
            &&& r.free_faces == m.free_faces
            &&& forall|h: int| 0 <= h < m.halfedges.len() ==> (#[trigger] r.halfedges[h]) == (HalfEdge { origin: r.halfedges[h].origin, ..m.halfedges[h] })
        }),
    decreases hs.len(),
{
    if hs.len() > 0 {
        lemma_set_origins_keeps(m, hs.drop_last(), skip, v);
    }
}

/// What `find_edge` returns: a usable half-edge leaving a live `v0`, and a live twin.
pub proof fn lemma_find_edge_live<P>(m: MeshView<P>, v0: int, v1: int)
    requires
        m.find_edge(v0, v1) is Some,
    ensures
        m.v_live(v0),
        m.usable(m.edge_first(v0, v1)),
        m.he_live(m.edge_second(v0, v1)),
        m.halfedges[m.edge_first(v0, v1)].twin == Some(HalfEdgeId(m.edge_second(v0, v1) as u32)),
{
    lemma_outgoing(m, v0);
    let hs = m.outgoing(v0);
    let i = m.first_to(hs, v1);
    lemma_first_to(m, hs, v1);
    assert(i < hs.len());
    assert(m.usable(hs[i]));
}

} // verus!
