//! Walks over the half-edge structure: around a face and around a vertex.
//!
//! Every walk stops at a dead half-edge (a free slot) and after at most one step
//! per half-edge slot, so it ends on any mesh. On a mesh whose face lists close
//! up, a face walk visits exactly the half-edges of the face.
//!
//! What lies around a vertex (its outgoing half-edges, neighbours and faces) is found
//! by scanning every half-edge slot, so that every fan of faces at the vertex counts.
use vstd::prelude::*;
use crate::mesh::halfedge::{Face, FaceId, HalfEdge, HalfEdgeId, HalfEdgeMesh, MeshView, Vertex, VertexId};
use crate::mesh::construction::{edge_code, lemma_edge_code_injective};
use std::collections::HashSet;

verus! {

impl<P> MeshView<P> {
    /// Half-edges met following `next` from `cur` until the walk comes back to
    /// `start`, meets a dead half-edge, or has taken `fuel` steps.
    pub open spec fn next_walk(self, start: int, cur: int, fuel: nat) -> Seq<int>
        decreases fuel,
    {
        if fuel == 0 || !self.he_live(cur) {
            Seq::empty()
        } else {
            let n = self.halfedges[cur].next.0 as int;
            if n == start {
                seq![cur]
            } else {
                seq![cur] + self.next_walk(start, n, (fuel - 1) as nat)
            }
        }
    }

    /// Like `next_walk`, but a dead half-edge met on the way is listed before stopping.
    pub open spec fn edge_walk(self, start: int, cur: int, fuel: nat) -> Seq<int>
        decreases fuel,
    {
        if fuel == 0 {
            Seq::empty()
        } else if !self.he_live(cur) {
            seq![cur]
        } else {
            let n = self.halfedges[cur].next.0 as int;
            if n == start {
                seq![cur]
            } else {
                seq![cur] + self.edge_walk(start, n, (fuel - 1) as nat)
            }
        }
    }

    /// One step per half-edge slot, and one more.
    pub open spec fn walk_fuel(self) -> nat {
        self.halfedges.len() + 1
    }

    /// The live half-edges around face `f`, from the face's own half-edge.
    pub open spec fn face_loop(self, f: int) -> Seq<int> {
        if self.f_live(f) {
            let s = self.faces[f].halfedge.0 as int;
            self.next_walk(s, s, self.walk_fuel())
        } else {
            Seq::empty()
        }
    }

    /// The half-edge ids around face `f` as `face_edges` lists them.
    pub open spec fn face_edge_ids(self, f: int) -> Seq<int> {
        if self.f_live(f) {
            let s = self.faces[f].halfedge.0 as int;
            self.edge_walk(s, s, self.walk_fuel())
        } else {
            Seq::empty()
        }
    }

    /// Origins of a list of half-edges.
    pub open spec fn origins(self, hs: Seq<int>) -> Seq<VertexId> {
        hs.map_values(|h: int| self.halfedges[h].origin)
    }

    /// The vertices of face `f`, in order.
    pub open spec fn face_verts(self, f: int) -> Seq<VertexId> {
        self.origins(self.face_loop(f))
    }

    /// The vertex a live half-edge points to: the origin of its successor.
    pub open spec fn target(self, h: int) -> VertexId {
        self.halfedges[self.halfedges[h].next.0 as int].origin
    }

    /// `h` is live and so is its successor.
    pub open spec fn usable(self, h: int) -> bool {
        self.he_live(h) && self.he_live(self.halfedges[h].next.0 as int)
    }

    /// The walkable half-edges below slot `j` that leave `v`, in slot order.
    pub open spec fn out_scan(self, v: int, j: nat) -> Seq<int>
        decreases j,
    {
        if j == 0 {
            Seq::empty()
        } else {
            let prev = self.out_scan(v, (j - 1) as nat);
            let h = j - 1;
            if self.usable(h) && self.halfedges[h].origin.0 == v {
                prev.push(h)
            } else {
                prev
            }
        }
    }

    /// The outgoing half-edges of a live vertex `v`: every walkable half-edge that
    /// leaves it, in slot order, whichever fan of faces it lies in.
    pub open spec fn outgoing(self, v: int) -> Seq<int> {
        if self.v_live(v) {
            self.out_scan(v, self.halfedges.len())
        } else {
            Seq::empty()
        }
    }

    /// The vertex at the other end of half-edge `h` from `v`, when `h` joins `v` to
    /// another vertex.
    pub open spec fn other_end(self, h: int, v: int) -> Option<VertexId> {
        let o = self.halfedges[h].origin;
        let t = self.target(h);
        if o.0 == v && t.0 != v {
            Some(t)
        } else if t.0 == v && o.0 != v {
            Some(o)
        } else {
            None
        }
    }

    /// The vertices joined to `v` by the walkable half-edges below slot `j`, each once,
    /// in the order their first half-edge comes.
    pub open spec fn neighbor_scan(self, v: int, j: nat) -> Seq<VertexId>
        decreases j,
    {
        if j == 0 {
            Seq::empty()
        } else {
            let prev = self.neighbor_scan(v, (j - 1) as nat);
            let h = j - 1;
            if self.usable(h) {
                match self.other_end(h, v) {
                    Some(w) => if prev.contains(w) {
                        prev
                    } else {
                        prev.push(w)
                    },
                    None => prev,
                }
            } else {
                prev
            }
        }
    }

    /// The vertices adjacent to a live vertex `v`: every vertex that a walkable
    /// half-edge joins to it, in either direction, each once (none for a free vertex).
    pub open spec fn neighbors(self, v: int) -> Seq<VertexId> {
        if self.v_live(v) {
            self.neighbor_scan(v, self.halfedges.len())
        } else {
            Seq::empty()
        }
    }

    /// Index in `hs` of the first half-edge pointing to `v1`, or `hs.len()` if none does.
    pub open spec fn first_to(self, hs: Seq<int>, v1: int) -> int
        decreases hs.len(),
    {
        if hs.len() == 0 {
            0
        } else {
            let p = self.first_to(hs.drop_last(), v1);
            if p < hs.len() - 1 {
                p
            } else if self.target(hs.last()).0 == v1 {
                hs.len() - 1
            } else {
                hs.len() as int
            }
        }
    }

    /// Some walkable half-edge leaving `v0` ends at `v1`: the edge exists, with or
    /// without a twin.
    pub open spec fn half_to(self, v0: int, v1: int) -> bool {
        self.first_to(self.outgoing(v0), v1) < self.outgoing(v0).len()
    }

    /// Some walkable half-edge joins `v0` and `v1`, in either direction.
    pub open spec fn edge_between(self, v0: int, v1: int) -> bool {
        self.half_to(v0, v1) || self.half_to(v1, v0)
    }

    /// The half-edge from `v0` to `v1` and its live twin, found among the outgoing
    /// half-edges of `v0`; none when there is no such half-edge or its twin is missing.
    pub open spec fn find_edge(self, v0: int, v1: int) -> Option<(int, int)> {
        let hs = self.outgoing(v0);
        let i = self.first_to(hs, v1);
        if i < hs.len() {
            match self.halfedges[hs[i]].twin {
                Some(t) => if self.he_live(t.0 as int) {
                    Some((hs[i], t.0 as int))
                } else {
                    None
                },
                None => None,
            }
        } else {
            None
        }
    }


    /// Ids below `n` (ascending) that satisfy `keep`.
    pub open spec fn ids_below(keep: spec_fn(int) -> bool, n: nat) -> Seq<int>
        decreases n,
    {
        if n == 0 {
            Seq::empty()
        } else {
            Self::ids_below(keep, (n - 1) as nat) + if keep(n - 1) {
                seq![n - 1]
            } else {
                Seq::empty()
            }
        }
    }

    /// The live vertex ids, ascending.
    pub open spec fn live_vertex_ids(self) -> Seq<int> {
        Self::ids_below(|v: int| self.v_live(v), self.vertices.len())
    }

    /// The live half-edge ids, ascending.
    pub open spec fn live_halfedge_ids(self) -> Seq<int> {
        Self::ids_below(|h: int| self.he_live(h), self.halfedges.len())
    }

    /// The live face ids, ascending.
    pub open spec fn live_face_ids(self) -> Seq<int> {
        Self::ids_below(|f: int| self.f_live(f), self.faces.len())
    }

    /// The edge list built from the first `j` half-edge slots, and the undirected edges
    /// (smaller id first) already listed: each usable half-edge adds its endpoints unless
    /// its undirected edge is listed.
    pub open spec fn edge_scan(self, j: nat) -> (Seq<(VertexId, VertexId)>, Set<(u32, u32)>)
        decreases j,
    {
        if j == 0 {
            (Seq::empty(), Set::empty())
        } else {
            let prev = self.edge_scan((j - 1) as nat);
            let h = j - 1;
            if self.usable(h) {
                let a = self.halfedges[h].origin.0;
                let b = self.target(h).0;
                let k = if a <= b {
                    (a, b)
                } else {
                    (b, a)
                };
                if prev.1.contains(k) {
                    prev
                } else {
                    (prev.0.push((self.halfedges[h].origin, self.target(h))), prev.1.insert(k))
                }
            } else {
                prev
            }
        }
    }

    /// All edges as (origin, target) pairs, each undirected edge once, in half-edge order.
    pub open spec fn edge_list(self) -> Seq<(VertexId, VertexId)> {
        self.edge_scan(self.halfedges.len()).0
    }

    /// The faces of the live half-edges below slot `j` that leave `v`, each once.
    pub open spec fn face_scan(self, v: int, j: nat) -> Seq<FaceId>
        decreases j,
    {
        if j == 0 {
            Seq::empty()
        } else {
            let prev = self.face_scan(v, (j - 1) as nat);
            let h = j - 1;
            if self.he_live(h) && self.halfedges[h].origin.0 == v {
                match self.halfedges[h].face {
                    Some(f) => if prev.contains(f) {
                        prev
                    } else {
                        prev.push(f)
                    },
                    None => prev,
                }
            } else {
                prev
            }
        }
    }

    /// The faces around a live vertex `v`: the faces of all half-edges leaving it, each
    /// once (none for a free vertex).
    pub open spec fn vertex_face_list(self, v: int) -> Seq<FaceId> {
        if self.v_live(v) {
            self.face_scan(v, self.halfedges.len())
        } else {
            Seq::empty()
        }
    }
}



proof fn lemma_out_scan<P>(m: MeshView<P>, v: int, j: nat)
    ensures
        forall|i: int|
            0 <= i < m.out_scan(v, j).len() ==> m.usable(#[trigger] m.out_scan(v, j)[i]) && m.halfedges[m.out_scan(
                v,
                j,
            )[i]].origin.0 == v && 0 <= m.out_scan(v, j)[i] < j,
        forall|h: int| 0 <= h < j && m.usable(h) && m.halfedges[h].origin.0 == v ==> #[trigger] m.out_scan(v, j).contains(h),
    decreases j,
{
    if j > 0 {
        lemma_out_scan(m, v, (j - 1) as nat);
        let prev = m.out_scan(v, (j - 1) as nat);
        let cur = m.out_scan(v, j);
        assert forall|h: int| 0 <= h < j && m.usable(h) && m.halfedges[h].origin.0 == v implies #[trigger] cur.contains(h) by {
            if h < j - 1 {
                assert(prev.contains(h));
                let k = choose|k: int| 0 <= k < prev.len() && prev[k] == h;
                if m.usable(j - 1) && m.halfedges[j - 1].origin.0 == v {
                    assert(cur == prev.push(j - 1));
                }
                assert(cur[k] == h);
            } else {
                assert(cur[cur.len() - 1] == h);
            }
        }
    }
}

/// The outgoing half-edges of a vertex are walkable half-edges that leave it, every
/// such half-edge of a live vertex is among them, and there are none for a free
/// vertex.
pub proof fn lemma_outgoing<P>(m: MeshView<P>, v: int)
    ensures
        forall|i: int|
            0 <= i < m.outgoing(v).len() ==> m.usable(#[trigger] m.outgoing(v)[i]) && m.halfedges[m.outgoing(
                v,
            )[i]].origin.0 == v,
        forall|h: int| m.v_live(v) && m.usable(h) && m.halfedges[h].origin.0 == v ==> #[trigger] m.outgoing(v).contains(h),
        m.outgoing(v).len() > 0 ==> m.v_live(v),
{
    lemma_out_scan(m, v, m.halfedges.len());
}

/// The undirected edges recorded by the edge scan have the smaller id first.
pub proof fn lemma_edge_scan_ordered<P>(m: MeshView<P>, j: nat)
    ensures
        forall|k: (u32, u32)| m.edge_scan(j).1.contains(k) ==> k.0 <= k.1,
    decreases j,
{
    if j > 0 {
        lemma_edge_scan_ordered(m, (j - 1) as nat);
        let prev = m.edge_scan((j - 1) as nat);
        let h = j - 1;
        assert forall|k: (u32, u32)| m.edge_scan(j).1.contains(k) implies k.0 <= k.1 by {
            if m.usable(h) {
                let a = m.halfedges[h].origin.0;
                let b = m.target(h).0;
                if !prev.1.contains(k) {
                    assert(k == (if a <= b { (a, b) } else { (b, a) }));
                }
            }
        }
    }
}


/// `first_to` is an index into the list, or its length.
pub proof fn lemma_first_to<P>(m: MeshView<P>, hs: Seq<int>, v1: int)
    ensures
        0 <= m.first_to(hs, v1) <= hs.len(),
        m.first_to(hs, v1) < hs.len() ==> m.target(hs[m.first_to(hs, v1)]).0 == v1,
    decreases hs.len(),
{
    if hs.len() > 0 {
        lemma_first_to(m, hs.drop_last(), v1);
    }
}

/// Does `v` hold `x`?
fn has_vertex(v: &Vec<VertexId>, x: VertexId) -> (r: bool)
    ensures
        r == v@.contains(x),
{
    let mut i: usize = 0;
    while i < v.len()
        invariant
            i <= v@.len(),
            forall|k: int| 0 <= k < i ==> v@[k] != x,
        decreases v.len() - i,
    {
        if v[i].0 == x.0 {
            proof {
                assert(v@[i as int] == x);
            }
            return true;
        }
        i = i + 1;
    }
    false
}

/// Does `v` hold `x`?
fn has_face(v: &Vec<FaceId>, x: FaceId) -> (r: bool)
    ensures
        r == v@.contains(x),
{
    let mut i: usize = 0;
    while i < v.len()
        invariant
            i <= v@.len(),
            forall|k: int| 0 <= k < i ==> v@[k] != x,
        decreases v.len() - i,
    {
        if v[i].0 == x.0 {
            proof {
                assert(v@[i as int] == x);
            }
            return true;
        }
        i = i + 1;
    }
    false
}

/// Half-edge ids of a list of slot indices.
pub open spec fn ids(hs: Seq<int>) -> Seq<HalfEdgeId> {
    hs.map_values(|h: int| HalfEdgeId(h as u32))
}

impl<P> HalfEdgeMesh<P> {
    /// The vertices of a face, in order (empty for a missing face).
    pub fn face_vertices(&self, fid: FaceId) -> (r: Vec<VertexId>)
        requires
            self.wf(),
        ensures
            r@ == self@.face_verts(fid.0 as int),
    {
        let mut verts: Vec<VertexId> = Vec::new();
        let face = match self.face(fid) {
            Some(f) => f,
            None => {
                return verts;
            },
        };
        let start = face.halfedge;
        let mut curr = start;
        let fuel = self.halfedge_slots() + 1;
        let mut steps: usize = 0;
        let ghost m = self@;
        let ghost s = start.0 as int;
        while steps < fuel
            invariant_except_break
                steps <= fuel,
                fuel == m.walk_fuel(),
                m == self@,
                self.wf(),
                s == start.0 as int,
                m.f_live(fid.0 as int),
                m.faces[fid.0 as int].halfedge == start,
                verts@ + m.origins(m.next_walk(s, curr.0 as int, (fuel - steps) as nat))
                    == m.face_verts(fid.0 as int),
            ensures
                verts@ == m.face_verts(fid.0 as int),
            decreases fuel - steps,
        {
            let he = match self.halfedge(curr) {
                Some(h) => h,
                None => {
                    break;
                },
            };
            let ghost rest = m.next_walk(s, he.next.0 as int, (fuel - steps - 1) as nat);
            proof {
                assert(m.next_walk(s, curr.0 as int, (fuel - steps) as nat) == if he.next.0 as int == s {
                    seq![curr.0 as int]
                } else {
                    seq![curr.0 as int] + rest
                });
                assert(m.origins(seq![curr.0 as int] + rest) =~= seq![he.origin] + m.origins(rest));
                assert(m.origins(seq![curr.0 as int]) =~= seq![he.origin]);
            }
            verts.push(he.origin);
            curr = he.next;
            if curr.0 == start.0 {
                break;
            }
            steps = steps + 1;
        }
        verts
    }

    /// The half-edges of a face, in order; a dead half-edge met on the way is listed
    /// and ends the walk (empty for a missing face).
    pub fn face_edges(&self, fid: FaceId) -> (r: Vec<HalfEdgeId>)
        requires
            self.wf(),
        ensures
            r@ == ids(self@.face_edge_ids(fid.0 as int)),
    {
        let mut edges: Vec<HalfEdgeId> = Vec::new();
        let face = match self.face(fid) {
            Some(f) => f,
            None => {
                return edges;
            },
        };
        let start = face.halfedge;
        let mut curr = start;
        let fuel = self.halfedge_slots() + 1;
        let mut steps: usize = 0;
        let ghost m = self@;
        let ghost s = start.0 as int;
        while steps < fuel
            invariant_except_break
                steps <= fuel,
                fuel == m.walk_fuel(),
                m == self@,
                self.wf(),
                s == start.0 as int,
                m.f_live(fid.0 as int),
                m.faces[fid.0 as int].halfedge == start,
                edges@ + ids(m.edge_walk(s, curr.0 as int, (fuel - steps) as nat))
                    == ids(m.face_edge_ids(fid.0 as int)),
            ensures
                edges@ == ids(m.face_edge_ids(fid.0 as int)),
            decreases fuel - steps,
        {
            edges.push(curr);
            let he = match self.halfedge(curr) {
                Some(h) => h,
                None => {
                    proof {
                        assert(ids(seq![curr.0 as int]) =~= seq![curr]);
                    }
                    break;
                },
            };
            let ghost rest = m.edge_walk(s, he.next.0 as int, (fuel - steps - 1) as nat);
            proof {
                assert(ids(seq![curr.0 as int] + rest) =~= seq![curr] + ids(rest));
                assert(ids(seq![curr.0 as int]) =~= seq![curr]);
            }
            curr = he.next;
            if curr.0 == start.0 {
                break;
            }
            steps = steps + 1;
        }
        edges
    }



    /// The vertex a usable half-edge points to.
    pub(crate) fn target_of(&self, h: HalfEdgeId) -> (r: VertexId)
        requires
            self.wf(),
            self@.usable(h.0 as int),
        ensures
            r == self@.target(h.0 as int),
    {
        let he = self.halfedge(h).unwrap();
        self.halfedge(he.next).unwrap().origin
    }

    /// The vertices adjacent to a vertex, each once, over every fan of faces at it.
    pub fn vertex_neighbors(&self, vid: VertexId) -> (r: Vec<VertexId>)
        requires
            self.wf(),
        ensures
            r@ == self@.neighbors(vid.0 as int),
    {
        let ghost m = self@;
        let mut out: Vec<VertexId> = Vec::new();
        if self.vertex(vid).is_none() {
            return out;
        }
        let n = self.halfedge_slots();
        let mut j: usize = 0;
        while j < n
            invariant
                j <= n,
                n == m.halfedges.len(),
                m == self@,
                self.wf(),
                out@ == m.neighbor_scan(vid.0 as int, j as nat),
            decreases n - j,
        {
            let h = HalfEdgeId(j as u32);
            if let Some(he) = self.halfedge(h) {
                if self.halfedge(he.next).is_some() {
                    let o = he.origin;
                    let t = self.target_of(h);
                    let w = if o.0 == vid.0 && t.0 != vid.0 {
                        Some(t)
                    } else if t.0 == vid.0 && o.0 != vid.0 {
                        Some(o)
                    } else {
                        None
                    };
                    proof {
                        assert(w == m.other_end(j as int, vid.0 as int));
                    }
                    if let Some(x) = w {
                        if !has_vertex(&out, x) {
                            out.push(x);
                        }
                    }
                }
            }
            j = j + 1;
        }
        out
    }

    /// The faces around a vertex, each once, over every fan of faces at it.
    pub fn vertex_faces(&self, vid: VertexId) -> (r: Vec<FaceId>)
        requires
            self.wf(),
        ensures
            r@ == self@.vertex_face_list(vid.0 as int),
    {
        let ghost m = self@;
        let mut out: Vec<FaceId> = Vec::new();
        if self.vertex(vid).is_none() {
            return out;
        }
        let n = self.halfedge_slots();
        let mut j: usize = 0;
        while j < n
            invariant
                j <= n,
                n == m.halfedges.len(),
                m == self@,
                self.wf(),
                out@ == m.face_scan(vid.0 as int, j as nat),
            decreases n - j,
        {
            let h = HalfEdgeId(j as u32);
            if let Some(he) = self.halfedge(h) {
                if he.origin.0 == vid.0 {
                    if let Some(f) = he.face {
                        if !has_face(&out, f) {
                            out.push(f);
                        }
                    }
                }
            }
            j = j + 1;
        }
        out
    }

    pub fn vertices(&self) -> (r: Vec<(VertexId, &Vertex<P>)>)
        requires
            self.wf(),
        ensures
            r@.len() == self@.live_vertex_ids().len(),
            forall|k: int| 0 <= k < r@.len() ==> {
                &&& (#[trigger] r@[k]).0.0 as int == self@.live_vertex_ids()[k]
                &&& *r@[k].1 == self@.vertices[self@.live_vertex_ids()[k]]
            },
    {
        let ghost m = self@;
        let n = self.vertex_slots();
        let mut out: Vec<(VertexId, &Vertex<P>)> = Vec::new();
        let mut i: usize = 0;
        while i < n
            invariant
                i <= n,
                n == m.vertices.len(),
                m == self@,
                self.wf(),
                out@.len() == MeshView::<P>::ids_below(|v: int| m.v_live(v), i as nat).len(),
                forall|k: int| 0 <= k < out@.len() ==> {
                    &&& (#[trigger] out@[k]).0.0 as int == MeshView::<P>::ids_below(|v: int| m.v_live(v), i as nat)[k]
                    &&& *out@[k].1 == m.vertices[MeshView::<P>::ids_below(|v: int| m.v_live(v), i as nat)[k]]
                },
            decreases n - i,
        {
            proof {
                assert(MeshView::<P>::ids_below(|v: int| m.v_live(v), (i + 1) as nat) == MeshView::<P>::ids_below(|v: int| m.v_live(v), i as nat) + if m.v_live(i as int) { seq![i as int] } else { Seq::empty() });
            }
            match self.vertex(VertexId(i as u32)) {
                Some(v) => {
                    out.push((VertexId(i as u32), v));
                },
                None => {},
            }
            i = i + 1;
        }
        out
    }

    /// All live faces with their ids, ascending.
    pub fn faces(&self) -> (r: Vec<(FaceId, &Face)>)
        requires
            self.wf(),
        ensures
            r@.len() == self@.live_face_ids().len(),
            forall|k: int| 0 <= k < r@.len() ==> {
                &&& (#[trigger] r@[k]).0.0 as int == self@.live_face_ids()[k]
                &&& *r@[k].1 == self@.faces[self@.live_face_ids()[k]]
            },
    {
        let ghost m = self@;
        let n = self.face_slots();
        let mut out: Vec<(FaceId, &Face)> = Vec::new();
        let mut i: usize = 0;
        while i < n
            invariant
                i <= n,
                n == m.faces.len(),
                m == self@,
                self.wf(),
                out@.len() == MeshView::<P>::ids_below(|f: int| m.f_live(f), i as nat).len(),
                forall|k: int| 0 <= k < out@.len() ==> {
                    &&& (#[trigger] out@[k]).0.0 as int == MeshView::<P>::ids_below(|f: int| m.f_live(f), i as nat)[k]
                    &&& *out@[k].1 == m.faces[MeshView::<P>::ids_below(|f: int| m.f_live(f), i as nat)[k]]
                },
            decreases n - i,
        {
            proof {
                assert(MeshView::<P>::ids_below(|f: int| m.f_live(f), (i + 1) as nat) == MeshView::<P>::ids_below(|f: int| m.f_live(f), i as nat) + if m.f_live(i as int) { seq![i as int] } else { Seq::empty() });
            }
            match self.face(FaceId(i as u32)) {
                Some(f) => {
                    out.push((FaceId(i as u32), f));
                },
                None => {},
            }
            i = i + 1;
        }
        out
    }

    /// All live half-edges with their ids, ascending.
    pub fn halfedges(&self) -> (r: Vec<(HalfEdgeId, &HalfEdge)>)
        requires
            self.wf(),
        ensures
            r@.len() == self@.live_halfedge_ids().len(),
            forall|k: int| 0 <= k < r@.len() ==> {
                &&& (#[trigger] r@[k]).0.0 as int == self@.live_halfedge_ids()[k]
                &&& *r@[k].1 == self@.halfedges[self@.live_halfedge_ids()[k]]
            },
    {
        let ghost m = self@;
        let n = self.halfedge_slots();
        let mut out: Vec<(HalfEdgeId, &HalfEdge)> = Vec::new();
        let mut i: usize = 0;
        while i < n
            invariant
                i <= n,
                n == m.halfedges.len(),
                m == self@,
                self.wf(),
                out@.len() == MeshView::<P>::ids_below(|h: int| m.he_live(h), i as nat).len(),
                forall|k: int| 0 <= k < out@.len() ==> {
                    &&& (#[trigger] out@[k]).0.0 as int == MeshView::<P>::ids_below(|h: int| m.he_live(h), i as nat)[k]
                    &&& *out@[k].1 == m.halfedges[MeshView::<P>::ids_below(|h: int| m.he_live(h), i as nat)[k]]
                },
            decreases n - i,
        {
            proof {
                assert(MeshView::<P>::ids_below(|h: int| m.he_live(h), (i + 1) as nat) == MeshView::<P>::ids_below(|h: int| m.he_live(h), i as nat) + if m.he_live(i as int) { seq![i as int] } else { Seq::empty() });
            }
            match self.halfedge(HalfEdgeId(i as u32)) {
                Some(h) => {
                    out.push((HalfEdgeId(i as u32), h));
                },
                None => {},
            }
            i = i + 1;
        }
        out
    }

    /// All edges as (origin, target) pairs, each undirected edge once, in half-edge order.
    pub fn edges(&self) -> (r: Vec<(VertexId, VertexId)>)
        requires
            self.wf(),
        ensures
            r@ == self@.edge_list(),
    {
        broadcast use vstd::std_specs::hash::group_hash_axioms;

        let ghost m = self@;
        let n = self.halfedge_slots();
        let mut out: Vec<(VertexId, VertexId)> = Vec::new();
        let mut seen: HashSet<u64> = HashSet::new();
        let mut j: usize = 0;
        while j < n
            invariant
                j <= n,
                n == m.halfedges.len(),
                m == self@,
                self.wf(),
                out@ == m.edge_scan(j as nat).0,
                forall|a: u32, b: u32| a <= b ==> (#[trigger] seen@.contains(edge_code(a, b))) == m.edge_scan(j as nat).1.contains((a, b)),
            decreases n - j,
        {
            proof {
                lemma_edge_scan_ordered(m, j as nat);
            }
            match self.edge_endpoints(HalfEdgeId(j as u32)) {
                Some((v0, v1)) => {
                    let lo = if v0.0 <= v1.0 { v0.0 } else { v1.0 };
                    let hi = if v0.0 <= v1.0 { v1.0 } else { v0.0 };
                    let key: u64 = ((lo as u64) << 32u64) | (hi as u64);
                    proof {
                        assert(key == edge_code(lo, hi));
                    }
                    if !seen.contains(&key) {
                        seen.insert(key);
                        out.push((v0, v1));
                        proof {
                            assert forall|a: u32, b: u32| a <= b implies (#[trigger] seen@.contains(edge_code(a, b))) == m.edge_scan((j + 1) as nat).1.contains((a, b)) by {
                                lemma_edge_code_injective(a, b, lo, hi);
                            }
                        }
                    }
                },
                None => {},
            }
            j = j + 1;
        }
        out
    }

    /// The endpoints (origin, target) of a live half-edge whose successor is live.
    pub fn edge_endpoints(&self, heid: HalfEdgeId) -> (r: Option<(VertexId, VertexId)>)
        requires
            self.wf(),
        ensures
            r is Some <==> self@.usable(heid.0 as int),
            r is Some ==> r->0 == (self@.halfedges[heid.0 as int].origin, self@.target(heid.0 as int)),
    {
        let he = match self.halfedge(heid) {
            Some(h) => h,
            None => {
                return None;
            },
        };
        let v0 = he.origin;
        let nx = match self.halfedge(he.next) {
            Some(h) => h,
            None => {
                return None;
            },
        };
        Some((v0, nx.origin))
    }
}

} // verus!
