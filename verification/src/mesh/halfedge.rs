//! Half-edge mesh data structure.
//!
//! Each edge is split into two directed half-edges that point to each other
//! (twin), forming a circular list around each face. Vertices, half-edges and
//! faces live in contiguous vectors and are addressed by `u32` indices. Removed
//! elements are soft-deleted: their index goes on a free list and is recycled
//! by the next allocation of the same kind.
//!
//! The per-vertex payload `P` (position, and whatever else the caller keeps per
//! vertex) is carried through unchanged: the topology never looks inside it.
use vstd::prelude::*;
use crate::utils::text::{decimal, push_decimal};
use crate::mesh::construction::{
    BuildOutcome, built_mesh, cyc_next, cyc_prev, edge_code, edge_key, events, face_events,
    faces_of, faces_upto, first_key, indices_below, links, map_inv, partial_halfedges, prebuilt_mesh,
    scan, scan_face, two_per_edge, vertices_for, lemma_edge_code_injective, lemma_events_take_len,
    lemma_first_key, lemma_links_len, lemma_prebuilt_valid, lemma_prebuilt_wf, lemma_push_searches,
    lemma_scan_face_prefix, lemma_scan_prefix, lemma_step_link, lemma_step_new_edge,
    lemma_step_old_edge, lemma_step_vertices, lemma_take_succ, lemma_map_step_old, lemma_map_step_new,
    lemma_scan_face_good, lemma_scan_bad_event, lemma_scan_face_done, lemma_scan_short_face, event_good,
};
use std::collections::HashMap;

verus! {

/// Sentinel for a missing id.
pub const INVALID_ID: u32 = 0xffff_ffffu32;

/// Index of a vertex.
#[derive(Debug, Clone, Copy, PartialEq, Eq, Structural, Hash, PartialOrd, Ord)]
pub struct VertexId(pub u32);

/// Index of a half-edge.
#[derive(Debug, Clone, Copy, PartialEq, Eq, Structural, Hash)]
pub struct HalfEdgeId(pub u32);

/// Index of a logical edge (a pair of half-edges).
#[derive(Debug, Clone, Copy, PartialEq, Eq, Structural, Hash)]
pub struct EdgeId(pub u32);

/// Index of a face.
#[derive(Debug, Clone, Copy, PartialEq, Eq, Structural, Hash)]
pub struct FaceId(pub u32);

/// A vertex: its payload and one outgoing half-edge.
#[derive(Debug, Clone)]
pub struct Vertex<P> {
    /// Per-vertex payload (position and the like).
    pub position: P,
    /// One outgoing half-edge (arbitrary choice).
    pub halfedge: Option<HalfEdgeId>,
    /// Is this vertex on a boundary?
    pub is_boundary: bool,
    /// User-defined flags.
    pub flags: u32,
}

/// A directed half-edge.
#[derive(Debug, Clone, Copy)]
pub struct HalfEdge {
    /// Origin vertex.
    pub origin: VertexId,
    /// Twin half-edge (opposite direction); `None` on a boundary edge.
    pub twin: Option<HalfEdgeId>,
    /// Next half-edge around the face.
    pub next: HalfEdgeId,
    /// Previous half-edge around the face.
    pub prev: HalfEdgeId,
    /// Incident face.
    pub face: Option<FaceId>,
    /// Is this edge sharp/creased?
    pub is_sharp: bool,
}

/// A face: one of its half-edges.
#[derive(Debug, Clone, Copy)]
pub struct Face {
    /// One half-edge on this face.
    pub halfedge: HalfEdgeId,
    /// Material id.
    pub material: u32,
}

/// Mesh construction and validation errors.
#[derive(Debug, Clone)]
pub enum MeshError {
    DegenerateFace,
    NonManifoldEdge(u32, u32),
    InvalidTopology(String),
    IoError(String),
    UnsupportedFormat(String),
}

/// The mathematical content of a mesh: its three arenas and three free lists.
#[verifier::ext_equal]
pub struct MeshView<P> {
    pub vertices: Seq<Vertex<P>>,
    pub halfedges: Seq<HalfEdge>,
    pub faces: Seq<Face>,
    pub free_vertices: Seq<u32>,
    pub free_halfedges: Seq<u32>,
    pub free_faces: Seq<u32>,
}

/// A fresh vertex record for a payload.
pub open spec fn fresh_vertex<P>(position: P) -> Vertex<P> {
    Vertex { position, halfedge: None, is_boundary: false, flags: 0 }
}

/// A fresh half-edge record leaving `origin`, not yet linked.
pub open spec fn fresh_halfedge(origin: VertexId) -> HalfEdge {
    HalfEdge {
        origin,
        twin: None,
        next: HalfEdgeId(INVALID_ID),
        prev: HalfEdgeId(INVALID_ID),
        face: None,
        is_sharp: false,
    }
}

/// A fresh face record.
pub open spec fn fresh_face(halfedge: HalfEdgeId) -> Face {
    Face { halfedge, material: 0 }
}

/// `id` names a slot of an arena of length `len`, or is the sentinel.
pub open spec fn slot_or_invalid(id: u32, len: nat) -> bool {
    id < len || id == INVALID_ID
}

/// A free list: distinct slot indices of an arena of length `len`.
pub open spec fn free_list_ok(free: Seq<u32>, len: nat) -> bool {
    &&& free.no_duplicates()
    &&& forall|i: int| 0 <= i < free.len() ==> (#[trigger] free[i]) < len
}

impl<P> MeshView<P> {
    pub open spec fn v_live(self, v: int) -> bool {
        0 <= v < self.vertices.len() && !self.free_vertices.contains(v as u32)
    }

    pub open spec fn he_live(self, h: int) -> bool {
        0 <= h < self.halfedges.len() && !self.free_halfedges.contains(h as u32)
    }

    pub open spec fn f_live(self, f: int) -> bool {
        0 <= f < self.faces.len() && !self.free_faces.contains(f as u32)
    }

    pub open spec fn he(self, h: int) -> HalfEdge {
        self.halfedges[h]
    }

    /// Every reference stored in half-edge slot `h` names a slot (or is the sentinel).
    pub open spec fn he_refs_ok(self, h: int) -> bool {
        let e = self.halfedges[h];
        &&& slot_or_invalid(e.origin.0, self.vertices.len())
        &&& slot_or_invalid(e.next.0, self.halfedges.len())
        &&& slot_or_invalid(e.prev.0, self.halfedges.len())
        &&& (e.twin matches Some(t) ==> t.0 < self.halfedges.len())
        &&& (e.face matches Some(f) ==> f.0 < self.faces.len())
    }

    /// Index sanity: every stored reference is in range, free lists are sets of slots,
    /// and no arena reaches the sentinel.
    pub open spec fn refs_ok(self) -> bool {
        &&& self.vertices.len() < INVALID_ID
        &&& self.halfedges.len() < INVALID_ID
        &&& self.faces.len() < INVALID_ID
        &&& free_list_ok(self.free_vertices, self.vertices.len())
        &&& free_list_ok(self.free_halfedges, self.halfedges.len())
        &&& free_list_ok(self.free_faces, self.faces.len())
        &&& forall|v: int|
            0 <= v < self.vertices.len() ==> ((#[trigger] self.vertices[v]).halfedge matches Some(
                h,
            ) ==> h.0 < self.halfedges.len())
        &&& forall|h: int| 0 <= h < self.halfedges.len() ==> #[trigger] self.he_refs_ok(h)
        &&& forall|f: int|
            0 <= f < self.faces.len() ==> slot_or_invalid(
                (#[trigger] self.faces[f]).halfedge.0,
                self.halfedges.len(),
            )
    }

    /// Live half-edges have a real origin and are linked into a face list.
    pub open spec fn live_linked(self) -> bool {
        forall|h: int|
            #![trigger self.halfedges[h]]
            self.he_live(h) ==> {
                &&& self.halfedges[h].origin.0 < self.vertices.len()
                &&& self.halfedges[h].next.0 < self.halfedges.len()
                &&& self.halfedges[h].prev.0 < self.halfedges.len()
            }
    }

    /// Well-formedness kept by every public operation.
    pub open spec fn wf(self) -> bool {
        self.refs_ok() && self.live_linked()
    }

    pub open spec fn vertex_count(self) -> int {
        self.vertices.len() - self.free_vertices.len()
    }

    pub open spec fn halfedge_count(self) -> int {
        self.halfedges.len() - self.free_halfedges.len()
    }

    pub open spec fn face_count(self) -> int {
        self.faces.len() - self.free_faces.len()
    }

    /// The set of live vertex ids.
    pub open spec fn live_vertices(self) -> Set<int> {
        Set::new(|v: int| self.v_live(v))
    }

    pub open spec fn live_halfedges(self) -> Set<int> {
        Set::new(|h: int| self.he_live(h))
    }

    pub open spec fn live_faces(self) -> Set<int> {
        Set::new(|f: int| self.f_live(f))
    }
}

/// The half-edge mesh container.
#[derive(Debug, Clone)]
pub struct HalfEdgeMesh<P> {
    vertices: Vec<Vertex<P>>,
    halfedges: Vec<HalfEdge>,
    faces: Vec<Face>,
    free_vertices: Vec<u32>,
    free_halfedges: Vec<u32>,
    free_faces: Vec<u32>,
}

impl<P> View for HalfEdgeMesh<P> {
    type V = MeshView<P>;

    closed spec fn view(&self) -> MeshView<P> {
        MeshView {
            vertices: self.vertices@,
            halfedges: self.halfedges@,
            faces: self.faces@,
            free_vertices: self.free_vertices@,
            free_halfedges: self.free_halfedges@,
            free_faces: self.free_faces@,
        }
    }
}

/// Linear membership test on a free list.
fn list_contains(list: &Vec<u32>, x: u32) -> (r: bool)
    ensures
        r == list@.contains(x),
{
    let mut i: usize = 0;
    while i < list.len()
        invariant
            i <= list.len(),
            forall|j: int| 0 <= j < i ==> list@[j] != x,
        decreases list.len() - i,
    {
        if list[i] == x {
            return true;
        }
        i = i + 1;
    }
    false
}

/// A free list of distinct slots of `0..len` has at most `len` entries, and the
/// slots it leaves out number exactly `len` minus its length.
pub proof fn lemma_free_list_len(free: Seq<u32>, len: nat)
    requires
        free_list_ok(free, len),
        len < INVALID_ID,
    ensures
        free.len() <= len,
        Set::new(|i: int| 0 <= i < len && !free.contains(i as u32)).finite(),
        Set::new(|i: int| 0 <= i < len && !free.contains(i as u32)).len() == len - free.len(),
{
    let range = vstd::set_lib::set_int_range(0, len as int);
    vstd::set_lib::lemma_int_range(0, len as int);
    let fset = free.to_set().map(|x: u32| x as int);
    free.unique_seq_to_set();
    assert(fset.len() == free.len()) by {
        let g = |x: u32| x as int;
        assert forall|a: u32, b: u32|
            free.to_set().contains(a) && free.to_set().contains(b) && #[trigger] g(a) == #[trigger] g(
                b,
            ) implies a == b by {}
        vstd::set_lib::lemma_map_size(free.to_set(), fset, g);
    }
    assert(fset.subset_of(range)) by {
        assert forall|x: int| fset.contains(x) implies range.contains(x) by {
            let y = choose|y: u32| free.to_set().contains(y) && y as int == x;
            let k = choose|k: int| 0 <= k < free.len() && free[k] == y;
            assert(free[k] < len);
        }
    }
    vstd::set_lib::lemma_len_subset(fset, range);
    let live = Set::new(|i: int| 0 <= i < len && !free.contains(i as u32));
    assert(live =~= range.difference(fset)) by {
        assert forall|i: int| live.contains(i) <==> range.difference(fset).contains(i) by {
            if 0 <= i < len {
                assert((i as u32) as int == i);
                if free.contains(i as u32) {
                    assert(free.to_set().contains(i as u32));
                    assert(fset.contains((i as u32) as int));
                } else {
                    if fset.contains(i) {
                        let y = choose|y: u32| free.to_set().contains(y) && y as int == i;
                        assert(y == i as u32);
                    }
                }
            }
        }
    }
    assert(range.intersect(fset) =~= fset);
    vstd::set_lib::lemma_set_difference_len(range, fset);
}


/// The slot the next allocation from `free` over an arena of length `len` takes.
pub open spec fn alloc_slot(free: Seq<u32>, len: nat) -> u32 {
    if free.len() > 0 {
        free.last()
    } else {
        len as u32
    }
}

/// The free list after an allocation.
pub open spec fn alloc_free(free: Seq<u32>) -> Seq<u32> {
    if free.len() > 0 {
        free.drop_last()
    } else {
        free
    }
}

/// The arena after storing `x` in the allocated slot.
pub open spec fn alloc_store<T>(arena: Seq<T>, free: Seq<u32>, x: T) -> Seq<T> {
    if free.len() > 0 {
        arena.update(free.last() as int, x)
    } else {
        arena.push(x)
    }
}

impl<P> MeshView<P> {
    pub open spec fn with_halfedges(self, hs: Seq<HalfEdge>) -> Self {
        MeshView { halfedges: hs, ..self }
    }

    pub open spec fn with_vertices(self, vs: Seq<Vertex<P>>) -> Self {
        MeshView { vertices: vs, ..self }
    }

    pub open spec fn with_faces(self, fs: Seq<Face>) -> Self {
        MeshView { faces: fs, ..self }
    }

    /// Store `e` in half-edge slot `h` if the slot exists.
    pub open spec fn put_he(self, h: int, e: HalfEdge) -> Self {
        if 0 <= h < self.halfedges.len() {
            self.with_halfedges(self.halfedges.update(h, e))
        } else {
            self
        }
    }

    pub open spec fn set_origin(self, h: int, v: VertexId) -> Self {
        self.put_he(h, HalfEdge { origin: v, ..self.halfedges[h] })
    }

    pub open spec fn set_twin(self, h: int, t: Option<HalfEdgeId>) -> Self {
        self.put_he(h, HalfEdge { twin: t, ..self.halfedges[h] })
    }

    pub open spec fn set_next(self, h: int, n: HalfEdgeId) -> Self {
        self.put_he(h, HalfEdge { next: n, ..self.halfedges[h] })
    }

    pub open spec fn set_prev(self, h: int, p: HalfEdgeId) -> Self {
        self.put_he(h, HalfEdge { prev: p, ..self.halfedges[h] })
    }

    pub open spec fn set_face(self, h: int, f: Option<FaceId>) -> Self {
        self.put_he(h, HalfEdge { face: f, ..self.halfedges[h] })
    }

    /// Point face `f` at half-edge `h` if the face slot exists.
    pub open spec fn set_face_he(self, f: int, h: HalfEdgeId) -> Self {
        if 0 <= f < self.faces.len() {
            self.with_faces(self.faces.update(f, Face { halfedge: h, ..self.faces[f] }))
        } else {
            self
        }
    }

    /// Point live vertex `v` at half-edge `h` (no effect on a free or missing vertex).
    pub open spec fn set_vertex_he(self, v: int, h: Option<HalfEdgeId>) -> Self {
        if self.v_live(v) {
            self.with_vertices(self.vertices.update(v, Vertex { halfedge: h, ..self.vertices[v] }))
        } else {
            self
        }
    }

    /// Move live vertex `v` (no effect on a free or missing vertex).
    pub open spec fn set_position(self, v: int, p: P) -> Self {
        if self.v_live(v) {
            self.with_vertices(self.vertices.update(v, Vertex { position: p, ..self.vertices[v] }))
        } else {
            self
        }
    }

    /// Soft-delete vertex `v`: clear its half-edge and put it on the free list.
    pub open spec fn delete_vertex(self, v: int) -> Self {
        if self.v_live(v) {
            MeshView {
                vertices: self.vertices.update(v, Vertex { halfedge: None, ..self.vertices[v] }),
                free_vertices: self.free_vertices.push(v as u32),
                ..self
            }
        } else {
            self
        }
    }

    /// Soft-delete half-edge `h`: unlink origin, twin and face, put it on the free list.
    pub open spec fn delete_halfedge(self, h: int) -> Self {
        if self.he_live(h) {
            MeshView {
                halfedges: self.halfedges.update(
                    h,
                    HalfEdge {
                        origin: VertexId(INVALID_ID),
                        twin: None,
                        face: None,
                        ..self.halfedges[h]
                    },
                ),
                free_halfedges: self.free_halfedges.push(h as u32),
                ..self
            }
        } else {
            self
        }
    }

    /// Soft-delete face `f`: clear its half-edge and put it on the free list.
    pub open spec fn delete_face(self, f: int) -> Self {
        if self.f_live(f) {
            MeshView {
                faces: self.faces.update(f, Face { halfedge: HalfEdgeId(INVALID_ID), ..self.faces[f] }),
                free_faces: self.free_faces.push(f as u32),
                ..self
            }
        } else {
            self
        }
    }

    /// Some live half-edge leaves `v` with no twin.
    pub open spec fn on_boundary(self, v: int) -> bool {
        exists|h: int|
            #![trigger self.halfedges[h]]
            self.he_live(h) && self.halfedges[h].origin.0 == v && self.halfedges[h].twin is None
    }

    /// Every vertex flag recomputed: boundary exactly when some live outgoing half-edge
    /// has no twin.
    pub open spec fn with_boundary_flags(self) -> Self {
        self.with_vertices(
            Seq::new(
                self.vertices.len(),
                |v: int| Vertex { is_boundary: self.on_boundary(v), ..self.vertices[v] },
            ),
        )
    }


    /// The mesh after adding a vertex carrying `position`.
    pub open spec fn after_add_vertex(self, position: P) -> Self {
        MeshView {
            vertices: alloc_store(self.vertices, self.free_vertices, fresh_vertex(position)),
            free_vertices: alloc_free(self.free_vertices),
            ..self
        }
    }

    /// The mesh after adding an unlinked half-edge leaving `origin`.
    pub open spec fn after_add_halfedge(self, origin: VertexId) -> Self {
        let id = alloc_slot(self.free_halfedges, self.halfedges.len());
        let vs = if self.vertices[origin.0 as int].halfedge is None {
            self.vertices.update(
                origin.0 as int,
                Vertex { halfedge: Some(HalfEdgeId(id)), ..self.vertices[origin.0 as int] },
            )
        } else {
            self.vertices
        };
        MeshView {
            vertices: vs,
            halfedges: alloc_store(self.halfedges, self.free_halfedges, fresh_halfedge(origin)),
            free_halfedges: alloc_free(self.free_halfedges),
            ..self
        }
    }

    /// The mesh after adding a face pointing at `halfedge`.
    pub open spec fn after_add_face(self, halfedge: HalfEdgeId) -> Self {
        MeshView {
            faces: alloc_store(self.faces, self.free_faces, fresh_face(halfedge)),
            free_faces: alloc_free(self.free_faces),
            ..self
        }
    }


    /// Some live half-edge below index `j` leaves `v` with no twin.
    pub open spec fn on_boundary_below(self, v: int, j: int) -> bool {
        exists|h: int|
            #![trigger self.halfedges[h]]
            0 <= h < j && self.he_live(h) && self.halfedges[h].origin.0 == v
                && self.halfedges[h].twin is None
    }

    /// Euler characteristic: vertices minus edges plus faces, each undirected edge
    /// counted once.
    pub open spec fn euler(self) -> int {
        self.vertex_count() - self.edge_list().len() + self.face_count()
    }


    /// Half-edge `i` has both its next and prev links set, to live half-edges.
    pub open spec fn links_set(self, i: int) -> bool {
        &&& self.halfedges[i].next.0 != INVALID_ID
        &&& self.halfedges[i].prev.0 != INVALID_ID
        &&& self.he_live(self.halfedges[i].next.0 as int)
        &&& self.he_live(self.halfedges[i].prev.0 as int)
    }

    /// The half-edge after `i` points back at `i`.
    pub open spec fn next_prev_ok(self, i: int) -> bool {
        self.halfedges[self.halfedges[i].next.0 as int].prev == HalfEdgeId(i as u32)
    }

    /// The twin of `i`, if any, is live and points back at `i`.
    pub open spec fn twin_ok(self, i: int) -> bool {
        self.halfedges[i].twin matches Some(t) ==> self.he_live(t.0 as int) && self.halfedges[t.0 as int].twin
            == Some(HalfEdgeId(i as u32))
    }

    pub open spec fn he_valid(self, i: int) -> bool {
        self.links_set(i) && self.next_prev_ok(i) && self.twin_ok(i)
    }

    /// Every live half-edge is linked, its successor points back at it, and twins are symmetric.
    pub open spec fn valid(self) -> bool {
        forall|i: int| #![trigger self.halfedges[i]] self.he_live(i) ==> self.he_valid(i)
    }

    /// `i` is the first live half-edge that fails the checks.
    pub open spec fn first_invalid(self, i: int) -> bool {
        &&& self.he_live(i)
        &&& !self.he_valid(i)
        &&& forall|j: int| #![trigger self.halfedges[j]] 0 <= j < i && self.he_live(j) ==> self.he_valid(j)
    }

    /// The message reported for failing half-edge `i`.
    pub open spec fn invalid_message(self, i: int) -> Seq<char> {
        let tail = if !self.links_set(i) {
            " has invalid next/prev"@
        } else if !self.next_prev_ok(i) {
            " next/prev mismatch"@
        } else {
            " twin mismatch"@
        };
        "HalfEdge "@ + decimal(i as nat) + tail
    }

    /// Every live half-edge has a twin.
    pub open spec fn watertight(self) -> bool {
        forall|h: int| #![trigger self.halfedges[h]] self.he_live(h) ==> self.halfedges[h].twin is Some
    }
}

/// Taking the last entry off a free list keeps it a free list, over the same or a larger arena.
pub proof fn lemma_free_list_pop(free: Seq<u32>, len: nat, new_len: nat)
    requires
        free_list_ok(free, len),
        free.len() > 0,
        len <= new_len,
    ensures
        free_list_ok(free.drop_last(), new_len),
{
    assert forall|i: int, j: int|
        0 <= i < free.drop_last().len() && 0 <= j < free.drop_last().len() && i != j implies free.drop_last()[i]
        != free.drop_last()[j] by {
        assert(free[i] != free[j]);
    }
    assert forall|i: int| 0 <= i < free.drop_last().len() implies (#[trigger] free.drop_last()[i]) < new_len by {
        assert(free[i] < len);
    }
}


/// Storing a record in a half-edge slot keeps the mesh well-formed when the record's
/// references are in range (and linked, if the slot is live).
pub proof fn lemma_put_he_wf<P>(m: MeshView<P>, h: int, e: HalfEdge)
    requires
        m.wf(),
        0 <= h < m.halfedges.len(),
        slot_or_invalid(e.origin.0, m.vertices.len()),
        slot_or_invalid(e.next.0, m.halfedges.len()),
        slot_or_invalid(e.prev.0, m.halfedges.len()),
        e.twin matches Some(t) ==> t.0 < m.halfedges.len(),
        e.face matches Some(f) ==> f.0 < m.faces.len(),
        m.he_live(h) ==> e.origin.0 < m.vertices.len() && e.next.0 < m.halfedges.len() && e.prev.0
            < m.halfedges.len(),
    ensures
        m.put_he(h, e).wf(),
{
    let n = m.put_he(h, e);
    assert forall|k: int| 0 <= k < n.halfedges.len() implies #[trigger] n.he_refs_ok(k) by {
        if k != h {
            assert(m.he_refs_ok(k));
        }
    }
    assert forall|k: int| #![trigger n.halfedges[k]] n.he_live(k) implies {
        &&& n.halfedges[k].origin.0 < n.vertices.len()
        &&& n.halfedges[k].next.0 < n.halfedges.len()
        &&& n.halfedges[k].prev.0 < n.halfedges.len()
    } by {
        if k != h {
            assert(m.halfedges[k] == n.halfedges[k]);
        }
    }
}

/// Storing a vertex record keeps the mesh well-formed when its half-edge is in range.
pub proof fn lemma_put_vertex_wf<P>(m: MeshView<P>, v: int, x: Vertex<P>)
    requires
        m.wf(),
        0 <= v < m.vertices.len(),
        x.halfedge matches Some(h) ==> h.0 < m.halfedges.len(),
    ensures
        m.with_vertices(m.vertices.update(v, x)).wf(),
{
    let n = m.with_vertices(m.vertices.update(v, x));
    assert forall|k: int| 0 <= k < n.halfedges.len() implies #[trigger] n.he_refs_ok(k) by {
        assert(m.he_refs_ok(k));
    }
}

/// Storing a face record keeps the mesh well-formed when its half-edge is a slot or the sentinel.
pub proof fn lemma_put_face_wf<P>(m: MeshView<P>, f: int, x: Face)
    requires
        m.wf(),
        0 <= f < m.faces.len(),
        slot_or_invalid(x.halfedge.0, m.halfedges.len()),
    ensures
        m.with_faces(m.faces.update(f, x)).wf(),
{
    let n = m.with_faces(m.faces.update(f, x));
    assert forall|k: int| 0 <= k < n.halfedges.len() implies #[trigger] n.he_refs_ok(k) by {
        assert(m.he_refs_ok(k));
    }
}

/// Pushing a slot that is not yet free keeps a free list a free list.
pub proof fn lemma_free_list_push(free: Seq<u32>, len: nat, x: u32)
    requires
        free_list_ok(free, len),
        x < len,
        !free.contains(x),
    ensures
        free_list_ok(free.push(x), len),
{
    assert forall|i: int| 0 <= i < free.push(x).len() implies (#[trigger] free.push(x)[i]) < len by {
        if i < free.len() {
            assert(free.push(x)[i] == free[i]);
        }
    }
    assert forall|i: int, j: int|
        0 <= i < free.push(x).len() && 0 <= j < free.push(x).len() && i != j implies free.push(x)[i]
        != free.push(x)[j] by {
        if i < free.len() && j < free.len() {
            assert(free[i] != free[j]);
        } else if i < free.len() {
            assert(free.contains(free[i]));
        } else if j < free.len() {
            assert(free.contains(free[j]));
        }
    }
}


/// Recomputing the boundary flags keeps the mesh well-formed.
pub proof fn lemma_boundary_flags_wf<P>(m: MeshView<P>)
    requires
        m.wf(),
    ensures
        m.with_boundary_flags().wf(),
{
    let n = m.with_boundary_flags();
    assert forall|k: int| 0 <= k < n.halfedges.len() implies #[trigger] n.he_refs_ok(k) by {
        assert(m.he_refs_ok(k));
    }
    assert forall|v: int| 0 <= v < n.vertices.len() implies ((#[trigger] n.vertices[v]).halfedge matches Some(h) ==> h.0 < n.halfedges.len()) by {
        assert(n.vertices[v].halfedge == m.vertices[v].halfedge);
    }
}

impl<P> HalfEdgeMesh<P> {
    pub open spec fn wf(&self) -> bool {
        self@.wf()
    }

    /// Create an empty mesh.
    pub fn new() -> (r: Self)
        ensures
            r.wf(),
            r@.vertices.len() == 0,
            r@.halfedges.len() == 0,
            r@.faces.len() == 0,
            r@.free_vertices.len() == 0,
            r@.free_halfedges.len() == 0,
            r@.free_faces.len() == 0,
    {
        HalfEdgeMesh {
            vertices: Vec::new(),
            halfedges: Vec::new(),
            faces: Vec::new(),
            free_vertices: Vec::new(),
            free_halfedges: Vec::new(),
            free_faces: Vec::new(),
        }
    }


    /// Get a live vertex.
    pub fn vertex(&self, id: VertexId) -> (r: Option<&Vertex<P>>)
        requires
            self.wf(),
        ensures
            r is Some <==> self@.v_live(id.0 as int),
            r is Some ==> *r->0 == self@.vertices[id.0 as int],
    {
        if list_contains(&self.free_vertices, id.0) {
            return None;
        }
        let i = id.0 as usize;
        if i < self.vertices.len() {
            Some(&self.vertices[i])
        } else {
            None
        }
    }

    /// Get a live vertex for update. What the caller writes through the reference
    /// lands in that vertex's slot.
    pub fn vertex_mut(&mut self, id: VertexId) -> (r: Option<&mut Vertex<P>>)
        requires
            old(self).wf(),
        ensures
            r is Some <==> old(self)@.v_live(id.0 as int),
            r is Some ==> *r->0 == old(self)@.vertices[id.0 as int] && final(self)@
                == old(self)@.with_vertices(
                old(self)@.vertices.update(id.0 as int, *final(r->0)),
            ),
            r is None ==> final(self)@ == old(self)@,
    {
        if list_contains(&self.free_vertices, id.0) {
            return None;
        }
        let i = id.0 as usize;
        if i < self.vertices.len() {
            Some(&mut self.vertices[i])
        } else {
            None
        }
    }

    /// Get a live half-edge.
    pub fn halfedge(&self, id: HalfEdgeId) -> (r: Option<&HalfEdge>)
        requires
            self.wf(),
        ensures
            r is Some <==> self@.he_live(id.0 as int),
            r is Some ==> *r->0 == self@.halfedges[id.0 as int],
    {
        if list_contains(&self.free_halfedges, id.0) {
            return None;
        }
        let i = id.0 as usize;
        if i < self.halfedges.len() {
            Some(&self.halfedges[i])
        } else {
            None
        }
    }

    /// Get a live half-edge for update.
    pub fn halfedge_mut(&mut self, id: HalfEdgeId) -> (r: Option<&mut HalfEdge>)
        requires
            old(self).wf(),
        ensures
            r is Some <==> old(self)@.he_live(id.0 as int),
            r is Some ==> *r->0 == old(self)@.halfedges[id.0 as int] && final(self)@
                == old(self)@.with_halfedges(
                old(self)@.halfedges.update(id.0 as int, *final(r->0)),
            ),
            r is None ==> final(self)@ == old(self)@,
    {
        if list_contains(&self.free_halfedges, id.0) {
            return None;
        }
        let i = id.0 as usize;
        if i < self.halfedges.len() {
            Some(&mut self.halfedges[i])
        } else {
            None
        }
    }

    /// Get a live face.
    pub fn face(&self, id: FaceId) -> (r: Option<&Face>)
        requires
            self.wf(),
        ensures
            r is Some <==> self@.f_live(id.0 as int),
            r is Some ==> *r->0 == self@.faces[id.0 as int],
    {
        if list_contains(&self.free_faces, id.0) {
            return None;
        }
        let i = id.0 as usize;
        if i < self.faces.len() {
            Some(&self.faces[i])
        } else {
            None
        }
    }

    /// Add a vertex, recycling the most recently freed id if there is one.
    pub fn add_vertex(&mut self, position: P) -> (id: VertexId)
        requires
            old(self).wf(),
            old(self)@.free_vertices.len() > 0 || old(self)@.vertices.len() + 1 < INVALID_ID,
        ensures
            final(self).wf(),
            id.0 == alloc_slot(old(self)@.free_vertices, old(self)@.vertices.len()),
            final(self)@ == old(self)@.after_add_vertex(position),
    {
        let v = Vertex { position, halfedge: None, is_boundary: false, flags: 0 };
        if self.free_vertices.len() > 0 {
            let id = self.free_vertices.pop().unwrap();
            self.vertices.set(id as usize, v);
            proof {
                assert(self@.free_vertices =~= old(self)@.free_vertices.drop_last());
                lemma_free_list_pop(old(self)@.free_vertices, old(self)@.vertices.len(), self@.vertices.len());
                assert forall|h: int| 0 <= h < self@.halfedges.len() implies #[trigger] self@.he_refs_ok(h) by {
                    assert(old(self)@.he_refs_ok(h));
                }
            }
            VertexId(id)
        } else {
            let id = self.vertices.len() as u32;
            self.vertices.push(v);
            proof {
                assert forall|h: int| 0 <= h < self@.halfedges.len() implies #[trigger] self@.he_refs_ok(h) by {
                    assert(old(self)@.he_refs_ok(h));
                }
                assert forall|i: int| 0 <= i < self@.free_vertices.len() implies (#[trigger] self@.free_vertices[i]) < self@.vertices.len() by {
                    assert(old(self)@.free_vertices[i] < old(self)@.vertices.len());
                }
            }
            VertexId(id)
        }
    }

    /// Add an unlinked half-edge leaving `origin`; the vertex takes it as its outgoing
    /// half-edge if it had none.
    fn add_halfedge(&mut self, origin: VertexId) -> (id: HalfEdgeId)
        requires
            free_list_ok(old(self)@.free_halfedges, old(self)@.halfedges.len()),
            (origin.0 as int) < old(self)@.vertices.len(),
            old(self)@.free_halfedges.len() > 0 || old(self)@.halfedges.len() + 1 < INVALID_ID,
        ensures
            id.0 == alloc_slot(old(self)@.free_halfedges, old(self)@.halfedges.len()),
            final(self)@ == old(self)@.after_add_halfedge(origin),
    {
        let e = HalfEdge {
            origin,
            twin: None,
            next: HalfEdgeId(INVALID_ID),
            prev: HalfEdgeId(INVALID_ID),
            face: None,
            is_sharp: false,
        };
        let id = if self.free_halfedges.len() > 0 {
            let id = self.free_halfedges.pop().unwrap();
            proof {
                assert(old(self)@.free_halfedges[old(self)@.free_halfedges.len() - 1] < old(self)@.halfedges.len());
            }
            self.halfedges.set(id as usize, e);
            id
        } else {
            let id = self.halfedges.len() as u32;
            self.halfedges.push(e);
            id
        };
        let oi = origin.0 as usize;
        if self.vertices[oi].halfedge.is_none() {
            self.vertices[oi].halfedge = Some(HalfEdgeId(id));
        }
        proof {
            if old(self)@.free_halfedges.len() > 0 {
                assert(self@.free_halfedges =~= old(self)@.free_halfedges.drop_last());
            }
        }
        HalfEdgeId(id)
    }

    /// Add a face pointing at `halfedge`.
    fn add_face(&mut self, halfedge: HalfEdgeId) -> (id: FaceId)
        requires
            free_list_ok(old(self)@.free_faces, old(self)@.faces.len()),
            old(self)@.free_faces.len() > 0 || old(self)@.faces.len() + 1 < INVALID_ID,
        ensures
            id.0 == alloc_slot(old(self)@.free_faces, old(self)@.faces.len()),
            final(self)@ == old(self)@.after_add_face(halfedge),
    {
        let f = Face { halfedge, material: 0 };
        if self.free_faces.len() > 0 {
            let id = self.free_faces.pop().unwrap();
            proof {
                assert(old(self)@.free_faces[old(self)@.free_faces.len() - 1] < old(self)@.faces.len());
            }
            self.faces.set(id as usize, f);
            proof {
                assert(self@.free_faces =~= old(self)@.free_faces.drop_last());
            }
            FaceId(id)
        } else {
            let id = self.faces.len() as u32;
            self.faces.push(f);
            FaceId(id)
        }
    }

    /// Soft-delete a vertex: its id goes on the free list for reuse.
    pub(crate) fn remove_vertex(&mut self, vid: VertexId)
        requires
            old(self).wf(),
        ensures
            final(self).wf(),
            final(self)@ == old(self)@.delete_vertex(vid.0 as int),
    {
        let idx = vid.0 as usize;
        if idx < self.vertices.len() && !list_contains(&self.free_vertices, vid.0) {
            self.vertices[idx].halfedge = None;
            self.free_vertices.push(vid.0);
            proof {
                let o = old(self)@;
                lemma_put_vertex_wf(o, idx as int, Vertex { halfedge: None, ..o.vertices[idx as int] });
                lemma_free_list_push(o.free_vertices, o.vertices.len(), vid.0);
                assert forall|k: int| 0 <= k < self@.halfedges.len() implies #[trigger] self@.he_refs_ok(k) by {
                    assert(o.he_refs_ok(k));
                }
            }
        }
    }

    /// Soft-delete a half-edge: origin, twin and face are cleared, the id goes on the free list.
    pub(crate) fn remove_halfedge(&mut self, heid: HalfEdgeId)
        requires
            old(self).wf(),
        ensures
            final(self).wf(),
            final(self)@ == old(self)@.delete_halfedge(heid.0 as int),
    {
        let idx = heid.0 as usize;
        if idx < self.halfedges.len() && !list_contains(&self.free_halfedges, heid.0) {
            self.halfedges[idx].origin = VertexId(INVALID_ID);
            self.halfedges[idx].twin = None;
            self.halfedges[idx].face = None;
            self.free_halfedges.push(heid.0);
            proof {
                let o = old(self)@;
                let n = self@;
                lemma_free_list_push(o.free_halfedges, o.halfedges.len(), heid.0);
                assert(n.halfedges =~= o.halfedges.update(idx as int, HalfEdge {
                    origin: VertexId(INVALID_ID),
                    twin: None,
                    face: None,
                    ..o.halfedges[idx as int]
                }));
                assert forall|k: int| 0 <= k < n.halfedges.len() implies #[trigger] n.he_refs_ok(k) by {
                    assert(o.he_refs_ok(k));
                }
                assert forall|k: int| #![trigger n.halfedges[k]] n.he_live(k) implies {
                    &&& n.halfedges[k].origin.0 < n.vertices.len()
                    &&& n.halfedges[k].next.0 < n.halfedges.len()
                    &&& n.halfedges[k].prev.0 < n.halfedges.len()
                } by {
                    assert(n.free_halfedges[n.free_halfedges.len() - 1] == idx as u32);
                    assert(k != idx);
                    assert(o.halfedges[k] == n.halfedges[k]);
                    assert(!o.free_halfedges.contains(k as u32)) by {
                        if o.free_halfedges.contains(k as u32) {
                            let j = choose|j: int| 0 <= j < o.free_halfedges.len() && o.free_halfedges[j] == k as u32;
                            assert(n.free_halfedges[j] == k as u32);
                        }
                    }
                }
            }
        }
    }

    /// Soft-delete a face: its half-edge is cleared, the id goes on the free list.
    pub(crate) fn remove_face(&mut self, fid: FaceId)
        requires
            old(self).wf(),
        ensures
            final(self).wf(),
            final(self)@ == old(self)@.delete_face(fid.0 as int),
    {
        let idx = fid.0 as usize;
        if idx < self.faces.len() && !list_contains(&self.free_faces, fid.0) {
            self.faces[idx].halfedge = HalfEdgeId(INVALID_ID);
            self.free_faces.push(fid.0);
            proof {
                let o = old(self)@;
                lemma_put_face_wf(o, idx as int, Face { halfedge: HalfEdgeId(INVALID_ID), ..o.faces[idx as int] });
                lemma_free_list_push(o.free_faces, o.faces.len(), fid.0);
                assert forall|k: int| 0 <= k < self@.halfedges.len() implies #[trigger] self@.he_refs_ok(k) by {
                    assert(o.he_refs_ok(k));
                }
            }
        }
    }

    /// Move a live vertex (no effect on a free or missing id).
    pub fn set_vertex_position(&mut self, vid: VertexId, position: P)
        requires
            old(self).wf(),
        ensures
            final(self).wf(),
            final(self)@ == old(self)@.set_position(vid.0 as int, position),
    {
        let idx = vid.0 as usize;
        if idx < self.vertices.len() && !list_contains(&self.free_vertices, vid.0) {
            self.vertices[idx].position = position;
            proof {
                let o = old(self)@;
                lemma_put_vertex_wf(o, idx as int, Vertex { position, ..o.vertices[idx as int] });
            }
        }
    }

    /// Point a live vertex at an outgoing half-edge (no effect on a free or missing id).
    pub(crate) fn set_vertex_halfedge(&mut self, vid: VertexId, he: Option<HalfEdgeId>)
        requires
            old(self).wf(),
            he matches Some(h) ==> h.0 < old(self)@.halfedges.len(),
        ensures
            final(self).wf(),
            final(self)@ == old(self)@.set_vertex_he(vid.0 as int, he),
    {
        let idx = vid.0 as usize;
        if idx < self.vertices.len() && !list_contains(&self.free_vertices, vid.0) {
            self.vertices[idx].halfedge = he;
            proof {
                let o = old(self)@;
                lemma_put_vertex_wf(o, idx as int, Vertex { halfedge: he, ..o.vertices[idx as int] });
            }
        }
    }

    pub(crate) fn set_halfedge_origin(&mut self, heid: HalfEdgeId, origin: VertexId)
        requires
            old(self).wf(),
            (origin.0 as int) < old(self)@.vertices.len(),
        ensures
            final(self).wf(),
            final(self)@ == old(self)@.set_origin(heid.0 as int, origin),
    {
        let idx = heid.0 as usize;
        if idx < self.halfedges.len() {
            proof {
                let o = old(self)@;
                assert(o.he_refs_ok(idx as int));
                lemma_put_he_wf(o, idx as int, HalfEdge { origin, ..o.halfedges[idx as int] });
            }
            self.halfedges[idx].origin = origin;
        }
    }

    pub(crate) fn set_halfedge_twin(&mut self, heid: HalfEdgeId, twin: Option<HalfEdgeId>)
        requires
            old(self).wf(),
            twin matches Some(t) ==> t.0 < old(self)@.halfedges.len(),
        ensures
            final(self).wf(),
            final(self)@ == old(self)@.set_twin(heid.0 as int, twin),
    {
        let idx = heid.0 as usize;
        if idx < self.halfedges.len() {
            proof {
                let o = old(self)@;
                assert(o.he_refs_ok(idx as int));
                lemma_put_he_wf(o, idx as int, HalfEdge { twin, ..o.halfedges[idx as int] });
            }
            self.halfedges[idx].twin = twin;
        }
    }

    pub(crate) fn set_halfedge_next(&mut self, heid: HalfEdgeId, next: HalfEdgeId)
        requires
            old(self).wf(),
            (next.0 as int) < old(self)@.halfedges.len(),
        ensures
            final(self).wf(),
            final(self)@ == old(self)@.set_next(heid.0 as int, next),
    {
        let idx = heid.0 as usize;
        if idx < self.halfedges.len() {
            proof {
                let o = old(self)@;
                assert(o.he_refs_ok(idx as int));
                lemma_put_he_wf(o, idx as int, HalfEdge { next, ..o.halfedges[idx as int] });
            }
            self.halfedges[idx].next = next;
        }
    }

    pub(crate) fn set_halfedge_prev(&mut self, heid: HalfEdgeId, prev: HalfEdgeId)
        requires
            old(self).wf(),
            (prev.0 as int) < old(self)@.halfedges.len(),
        ensures
            final(self).wf(),
            final(self)@ == old(self)@.set_prev(heid.0 as int, prev),
    {
        let idx = heid.0 as usize;
        if idx < self.halfedges.len() {
            proof {
                let o = old(self)@;
                assert(o.he_refs_ok(idx as int));
                lemma_put_he_wf(o, idx as int, HalfEdge { prev, ..o.halfedges[idx as int] });
            }
            self.halfedges[idx].prev = prev;
        }
    }

    pub(crate) fn set_halfedge_face(&mut self, heid: HalfEdgeId, face: Option<FaceId>)
        requires
            old(self).wf(),
            face matches Some(f) ==> f.0 < old(self)@.faces.len(),
        ensures
            final(self).wf(),
            final(self)@ == old(self)@.set_face(heid.0 as int, face),
    {
        let idx = heid.0 as usize;
        if idx < self.halfedges.len() {
            proof {
                let o = old(self)@;
                assert(o.he_refs_ok(idx as int));
                lemma_put_he_wf(o, idx as int, HalfEdge { face, ..o.halfedges[idx as int] });
            }
            self.halfedges[idx].face = face;
        }
    }

    pub(crate) fn set_face_halfedge(&mut self, fid: FaceId, he: HalfEdgeId)
        requires
            old(self).wf(),
            slot_or_invalid(he.0, old(self)@.halfedges.len()),
        ensures
            final(self).wf(),
            final(self)@ == old(self)@.set_face_he(fid.0 as int, he),
    {
        let idx = fid.0 as usize;
        if idx < self.faces.len() {
            proof {
                let o = old(self)@;
                lemma_put_face_wf(o, idx as int, Face { halfedge: he, ..o.faces[idx as int] });
            }
            self.faces[idx].halfedge = he;
        }
    }


    fn update_boundary_flags(&mut self)
        requires
            old(self).wf(),
        ensures
            final(self).wf(),
            final(self)@ == old(self)@.with_boundary_flags(),
    {
        let ghost o = self@;
        let n = self.vertices.len();
        let mut i: usize = 0;
        while i < n
            invariant
                i <= n,
                n == o.vertices.len(),
                self@ == o.with_vertices(self@.vertices),
                self@.vertices.len() == n,
                forall|v: int| 0 <= v < i ==> self@.vertices[v] == (Vertex { is_boundary: false, ..o.vertices[v] }),
                forall|v: int| i <= v < n ==> self@.vertices[v] == o.vertices[v],
            decreases n - i,
        {
            self.vertices[i].is_boundary = false;
            i = i + 1;
        }
        let hn = self.halfedges.len();
        let mut j: usize = 0;
        while j < hn
            invariant
                j <= hn,
                hn == o.halfedges.len(),
                n == o.vertices.len(),
                o.wf(),
                self@ == o.with_vertices(self@.vertices),
                self@.vertices.len() == n,
                forall|v: int| 0 <= v < n ==> self@.vertices[v] == (Vertex { is_boundary: o.on_boundary_below(v, j as int), ..o.vertices[v] }),
            decreases hn - j,
        {
            let free = list_contains(&self.free_halfedges, j as u32);
            if !free && self.halfedges[j].twin.is_none() {
                let oi = self.halfedges[j].origin.0 as usize;
                proof {
                    assert(o.he_live(j as int));
                    assert(o.halfedges[j as int].origin.0 < n);
                }
                self.vertices[oi].is_boundary = true;
            }
            proof {
                assert forall|v: int| 0 <= v < n implies self@.vertices[v] == (Vertex { is_boundary: o.on_boundary_below(v, j + 1), ..o.vertices[v] }) by {
                    if o.on_boundary_below(v, j + 1) && !o.on_boundary_below(v, j as int) {
                        let h = choose|h: int| #![trigger o.halfedges[h]] 0 <= h < j + 1 && o.he_live(h) && o.halfedges[h].origin.0 == v && o.halfedges[h].twin is None;
                        assert(h == j);
                    }
                    if o.on_boundary_below(v, j as int) {
                        let h = choose|h: int| #![trigger o.halfedges[h]] 0 <= h < j && o.he_live(h) && o.halfedges[h].origin.0 == v && o.halfedges[h].twin is None;
                        assert(o.on_boundary_below(v, j + 1));
                    }
                    if !free && o.halfedges[j as int].twin is None && o.halfedges[j as int].origin.0 == v {
                        assert(o.he_live(j as int));
                        assert(o.on_boundary_below(v, j + 1));
                    }
                }
            }
            j = j + 1;
        }
        proof {
            assert(self@.vertices =~= o.with_boundary_flags().vertices) by {
                assert forall|v: int| 0 <= v < n implies o.on_boundary_below(v, hn as int) == o.on_boundary(v) by {
                    if o.on_boundary(v) {
                        let h = choose|h: int| #![trigger o.halfedges[h]] o.he_live(h) && o.halfedges[h].origin.0 == v && o.halfedges[h].twin is None;
                        assert(o.on_boundary_below(v, hn as int));
                    }
                }
            }
            lemma_boundary_flags_wf(o);
        }
    }

    /// Recompute all derived data after topology changes.
    pub fn update_topology(&mut self)
        requires
            old(self).wf(),
        ensures
            final(self).wf(),
            final(self)@ == old(self)@.with_boundary_flags(),
    {
        self.update_boundary_flags();
    }

    /// Is the mesh watertight (no live half-edge without a twin)?
    pub fn is_watertight(&self) -> (r: bool)
        requires
            self.wf(),
        ensures
            r == self@.watertight(),
    {
        let hn = self.halfedges.len();
        let mut j: usize = 0;
        while j < hn
            invariant
                j <= hn,
                hn == self@.halfedges.len(),
                forall|h: int| #![trigger self@.halfedges[h]] 0 <= h < j && self@.he_live(h) ==> self@.halfedges[h].twin is Some,
            decreases hn - j,
        {
            if !list_contains(&self.free_halfedges, j as u32) && self.halfedges[j].twin.is_none() {
                proof {
                    assert(self@.he_live(j as int));
                }
                return false;
            }
            j = j + 1;
        }
        true
    }

    /// Euler characteristic: V - E + F, with E the number of edges (each undirected
    /// edge once).
    pub fn euler_characteristic(&self) -> (chi: i32)
        requires
            self.wf(),
            self@.vertex_count() <= i32::MAX,
            self@.face_count() <= i32::MAX,
            self@.edge_list().len() <= i32::MAX,
            i32::MIN <= self@.euler() <= i32::MAX,
        ensures
            chi == self@.euler(),
    {
        let v = self.vertex_count() as i64;
        let e = self.edges().len() as i64;
        let f = self.face_count() as i64;
        (v - e + f) as i32
    }


    fn invalid_topology(i: u32, tail: &str) -> (e: MeshError)
        ensures
            e matches MeshError::InvalidTopology(msg) && msg@ == "HalfEdge "@ + decimal(i as nat) + tail@,
    {
        let mut msg = String::from_str("HalfEdge ");
        push_decimal(&mut msg, i);
        msg.append(tail);
        MeshError::InvalidTopology(msg)
    }

    /// Check that every live half-edge is linked to live half-edges, its successor
    /// points back at it, and its twin (if any) is live and points back at it.
    /// Reports the first failing half-edge. References need only name slots or be the
    /// unset sentinel, so a mesh whose links were edited by hand can be checked.
    pub fn validate(&self) -> (r: Result<(), MeshError>)
        requires
            self@.refs_ok(),
        ensures
            r is Ok <==> self@.valid(),
            r matches Err(e) ==> exists|i: int|
                self@.first_invalid(i) && (e matches MeshError::InvalidTopology(msg) && msg@
                    == self@.invalid_message(i)),
    {
        let ghost m = self@;
        let hn = self.halfedges.len();
        let mut i: usize = 0;
        while i < hn
            invariant
                i <= hn,
                hn == m.halfedges.len(),
                m == self@,
                m.refs_ok(),
                forall|j: int| #![trigger m.halfedges[j]] 0 <= j < i && m.he_live(j) ==> m.he_valid(j),
            decreases hn - i,
        {
            if !list_contains(&self.free_halfedges, i as u32) {
                proof {
                    assert(m.he_live(i as int));
                    assert(m.he_refs_ok(i as int));
                }
                let he = self.halfedges[i];
                if he.next.0 == INVALID_ID || he.prev.0 == INVALID_ID || list_contains(&self.free_halfedges, he.next.0)
                    || list_contains(&self.free_halfedges, he.prev.0) {
                    let e = Self::invalid_topology(i as u32, " has invalid next/prev");
                    proof {
                        reveal_strlit(" has invalid next/prev");
                        assert(m.first_invalid(i as int));
                    }
                    return Err(e);
                }
                let next_he = self.halfedges[he.next.0 as usize];
                if next_he.prev != HalfEdgeId(i as u32) {
                    let e = Self::invalid_topology(i as u32, " next/prev mismatch");
                    proof {
                        reveal_strlit(" next/prev mismatch");
                        assert(m.first_invalid(i as int));
                    }
                    return Err(e);
                }
                if let Some(twin) = he.twin {
                    let twin_he = self.halfedges[twin.0 as usize];
                    if list_contains(&self.free_halfedges, twin.0) || twin_he.twin != Some(HalfEdgeId(i as u32)) {
                        let e = Self::invalid_topology(i as u32, " twin mismatch");
                        proof {
                            reveal_strlit(" twin mismatch");
                            assert(m.first_invalid(i as int));
                        }
                        return Err(e);
                    }
                }
            }
            i = i + 1;
        }
        Ok(())
    }


    /// Build a mesh from an indexed face set: `positions[v]` becomes vertex `v`'s payload,
    /// and each face lists its vertices in order. Half-edges on the same edge become
    /// twins. Fails on a face with fewer than three vertices, on a half-edge running the
    /// same way as the first one on its edge, and on an edge with three or more half-edges.
    pub fn from_indexed_faces(positions: &[P], face_indices: &[Vec<u32>]) -> (r: Result<
        Self,
        MeshError,
    >) where P: Copy
        requires
            positions@.len() + 1 < INVALID_ID,
            face_indices@.len() + 1 < INVALID_ID,
            events(faces_of(face_indices@)).len() + 1 < INVALID_ID,
            indices_below(faces_of(face_indices@), positions@.len() as int),
        ensures
            r is Ok <==> (scan(faces_of(face_indices@)) == BuildOutcome::Built && two_per_edge(
                events(faces_of(face_indices@)),
            )),
            r matches Ok(m) ==> m.wf() && m@ == built_mesh(positions@, faces_of(face_indices@)),
            (r matches Err(MeshError::DegenerateFace)) <==> scan(faces_of(face_indices@))
                == BuildOutcome::Degenerate,
            r matches Err(MeshError::NonManifoldEdge(a, b)) ==> scan(faces_of(face_indices@))
                == BuildOutcome::NonManifold(a, b),
            (scan(faces_of(face_indices@)) is NonManifold) ==> (r matches Err(
                MeshError::NonManifoldEdge(_, _),
            )),
            (r matches Err(MeshError::InvalidTopology(_))) <==> (scan(faces_of(face_indices@))
                == BuildOutcome::Built && !two_per_edge(events(faces_of(face_indices@)))),
            r matches Err(MeshError::InvalidTopology(msg)) ==> exists|i: int|
                prebuilt_mesh(positions@, faces_of(face_indices@)).first_invalid(i) && msg@
                    == prebuilt_mesh(positions@, faces_of(face_indices@)).invalid_message(i),
    {
        broadcast use vstd::std_specs::hash::group_hash_axioms;

        let ghost fs = faces_of(face_indices@);
        let mut mesh = Self::new();
        let np = positions.len();
        let mut vi: usize = 0;
        while vi < np
            invariant
                vi <= np,
                np == positions@.len(),
                np + 1 < INVALID_ID,
                mesh.wf(),
                mesh@ =~= (MeshView {
                    vertices: Seq::new(vi as nat, |v: int| fresh_vertex(positions@[v])),
                    halfedges: Seq::empty(),
                    faces: Seq::empty(),
                    free_vertices: Seq::empty(),
                    free_halfedges: Seq::empty(),
                    free_faces: Seq::empty(),
                }),
            decreases np - vi,
        {
            let p = positions[vi];
            mesh.add_vertex(p);
            vi = vi + 1;
        }
        proof {
            assert(fs.take(0) =~= Seq::<Seq<u32>>::empty());
            assert(mesh@.vertices =~= vertices_for(positions@, events(fs.take(0))));
            assert(mesh@.halfedges =~= partial_halfedges(events(fs.take(0)), links(fs.take(0))));
            assert(mesh@.faces =~= faces_upto(fs, 0));
            assert forall|a: u32, b: u32| a <= b implies !Map::<u64, HalfEdgeId>::empty().contains_key(#[trigger] edge_code(a, b)) by {}
        }
        let mut edge_map: HashMap<u64, HalfEdgeId> = HashMap::new();
        let nf = face_indices.len();
        let mut k: usize = 0;
        while k < nf
            invariant
                k <= nf,
                nf == face_indices@.len(),
                fs == faces_of(face_indices@),
                np == positions@.len(),
                np + 1 < INVALID_ID,
                nf + 1 < INVALID_ID,
                events(fs).len() + 1 < INVALID_ID,
                indices_below(fs, np as int),
                scan(fs.take(k as int)) == BuildOutcome::Built,
                mesh@ == (MeshView {
                    vertices: vertices_for(positions@, events(fs.take(k as int))),
                    halfedges: partial_halfedges(
                        events(fs.take(k as int)),
                        links(fs.take(k as int)),
                    ),
                    faces: faces_upto(fs, k as int),
                    free_vertices: Seq::empty(),
                    free_halfedges: Seq::empty(),
                    free_faces: Seq::empty(),
                }),
                links(fs.take(k as int)).len() == events(fs.take(k as int)).len(),
                map_inv(edge_map@, events(fs.take(k as int))),
                events(fs.take(k as int)).len() <= events(fs).len(),
            decreases nf - k,
        {
            let face_verts = &face_indices[k];
            let n = face_verts.len();
            let ghost e0 = events(fs.take(k as int));
            let ghost l0 = links(fs.take(k as int));
            proof {
                lemma_take_succ(fs, k as int);
                lemma_events_take_len(fs, k as int);
                assert(fs.take(k + 1).drop_last() =~= fs.take(k as int));
                assert(fs[k as int] == face_verts@);
            }
            if n < 3 {
                proof {
                    lemma_scan_short_face(fs, k as int);
                }
                return Err(MeshError::DegenerateFace);
            }
            let base = mesh.halfedges.len();
            let ghost fe = face_events(face_verts@);
            let mut i: usize = 0;
            while i < n
                invariant
                    i <= n,
                    n == face_verts@.len(),
                    n >= 3,
                    k < nf,
                    nf == face_indices@.len(),
                    fs == faces_of(face_indices@),
                    face_verts@ == fs[k as int],
                    fe == face_events(face_verts@),
                    np == positions@.len(),
                    e0 == events(fs.take(k as int)),
                    l0 == links(fs.take(k as int)),
                    l0.len() == e0.len(),
                    base == e0.len(),
                    e0.len() + n <= events(fs).len(),
                    events(fs).len() + 1 < INVALID_ID,
                    indices_below(fs, np as int),
                    scan(fs.take(k as int)) == BuildOutcome::Built,
                    scan_face(e0, fe.take(i as int)) == BuildOutcome::Built,
                    mesh@ == (MeshView {
                        vertices: vertices_for(positions@, e0 + fe.take(i as int)),
                        halfedges: partial_halfedges(e0 + fe.take(i as int), l0),
                        faces: faces_upto(fs, k as int),
                        free_vertices: Seq::empty(),
                        free_halfedges: Seq::empty(),
                        free_faces: Seq::empty(),
                    }),
                    map_inv(edge_map@, e0 + fe.take(i as int)),
                decreases n - i,
            {
                let ghost es = e0 + fe.take(i as int);
                let v0 = face_verts[i];
                let v1 = face_verts[if i + 1 < n { i + 1 } else { 0 }];
                proof {
                    assert(fe[i as int] == (v0, v1));
                    assert(es.push((v0, v1)) =~= e0 + fe.take(i + 1));
                    assert(fe.take(i + 1).drop_last() =~= fe.take(i as int));
                    assert(v0 < np);
                }
                let he = mesh.add_halfedge(VertexId(v0));
                proof {
                    assert(he.0 == es.len());
                    lemma_step_vertices(positions@, es, (v0, v1));
                }
                let lo = if v0 <= v1 { v0 } else { v1 };
                let hi = if v0 <= v1 { v1 } else { v0 };
                let key: u64 = ((lo as u64) << 32u64) | (hi as u64);
                let ghost ek = edge_key((v0, v1));
                proof {
                    assert(key == edge_code(lo, hi));
                    assert(ek == (lo, hi));
                    lemma_first_key(es, ek);
                }
                match edge_map.get(&key) {
                    Some(twin_ref) => {
                        let twin = *twin_ref;
                        let ghost f = first_key(es, ek);
                        proof {
                            assert(twin == HalfEdgeId(f as u32));
                        }
                        let twin_origin = mesh.halfedges[twin.0 as usize].origin.0;
                        if twin_origin == v1 {
                            mesh.halfedges[he.0 as usize].twin = Some(twin);
                            mesh.halfedges[twin.0 as usize].twin = Some(he);
                            proof {
                                lemma_step_old_edge(es, l0, (v0, v1));
                                assert(mesh@.halfedges =~= partial_halfedges(es.push((v0, v1)), l0));
                                lemma_map_step_old(edge_map@, es, (v0, v1));
                                lemma_scan_face_good(e0, fe, i as int);
                            }
                        } else {
                            proof {
                                lemma_scan_bad_event(fs, k as int, i as int);
                            }
                            return Err(MeshError::NonManifoldEdge(v0, v1));
                        }
                    },
                    None => {
                        let ghost m0 = edge_map@;
                        edge_map.insert(key, he);
                        proof {
                            lemma_step_new_edge(es, l0, (v0, v1));
                            assert(mesh@.halfedges =~= partial_halfedges(es.push((v0, v1)), l0));
                            lemma_map_step_new(m0, es, (v0, v1));
                            lemma_scan_face_good(e0, fe, i as int);
                        }
                    },
                }
                i = i + 1;
            }
            let fid = mesh.add_face(HalfEdgeId(base as u32));
            let ghost e1 = e0 + fe;
            let ghost nl = Seq::new(
                n as nat,
                |x: int| ((base + cyc_next(x, n as int)) as u32, (base + cyc_prev(x, n as int)) as u32, k as u32),
            );
            proof {
                assert(fe.take(n as int) =~= fe);
                assert(fid.0 == k);
            }
            let mut t: usize = 0;
            while t < n
                invariant
                    t <= n,
                    n == face_verts@.len(),
                    n >= 3,
                    base == e0.len(),
                    base + n < INVALID_ID,
                    k < nf,
                    nf + 1 < INVALID_ID,
                    fid.0 == k,
                    e1.len() == base + n,
                    l0.len() == base,
                    nl.len() == n,
                    nl == Seq::new(
                        n as nat,
                        |x: int| ((base + cyc_next(x, n as int)) as u32, (base + cyc_prev(x, n as int)) as u32, k as u32),
                    ),
                    mesh@ == (MeshView {
                        vertices: vertices_for(positions@, e1),
                        halfedges: partial_halfedges(e1, l0 + nl.take(t as int)),
                        faces: faces_upto(fs, k as int).push(Face { halfedge: HalfEdgeId(base as u32), material: 0 }),
                        free_vertices: Seq::empty(),
                        free_halfedges: Seq::empty(),
                        free_faces: Seq::empty(),
                    }),
                decreases n - t,
            {
                let curr = base + t;
                let next = base + if t + 1 < n { t + 1 } else { 0 };
                let prev = base + if t == 0 { n - 1 } else { t - 1 };
                proof {
                    lemma_step_link(e1, l0 + nl.take(t as int), nl[t as int]);
                    assert((l0 + nl.take(t as int)).push(nl[t as int]) =~= l0 + nl.take(t + 1));
                }
                mesh.halfedges[curr].next = HalfEdgeId(next as u32);
                mesh.halfedges[curr].prev = HalfEdgeId(prev as u32);
                mesh.halfedges[curr].face = Some(fid);
                proof {
                    assert(mesh@.halfedges =~= partial_halfedges(e1, l0 + nl.take(t + 1)));
                }
                t = t + 1;
            }
            proof {
                assert(nl.take(n as int) =~= nl);
                assert(l0 + nl =~= links(fs.take(k + 1)));
                assert(e1 =~= events(fs.take(k + 1)));
                assert(faces_upto(fs, k as int).push(Face { halfedge: HalfEdgeId(base as u32), material: 0 }) =~= faces_upto(fs, k + 1));
                lemma_scan_face_done(fs, k as int);
                lemma_links_len(fs.take(k + 1));
                lemma_events_take_len(fs, k + 1);
                assert forall|a: u32, b: u32| a <= b implies {
                    &&& (#[trigger] edge_map@.contains_key(edge_code(a, b))) == (first_key(e1, (a, b)) < e1.len())
                    &&& edge_map@.contains_key(edge_code(a, b)) ==> edge_map@[edge_code(a, b)] == HalfEdgeId(first_key(e1, (a, b)) as u32)
                } by {
                    assert(e0 + fe.take(n as int) =~= e1);
                }
            }
            k = k + 1;
        }
        proof {
            assert(fs.take(nf as int) =~= fs);
            lemma_prebuilt_wf(positions@, fs);
            lemma_prebuilt_valid(positions@, fs);
            assert(mesh@ =~= prebuilt_mesh(positions@, fs));
        }
        match mesh.validate() {
            Ok(()) => {},
            Err(e) => {
                return Err(e);
            },
        }
        mesh.update_boundary_flags();
        Ok(mesh)
    }


    /// Number of half-edge slots, live or free.
    /// The record in half-edge slot `id`, live or free.
    pub(crate) fn halfedge_at(&self, id: HalfEdgeId) -> (r: HalfEdge)
        requires
            (id.0 as int) < self@.halfedges.len(),
        ensures
            r == self@.halfedges[id.0 as int],
    {
        self.halfedges[id.0 as usize]
    }

    pub(crate) fn halfedge_slots(&self) -> (n: usize)
        ensures
            n == self@.halfedges.len(),
    {
        self.halfedges.len()
    }

    /// Number of vertex slots, live or free.
    pub(crate) fn vertex_slots(&self) -> (n: usize)
        ensures
            n == self@.vertices.len(),
    {
        self.vertices.len()
    }

    /// Number of face slots, live or free.
    pub(crate) fn face_slots(&self) -> (n: usize)
        ensures
            n == self@.faces.len(),
    {
        self.faces.len()
    }

    /// Count of live vertices.
    pub fn vertex_count(&self) -> (n: usize)
        requires
            self.wf(),
        ensures
            n == self@.vertex_count(),
            n == self@.live_vertices().len(),
    {
        proof {
            lemma_free_list_len(self.free_vertices@, self.vertices@.len());
            assert(self@.live_vertices() =~= Set::new(
                |i: int| 0 <= i < self.vertices@.len() && !self.free_vertices@.contains(i as u32),
            ));
        }
        self.vertices.len() - self.free_vertices.len()
    }

    /// Count of live half-edges.
    pub fn halfedge_count(&self) -> (n: usize)
        requires
            self.wf(),
        ensures
            n == self@.halfedge_count(),
            n == self@.live_halfedges().len(),
    {
        proof {
            lemma_free_list_len(self.free_halfedges@, self.halfedges@.len());
            assert(self@.live_halfedges() =~= Set::new(
                |i: int|
                    0 <= i < self.halfedges@.len() && !self.free_halfedges@.contains(i as u32),
            ));
        }
        self.halfedges.len() - self.free_halfedges.len()
    }

    /// Count of live faces.
    pub fn face_count(&self) -> (n: usize)
        requires
            self.wf(),
        ensures
            n == self@.face_count(),
            n == self@.live_faces().len(),
    {
        proof {
            lemma_free_list_len(self.free_faces@, self.faces@.len());
            assert(self@.live_faces() =~= Set::new(
                |i: int| 0 <= i < self.faces@.len() && !self.free_faces@.contains(i as u32),
            ));
        }
        self.faces.len() - self.free_faces.len()
    }
}

impl<P> Default for HalfEdgeMesh<P> {
    /// An empty mesh.
    fn default() -> (r: Self)
        ensures
            r.wf(),
            r@.vertices.len() == 0,
            r@.halfedges.len() == 0,
            r@.faces.len() == 0,
            r@.free_vertices.len() == 0,
            r@.free_halfedges.len() == 0,
            r@.free_faces.len() == 0,
    {
        Self::new()
    }
}

} // verus!
