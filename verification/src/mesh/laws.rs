//! Laws of the mesh library: what building, reading and editing a mesh promise as a
//! whole.
use vstd::prelude::*;
use crate::mesh::construction::{
    BuildOutcome, built_mesh, cyc_next, events, face_base, face_events, indices_below, links,
    prebuilt_mesh, scan, two_per_edge, lemma_events_take_len, lemma_links_len, lemma_prebuilt_valid,
    lemma_prebuilt_wf, lemma_scan_built_faces, lemma_take_succ,
};
use crate::mesh::halfedge::{MeshView, VertexId, INVALID_ID, lemma_boundary_flags_wf};
use crate::mesh::topology::{face_index, lemma_find_edge_live};

verus! {

/// The events and links of the first `k` faces are a prefix of those of all faces.
proof fn lemma_prefix(fs: Seq<Seq<u32>>, k: int)
    requires
        0 <= k <= fs.len(),
    ensures
        events(fs.take(k)).len() <= events(fs).len(),
        forall|j: int| 0 <= j < events(fs.take(k)).len() ==> #[trigger] events(fs)[j] == events(fs.take(k))[j],
        forall|j: int| 0 <= j < events(fs.take(k)).len() ==> #[trigger] links(fs)[j] == links(fs.take(k))[j],
    decreases fs.len() - k,
{
    lemma_links_len(fs.take(k));
    lemma_links_len(fs);
    if k == fs.len() {
        assert(fs.take(k) =~= fs);
    } else {
        lemma_prefix(fs, k + 1);
        lemma_take_succ(fs, k);
        lemma_links_len(fs.take(k + 1));
        assert forall|j: int| 0 <= j < events(fs.take(k)).len() implies #[trigger] links(fs)[j] == links(fs.take(k))[j] by {
            assert(links(fs.take(k + 1))[j] == links(fs.take(k))[j]);
        }
        assert forall|j: int| 0 <= j < events(fs.take(k)).len() implies #[trigger] events(fs)[j] == events(fs.take(k))[j] by {
            assert(events(fs.take(k + 1))[j] == events(fs.take(k))[j]);
        }
    }
}

/// The half-edges of face `k` are numbered from `face_base(fs, k)` on: corner `i`
/// starts at `fs[k][i]` and is followed by corner `i + 1` (cyclically).
proof fn lemma_face_block(fs: Seq<Seq<u32>>, k: int, i: int)
    requires
        0 <= k < fs.len(),
        0 <= i < fs[k].len(),
    ensures
        face_base(fs, k) + fs[k].len() <= events(fs).len(),
        events(fs)[face_base(fs, k) + i].0 == fs[k][i],
        links(fs)[face_base(fs, k) + i].0 == (face_base(fs, k) + cyc_next(i, fs[k].len() as int)) as u32,
{
    lemma_events_take_len(fs, k);
    lemma_take_succ(fs, k);
    lemma_prefix(fs, k + 1);
    lemma_links_len(fs.take(k));
    let b = face_base(fs, k);
    assert(events(fs.take(k + 1))[b + i] == face_events(fs[k])[i]);
    assert(links(fs)[b + i] == links(fs.take(k + 1))[b + i]);
}

/// Walking `next` from corner `i` of face `k` back to the face's first half-edge
/// meets corners `i`, `i + 1`, ..., the last.
proof fn lemma_built_walk<P>(positions: Seq<P>, fs: Seq<Seq<u32>>, k: int, i: int, fuel: nat)
    requires
        0 <= k < fs.len(),
        0 <= i < fs[k].len(),
        fuel >= fs[k].len() - i,
        events(fs).len() < INVALID_ID,
    ensures
        built_mesh(positions, fs).next_walk(face_base(fs, k), face_base(fs, k) + i, fuel) == Seq::new(
            (fs[k].len() - i) as nat,
            |x: int| face_base(fs, k) + i + x,
        ),
    decreases fs[k].len() - i,
{
    let m = built_mesh(positions, fs);
    let b = face_base(fs, k);
    let n = fs[k].len() as int;
    lemma_face_block(fs, k, i);
    lemma_links_len(fs);
    lemma_events_take_len(fs, k);
    assert(m.he_live(b + i));
    assert(m.halfedges[b + i].next.0 as int == b + cyc_next(i, n));
    if i + 1 < n {
        lemma_built_walk(positions, fs, k, i + 1, (fuel - 1) as nat);
        let rest = m.next_walk(b, b + i + 1, (fuel - 1) as nat);
        assert(m.next_walk(b, b + i, fuel) == seq![b + i] + rest);
        assert(m.next_walk(b, b + i, fuel) =~= Seq::new((n - i) as nat, |x: int| b + i + x));
    } else {
        assert(m.next_walk(b, b + i, fuel) == seq![b + i]);
        assert(m.next_walk(b, b + i, fuel) =~= Seq::new((n - i) as nat, |x: int| b + i + x));
    }
}

/// Building a mesh from an indexed face set gives back what it was given: vertex `v`
/// carries `positions[v]`, face `k` lists the vertices of `fs[k]` in order, and there
/// are as many vertices, faces and half-edges as positions, faces and face corners.
/// A vertex is flagged as on the boundary exactly when a half-edge without twin leaves
/// it. The mesh is well-formed, and it passes validation exactly when no edge carries
/// three or more half-edges.
pub proof fn law_built_mesh_reads_back<P>(positions: Seq<P>, fs: Seq<Seq<u32>>)
    requires
        scan(fs) == BuildOutcome::Built,
        positions.len() < INVALID_ID,
        fs.len() < INVALID_ID,
        events(fs).len() < INVALID_ID,
        indices_below(fs, positions.len() as int),
    ensures
        built_mesh(positions, fs).wf(),
        built_mesh(positions, fs).valid() <==> two_per_edge(events(fs)),
        built_mesh(positions, fs).vertex_count() == positions.len(),
        built_mesh(positions, fs).face_count() == fs.len(),
        built_mesh(positions, fs).halfedge_count() == events(fs).len(),
        forall|v: int|
            0 <= v < positions.len() ==> (#[trigger] built_mesh(positions, fs).vertices[v]).position
                == positions[v],
        forall|v: int|
            0 <= v < positions.len() ==> (#[trigger] built_mesh(positions, fs).vertices[v]).is_boundary
                == built_mesh(positions, fs).on_boundary(v),
        forall|k: int|
            0 <= k < fs.len() ==> #[trigger] built_mesh(positions, fs).face_verts(k) == fs[k].map_values(
                |x: u32| VertexId(x),
            ),
{
    let m = built_mesh(positions, fs);
    let p = prebuilt_mesh(positions, fs);
    lemma_prebuilt_wf(positions, fs);
    lemma_prebuilt_valid(positions, fs);
    lemma_links_len(fs);
    lemma_scan_built_faces(fs);
    assert(m.halfedges == p.halfedges && m.faces == p.faces);
    lemma_boundary_flags_wf(p);
    assert(m.wf());
    assert(m.valid() == p.valid());
    assert forall|k: int| 0 <= k < fs.len() implies #[trigger] m.face_verts(k) == fs[k].map_values(
        |x: u32| VertexId(x),
    ) by {
        let b = face_base(fs, k);
        let n = fs[k].len() as int;
        lemma_events_take_len(fs, k);
        assert(m.f_live(k));
        assert(m.faces[k].halfedge.0 == b);
        lemma_built_walk(positions, fs, k, 0, m.walk_fuel());
        let hs = m.face_loop(k);
        assert(hs =~= Seq::new(n as nat, |x: int| b + x));
        assert forall|i: int| 0 <= i < n implies m.face_verts(k)[i] == VertexId(fs[k][i]) by {
            lemma_face_block(fs, k, i);
        }
        assert(m.face_verts(k) =~= fs[k].map_values(|x: u32| VertexId(x)));
    }
}

/// `a` and `b` have arenas of the same lengths and the same free lists: the same
/// live vertices, half-edges and faces.
pub open spec fn same_slots<P>(a: MeshView<P>, b: MeshView<P>) -> bool {
    &&& a.vertices.len() == b.vertices.len()
    &&& a.halfedges.len() == b.halfedges.len()
    &&& a.faces.len() == b.faces.len()
    &&& a.free_vertices == b.free_vertices
    &&& a.free_halfedges == b.free_halfedges
    &&& a.free_faces == b.free_faces
}

proof fn lemma_set_origins_slots<P>(m: MeshView<P>, hs: Seq<int>, skip: int, v: VertexId)
    ensures
        same_slots(m.set_origins(hs, skip, v), m),
    decreases hs.len(),
{
    if hs.len() > 0 {
        lemma_set_origins_slots(m, hs.drop_last(), skip, v);
    }
}

proof fn lemma_flags_slots<P>(m: MeshView<P>)
    ensures
        same_slots(m.with_boundary_flags(), m),
{
}

pub(crate) proof fn lemma_same_slots_counts<P>(a: MeshView<P>, b: MeshView<P>)
    requires
        same_slots(a, b),
    ensures
        a.vertex_count() == b.vertex_count(),
        a.halfedge_count() == b.halfedge_count(),
        a.face_count() == b.face_count(),
{
}

/// The rewiring of a flip keeps every slot and free list.
proof fn lemma_flip_links_slots<P>(
    m: MeshView<P>,
    v0: int,
    v1: int,
    a: crate::mesh::halfedge::HalfEdgeId,
    b: crate::mesh::halfedge::HalfEdgeId,
    h12: crate::mesh::halfedge::HalfEdgeId,
    h23: crate::mesh::halfedge::HalfEdgeId,
    h30: crate::mesh::halfedge::HalfEdgeId,
    h03: crate::mesh::halfedge::HalfEdgeId,
    fa: Option<crate::mesh::halfedge::FaceId>,
    fb: Option<crate::mesh::halfedge::FaceId>,
    v2: VertexId,
    v3: VertexId,
)
    ensures
        same_slots(m.flip_links(v0, v1, a, b, h12, h23, h30, h03, fa, fb, v2, v3), m),
{
    reveal(MeshView::flip_links);
    let s1 = m.set_next(a.0 as int, h23);
    let s2 = s1.set_prev(h23.0 as int, a);
    let s3 = s2.set_next(h23.0 as int, h30);
    let s4 = s3.set_prev(h30.0 as int, h23);
    let s5 = s4.set_next(h30.0 as int, a);
    let s6 = s5.set_prev(a.0 as int, h30);
    let s7 = s6.set_face(a.0 as int, fa);
    let s8 = s7.set_face(h23.0 as int, fa);
    let s9 = s8.set_face(h30.0 as int, fa);
    let m1 = s9.set_face_he(face_index(fa), a);
    assert(same_slots(m1, m));
    let t1 = m1.set_next(b.0 as int, h03);
    let t2 = t1.set_prev(h03.0 as int, b);
    let t3 = t2.set_next(h03.0 as int, h12);
    let t4 = t3.set_prev(h12.0 as int, h03);
    let t5 = t4.set_next(h12.0 as int, b);
    let t6 = t5.set_prev(b.0 as int, h12);
    let t7 = t6.set_face(b.0 as int, fb);
    let t8 = t7.set_face(h03.0 as int, fb);
    let t9 = t8.set_face(h12.0 as int, fb);
    let m2 = t9.set_face_he(face_index(fb), b);
    assert(same_slots(m2, m));
    let m3 = m2.set_origin(a.0 as int, v2).set_origin(b.0 as int, v3);
    assert(same_slots(m3, m));
    let m4 = if m3.vertices[v0].halfedge == Some(a) {
        m3.set_vertex_he(v0, Some(h30))
    } else {
        m3
    };
    assert(same_slots(m4, m));
    let m5 = if m4.vertices[v1].halfedge == Some(b) {
        m4.set_vertex_he(v1, Some(h12))
    } else {
        m4
    };
    assert(same_slots(m5, m));
    assert(same_slots(m5.with_boundary_flags(), m));
}

/// Flipping an edge never changes which vertices, half-edges and faces are live, so it
/// keeps the numbers of vertices, half-edges and faces.
pub proof fn law_flip_keeps_counts<P>(m: MeshView<P>, v0: int, v1: int)
    ensures
        same_slots(m.flipped(v0, v1), m),
        m.flipped(v0, v1).vertex_count() == m.vertex_count(),
        m.flipped(v0, v1).halfedge_count() == m.halfedge_count(),
        m.flipped(v0, v1).face_count() == m.face_count(),
{
    let a = m.edge_first(v0, v1);
    let b = m.edge_second(v0, v1);
    let h12 = m.halfedges[a].next;
    let h30 = m.halfedges[b].next;
    lemma_flip_links_slots(
        m,
        v0,
        v1,
        crate::mesh::halfedge::HalfEdgeId(a as u32),
        crate::mesh::halfedge::HalfEdgeId(b as u32),
        h12,
        m.halfedges[h12.0 as int].next,
        h30,
        m.halfedges[h30.0 as int].next,
        m.halfedges[a].face,
        m.halfedges[b].face,
        m.halfedges[m.halfedges[h30.0 as int].next.0 as int].origin,
        m.halfedges[m.halfedges[h12.0 as int].next.0 as int].origin,
    );
    lemma_same_slots_counts(m.flipped(v0, v1), m);
}

/// The live faces on the two sides of the edge `v0 -> v1`.
pub open spec fn edge_sides<P>(m: MeshView<P>, v0: int, v1: int) -> Set<int> {
    Set::new(
        |f: int|
            m.f_live(f) && (face_index(m.halfedges[m.edge_first(v0, v1)].face) == f || face_index(
                m.halfedges[m.edge_second(v0, v1)].face,
            ) == f),
    )
}

pub(crate) proof fn lemma_push_contains(s: Seq<u32>, x: u32, y: u32)
    ensures
        s.push(x).contains(y) == (s.contains(y) || x == y),
{
    let t = s.push(x);
    if t.contains(y) {
        let k = choose|k: int| 0 <= k < t.len() && #[trigger] t[k] == y;
        if k < s.len() {
            assert(s[k] == y);
        }
    }
    if s.contains(y) {
        let k = choose|k: int| 0 <= k < s.len() && #[trigger] s[k] == y;
        assert(t[k] == y);
    }
    if x == y {
        assert(t[s.len() as int] == y);
    }
}

pub(crate) proof fn lemma_delete_face_count<P>(m: MeshView<P>, f: int)
    requires
        m.faces.len() < INVALID_ID,
    ensures
        m.delete_face(f).vertices.len() == m.vertices.len(),
        m.delete_face(f).halfedges.len() == m.halfedges.len(),
        m.delete_face(f).faces.len() == m.faces.len(),
        m.delete_face(f).free_vertices == m.free_vertices,
        m.delete_face(f).free_halfedges == m.free_halfedges,
        m.delete_face(f).face_count() == m.face_count() - if m.f_live(f) {
            1int
        } else {
            0int
        },
        forall|g: int| #[trigger] m.delete_face(f).f_live(g) == (m.f_live(g) && g != f),
{
    if m.f_live(f) {
        assert forall|g: int| #[trigger] m.delete_face(f).f_live(g) == (m.f_live(g) && g != f) by {
            lemma_push_contains(m.free_faces, f as u32, g as u32);
        }
    }
}

pub(crate) proof fn lemma_delete_he_count<P>(m: MeshView<P>, h: int)
    requires
        m.halfedges.len() < INVALID_ID,
    ensures
        m.delete_halfedge(h).vertices.len() == m.vertices.len(),
        m.delete_halfedge(h).halfedges.len() == m.halfedges.len(),
        m.delete_halfedge(h).faces.len() == m.faces.len(),
        m.delete_halfedge(h).free_vertices == m.free_vertices,
        m.delete_halfedge(h).free_faces == m.free_faces,
        m.delete_halfedge(h).halfedge_count() == m.halfedge_count() - if m.he_live(h) {
            1int
        } else {
            0int
        },
        forall|g: int| #[trigger] m.delete_halfedge(h).he_live(g) == (m.he_live(g) && g != h),
{
    if m.he_live(h) {
        assert forall|g: int| #[trigger] m.delete_halfedge(h).he_live(g) == (m.he_live(g) && g != h) by {
            lemma_push_contains(m.free_halfedges, h as u32, g as u32);
        }
    }
}

pub(crate) proof fn lemma_delete_vertex_count<P>(m: MeshView<P>, v: int)
    ensures
        m.delete_vertex(v).halfedges.len() == m.halfedges.len(),
        m.delete_vertex(v).faces.len() == m.faces.len(),
        m.delete_vertex(v).free_halfedges == m.free_halfedges,
        m.delete_vertex(v).free_faces == m.free_faces,
        m.delete_vertex(v).vertex_count() == m.vertex_count() - if m.v_live(v) {
            1int
        } else {
            0int
        },
{
}

pub(crate) proof fn lemma_patched_slots<P>(m: MeshView<P>, v0: int, v1: int, a: int, b: int)
    ensures
        same_slots(m.collapse_patched(v0, v1, a, b), m),
{
    reveal(MeshView::collapse_patched);
    lemma_set_origins_slots(m, m.outgoing(v1), b, VertexId(v0 as u32));
}

/// The undirected edge of an (origin, target) pair, smaller id first.
pub open spec fn undirected(e: (VertexId, VertexId)) -> (u32, u32) {
    if e.0.0 <= e.1.0 {
        (e.0.0, e.1.0)
    } else {
        (e.1.0, e.0.0)
    }
}

proof fn lemma_edge_scan_keys<P>(m: MeshView<P>, j: nat)
    ensures
        forall|k: (u32, u32)|
            #![trigger m.edge_scan(j).1.contains(k)]
            m.edge_scan(j).1.contains(k) <==> exists|i: int|
                0 <= i < m.edge_scan(j).0.len() && undirected(#[trigger] m.edge_scan(j).0[i]) == k,
        forall|i: int, l: int|
            0 <= i < l < m.edge_scan(j).0.len() ==> undirected(#[trigger] m.edge_scan(j).0[i]) != undirected(
                #[trigger] m.edge_scan(j).0[l],
            ),
        forall|h: int|
            0 <= h < j && #[trigger] m.usable(h) ==> m.edge_scan(j).1.contains(
                undirected((m.halfedges[h].origin, m.target(h))),
            ),
    decreases j,
{
    if j > 0 {
        lemma_edge_scan_keys(m, (j - 1) as nat);
        let prev = m.edge_scan((j - 1) as nat);
        let cur = m.edge_scan(j);
        let h = j - 1;
        if m.usable(h) {
            let e = (m.halfedges[h].origin, m.target(h));
            let k = undirected(e);
            if !prev.1.contains(k) {
                assert(cur.0 == prev.0.push(e));
                assert(cur.1 == prev.1.insert(k));
                assert forall|kk: (u32, u32)| #![trigger cur.1.contains(kk)] cur.1.contains(kk) <==> exists|i: int|
                    0 <= i < cur.0.len() && undirected(#[trigger] cur.0[i]) == kk by {
                    if cur.1.contains(kk) {
                        if kk == k {
                            assert(undirected(cur.0[prev.0.len() as int]) == kk);
                        } else {
                            assert(prev.1.contains(kk));
                            let i = choose|i: int| 0 <= i < prev.0.len() && undirected(#[trigger] prev.0[i]) == kk;
                            assert(cur.0[i] == prev.0[i]);
                        }
                    }
                    if exists|i: int| 0 <= i < cur.0.len() && undirected(#[trigger] cur.0[i]) == kk {
                        let i = choose|i: int| 0 <= i < cur.0.len() && undirected(#[trigger] cur.0[i]) == kk;
                        if i < prev.0.len() {
                            assert(cur.0[i] == prev.0[i]);
                            assert(prev.1.contains(kk));
                        }
                    }
                }
                assert forall|i: int, l: int|
                    0 <= i < l < cur.0.len() implies undirected(#[trigger] cur.0[i]) != undirected(#[trigger] cur.0[l]) by {
                    assert(cur.0[i] == prev.0[i]);
                    if l < prev.0.len() {
                        assert(cur.0[l] == prev.0[l]);
                    } else {
                        assert(cur.0[l] == e);
                        if undirected(prev.0[i]) == k {
                            assert(prev.1.contains(k));
                        }
                    }
                }
            }
        }
    }
}

/// `edges` lists each undirected edge of the mesh once: no two entries join the same
/// two vertices, and every half-edge that can be walked has its edge listed.
pub proof fn law_edges_listed_once<P>(m: MeshView<P>)
    ensures
        forall|i: int, l: int|
            0 <= i < l < m.edge_list().len() ==> undirected(#[trigger] m.edge_list()[i]) != undirected(
                #[trigger] m.edge_list()[l],
            ),
        forall|h: int|
            0 <= h < m.halfedges.len() && #[trigger] m.usable(h) ==> exists|i: int|
                0 <= i < m.edge_list().len() && undirected(#[trigger] m.edge_list()[i]) == undirected(
                    (m.halfedges[h].origin, m.target(h)),
                ),
{
    lemma_edge_scan_keys(m, m.halfedges.len());
    assert forall|h: int| 0 <= h < m.halfedges.len() && #[trigger] m.usable(h) implies exists|i: int|
        0 <= i < m.edge_list().len() && undirected(#[trigger] m.edge_list()[i]) == undirected(
            (m.halfedges[h].origin, m.target(h)),
        ) by {
        let k = undirected((m.halfedges[h].origin, m.target(h)));
        let sc = m.edge_scan(m.halfedges.len());
        assert(sc.1.contains(k));
        let i = choose|i: int| 0 <= i < sc.0.len() && undirected(#[trigger] sc.0[i]) == k;
        assert(m.edge_list()[i] == sc.0[i]);
    }
}

/// Adding a vertex gives a live vertex carrying the payload, one more live vertex,
/// and leaves every other vertex as it was. The id is the most recently freed one if
/// there is one, else a new slot at the end.
pub proof fn law_add_vertex_reads_back<P>(m: MeshView<P>, position: P)
    requires
        m.wf(),
        m.free_vertices.len() > 0 || m.vertices.len() + 1 < INVALID_ID,
    ensures
        ({
            let id = crate::mesh::halfedge::alloc_slot(m.free_vertices, m.vertices.len()) as int;
            let n = m.after_add_vertex(position);
            &&& n.v_live(id)
            &&& n.vertices[id].position == position
            &&& n.vertices[id].halfedge is None
            &&& n.vertex_count() == m.vertex_count() + 1
            &&& forall|v: int| 0 <= v < m.vertices.len() && v != id ==> #[trigger] n.vertices[v] == m.vertices[v]
            &&& forall|v: int| v != id ==> #[trigger] n.v_live(v) == m.v_live(v)
            &&& (m.free_vertices.len() > 0 ==> id == m.free_vertices.last())
            &&& (m.free_vertices.len() == 0 ==> id == m.vertices.len())
        }),
{
    let id = crate::mesh::halfedge::alloc_slot(m.free_vertices, m.vertices.len()) as int;
    let n = m.after_add_vertex(position);
    if m.free_vertices.len() > 0 {
        let fl = m.free_vertices;
        assert(fl.last() < m.vertices.len());
        assert(fl.drop_last().len() == fl.len() - 1);
        assert(!fl.drop_last().contains(fl.last())) by {
            if fl.drop_last().contains(fl.last()) {
                let x = choose|x: int| 0 <= x < fl.drop_last().len() && #[trigger] fl.drop_last()[x] == fl.last();
                assert(fl[x] == fl[fl.len() - 1]);
            }
        }
        assert forall|v: int| v != id implies #[trigger] n.v_live(v) == m.v_live(v) by {
            if 0 <= v < m.vertices.len() {
                lemma_push_contains(fl.drop_last(), fl.last(), v as u32);
                assert(fl.drop_last().push(fl.last()) =~= fl);
            }
        }
    } else {
        assert forall|v: int| v != id implies #[trigger] n.v_live(v) == m.v_live(v) by {}
    }
}

/// The two triangles beside the edge `v0 -> v1` are proper: their six half-edges
/// (the edge's `a` and `b`, `a`'s two successors, `b`'s two successors) are live and
/// distinct.
pub open spec fn proper_flip<P>(m: MeshView<P>, v0: int, v1: int) -> bool {
    let a = m.edge_first(v0, v1);
    let b = m.edge_second(v0, v1);
    let h12 = m.halfedges[a].next.0 as int;
    let h23 = m.halfedges[h12].next.0 as int;
    let h30 = m.halfedges[b].next.0 as int;
    let h03 = m.halfedges[h30].next.0 as int;
    let six = seq![a, h12, h23, b, h30, h03];
    &&& forall|i: int| 0 <= i < 6 ==> m.he_live(#[trigger] six[i])
    &&& forall|i: int, j: int| 0 <= i < j < 6 ==> #[trigger] six[i] != #[trigger] six[j]
}

/// Next and prev of the half-edge records `hs`.
pub open spec fn link_of(hs: Seq<crate::mesh::halfedge::HalfEdge>, x: int) -> (crate::mesh::halfedge::HalfEdgeId, crate::mesh::halfedge::HalfEdgeId) {
    (hs[x].next, hs[x].prev)
}

/// Rewiring one triangle: `p -> q -> r -> p`, changing only the links of the three.
proof fn lemma_relink_triangle<P>(
    m: MeshView<P>,
    p: crate::mesh::halfedge::HalfEdgeId,
    q: crate::mesh::halfedge::HalfEdgeId,
    r: crate::mesh::halfedge::HalfEdgeId,
)
    requires
        0 <= p.0 < m.halfedges.len(),
        0 <= q.0 < m.halfedges.len(),
        0 <= r.0 < m.halfedges.len(),
        p != q && q != r && p != r,
    ensures
        ({
            let s = m.set_next(p.0 as int, q).set_prev(q.0 as int, p).set_next(q.0 as int, r).set_prev(
                r.0 as int,
                q,
            ).set_next(r.0 as int, p).set_prev(p.0 as int, r);
            &&& s.halfedges.len() == m.halfedges.len()
            &&& link_of(s.halfedges, p.0 as int) == (q, r)
            &&& link_of(s.halfedges, q.0 as int) == (r, p)
            &&& link_of(s.halfedges, r.0 as int) == (p, q)
            &&& forall|x: int| 0 <= x < m.halfedges.len() ==> (#[trigger] s.halfedges[x]).twin == m.halfedges[x].twin
            &&& forall|x: int|
                0 <= x < m.halfedges.len() && x != p.0 && x != q.0 && x != r.0 ==> #[trigger] link_of(
                    s.halfedges,
                    x,
                ) == link_of(m.halfedges, x)
            &&& s.vertices == m.vertices
            &&& s.faces == m.faces
        }),
{
}

/// Setting faces, face half-edges and origins leaves links and twins alone.
proof fn lemma_faces_keep_links<P>(
    m: MeshView<P>,
    p: crate::mesh::halfedge::HalfEdgeId,
    q: crate::mesh::halfedge::HalfEdgeId,
    r: crate::mesh::halfedge::HalfEdgeId,
    f: Option<crate::mesh::halfedge::FaceId>,
)
    ensures
        ({
            let s = m.set_face(p.0 as int, f).set_face(q.0 as int, f).set_face(r.0 as int, f).set_face_he(
                face_index(f),
                p,
            );
            &&& s.halfedges.len() == m.halfedges.len()
            &&& forall|x: int| 0 <= x < m.halfedges.len() ==> (#[trigger] s.halfedges[x]).twin == m.halfedges[x].twin
            &&& forall|x: int| 0 <= x < m.halfedges.len() ==> #[trigger] link_of(s.halfedges, x) == link_of(m.halfedges, x)
        }),
{
}

/// The links of the rewired triangles after a flip: `a -> h23 -> h30 -> a` and
/// `b -> h03 -> h12 -> b`; twins are kept.
pub(crate) proof fn lemma_flip_links_values<P>(
    m: MeshView<P>,
    v0: int,
    v1: int,
    a: crate::mesh::halfedge::HalfEdgeId,
    b: crate::mesh::halfedge::HalfEdgeId,
    h12: crate::mesh::halfedge::HalfEdgeId,
    h23: crate::mesh::halfedge::HalfEdgeId,
    h30: crate::mesh::halfedge::HalfEdgeId,
    h03: crate::mesh::halfedge::HalfEdgeId,
    fa: Option<crate::mesh::halfedge::FaceId>,
    fb: Option<crate::mesh::halfedge::FaceId>,
    v2: VertexId,
    v3: VertexId,
)
    requires
        0 <= a.0 < m.halfedges.len(),
        0 <= b.0 < m.halfedges.len(),
        0 <= h12.0 < m.halfedges.len(),
        0 <= h23.0 < m.halfedges.len(),
        0 <= h30.0 < m.halfedges.len(),
        0 <= h03.0 < m.halfedges.len(),
        a != h30 && h30 != h23 && a != h23,
        b != h03 && h03 != h12 && b != h12,
        a != b && a != h03 && a != h12,
        h30 != b && h30 != h03 && h30 != h12,
        h23 != b && h23 != h03 && h23 != h12,
    ensures
        m.flip_links(v0, v1, a, b, h12, h23, h30, h03, fa, fb, v2, v3).halfedges.len() == m.halfedges.len(),
        link_of(m.flip_links(v0, v1, a, b, h12, h23, h30, h03, fa, fb, v2, v3).halfedges, a.0 as int) == (h23, h30),
        link_of(m.flip_links(v0, v1, a, b, h12, h23, h30, h03, fa, fb, v2, v3).halfedges, h23.0 as int) == (h30, a),
        link_of(m.flip_links(v0, v1, a, b, h12, h23, h30, h03, fa, fb, v2, v3).halfedges, h30.0 as int) == (a, h23),
        link_of(m.flip_links(v0, v1, a, b, h12, h23, h30, h03, fa, fb, v2, v3).halfedges, b.0 as int) == (h03, h12),
        link_of(m.flip_links(v0, v1, a, b, h12, h23, h30, h03, fa, fb, v2, v3).halfedges, h03.0 as int) == (h12, b),
        link_of(m.flip_links(v0, v1, a, b, h12, h23, h30, h03, fa, fb, v2, v3).halfedges, h12.0 as int) == (b, h03),
        forall|x: int|
            0 <= x < m.halfedges.len() ==> (#[trigger] m.flip_links(v0, v1, a, b, h12, h23, h30, h03, fa, fb, v2, v3).halfedges[x]).twin
                == m.halfedges[x].twin,
        forall|x: int|
            0 <= x < m.halfedges.len() && x != a.0 && x != b.0 && x != h12.0 && x != h23.0 && x != h30.0 && x
                != h03.0 ==> #[trigger] link_of(m.flip_links(v0, v1, a, b, h12, h23, h30, h03, fa, fb, v2, v3).halfedges, x)
                == link_of(m.halfedges, x),
{
    reveal(MeshView::flip_links);
    lemma_relink_triangle(m, a, h23, h30);
    let s1 = m.set_next(a.0 as int, h23).set_prev(h23.0 as int, a).set_next(h23.0 as int, h30).set_prev(
        h30.0 as int,
        h23,
    ).set_next(h30.0 as int, a).set_prev(a.0 as int, h30);
    lemma_faces_keep_links(s1, a, h23, h30, fa);
    let m1 = s1.set_face(a.0 as int, fa).set_face(h23.0 as int, fa).set_face(h30.0 as int, fa).set_face_he(
        face_index(fa),
        a,
    );
    lemma_relink_triangle(m1, b, h03, h12);
    let s2 = m1.set_next(b.0 as int, h03).set_prev(h03.0 as int, b).set_next(h03.0 as int, h12).set_prev(
        h12.0 as int,
        h03,
    ).set_next(h12.0 as int, b).set_prev(b.0 as int, h12);
    lemma_faces_keep_links(s2, b, h03, h12, fb);
    let m2 = s2.set_face(b.0 as int, fb).set_face(h03.0 as int, fb).set_face(h12.0 as int, fb).set_face_he(
        face_index(fb),
        b,
    );
    let m3 = m2.set_origin(a.0 as int, v2).set_origin(b.0 as int, v3);
    assert forall|x: int| 0 <= x < m.halfedges.len() implies #[trigger] link_of(m3.halfedges, x) == link_of(m2.halfedges, x)
        && m3.halfedges[x].twin == m2.halfedges[x].twin by {}
    let m4 = if m3.vertices[v0].halfedge == Some(a) {
        m3.set_vertex_he(v0, Some(h30))
    } else {
        m3
    };
    let m5 = if m4.vertices[v1].halfedge == Some(b) {
        m4.set_vertex_he(v1, Some(h12))
    } else {
        m4
    };
    assert(m5.halfedges == m3.halfedges);
    assert(m.flip_links(v0, v1, a, b, h12, h23, h30, h03, fa, fb, v2, v3).halfedges == m3.halfedges);
}

/// Flipping the edge between two proper triangles keeps a valid mesh valid: every
/// live half-edge stays linked, its successor points back at it, and twins stay
/// symmetric.
pub proof fn law_flip_keeps_valid<P>(m: MeshView<P>, v0: int, v1: int)
    requires
        m.wf(),
        m.valid(),
        m.flip_ok(v0, v1),
        proper_flip(m, v0, v1),
    ensures
        m.flipped(v0, v1).valid(),
{
    let a = m.edge_first(v0, v1);
    let b = m.edge_second(v0, v1);
    let h12 = m.halfedges[a].next;
    let h23 = m.halfedges[h12.0 as int].next;
    let h30 = m.halfedges[b].next;
    let h03 = m.halfedges[h30.0 as int].next;
    let six = seq![a, h12.0 as int, h23.0 as int, b, h30.0 as int, h03.0 as int];
    assert(m.he_live(six[0]) && m.he_live(six[1]) && m.he_live(six[2]));
    assert(m.he_live(six[3]) && m.he_live(six[4]) && m.he_live(six[5]));
    assert(six[0] != six[1] && six[0] != six[2] && six[0] != six[3] && six[0] != six[4] && six[0] != six[5]);
    assert(six[1] != six[2] && six[1] != six[3] && six[1] != six[4] && six[1] != six[5]);
    assert(six[2] != six[3] && six[2] != six[4] && six[2] != six[5]);
    assert(six[3] != six[4] && six[3] != six[5] && six[4] != six[5]);
    let ai = crate::mesh::halfedge::HalfEdgeId(a as u32);
    let bi = crate::mesh::halfedge::HalfEdgeId(b as u32);
    lemma_flip_links_values(
        m,
        v0,
        v1,
        ai,
        bi,
        h12,
        h23,
        h30,
        h03,
        m.halfedges[a].face,
        m.halfedges[b].face,
        m.halfedges[h03.0 as int].origin,
        m.halfedges[h23.0 as int].origin,
    );
    law_flip_keeps_counts(m, v0, v1);
    let r = m.flipped(v0, v1);
    assert(m.he_valid(a) && m.he_valid(h12.0 as int) && m.he_valid(h23.0 as int));
    assert(m.he_valid(b) && m.he_valid(h30.0 as int) && m.he_valid(h03.0 as int));
    assert(m.halfedges[h23.0 as int].next.0 == a);
    assert(m.halfedges[h03.0 as int].next.0 == b);
    assert(m.halfedges[a].prev == h23);
    assert(m.halfedges[h12.0 as int].prev == ai);
    assert(m.halfedges[h23.0 as int].prev == h12);
    assert(m.halfedges[b].prev == h03);
    assert(m.halfedges[h30.0 as int].prev == bi);
    assert(m.halfedges[h03.0 as int].prev == h30);
    assert forall|x: int| #![trigger r.halfedges[x]] r.he_live(x) implies r.he_valid(x) by {
        assert(m.he_live(x));
        assert(m.he_valid(x));
        assert(m.he_refs_ok(x));
        if let Some(t) = m.halfedges[x].twin {
            assert(r.halfedges[t.0 as int].twin == m.halfedges[t.0 as int].twin);
        }
        if x == a || x == b || x == h12.0 || x == h23.0 || x == h30.0 || x == h03.0 {
        } else {
            let n = m.halfedges[x].next.0 as int;
            assert(link_of(r.halfedges, x) == link_of(m.halfedges, x));
            assert(m.halfedges[n].prev == crate::mesh::halfedge::HalfEdgeId(x as u32));
            if n == a || n == b || n == h12.0 || n == h23.0 || n == h30.0 || n == h03.0 {
                assert(false);
            } else {
                assert(link_of(r.halfedges, n) == link_of(m.halfedges, n));
            }
        }
    }
}

pub(crate) proof fn lemma_set_origins_links<P>(m: MeshView<P>, hs: Seq<int>, skip: int, v: VertexId)
    ensures
        m.set_origins(hs, skip, v).halfedges.len() == m.halfedges.len(),
        forall|x: int|
            0 <= x < m.halfedges.len() ==> #[trigger] link_of(m.set_origins(hs, skip, v).halfedges, x) == link_of(
                m.halfedges,
                x,
            ) && m.set_origins(hs, skip, v).halfedges[x].twin == m.halfedges[x].twin,
    decreases hs.len(),
{
    if hs.len() > 0 {
        lemma_set_origins_links(m, hs.drop_last(), skip, v);
        let q = m.set_origins(hs.drop_last(), skip, v);
        let r = m.set_origins(hs, skip, v);
        assert forall|x: int| 0 <= x < m.halfedges.len() implies #[trigger] link_of(r.halfedges, x) == link_of(
            m.halfedges,
            x,
        ) && r.halfedges[x].twin == m.halfedges[x].twin by {
            assert(link_of(q.halfedges, x) == link_of(m.halfedges, x));
            assert(link_of(r.halfedges, x) == link_of(q.halfedges, x));
        }
    }
}

/// Patching face `f` around half-edge `h` joins `h`'s neighbours.
pub(crate) proof fn lemma_patch_links<P>(m: MeshView<P>, f: int, h: int)
    requires
        0 <= h < m.halfedges.len(),
        0 <= m.halfedges[h].prev.0 < m.halfedges.len(),
        0 <= m.halfedges[h].next.0 < m.halfedges.len(),
        m.halfedges[h].prev != m.halfedges[h].next,
    ensures
        ({
            let p = m.halfedges[h].prev;
            let n = m.halfedges[h].next;
            let r = m.patch(f, h);
            &&& r.halfedges.len() == m.halfedges.len()
            &&& r.free_halfedges == m.free_halfedges
            &&& link_of(r.halfedges, p.0 as int) == (n, m.halfedges[p.0 as int].prev)
            &&& link_of(r.halfedges, n.0 as int) == (m.halfedges[n.0 as int].next, p)
            &&& forall|x: int|
                0 <= x < m.halfedges.len() && x != p.0 && x != n.0 ==> #[trigger] link_of(r.halfedges, x) == link_of(
                    m.halfedges,
                    x,
                )
            &&& forall|x: int| 0 <= x < m.halfedges.len() ==> (#[trigger] r.halfedges[x]).twin == m.halfedges[x].twin
        }),
{
}

/// Six distinct slots below `n`.
pub open spec fn distinct_six(n: int, x0: int, x1: int, x2: int, x3: int, x4: int, x5: int) -> bool {
    &&& 0 <= x0 < n && 0 <= x1 < n && 0 <= x2 < n && 0 <= x3 < n && 0 <= x4 < n && 0 <= x5 < n
    &&& x0 != x1 && x0 != x2 && x0 != x3 && x0 != x4 && x0 != x5
    &&& x1 != x2 && x1 != x3 && x1 != x4 && x1 != x5
    &&& x2 != x3 && x2 != x4 && x2 != x5
    &&& x3 != x4 && x3 != x5
    &&& x4 != x5
}

/// The two faces beside the edge `v0 -> v1` are proper: the edge's half-edges `a`
/// and `b` and their neighbours in their faces are six distinct live half-edges.
pub open spec fn proper_collapse<P>(m: MeshView<P>, v0: int, v1: int) -> bool {
    let a = m.edge_first(v0, v1);
    let b = m.edge_second(v0, v1);
    let six = seq![
        a,
        m.halfedges[a].next.0 as int,
        m.halfedges[a].prev.0 as int,
        b,
        m.halfedges[b].next.0 as int,
        m.halfedges[b].prev.0 as int,
    ];
    &&& forall|i: int| 0 <= i < 6 ==> m.he_live(#[trigger] six[i])
    &&& forall|i: int, j: int| 0 <= i < j < 6 ==> #[trigger] six[i] != #[trigger] six[j]
}

/// The links after the first stage of a collapse: the neighbours of `a` (and of `b`)
/// are joined in their face when it exists; twins and free lists are kept.
pub(crate) proof fn lemma_patched_links<P>(m: MeshView<P>, v0: int, v1: int, a: int, b: int)
    requires
        0 <= a < m.halfedges.len(),
        0 <= b < m.halfedges.len(),
        distinct_six(
            m.halfedges.len() as int,
            a,
            m.halfedges[a].next.0 as int,
            m.halfedges[a].prev.0 as int,
            b,
            m.halfedges[b].next.0 as int,
            m.halfedges[b].prev.0 as int,
        ),
    ensures
        ({
            let p = m.collapse_patched(v0, v1, a, b);
            let an = m.halfedges[a].next;
            let ap = m.halfedges[a].prev;
            let bn = m.halfedges[b].next;
            let bp = m.halfedges[b].prev;
            let fa = m.halfedges[a].face is Some;
            let fb = m.halfedges[b].face is Some;
            &&& p.halfedges.len() == m.halfedges.len()
            &&& p.free_halfedges == m.free_halfedges
            &&& forall|x: int| 0 <= x < m.halfedges.len() ==> (#[trigger] p.halfedges[x]).twin == m.halfedges[x].twin
            &&& link_of(p.halfedges, a) == link_of(m.halfedges, a)
            &&& link_of(p.halfedges, b) == link_of(m.halfedges, b)
            &&& link_of(p.halfedges, ap.0 as int) == if fa {
                (an, m.halfedges[ap.0 as int].prev)
            } else {
                link_of(m.halfedges, ap.0 as int)
            }
            &&& link_of(p.halfedges, an.0 as int) == if fa {
                (m.halfedges[an.0 as int].next, ap)
            } else {
                link_of(m.halfedges, an.0 as int)
            }
            &&& link_of(p.halfedges, bp.0 as int) == if fb {
                (bn, m.halfedges[bp.0 as int].prev)
            } else {
                link_of(m.halfedges, bp.0 as int)
            }
            &&& link_of(p.halfedges, bn.0 as int) == if fb {
                (m.halfedges[bn.0 as int].next, bp)
            } else {
                link_of(m.halfedges, bn.0 as int)
            }
            &&& forall|x: int|
                0 <= x < m.halfedges.len() && x != an.0 && x != ap.0 && x != bn.0 && x != bp.0
                    ==> #[trigger] link_of(p.halfedges, x) == link_of(m.halfedges, x)
        }),
{
    reveal(MeshView::collapse_patched);
    let m1 = m.set_origins(m.outgoing(v1), b, VertexId(v0 as u32));
    lemma_set_origins_links(m, m.outgoing(v1), b, VertexId(v0 as u32));
    lemma_set_origins_slots(m, m.outgoing(v1), b, VertexId(v0 as u32));
    assert(link_of(m1.halfedges, a) == link_of(m.halfedges, a));
    assert(link_of(m1.halfedges, b) == link_of(m.halfedges, b));
    assert(link_of(m1.halfedges, m.halfedges[a].next.0 as int) == link_of(m.halfedges, m.halfedges[a].next.0 as int));
    assert(link_of(m1.halfedges, m.halfedges[a].prev.0 as int) == link_of(m.halfedges, m.halfedges[a].prev.0 as int));
    assert(link_of(m1.halfedges, m.halfedges[b].next.0 as int) == link_of(m.halfedges, m.halfedges[b].next.0 as int));
    assert(link_of(m1.halfedges, m.halfedges[b].prev.0 as int) == link_of(m.halfedges, m.halfedges[b].prev.0 as int));
    let m2 = match m.halfedges[a].face {
        Some(f) => m1.patch(f.0 as int, a),
        None => m1,
    };
    if let Some(f) = m.halfedges[a].face {
        lemma_patch_links(m1, f.0 as int, a);
    }
    assert(link_of(m2.halfedges, b) == link_of(m.halfedges, b));
    assert(m2.halfedges[b].face == m1.halfedges[b].face);
    if let Some(f) = m.halfedges[b].face {
        lemma_patch_links(m2, f.0 as int, b);
    }
    let p = m.collapse_patched(v0, v1, a, b);
    let an = m.halfedges[a].next;
    let ap = m.halfedges[a].prev;
    let bn = m.halfedges[b].next;
    let bp = m.halfedges[b].prev;
    let fa = m.halfedges[a].face is Some;
    let fb = m.halfedges[b].face is Some;
    assert(p.halfedges.len() == m.halfedges.len());
    assert(p.free_halfedges == m.free_halfedges);
    assert forall|x: int| 0 <= x < m.halfedges.len() implies (#[trigger] p.halfedges[x]).twin == m.halfedges[x].twin by {
        assert(link_of(m1.halfedges, x) == link_of(m.halfedges, x));
        assert(m2.halfedges[x].twin == m1.halfedges[x].twin);
    }
    assert forall|x: int|
        0 <= x < m.halfedges.len() && x != an.0 && x != ap.0 && x != bn.0 && x != bp.0
            implies #[trigger] link_of(p.halfedges, x) == link_of(m.halfedges, x) by {
        assert(link_of(m1.halfedges, x) == link_of(m.halfedges, x));
        assert(link_of(m2.halfedges, x) == link_of(m1.halfedges, x));
    }
    assert(link_of(p.halfedges, a) == link_of(m.halfedges, a));
    assert(link_of(p.halfedges, b) == link_of(m.halfedges, b));
    assert(link_of(p.halfedges, ap.0 as int) == if fa {
        (an, m.halfedges[ap.0 as int].prev)
    } else {
        link_of(m.halfedges, ap.0 as int)
    });
    assert(link_of(p.halfedges, an.0 as int) == if fa {
        (m.halfedges[an.0 as int].next, ap)
    } else {
        link_of(m.halfedges, an.0 as int)
    });
    assert(link_of(p.halfedges, bp.0 as int) == if fb {
        (bn, m.halfedges[bp.0 as int].prev)
    } else {
        link_of(m.halfedges, bp.0 as int)
    });
    assert(link_of(p.halfedges, bn.0 as int) == if fb {
        (m.halfedges[bn.0 as int].next, bp)
    } else {
        link_of(m.halfedges, bn.0 as int)
    });
}

/// Adding a vertex, moving a vertex and recomputing boundary flags leave the
/// half-edges alone, so they keep a valid mesh valid.
pub proof fn law_vertex_edits_keep_valid<P>(m: MeshView<P>, v: int, position: P)
    requires
        m.valid(),
    ensures
        m.after_add_vertex(position).valid(),
        m.set_position(v, position).valid(),
        m.with_boundary_flags().valid(),
{
    let a = m.after_add_vertex(position);
    assert forall|i: int| #![trigger a.halfedges[i]] a.he_live(i) implies a.he_valid(i) by {
        assert(m.he_live(i));
        assert(m.halfedges[i] == m.halfedges[i]);
    }
    let b = m.set_position(v, position);
    assert forall|i: int| #![trigger b.halfedges[i]] b.he_live(i) implies b.he_valid(i) by {
        assert(m.he_live(i));
        assert(m.halfedges[i] == m.halfedges[i]);
    }
    let c = m.with_boundary_flags();
    assert forall|i: int| #![trigger c.halfedges[i]] c.he_live(i) implies c.he_valid(i) by {
        assert(m.he_live(i));
        assert(m.halfedges[i] == m.halfedges[i]);
    }
}

proof fn lemma_relink_twins<P>(
    m: MeshView<P>,
    p: crate::mesh::halfedge::HalfEdgeId,
    q: crate::mesh::halfedge::HalfEdgeId,
    r: crate::mesh::halfedge::HalfEdgeId,
)
    ensures
        ({
            let s = m.set_next(p.0 as int, q).set_prev(q.0 as int, p).set_next(q.0 as int, r).set_prev(
                r.0 as int,
                q,
            ).set_next(r.0 as int, p).set_prev(p.0 as int, r);
            &&& s.halfedges.len() == m.halfedges.len()
            &&& s.free_halfedges == m.free_halfedges
            &&& forall|x: int| 0 <= x < m.halfedges.len() ==> (#[trigger] s.halfedges[x]).twin == m.halfedges[x].twin
        }),
{
}

/// Flipping an edge keeps every twin, so it keeps a watertight mesh watertight.
pub proof fn law_flip_keeps_watertight<P>(m: MeshView<P>, v0: int, v1: int)
    requires
        m.watertight(),
    ensures
        m.flipped(v0, v1).watertight(),
{
    reveal(MeshView::flip_links);
    let a = crate::mesh::halfedge::HalfEdgeId(m.edge_first(v0, v1) as u32);
    let b = crate::mesh::halfedge::HalfEdgeId(m.edge_second(v0, v1) as u32);
    let h12 = m.halfedges[m.edge_first(v0, v1)].next;
    let h23 = m.halfedges[h12.0 as int].next;
    let h30 = m.halfedges[m.edge_second(v0, v1)].next;
    let h03 = m.halfedges[h30.0 as int].next;
    let fa = m.halfedges[m.edge_first(v0, v1)].face;
    let fb = m.halfedges[m.edge_second(v0, v1)].face;
    lemma_relink_twins(m, a, h23, h30);
    let s1 = m.set_next(a.0 as int, h23).set_prev(h23.0 as int, a).set_next(h23.0 as int, h30).set_prev(
        h30.0 as int,
        h23,
    ).set_next(h30.0 as int, a).set_prev(a.0 as int, h30);
    lemma_faces_keep_links(s1, a, h23, h30, fa);
    let m1 = s1.set_face(a.0 as int, fa).set_face(h23.0 as int, fa).set_face(h30.0 as int, fa).set_face_he(
        face_index(fa),
        a,
    );
    lemma_relink_twins(m1, b, h03, h12);
    let s2 = m1.set_next(b.0 as int, h03).set_prev(h03.0 as int, b).set_next(h03.0 as int, h12).set_prev(
        h12.0 as int,
        h03,
    ).set_next(h12.0 as int, b).set_prev(b.0 as int, h12);
    lemma_faces_keep_links(s2, b, h03, h12, fb);
    law_flip_keeps_counts(m, v0, v1);
    let r = m.flipped(v0, v1);
    assert forall|x: int| #![trigger r.halfedges[x]] r.he_live(x) implies r.halfedges[x].twin is Some by {
        assert(m.he_live(x));
        assert(s1.halfedges[x].twin == m.halfedges[x].twin);
        assert(m1.halfedges[x].twin == s1.halfedges[x].twin);
        assert(s2.halfedges[x].twin == m1.halfedges[x].twin);
    }
}

} // verus!
