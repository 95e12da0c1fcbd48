//! What an edge collapse between two triangles does to the half-edges: which go, how
//! the rest are linked and paired, and the laws that follow (counts, validity,
//! watertightness).
use vstd::prelude::*;
use vstd::set_lib::lemma_map_size;
use crate::mesh::halfedge::{HalfEdgeId, MeshView, INVALID_ID};
use crate::mesh::laws::{
    distinct_six, edge_sides, lemma_delete_face_count, lemma_delete_he_count, lemma_delete_vertex_count,
    lemma_patched_links, lemma_patched_slots, link_of, proper_collapse,
};
use crate::mesh::topology::{face_index, lemma_drop_triangle_links, lemma_find_edge_live};

verus! {

/// The edge `v0 -> v1` lies between two proper triangles: the six half-edges of the
/// two faces are live and distinct, both faces exist, and each closes after three
/// steps.
pub open spec fn triangle_collapse<P>(m: MeshView<P>, v0: int, v1: int) -> bool {
    let a = m.edge_first(v0, v1);
    let b = m.edge_second(v0, v1);
    &&& proper_collapse(m, v0, v1)
    &&& m.halfedges[a].face is Some
    &&& m.halfedges[b].face is Some
    &&& m.halfedges[m.halfedges[a].next.0 as int].next == m.halfedges[a].prev
    &&& m.halfedges[m.halfedges[b].next.0 as int].next == m.halfedges[b].prev
}

/// `x` is one of the six half-edges of the two triangles beside the edge `v0 -> v1`.
pub open spec fn removed_he<P>(m: MeshView<P>, v0: int, v1: int, x: int) -> bool {
    let a = m.edge_first(v0, v1);
    let b = m.edge_second(v0, v1);
    ||| x == a
    ||| x == m.halfedges[a].next.0
    ||| x == m.halfedges[a].prev.0
    ||| x == b
    ||| x == m.halfedges[b].next.0
    ||| x == m.halfedges[b].prev.0
}

/// The half-edges across the two other sides of each triangle lie outside the two
/// triangles.
pub open spec fn outer_twins_outside<P>(m: MeshView<P>, v0: int, v1: int) -> bool {
    let a = m.edge_first(v0, v1);
    let b = m.edge_second(v0, v1);
    &&& (m.halfedges[m.halfedges[a].next.0 as int].twin matches Some(t) ==> !removed_he(m, v0, v1, t.0 as int))
    &&& (m.halfedges[m.halfedges[a].prev.0 as int].twin matches Some(t) ==> !removed_he(m, v0, v1, t.0 as int))
    &&& (m.halfedges[m.halfedges[b].next.0 as int].twin matches Some(t) ==> !removed_he(m, v0, v1, t.0 as int))
    &&& (m.halfedges[m.halfedges[b].prev.0 as int].twin matches Some(t) ==> !removed_he(m, v0, v1, t.0 as int))
}

/// The twin of half-edge `x` after the collapse: across each removed triangle, the
/// twins of its two other sides become each other's twins; every other twin stays.
pub open spec fn joined_twin<P>(m: MeshView<P>, v0: int, v1: int, x: int) -> Option<HalfEdgeId> {
    let a = m.edge_first(v0, v1);
    let b = m.edge_second(v0, v1);
    let t1 = m.halfedges[m.halfedges[a].next.0 as int].twin;
    let t2 = m.halfedges[m.halfedges[a].prev.0 as int].twin;
    let t3 = m.halfedges[m.halfedges[b].next.0 as int].twin;
    let t4 = m.halfedges[m.halfedges[b].prev.0 as int].twin;
    let xi = HalfEdgeId(x as u32);
    if t3 == Some(xi) {
        t4
    } else if t4 == Some(xi) {
        t3
    } else if t1 == Some(xi) {
        t2
    } else if t2 == Some(xi) {
        t1
    } else {
        m.halfedges[x].twin
    }
}

/// Setting the twin of slot `t` changes that slot's twin and nothing else.
proof fn lemma_set_twin<P>(m: MeshView<P>, t: int, v: Option<HalfEdgeId>)
    ensures
        m.set_twin(t, v).halfedges.len() == m.halfedges.len(),
        m.set_twin(t, v).free_halfedges == m.free_halfedges,
        m.set_twin(t, v).vertices == m.vertices,
        m.set_twin(t, v).faces == m.faces,
        m.set_twin(t, v).free_faces == m.free_faces,
        m.set_twin(t, v).free_vertices == m.free_vertices,
        forall|z: int|
            0 <= z < m.halfedges.len() ==> {
                let r = #[trigger] m.set_twin(t, v).halfedges[z];
                &&& r.origin == m.halfedges[z].origin
                &&& r.next == m.halfedges[z].next
                &&& r.prev == m.halfedges[z].prev
                &&& r.twin == if z == t {
                    v
                } else {
                    m.halfedges[z].twin
                }
            },
{
}

/// Joining twins sets the twins of the two twins and nothing else.
proof fn lemma_join_twins<P>(m: MeshView<P>, x: int, y: int)
    requires
        m.halfedges.len() < INVALID_ID,
    ensures
        m.join_twins(x, y).halfedges.len() == m.halfedges.len(),
        m.join_twins(x, y).free_halfedges == m.free_halfedges,
        m.join_twins(x, y).vertices == m.vertices,
        m.join_twins(x, y).faces == m.faces,
        m.join_twins(x, y).free_faces == m.free_faces,
        m.join_twins(x, y).free_vertices == m.free_vertices,
        forall|z: int|
            0 <= z < m.halfedges.len() ==> {
                let r = #[trigger] m.join_twins(x, y).halfedges[z];
                let zi = HalfEdgeId(z as u32);
                &&& r.origin == m.halfedges[z].origin
                &&& r.next == m.halfedges[z].next
                &&& r.prev == m.halfedges[z].prev
                &&& r.twin == if m.halfedges[y].twin == Some(zi) {
                    m.halfedges[x].twin
                } else if m.halfedges[x].twin == Some(zi) {
                    m.halfedges[y].twin
                } else {
                    m.halfedges[z].twin
                }
            },
{
    let tx = m.halfedges[x].twin;
    let ty = m.halfedges[y].twin;
    let r1 = match tx {
        Some(t) => m.set_twin(t.0 as int, ty),
        None => m,
    };
    if let Some(t) = tx {
        lemma_set_twin(m, t.0 as int, ty);
    }
    let r2 = match ty {
        Some(t) => r1.set_twin(t.0 as int, tx),
        None => r1,
    };
    if let Some(t) = ty {
        lemma_set_twin(r1, t.0 as int, tx);
    }
    assert(r2 == m.join_twins(x, y));
    assert forall|z: int| 0 <= z < m.halfedges.len() implies {
        let r = #[trigger] r2.halfedges[z];
        let zi = HalfEdgeId(z as u32);
        &&& r.origin == m.halfedges[z].origin
        &&& r.next == m.halfedges[z].next
        &&& r.prev == m.halfedges[z].prev
        &&& r.twin == if ty == Some(zi) {
            tx
        } else if tx == Some(zi) {
            ty
        } else {
            m.halfedges[z].twin
        }
    } by {
        let zi = HalfEdgeId(z as u32);
        assert(zi.0 as int == z);
        assert(r1.halfedges[z].origin == m.halfedges[z].origin);
        if let Some(t) = tx {
            assert((t.0 as int == z) == (tx == Some(zi)));
        }
        if let Some(t) = ty {
            assert((t.0 as int == z) == (ty == Some(zi)));
        }
    }
}

/// After a collapse between two triangles whose outer twins lie outside them, the six
/// half-edges of the two triangles are gone and the two faces with them; every other
/// half-edge keeps its liveness, successor and predecessor, leaves the vertex the
/// first stage gave it, and has the joined twin.
#[verifier::spinoff_prover]
#[verifier::rlimit(100)]
pub proof fn lemma_collapsed_core<P>(m: MeshView<P>, v0: int, v1: int, target: P)
    requires
        m.wf(),
        m.find_edge(v0, v1) is Some,
        triangle_collapse(m, v0, v1),
        outer_twins_outside(m, v0, v1),
    ensures
        ({
            let r = m.collapsed(v0, v1, target);
            let p = m.collapse_patched(v0, v1, m.edge_first(v0, v1), m.edge_second(v0, v1));
            &&& r.halfedges.len() == m.halfedges.len()
            &&& forall|x: int| #[trigger] r.he_live(x) == (m.he_live(x) && !removed_he(m, v0, v1, x))
            &&& forall|x: int|
                0 <= x < m.halfedges.len() && !removed_he(m, v0, v1, x) ==> {
                    &&& (#[trigger] r.halfedges[x]).next == m.halfedges[x].next
                    &&& r.halfedges[x].prev == m.halfedges[x].prev
                    &&& r.halfedges[x].origin == p.halfedges[x].origin
                    &&& r.halfedges[x].twin == joined_twin(m, v0, v1, x)
                }
            &&& r.halfedge_count() == m.halfedge_count() - 6
            &&& r.face_count() == m.face_count() - edge_sides(m, v0, v1).len()
        }),
{
    reveal(MeshView::collapse_finish);
    lemma_find_edge_live(m, v0, v1);
    let a = m.edge_first(v0, v1);
    let b = m.edge_second(v0, v1);
    let an = m.halfedges[a].next.0 as int;
    let ap = m.halfedges[a].prev.0 as int;
    let bn = m.halfedges[b].next.0 as int;
    let bp = m.halfedges[b].prev.0 as int;
    let six = seq![a, an, ap, b, bn, bp];
    assert(m.he_live(six[0]) && m.he_live(six[1]) && m.he_live(six[2]));
    assert(m.he_live(six[3]) && m.he_live(six[4]) && m.he_live(six[5]));
    assert(six[0] != six[1] && six[0] != six[2] && six[0] != six[3] && six[0] != six[4] && six[0] != six[5]);
    assert(six[1] != six[2] && six[1] != six[3] && six[1] != six[4] && six[1] != six[5]);
    assert(six[2] != six[3] && six[2] != six[4] && six[2] != six[5]);
    assert(six[3] != six[4] && six[3] != six[5] && six[4] != six[5]);
    assert(distinct_six(m.halfedges.len() as int, a, an, ap, b, bn, bp));
    lemma_patched_links(m, v0, v1, a, b);
    lemma_patched_slots(m, v0, v1, a, b);
    let p = m.collapse_patched(v0, v1, a, b);
    let fa = m.halfedges[a].face;
    let fb = m.halfedges[b].face;
    assert(link_of(p.halfedges, a) == link_of(m.halfedges, a));
    assert(link_of(p.halfedges, b) == link_of(m.halfedges, b));
    assert(link_of(p.halfedges, an) == (m.halfedges[an].next, m.halfedges[a].prev));
    assert(link_of(p.halfedges, bn) == (m.halfedges[bn].next, m.halfedges[b].prev));
    assert(p.tri_side(a, fa));
    assert(p.tri_side(b, fb));
    let t1 = m.halfedges[an].twin;
    let t2 = m.halfedges[ap].twin;
    let t3 = m.halfedges[bn].twin;
    let t4 = m.halfedges[bp].twin;
    assert(p.halfedges[an].twin == t1 && p.halfedges[ap].twin == t2);
    assert(p.halfedges[bn].twin == t3 && p.halfedges[bp].twin == t4);
    // Side `a`.
    let j1 = p.join_twins(an, ap);
    lemma_join_twins(p, an, ap);
    let c = p.halfedges[ap].origin.0 as int;
    let j2 = if j1.v_live(c) && j1.vertices[c].halfedge == Some(HalfEdgeId(ap as u32)) {
        j1.set_vertex_he(c, p.halfedges[an].twin)
    } else {
        j1
    };
    assert(j2.halfedges == j1.halfedges && j2.free_halfedges == j1.free_halfedges);
    assert(j2.faces == j1.faces && j2.free_faces == j1.free_faces);
    assert(j2.free_vertices == j1.free_vertices && j2.vertices.len() == j1.vertices.len());
    let d1 = j2.delete_face(face_index(fa));
    lemma_delete_face_count(j2, face_index(fa));
    let d2 = d1.delete_halfedge(an);
    lemma_delete_he_count(d1, an);
    let m1 = d2.delete_halfedge(ap);
    lemma_delete_he_count(d2, ap);
    assert(m1 == p.drop_triangle(a, fa));
    assert(d1.halfedges == j1.halfedges);
    assert forall|x: int| 0 <= x < m.halfedges.len() && x != an && x != ap implies #[trigger] m1.halfedges[x]
        == d1.halfedges[x] by {}
    // Side `b` reads the same records as in `p`.
    assert(t1 matches Some(t) ==> t.0 != bn && t.0 != bp && t.0 != b);
    assert(t2 matches Some(t) ==> t.0 != bn && t.0 != bp && t.0 != b);
    assert(m1.halfedges[b] == p.halfedges[b]);
    assert(m1.halfedges[bn] == p.halfedges[bn]);
    assert(m1.halfedges[bp] == p.halfedges[bp]);
    let k1 = m1.join_twins(bn, bp);
    lemma_join_twins(m1, bn, bp);
    let c2 = m1.halfedges[bp].origin.0 as int;
    let k2 = if k1.v_live(c2) && k1.vertices[c2].halfedge == Some(HalfEdgeId(bp as u32)) {
        k1.set_vertex_he(c2, m1.halfedges[bn].twin)
    } else {
        k1
    };
    assert(k2.halfedges == k1.halfedges && k2.free_halfedges == k1.free_halfedges);
    assert(k2.faces == k1.faces && k2.free_faces == k1.free_faces);
    let e1 = k2.delete_face(face_index(fb));
    lemma_delete_face_count(k2, face_index(fb));
    let e2 = e1.delete_halfedge(bn);
    lemma_delete_he_count(e1, bn);
    let m2 = e2.delete_halfedge(bp);
    lemma_delete_he_count(e2, bp);
    assert(m2 == m1.drop_triangle(b, fb));
    assert(e1.halfedges == k1.halfedges);
    let m3 = m2.set_vertex_he(v0, p.merged_start(a, b, fa, fb)).set_position(v0, target);
    assert(m3.halfedges == m2.halfedges && m3.free_halfedges == m2.free_halfedges);
    assert(m3.faces == m2.faces && m3.free_faces == m2.free_faces);
    let g1 = m3.delete_halfedge(a);
    lemma_delete_he_count(m3, a);
    let g2 = g1.delete_halfedge(b);
    lemma_delete_he_count(g1, b);
    let g3 = g2.delete_vertex(v1);
    let r = g3.with_boundary_flags();
    assert(m.collapsed(v0, v1, target) == p.collapse_finish(v0, v1, a, b, fa, fb, target));
    assert(m.collapsed(v0, v1, target) == r);
    assert(r.halfedges == g2.halfedges && r.free_halfedges == g2.free_halfedges);
    assert(r.faces == m2.faces && r.free_faces == m2.free_faces);
    // Liveness.
    assert forall|x: int| #[trigger] r.he_live(x) == (m.he_live(x) && !removed_he(m, v0, v1, x)) by {
        assert(g2.he_live(x) == (g1.he_live(x) && x != b));
        assert(g1.he_live(x) == (m3.he_live(x) && x != a));
        assert(m2.he_live(x) == (e2.he_live(x) && x != bp));
        assert(e2.he_live(x) == (e1.he_live(x) && x != bn));
        assert(m1.he_live(x) == (d2.he_live(x) && x != ap));
        assert(d2.he_live(x) == (d1.he_live(x) && x != an));
        assert(p.he_live(x) == m.he_live(x));
    }
    // Records of the half-edges that stay.
    assert forall|x: int| 0 <= x < m.halfedges.len() && !removed_he(m, v0, v1, x) implies {
        &&& (#[trigger] r.halfedges[x]).next == m.halfedges[x].next
        &&& r.halfedges[x].prev == m.halfedges[x].prev
        &&& r.halfedges[x].origin == p.halfedges[x].origin
        &&& r.halfedges[x].twin == joined_twin(m, v0, v1, x)
    } by {
        assert(r.halfedges[x] == k1.halfedges[x]);
        assert(m1.halfedges[x] == j1.halfedges[x]);
        assert(link_of(p.halfedges, x) == link_of(m.halfedges, x));
        assert(p.halfedges[x].twin == m.halfedges[x].twin);
    }
    // Counts.
    assert(r.halfedge_count() == m.halfedge_count() - 6) by {
        crate::mesh::laws::lemma_same_slots_counts(p, m);
        assert(d1.halfedge_count() == p.halfedge_count());
        assert(d1.he_live(an) && d2.he_live(ap));
        assert(e1.he_live(bn) && e2.he_live(bp));
        assert(m3.he_live(a) && g1.he_live(b));
        assert(e1.halfedge_count() == m1.halfedge_count());
        assert(m3.halfedge_count() == m2.halfedge_count());
    }
    assert(r.face_count() == m.face_count() - edge_sides(m, v0, v1).len()) by {
        crate::mesh::laws::lemma_same_slots_counts(p, m);
        assert(j2.face_count() == p.face_count());
        assert(k2.face_count() == m1.face_count());
        assert(m1.face_count() == d1.face_count());
        assert(r.face_count() == e1.face_count());
        let fi = face_index(fa);
        let gi = face_index(fb);
        let sides = edge_sides(m, v0, v1);
        assert(j2.f_live(fi) == m.f_live(fi));
        assert(j2.f_live(gi) == m.f_live(gi));
        assert(d1.f_live(gi) == (j2.f_live(gi) && gi != fi));
        assert(m1.faces == d1.faces && m1.free_faces == d1.free_faces);
        assert(k2.f_live(gi) == (m.f_live(gi) && gi != fi));
        if m.f_live(fi) {
            if m.f_live(gi) && gi != fi {
                assert(sides =~= set![fi, gi]);
            } else {
                assert(sides =~= set![fi]);
            }
        } else {
            if m.f_live(gi) {
                assert(sides =~= set![gi]);
            } else {
                assert(sides =~= Set::<int>::empty());
            }
        }
    }
}

/// Collapsing the edge `v0 -> v1` onto `v0` removes the vertex `v1`.
pub proof fn law_collapse_vertex_count<P>(m: MeshView<P>, v0: int, v1: int, target: P)
    requires
        m.wf(),
        m.find_edge(v0, v1) is Some,
        m.v_live(v1),
    ensures
        m.collapsed(v0, v1, target).vertex_count() == m.vertex_count() - 1,
{
    reveal(MeshView::collapse_finish);
    lemma_find_edge_live(m, v0, v1);
    let a = m.edge_first(v0, v1);
    let b = m.edge_second(v0, v1);
    lemma_patched_slots(m, v0, v1, a, b);
    let p = m.collapse_patched(v0, v1, a, b);
    let fa = m.halfedges[a].face;
    let fb = m.halfedges[b].face;
    let m1 = if p.tri_side(a, fa) {
        p.drop_triangle(a, fa)
    } else {
        p
    };
    lemma_drop_triangle_links(p, a, fa);
    let m2 = if p.tri_side(b, fb) {
        m1.drop_triangle(b, fb)
    } else {
        m1
    };
    lemma_drop_triangle_links(m1, b, fb);
    let m3 = m2.set_vertex_he(v0, p.merged_start(a, b, fa, fb)).set_position(v0, target);
    assert(m3.free_vertices == m.free_vertices && m3.vertices.len() == m.vertices.len());
    assert(m3.halfedges.len() == m.halfedges.len());
    let g1 = m3.delete_halfedge(a);
    lemma_delete_he_count(m3, a);
    let g2 = g1.delete_halfedge(b);
    lemma_delete_he_count(g1, b);
    let g3 = g2.delete_vertex(v1);
    lemma_delete_vertex_count(g2, v1);
    assert(g2.v_live(v1));
    assert(m.collapsed(v0, v1, target) == g3.with_boundary_flags());
    assert(g2.vertex_count() == m.vertex_count());
}

/// Collapsing the edge `v0 -> v1` between two triangles (whose outer twins lie outside
/// them) removes `v1`, the six half-edges of the two triangles and the live faces
/// among the two.
pub proof fn law_collapse_counts<P>(m: MeshView<P>, v0: int, v1: int, target: P)
    requires
        m.wf(),
        m.find_edge(v0, v1) is Some,
        m.v_live(v1),
        triangle_collapse(m, v0, v1),
        outer_twins_outside(m, v0, v1),
    ensures
        m.collapsed(v0, v1, target).vertex_count() == m.vertex_count() - 1,
        m.collapsed(v0, v1, target).halfedge_count() == m.halfedge_count() - 6,
        m.collapsed(v0, v1, target).face_count() == m.face_count() - edge_sides(m, v0, v1).len(),
{
    law_collapse_vertex_count(m, v0, v1, target);
    lemma_collapsed_core(m, v0, v1, target);
}

/// Collapsing the edge `v0 -> v1` between two triangles keeps a valid mesh valid:
/// every half-edge left is linked, its successor points back at it, and twins are
/// symmetric (the twins across each removed triangle are paired with each other).
#[verifier::spinoff_prover]
pub proof fn law_collapse_keeps_valid<P>(m: MeshView<P>, v0: int, v1: int, target: P)
    requires
        m.wf(),
        m.valid(),
        m.find_edge(v0, v1) is Some,
        triangle_collapse(m, v0, v1),
        outer_twins_outside(m, v0, v1),
    ensures
        m.collapsed(v0, v1, target).valid(),
{
    lemma_find_edge_live(m, v0, v1);
    lemma_collapsed_core(m, v0, v1, target);
    let a = m.edge_first(v0, v1);
    let b = m.edge_second(v0, v1);
    let an = m.halfedges[a].next.0 as int;
    let ap = m.halfedges[a].prev.0 as int;
    let bn = m.halfedges[b].next.0 as int;
    let bp = m.halfedges[b].prev.0 as int;
    let six = seq![a, an, ap, b, bn, bp];
    assert(m.he_live(six[0]) && m.he_live(six[1]) && m.he_live(six[2]));
    assert(m.he_live(six[3]) && m.he_live(six[4]) && m.he_live(six[5]));
    let r = m.collapsed(v0, v1, target);
    assert(m.he_valid(a) && m.he_valid(an) && m.he_valid(ap));
    assert(m.he_valid(b) && m.he_valid(bn) && m.he_valid(bp));
    assert(m.halfedges[an].prev.0 == a);
    assert(m.halfedges[ap].prev.0 == an);
    assert(m.halfedges[bn].prev.0 == b);
    assert(m.halfedges[bp].prev.0 == bn);
    assert(m.halfedges[a].twin == Some(HalfEdgeId(b as u32)));
    assert(m.halfedges[b].twin == Some(HalfEdgeId(a as u32)));
    lemma_prev_next(m);
    assert(m.halfedges[a].next.0 == an && m.halfedges[an].next.0 == ap && m.halfedges[ap].next.0 == a);
    assert(m.halfedges[b].next.0 == bn && m.halfedges[bn].next.0 == bp && m.halfedges[bp].next.0 == b);
    assert forall|x: int| #![trigger r.halfedges[x]] r.he_live(x) implies r.he_valid(x) by {
        assert(m.he_live(x) && !removed_he(m, v0, v1, x));
        assert(m.he_valid(x));
        assert(m.he_refs_ok(x));
        // Links.
        let n = m.halfedges[x].next.0 as int;
        assert(m.halfedges[n].prev.0 == x);
        if removed_he(m, v0, v1, n) {
            assert(false);
        }
        assert(r.halfedges[n].prev == m.halfedges[n].prev);
        let q = m.halfedges[x].prev.0 as int;
        assert(m.he_live(q));
        assert(m.halfedges[q].next.0 == x);
        if removed_he(m, v0, v1, q) {
            assert(false);
        }
        assert(r.he_live(n) && r.he_live(q));
        // Twins.
        if let Some(y) = r.halfedges[x].twin {
            let yi = y.0 as int;
            let t1 = m.halfedges[an].twin;
            let t2 = m.halfedges[ap].twin;
            let t3 = m.halfedges[bn].twin;
            let t4 = m.halfedges[bp].twin;
            let xi = HalfEdgeId(x as u32);
            if t3 == Some(xi) || t4 == Some(xi) || t1 == Some(xi) || t2 == Some(xi) {
                assert(!removed_he(m, v0, v1, yi));
                assert(m.he_refs_ok(an) && m.he_refs_ok(ap) && m.he_refs_ok(bn) && m.he_refs_ok(bp));
                assert(r.halfedges[yi].twin == joined_twin(m, v0, v1, yi));
            } else {
                assert(y == m.halfedges[x].twin->0);
                assert(m.halfedges[yi].twin == Some(xi));
                if removed_he(m, v0, v1, yi) {
                    assert(false);
                }
                assert(t1 != Some(y) && t2 != Some(y) && t3 != Some(y) && t4 != Some(y));
                assert(r.halfedges[yi].twin == joined_twin(m, v0, v1, yi));
            }
        }
    }
}

/// Collapsing the edge `v0 -> v1` between two triangles keeps a watertight mesh
/// watertight: every half-edge left has a twin.
pub proof fn law_collapse_keeps_watertight<P>(m: MeshView<P>, v0: int, v1: int, target: P)
    requires
        m.wf(),
        m.watertight(),
        m.find_edge(v0, v1) is Some,
        triangle_collapse(m, v0, v1),
        outer_twins_outside(m, v0, v1),
    ensures
        m.collapsed(v0, v1, target).watertight(),
{
    lemma_find_edge_live(m, v0, v1);
    lemma_collapsed_core(m, v0, v1, target);
    let a = m.edge_first(v0, v1);
    let b = m.edge_second(v0, v1);
    let six = seq![
        a,
        m.halfedges[a].next.0 as int,
        m.halfedges[a].prev.0 as int,
        b,
        m.halfedges[b].next.0 as int,
        m.halfedges[b].prev.0 as int,
    ];
    assert(m.he_live(six[1]) && m.he_live(six[2]) && m.he_live(six[4]) && m.he_live(six[5]));
    let r = m.collapsed(v0, v1, target);
    assert forall|x: int| #![trigger r.halfedges[x]] r.he_live(x) implies r.halfedges[x].twin is Some by {
        assert(m.he_live(x) && !removed_he(m, v0, v1, x));
        assert(m.halfedges[x].twin is Some);
    }
}

/// In a valid mesh the successor is a one-to-one map of the live half-edges onto
/// themselves, so every live half-edge is the successor of its predecessor.
pub proof fn lemma_prev_next<P>(m: MeshView<P>)
    requires
        m.wf(),
        m.valid(),
    ensures
        forall|x: int| #[trigger] m.he_live(x) ==> m.halfedges[m.halfedges[x].prev.0 as int].next.0 == x,
{
    let live = Set::new(|x: int| m.he_live(x));
    vstd::set_lib::lemma_int_range(0, m.halfedges.len() as int);
    assert(live.subset_of(vstd::set_lib::set_int_range(0, m.halfedges.len() as int)));
    vstd::set_lib::lemma_len_subset(live, vstd::set_lib::set_int_range(0, m.halfedges.len() as int));
    let f = |x: int| m.halfedges[x].next.0 as int;
    assert(vstd::relations::injective_on(f, live)) by {
        assert forall|x: int, y: int| live.contains(x) && live.contains(y) && #[trigger] f(x) == #[trigger] f(y) implies x
            == y by {
            assert(m.he_valid(x) && m.he_valid(y));
        }
    }
    let img = live.map(f);
    lemma_map_size(live, img, f);
    assert(img.subset_of(live)) by {
        assert forall|z: int| img.contains(z) implies live.contains(z) by {
            let y = choose|y: int| live.contains(y) && z == f(y);
            assert(m.he_valid(y));
        }
    }
    vstd::set_lib::lemma_subset_equality(img, live);
    assert forall|x: int| #[trigger] m.he_live(x) implies m.halfedges[m.halfedges[x].prev.0 as int].next.0 == x by {
        assert(live.contains(x));
        assert(img.contains(x));
        let y = choose|y: int| live.contains(y) && x == f(y);
        assert(m.he_valid(y));
    }
}

/// In a valid mesh the successor of a live half-edge is live and points back at it.
pub proof fn lemma_next_prev<P>(m: MeshView<P>)
    requires
        m.wf(),
        m.valid(),
    ensures
        forall|h: int|
            #[trigger] m.he_live(h) ==> m.he_live(m.halfedges[h].next.0 as int)
                && m.halfedges[m.halfedges[h].next.0 as int].prev.0 == h,
{
    assert forall|h: int| #[trigger] m.he_live(h) implies m.he_live(m.halfedges[h].next.0 as int)
        && m.halfedges[m.halfedges[h].next.0 as int].prev.0 == h by {
        assert(m.he_valid(h));
    }
}

} // verus!
