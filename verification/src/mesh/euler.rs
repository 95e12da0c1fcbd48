//! How edge collapse and edge flip change the edges of a mesh and its Euler
//! characteristic: the edges as a set of undirected vertex pairs, and what merging one
//! end of an edge into the other does to that set.
use vstd::prelude::*;
use vstd::set_lib::{lemma_map_size, lemma_set_disjoint_lens};
use crate::mesh::halfedge::{FaceId, HalfEdgeId, MeshView, VertexId, INVALID_ID};
use crate::mesh::laws::{
    distinct_six, edge_sides, law_flip_keeps_counts, lemma_delete_he_count,
    lemma_flip_links_values, lemma_patched_links, lemma_patched_slots, link_of, proper_collapse,
    proper_flip,
};
use crate::mesh::topology::lemma_find_edge_live;
use crate::mesh::collapse_laws::{lemma_collapsed_core, outer_twins_outside, removed_he, triangle_collapse};

verus! {

/// An undirected edge between vertex ids `x` and `y`, smaller id first.
pub open spec fn ordered(x: u32, y: u32) -> (u32, u32) {
    if x <= y {
        (x, y)
    } else {
        (y, x)
    }
}

/// Vertex id `x` once `v1` has been merged into `v0`.
pub open spec fn merge_id(x: u32, v0: u32, v1: u32) -> u32 {
    if x == v1 {
        v0
    } else {
        x
    }
}

/// The undirected edge `k` once `v1` has been merged into `v0`.
pub open spec fn merge_key(k: (u32, u32), v0: u32, v1: u32) -> (u32, u32) {
    ordered(merge_id(k.0, v0, v1), merge_id(k.1, v0, v1))
}

/// The undirected edge `k` has `v` as an end.
pub open spec fn touches(k: (u32, u32), v: u32) -> bool {
    k.0 == v || k.1 == v
}

/// The edges of `keys` at `v1`, other than the one to `v0`, whose image at `v0` is
/// already among `keys`: for a mesh without loops, one for each vertex adjacent to
/// both `v0` and `v1`.
pub open spec fn merging_keys(keys: Set<(u32, u32)>, v0: u32, v1: u32) -> Set<(u32, u32)> {
    Set::new(
        |k: (u32, u32)|
            keys.contains(k) && touches(k, v1) && k != ordered(v0, v1) && keys.contains(
                merge_key(k, v0, v1),
            ),
    )
}

/// Merging `v1` into `v0` in a finite set of edges that holds the edge `v0`-`v1`, and
/// dropping that edge, leaves one edge fewer, less one for each pair that merges.
pub proof fn lemma_merge_count(keys: Set<(u32, u32)>, v0: u32, v1: u32)
    requires
        keys.finite(),
        v0 != v1,
        keys.contains(ordered(v0, v1)),
        forall|k: (u32, u32)| #[trigger] keys.contains(k) ==> k.0 <= k.1,
    ensures
        merging_keys(keys, v0, v1).finite(),
        keys.remove(ordered(v0, v1)).map(|k: (u32, u32)| merge_key(k, v0, v1)).finite(),
        keys.remove(ordered(v0, v1)).map(|k: (u32, u32)| merge_key(k, v0, v1)).len() == keys.len() - 1
            - merging_keys(keys, v0, v1).len(),
{
    let k01 = ordered(v0, v1);
    let f = |k: (u32, u32)| merge_key(k, v0, v1);
    let s = keys.remove(k01);
    let d = merging_keys(keys, v0, v1);
    let a = s.filter(|k: (u32, u32)| !touches(k, v1));
    let c = s.filter(|k: (u32, u32)| touches(k, v1));
    let c2 = c.difference(d);
    let img = s.map(f);
    s.lemma_len_filter(|k: (u32, u32)| !touches(k, v1));
    s.lemma_len_filter(|k: (u32, u32)| touches(k, v1));
    assert(d.subset_of(keys));
    vstd::set_lib::lemma_len_subset(d, keys);
    assert(d.subset_of(c));
    vstd::set_lib::lemma_len_subset(d, c);
    // The edges of `s` split into those away from `v1` and those at it.
    assert(a.disjoint(c));
    assert(a + c =~= s);
    lemma_set_disjoint_lens(a, c);
    // The merging edges are part of those at `v1`.
    assert(c2.disjoint(d));
    assert(c2 + d =~= c);
    lemma_set_disjoint_lens(c2, d);
    // Merging is one-to-one on the edges at `v1`.
    assert(vstd::relations::injective_on(f, c2)) by {
        assert forall|x: (u32, u32), y: (u32, u32)|
            c2.contains(x) && c2.contains(y) && #[trigger] f(x) == #[trigger] f(y) implies x == y by {
        }
    }
    lemma_map_size(c2, c2.map(f), f);
    // The image is the edges away from `v1` and the images of the non-merging ones.
    assert forall|k: (u32, u32)| #[trigger] img.contains(k) <==> (a + c2.map(f)).contains(k) by {
        if img.contains(k) {
            let x = choose|x: (u32, u32)| s.contains(x) && k == f(x);
            if touches(x, v1) {
                if d.contains(x) {
                    assert(a.contains(f(x)));
                } else {
                    assert(c2.contains(x));
                }
            } else {
                assert(f(x) == x);
                assert(a.contains(x));
            }
        }
        if a.contains(k) {
            assert(f(k) == k);
            assert(s.contains(k));
        }
        if c2.map(f).contains(k) {
            let x = choose|x: (u32, u32)| c2.contains(x) && k == f(x);
            assert(s.contains(x));
        }
    }
    assert(img =~= a + c2.map(f));
    assert(a.disjoint(c2.map(f))) by {
        assert forall|k: (u32, u32)| a.contains(k) implies !c2.map(f).contains(k) by {
            if c2.map(f).contains(k) {
                let x = choose|x: (u32, u32)| c2.contains(x) && k == f(x);
                assert(keys.contains(f(x)));
                assert(d.contains(x));
            }
        }
    }
    lemma_set_disjoint_lens(a, c2.map(f));
    s.lemma_map_finite(f);
}

/// The undirected edge of half-edge `h`: its origin and its target.
pub open spec fn he_key<P>(m: MeshView<P>, h: int) -> (u32, u32) {
    ordered(m.halfedges[h].origin.0, m.target(h).0)
}

/// The undirected edges of the half-edges below slot `j` that can be walked.
pub open spec fn keys_below<P>(m: MeshView<P>, j: int) -> Set<(u32, u32)> {
    Set::new(|k: (u32, u32)| exists|h: int| 0 <= h < j && m.usable(h) && #[trigger] he_key(m, h) == k)
}

/// The undirected edges of the mesh, as vertex pairs: what `edges` lists once each.
pub open spec fn edge_keys<P>(m: MeshView<P>) -> Set<(u32, u32)> {
    keys_below(m, m.halfedges.len() as int)
}

/// The edges at `v1`, other than the edge to `v0`, that merge with an edge at `v0` when
/// `v1` is merged into `v0`: one for each vertex adjacent to both.
pub open spec fn merging_edges<P>(m: MeshView<P>, v0: int, v1: int) -> Set<(u32, u32)> {
    merging_keys(edge_keys(m), v0 as u32, v1 as u32)
}

/// The edge scan keeps the undirected edges of the half-edges it has passed, and lists
/// each of them once.
proof fn lemma_scan_keys<P>(m: MeshView<P>, j: nat)
    ensures
        m.edge_scan(j).1 == keys_below(m, j as int),
        m.edge_scan(j).1.finite(),
        m.edge_scan(j).0.len() == m.edge_scan(j).1.len(),
    decreases j,
{
    if j == 0 {
        assert(keys_below(m, 0) =~= Set::<(u32, u32)>::empty());
    } else {
        lemma_scan_keys(m, (j - 1) as nat);
        let prev = m.edge_scan((j - 1) as nat);
        let h = j - 1;
        if m.usable(h) {
            let k = he_key(m, h);
            if prev.1.contains(k) {
                assert(keys_below(m, j as int) =~= keys_below(m, h));
            } else {
                assert(keys_below(m, j as int) =~= keys_below(m, h).insert(k));
            }
        } else {
            assert(keys_below(m, j as int) =~= keys_below(m, h));
        }
    }
}

/// The edge list has one entry for each undirected edge of the mesh.
pub proof fn lemma_edge_list_len<P>(m: MeshView<P>)
    ensures
        edge_keys(m).finite(),
        m.edge_list().len() == edge_keys(m).len(),
        forall|k: (u32, u32)| #[trigger] edge_keys(m).contains(k) ==> k.0 <= k.1,
{
    lemma_scan_keys(m, m.halfedges.len());
}

/// Setting origins over a list: each listed slot but `skip` leaves `v`, the rest keep theirs.
proof fn lemma_set_origins_origin<P>(m: MeshView<P>, hs: Seq<int>, skip: int, v: VertexId)
    ensures
        forall|x: int|
            0 <= x < m.halfedges.len() ==> (#[trigger] m.set_origins(hs, skip, v).halfedges[x]).origin == if hs.contains(x)
                && x != skip {
                v
            } else {
                m.halfedges[x].origin
            },
    decreases hs.len(),
{
    if hs.len() > 0 {
        lemma_set_origins_origin(m, hs.drop_last(), skip, v);
        crate::mesh::topology::lemma_set_origins_keeps(m, hs.drop_last(), skip, v);
        let q = m.set_origins(hs.drop_last(), skip, v);
        let r = m.set_origins(hs, skip, v);
        assert(r == if hs.last() == skip {
            q
        } else {
            q.set_origin(hs.last(), v)
        });
        assert forall|x: int| 0 <= x < m.halfedges.len() implies (#[trigger] r.halfedges[x]).origin == if hs.contains(x)
            && x != skip {
            v
        } else {
            m.halfedges[x].origin
        } by {
            assert(hs.contains(x) == (hs.drop_last().contains(x) || hs.last() == x)) by {
                if hs.contains(x) {
                    let i = choose|i: int| 0 <= i < hs.len() && hs[i] == x;
                    if i < hs.len() - 1 {
                        assert(hs.drop_last()[i] == x);
                    }
                }
                if hs.drop_last().contains(x) {
                    let i = choose|i: int| 0 <= i < hs.len() - 1 && hs.drop_last()[i] == x;
                    assert(hs[i] == x);
                }
            }
        }
    }
}

/// The first stage of a collapse moves origins only, as `set_origins` does.
proof fn lemma_patched_origins<P>(m: MeshView<P>, v0: int, v1: int, a: int, b: int)
    ensures
        forall|x: int|
            0 <= x < m.halfedges.len() ==> (#[trigger] m.collapse_patched(v0, v1, a, b).halfedges[x]).origin
                == m.set_origins(m.outgoing(v1), b, VertexId(v0 as u32)).halfedges[x].origin,
{
    reveal(MeshView::collapse_patched);
    let m1 = m.set_origins(m.outgoing(v1), b, VertexId(v0 as u32));
    crate::mesh::topology::lemma_set_origins_keeps(m, m.outgoing(v1), b, VertexId(v0 as u32));
    let m2 = match m.halfedges[a].face {
        Some(f) => m1.patch(f.0 as int, a),
        None => m1,
    };
    assert forall|x: int| 0 <= x < m.halfedges.len() implies (#[trigger] m2.halfedges[x]).origin
        == m1.halfedges[x].origin && m2.halfedges.len() == m1.halfedges.len() by {
        if let Some(f) = m.halfedges[a].face {
            let pr = m1.halfedges[a].prev;
            let nx = m1.halfedges[a].next;
            let s1 = m1.set_next(pr.0 as int, nx);
            assert(s1.halfedges[x].origin == m1.halfedges[x].origin);
            let s2 = s1.set_prev(nx.0 as int, pr);
            assert(s2.halfedges[x].origin == m1.halfedges[x].origin);
        }
    }
    let p = m.collapse_patched(v0, v1, a, b);
    assert forall|x: int| 0 <= x < m.halfedges.len() implies (#[trigger] p.halfedges[x]).origin
        == m1.halfedges[x].origin by {
        assert(m2.halfedges[x].origin == m1.halfedges[x].origin);
        if let Some(f) = m.halfedges[b].face {
            let pr = m2.halfedges[b].prev;
            let nx = m2.halfedges[b].next;
            let s1 = m2.set_next(pr.0 as int, nx);
            assert(s1.halfedges[x].origin == m2.halfedges[x].origin);
            let s2 = s1.set_prev(nx.0 as int, pr);
            assert(s2.halfedges[x].origin == m2.halfedges[x].origin);
        }
    }
}

/// Half-edge `s` has a walkable twin that joins the same two vertices.
pub open spec fn mirrored<P>(m: MeshView<P>, s: int) -> bool {
    m.halfedges[s].twin matches Some(t) && 0 <= t.0 < m.halfedges.len() && m.usable(t.0 as int) && he_key(
        m,
        t.0 as int,
    ) == he_key(m, s)
}

/// The edge `v0 -> v1` can be collapsed cleanly: it lies between two proper triangles
/// whose outer twins lie outside them and join the same vertices as the sides they
/// face; the edge runs from `v0` to `v1` and its twin back; every live half-edge
/// leaving `v1` is among its walkable outgoing half-edges; and no other half-edge joins
/// `v0` and `v1`.
pub open spec fn clean_collapse<P>(m: MeshView<P>, v0: int, v1: int) -> bool {
    let a = m.edge_first(v0, v1);
    let b = m.edge_second(v0, v1);
    &&& v0 != v1
    &&& triangle_collapse(m, v0, v1)
    &&& outer_twins_outside(m, v0, v1)
    &&& mirrored(m, m.halfedges[a].next.0 as int)
    &&& mirrored(m, m.halfedges[a].prev.0 as int)
    &&& mirrored(m, m.halfedges[b].next.0 as int)
    &&& mirrored(m, m.halfedges[b].prev.0 as int)
    &&& m.halfedges[a].origin.0 == v0
    &&& m.halfedges[b].origin.0 == v1
    &&& m.target(b).0 == v0
    &&& forall|h: int|
        #[trigger] m.he_live(h) ==> (m.halfedges[h].origin.0 == v1 <==> m.outgoing(v1).contains(h))
    &&& forall|h: int|
        0 <= h < m.halfedges.len() && m.usable(h) && #[trigger] he_key(m, h) == ordered(v0 as u32, v1 as u32)
            ==> h == a || h == b
}

/// A clean collapse keeps the walkable half-edges outside the two triangles, and each
/// keeps its undirected edge with `v1` merged into `v0`.
#[verifier::spinoff_prover]
#[verifier::rlimit(100)]
proof fn lemma_collapsed_usable<P>(m: MeshView<P>, v0: int, v1: int, target: P)
    requires
        m.wf(),
        m.valid(),
        m.find_edge(v0, v1) is Some,
        m.v_live(v1),
        clean_collapse(m, v0, v1),
    ensures
        ({
            let r = m.collapsed(v0, v1, target);
            &&& forall|h: int|
                0 <= h < m.halfedges.len() ==> #[trigger] r.usable(h) == (m.usable(h) && !removed_he(m, v0, v1, h))
            &&& forall|h: int|
                0 <= h < m.halfedges.len() && #[trigger] r.usable(h) ==> he_key(r, h) == merge_key(
                    he_key(m, h),
                    v0 as u32,
                    v1 as u32,
                )
        }),
{
    crate::mesh::collapse_laws::lemma_next_prev(m);
    lemma_collapsed_usable_linked(m, v0, v1, target);
}

/// The same, from the successor facts of a valid mesh alone.
#[verifier::spinoff_prover]
#[verifier::rlimit(100)]
proof fn lemma_collapsed_usable_linked<P>(m: MeshView<P>, v0: int, v1: int, target: P)
    requires
        m.wf(),
        forall|h: int|
            #[trigger] m.he_live(h) ==> m.he_live(m.halfedges[h].next.0 as int)
                && m.halfedges[m.halfedges[h].next.0 as int].prev.0 == h,
        m.find_edge(v0, v1) is Some,
        m.v_live(v1),
        clean_collapse(m, v0, v1),
    ensures
        ({
            let r = m.collapsed(v0, v1, target);
            &&& forall|h: int|
                0 <= h < m.halfedges.len() ==> #[trigger] r.usable(h) == (m.usable(h) && !removed_he(m, v0, v1, h))
            &&& forall|h: int|
                0 <= h < m.halfedges.len() && #[trigger] r.usable(h) ==> he_key(r, h) == merge_key(
                    he_key(m, h),
                    v0 as u32,
                    v1 as u32,
                )
        }),
{
    lemma_find_edge_live(m, v0, v1);
    lemma_collapsed_core(m, v0, v1, target);
    let a = m.edge_first(v0, v1);
    let b = m.edge_second(v0, v1);
    let an = m.halfedges[a].next.0 as int;
    let ap = m.halfedges[a].prev.0 as int;
    let bn = m.halfedges[b].next.0 as int;
    let bp = m.halfedges[b].prev.0 as int;
    let six = seq![a, an, ap, b, bn, bp];
    assert(m.he_live(six[0]) && m.he_live(six[1]) && m.he_live(six[2]));
    assert(m.he_live(six[3]) && m.he_live(six[4]) && m.he_live(six[5]));
    lemma_patched_origins(m, v0, v1, a, b);
    lemma_set_origins_origin(m, m.outgoing(v1), b, VertexId(v0 as u32));
    let p = m.collapse_patched(v0, v1, a, b);
    let r = m.collapsed(v0, v1, target);
    let w0 = v0 as u32;
    let w1 = v1 as u32;
    assert(m.halfedges[an].prev.0 == a);
    assert(m.halfedges[ap].prev.0 == an);
    assert(m.halfedges[bn].prev.0 == b);
    assert(m.halfedges[bp].prev.0 == bn);
    assert forall|x: int| 0 <= x < m.halfedges.len() && !removed_he(m, v0, v1, x) && #[trigger] m.he_live(x) implies r.halfedges[x].origin.0
        == merge_id(m.halfedges[x].origin.0, w0, w1) by {
        assert(p.halfedges[x].origin == r.halfedges[x].origin);
        assert(m.outgoing(v1).contains(x) == (m.halfedges[x].origin.0 == v1));
    }
    assert forall|h: int| 0 <= h < m.halfedges.len() implies #[trigger] r.usable(h) == (m.usable(h) && !removed_he(
        m,
        v0,
        v1,
        h,
    )) by {
        if m.he_live(h) && !removed_he(m, v0, v1, h) {
            let n = m.halfedges[h].next.0 as int;
            assert(m.halfedges[n].prev.0 == h);
            assert(r.halfedges[h].next == m.halfedges[h].next);
        }
    }
    assert forall|h: int| 0 <= h < m.halfedges.len() && #[trigger] r.usable(h) implies he_key(r, h) == merge_key(
        he_key(m, h),
        w0,
        w1,
    ) by {
        let n = r.halfedges[h].next.0 as int;
        assert(m.he_live(h) && !removed_he(m, v0, v1, h));
        assert(n == m.halfedges[h].next.0);
        assert(r.he_live(n));
        assert(m.he_live(n) && !removed_he(m, v0, v1, n));
        assert(r.halfedges[h].origin.0 == merge_id(m.halfedges[h].origin.0, w0, w1));
        assert(r.halfedges[n].origin.0 == merge_id(m.halfedges[n].origin.0, w0, w1));
    }
}

/// The half-edge `find_edge` gives for `v0 -> v1` ends at `v1`.
proof fn lemma_first_to_target<P>(m: MeshView<P>, v0: int, v1: int)
    requires
        m.find_edge(v0, v1) is Some,
    ensures
        m.target(m.edge_first(v0, v1)).0 == v1,
{
    crate::mesh::traversal::lemma_first_to(m, m.outgoing(v0), v1);
}

/// A clean collapse leaves the edges of the mesh, less the collapsed one, with `v1`
/// merged into `v0`.
#[verifier::spinoff_prover]
#[verifier::rlimit(60)]
proof fn lemma_collapsed_keys<P>(m: MeshView<P>, v0: int, v1: int, target: P)
    requires
        m.wf(),
        m.valid(),
        m.find_edge(v0, v1) is Some,
        m.v_live(v1),
        clean_collapse(m, v0, v1),
    ensures
        edge_keys(m.collapsed(v0, v1, target)) == edge_keys(m).remove(ordered(v0 as u32, v1 as u32)).map(
            |k: (u32, u32)| merge_key(k, v0 as u32, v1 as u32),
        ),
        edge_keys(m).contains(ordered(v0 as u32, v1 as u32)),
{
    lemma_find_edge_live(m, v0, v1);
    lemma_first_to_target(m, v0, v1);
    lemma_collapsed_usable(m, v0, v1, target);
    lemma_collapsed_core(m, v0, v1, target);
    let a = m.edge_first(v0, v1);
    let b = m.edge_second(v0, v1);
    let r = m.collapsed(v0, v1, target);
    let w0 = v0 as u32;
    let w1 = v1 as u32;
    let k01 = ordered(w0, w1);
    let f = |k: (u32, u32)| merge_key(k, w0, w1);
    let lhs = edge_keys(r);
    let rhs = edge_keys(m).remove(k01).map(f);
    assert(m.usable(b)) by {
        assert(proper_collapse(m, v0, v1));
        let six = seq![
            a,
            m.halfedges[a].next.0 as int,
            m.halfedges[a].prev.0 as int,
            b,
            m.halfedges[b].next.0 as int,
            m.halfedges[b].prev.0 as int,
        ];
        assert(m.he_live(six[4]));
    }
    assert(he_key(m, a) == k01);
    assert(he_key(m, b) == k01);
    assert(edge_keys(m).contains(k01));
    assert forall|k: (u32, u32)| #[trigger] lhs.contains(k) <==> rhs.contains(k) by {
        if lhs.contains(k) {
            let h = choose|h: int| 0 <= h < r.halfedges.len() && r.usable(h) && #[trigger] he_key(r, h) == k;
            assert(m.usable(h) && !removed_he(m, v0, v1, h));
            let k0 = he_key(m, h);
            assert(edge_keys(m).contains(k0));
            assert(k0 != k01);
            assert(edge_keys(m).remove(k01).contains(k0) && k == f(k0));
        }
        if rhs.contains(k) {
            let k0 = choose|k0: (u32, u32)| edge_keys(m).remove(k01).contains(k0) && k == f(k0);
            let h = choose|h: int| 0 <= h < m.halfedges.len() && m.usable(h) && #[trigger] he_key(m, h) == k0;
            assert(h != a && h != b);
            if removed_he(m, v0, v1, h) {
                // A side of a removed triangle: its twin carries the same edge and stays.
                assert(mirrored(m, h));
                let t = (m.halfedges[h].twin->0).0 as int;
                assert(!removed_he(m, v0, v1, t));
                assert(r.usable(t));
                assert(he_key(r, t) == k);
                assert(keys_below(r, r.halfedges.len() as int).contains(he_key(r, t)));
            } else {
                assert(r.usable(h));
                assert(he_key(r, h) == k);
            }
        }
    }
    assert(lhs =~= rhs);
}

/// Collapsing the edge `v0 -> v1` cleanly changes the Euler characteristic by the
/// number of edges that merge beyond the collapsed one, less the number of faces
/// removed. In particular, when exactly two vertices are adjacent to both `v0` and
/// `v1` (the link condition of a closed triangle mesh) and the two faces beside the
/// edge go, the Euler characteristic is kept.
pub proof fn law_collapse_euler<P>(m: MeshView<P>, v0: int, v1: int, target: P)
    requires
        m.wf(),
        m.valid(),
        m.find_edge(v0, v1) is Some,
        m.v_live(v1),
        clean_collapse(m, v0, v1),
    ensures
        merging_edges(m, v0, v1).finite(),
        m.collapsed(v0, v1, target).edge_list().len() == m.edge_list().len() - 1 - merging_edges(
            m,
            v0,
            v1,
        ).len(),
        m.collapsed(v0, v1, target).euler() == m.euler() + merging_edges(m, v0, v1).len() - edge_sides(
            m,
            v0,
            v1,
        ).len(),
        merging_edges(m, v0, v1).len() == 2 && edge_sides(m, v0, v1).len() == 2 ==> m.collapsed(
            v0,
            v1,
            target,
        ).euler() == m.euler(),
{
    let r = m.collapsed(v0, v1, target);
    lemma_collapsed_keys(m, v0, v1, target);
    lemma_edge_list_len(m);
    lemma_edge_list_len(r);
    lemma_merge_count(edge_keys(m), v0 as u32, v1 as u32);
    crate::mesh::collapse_laws::law_collapse_counts(m, v0, v1, target);
}

/// The rewiring of a flip moves two origins: `a` takes `v2` and `b` takes `v3`.
#[verifier::spinoff_prover]
proof fn lemma_flip_links_origins<P>(
    m: MeshView<P>,
    v0: int,
    v1: int,
    a: HalfEdgeId,
    b: HalfEdgeId,
    h12: HalfEdgeId,
    h23: HalfEdgeId,
    h30: HalfEdgeId,
    h03: HalfEdgeId,
    fa: Option<FaceId>,
    fb: Option<FaceId>,
    v2: VertexId,
    v3: VertexId,
)
    requires
        0 <= a.0 < m.halfedges.len(),
        0 <= b.0 < m.halfedges.len(),
        a != b,
    ensures
        forall|x: int|
            0 <= x < m.halfedges.len() ==> (#[trigger] m.flip_links(v0, v1, a, b, h12, h23, h30, h03, fa, fb, v2, v3).halfedges[x]).origin
                == if x == a.0 {
                v2
            } else if x == b.0 {
                v3
            } else {
                m.halfedges[x].origin
            },
{
    reveal(MeshView::flip_links);
    let s1 = m.set_next(a.0 as int, h23);
    assert(same_origins(s1, m));
    let s2 = s1.set_prev(h23.0 as int, a);
    assert(same_origins(s2, m));
    let s3 = s2.set_next(h23.0 as int, h30);
    assert(same_origins(s3, m));
    let s4 = s3.set_prev(h30.0 as int, h23);
    assert(same_origins(s4, m));
    let s5 = s4.set_next(h30.0 as int, a);
    assert(same_origins(s5, m));
    let s6 = s5.set_prev(a.0 as int, h30);
    assert(same_origins(s6, m));
    let s7 = s6.set_face(a.0 as int, fa);
    assert(same_origins(s7, m));
    let s8 = s7.set_face(h23.0 as int, fa);
    assert(same_origins(s8, m));
    let s9 = s8.set_face(h30.0 as int, fa);
    assert(same_origins(s9, m));
    let m1 = s9.set_face_he(crate::mesh::topology::face_index(fa), a);
    assert(same_origins(m1, m));
    let t1 = m1.set_next(b.0 as int, h03);
    assert(same_origins(t1, m));
    let t2 = t1.set_prev(h03.0 as int, b);
    assert(same_origins(t2, m));
    let t3 = t2.set_next(h03.0 as int, h12);
    assert(same_origins(t3, m));
    let t4 = t3.set_prev(h12.0 as int, h03);
    assert(same_origins(t4, m));
    let t5 = t4.set_next(h12.0 as int, b);
    assert(same_origins(t5, m));
    let t6 = t5.set_prev(b.0 as int, h12);
    assert(same_origins(t6, m));
    let t7 = t6.set_face(b.0 as int, fb);
    assert(same_origins(t7, m));
    let t8 = t7.set_face(h03.0 as int, fb);
    assert(same_origins(t8, m));
    let t9 = t8.set_face(h12.0 as int, fb);
    assert(same_origins(t9, m));
    let m2 = t9.set_face_he(crate::mesh::topology::face_index(fb), b);
    assert(same_origins(m2, m));
    let m3 = m2.set_origin(a.0 as int, v2).set_origin(b.0 as int, v3);
    let m4 = if m3.vertices[v0].halfedge == Some(a) {
        m3.set_vertex_he(v0, Some(h30))
    } else {
        m3
    };
    let m5 = if m4.vertices[v1].halfedge == Some(b) {
        m4.set_vertex_he(v1, Some(h12))
    } else {
        m4
    };
    assert(m.flip_links(v0, v1, a, b, h12, h23, h30, h03, fa, fb, v2, v3) == m5.with_boundary_flags());
    assert(m5.with_boundary_flags().halfedges == m3.halfedges);
    assert forall|x: int| 0 <= x < m.halfedges.len() implies (#[trigger] m3.halfedges[x]).origin == if x == a.0 {
        v2
    } else if x == b.0 {
        v3
    } else {
        m.halfedges[x].origin
    } by {
        assert(m2.halfedges[x].origin == m.halfedges[x].origin);
    }
}

/// Two meshes with the same number of half-edge slots and the same origin in each.
pub open spec fn same_origins<P>(x: MeshView<P>, y: MeshView<P>) -> bool {
    &&& x.halfedges.len() == y.halfedges.len()
    &&& forall|h: int| 0 <= h < y.halfedges.len() ==> (#[trigger] x.halfedges[h]).origin == y.halfedges[h].origin
}

/// The corners opposite the edge `v0 -> v1` in its two triangles, as an undirected edge.
pub open spec fn flip_diagonal<P>(m: MeshView<P>, v0: int, v1: int) -> (u32, u32) {
    let a = m.edge_first(v0, v1);
    let b = m.edge_second(v0, v1);
    let h23 = m.halfedges[m.halfedges[a].next.0 as int].next.0 as int;
    let h03 = m.halfedges[m.halfedges[b].next.0 as int].next.0 as int;
    ordered(m.halfedges[h23].origin.0, m.halfedges[h03].origin.0)
}

/// Flipping the edge `v0 -> v1` between two proper triangles whose half-edges run the
/// usual way (`a` from `v0` to `v1`, its twin `b` back, and no other half-edge between
/// `v0` and `v1`) replaces the edge `v0`-`v1` by the edge between the two opposite
/// corners. The number of edges, and so the Euler characteristic, is kept unless the
/// two corners were already joined.
#[verifier::spinoff_prover]
#[verifier::rlimit(60)]
pub proof fn law_flip_replaces_edge<P>(m: MeshView<P>, v0: int, v1: int)
    requires
        m.halfedges.len() < INVALID_ID,
        m.valid(),
        m.flip_ok(v0, v1),
        proper_flip(m, v0, v1),
        m.halfedges[m.edge_first(v0, v1)].origin.0 == v0,
        m.halfedges[m.edge_second(v0, v1)].origin.0 == v1,
        m.target(m.edge_second(v0, v1)).0 == v0,
        forall|h: int|
            0 <= h < m.halfedges.len() && m.usable(h) && #[trigger] he_key(m, h) == ordered(v0 as u32, v1 as u32)
                ==> h == m.edge_first(v0, v1) || h == m.edge_second(v0, v1),
    ensures
        edge_keys(m.flipped(v0, v1)) == edge_keys(m).remove(ordered(v0 as u32, v1 as u32)).insert(
            flip_diagonal(m, v0, v1),
        ),
        m.flipped(v0, v1).edge_list().len() == edge_keys(m).remove(ordered(v0 as u32, v1 as u32)).insert(
            flip_diagonal(m, v0, v1),
        ).len(),
        !edge_keys(m).contains(flip_diagonal(m, v0, v1)) ==> m.flipped(v0, v1).euler() == m.euler(),
{
    let a = m.edge_first(v0, v1);
    let b = m.edge_second(v0, v1);
    let h12 = m.halfedges[a].next;
    let h23 = m.halfedges[h12.0 as int].next;
    let h30 = m.halfedges[b].next;
    let h03 = m.halfedges[h30.0 as int].next;
    let six = seq![a, h12.0 as int, h23.0 as int, b, h30.0 as int, h03.0 as int];
    assert(m.he_live(six[0]) && m.he_live(six[1]) && m.he_live(six[2]));
    assert(m.he_live(six[3]) && m.he_live(six[4]) && m.he_live(six[5]));
    assert(six[0] != six[1] && six[0] != six[2] && six[0] != six[3] && six[0] != six[4] && six[0] != six[5]);
    assert(six[1] != six[2] && six[1] != six[3] && six[1] != six[4] && six[1] != six[5]);
    assert(six[2] != six[3] && six[2] != six[4] && six[2] != six[5]);
    assert(six[3] != six[4] && six[3] != six[5] && six[4] != six[5]);
    let ai = HalfEdgeId(a as u32);
    let bi = HalfEdgeId(b as u32);
    let fa = m.halfedges[a].face;
    let fb = m.halfedges[b].face;
    let oa = m.halfedges[h03.0 as int].origin;
    let ob = m.halfedges[h23.0 as int].origin;
    lemma_flip_links_values(m, v0, v1, ai, bi, h12, h23, h30, h03, fa, fb, oa, ob);
    lemma_flip_links_origins(m, v0, v1, ai, bi, h12, h23, h30, h03, fa, fb, oa, ob);
    law_flip_keeps_counts(m, v0, v1);
    lemma_first_to_target(m, v0, v1);
    let r = m.flipped(v0, v1);
    assert(r == m.flip_links(v0, v1, ai, bi, h12, h23, h30, h03, fa, fb, oa, ob));
    assert(m.halfedges[h23.0 as int].next.0 == a && m.halfedges[h03.0 as int].next.0 == b);
    // Outside the two triangles nothing that decides an edge changes.
    assert forall|x: int| 0 <= x < m.halfedges.len() && m.usable(x) && !six.contains(x) implies r.usable(x)
        && he_key(r, x) == he_key(m, x) by {
        let n = m.halfedges[x].next.0 as int;
        assert(link_of(r.halfedges, x) == link_of(m.halfedges, x));
        assert(m.he_valid(x));
        assert(m.halfedges[n].prev.0 == x);
        assert(m.he_valid(a) && m.he_valid(h12.0 as int) && m.he_valid(h23.0 as int));
        assert(m.he_valid(b) && m.he_valid(h30.0 as int) && m.he_valid(h03.0 as int));
        if six.contains(n) {
            let i = choose|i: int| 0 <= i < 6 && six[i] == n;
            assert(six[i] == n);
            assert(false);
        }
        assert(n != a && n != b);
    }
    assert forall|x: int| 0 <= x < m.halfedges.len() && r.usable(x) && !six.contains(x) implies m.usable(x) by {
        assert(link_of(r.halfedges, x) == link_of(m.halfedges, x));
    }
    // Inside them: the edge v0-v1 is gone, the diagonal comes in, the four sides stay.
    let c = ob.0;
    let d = oa.0;
    let e01 = ordered(v0 as u32, v1 as u32);
    let e23 = ordered(c, d);
    assert(e23 == flip_diagonal(m, v0, v1));
    let s1 = ordered(v1 as u32, c);
    let s2 = ordered(c, v0 as u32);
    let s3 = ordered(v0 as u32, d);
    let s4 = ordered(d, v1 as u32);
    assert(he_key(m, a) == e01 && he_key(m, b) == e01);
    assert(he_key(m, h12.0 as int) == s1 && he_key(m, h23.0 as int) == s2);
    assert(he_key(m, h30.0 as int) == s3 && he_key(m, h03.0 as int) == s4);
    assert(he_key(r, a) == e23 && he_key(r, b) == e23);
    assert(he_key(r, h23.0 as int) == s2 && he_key(r, h30.0 as int) == s3);
    assert(he_key(r, h03.0 as int) == s4 && he_key(r, h12.0 as int) == s1);
    assert forall|i: int| 0 <= i < 6 implies m.usable(#[trigger] six[i]) && r.usable(six[i]) by {}
    let kr = edge_keys(r);
    let km = edge_keys(m);
    let want = km.remove(e01).insert(e23);
    assert(kr.contains(e23)) by {
        assert(keys_below(r, r.halfedges.len() as int).contains(he_key(r, six[0])));
    }
    assert forall|i: int| 1 <= i < 6 && i != 3 implies kr.contains(#[trigger] he_key(m, six[i])) && km.contains(
        he_key(m, six[i]),
    ) && he_key(m, six[i]) != e01 by {
        assert(keys_below(r, r.halfedges.len() as int).contains(he_key(r, six[i])));
        assert(keys_below(m, m.halfedges.len() as int).contains(he_key(m, six[i])));
        if he_key(m, six[i]) == e01 {
            assert(six[i] == a || six[i] == b);
        }
    }
    assert(he_key(m, six[1]) == s1 && he_key(m, six[2]) == s2 && he_key(m, six[4]) == s3 && he_key(m, six[5]) == s4);
    assert forall|k: (u32, u32)| #[trigger] kr.contains(k) <==> want.contains(k) by {
        if kr.contains(k) {
            let h = choose|h: int| 0 <= h < r.halfedges.len() && r.usable(h) && #[trigger] he_key(r, h) == k;
            if !six.contains(h) {
                assert(m.usable(h) && he_key(m, h) == k);
                assert(km.contains(k));
                if k == e01 {
                    assert(h == a || h == b);
                    assert(six[0] == a && six[3] == b);
                }
            } else {
                let i = choose|i: int| 0 <= i < 6 && six[i] == h;
                if i == 0 || i == 3 {
                } else {
                    assert(km.contains(he_key(m, six[i])));
                }
            }
        }
        if want.contains(k) && k != e23 {
            assert(km.contains(k) && k != e01);
            let h = choose|h: int| 0 <= h < m.halfedges.len() && m.usable(h) && #[trigger] he_key(m, h) == k;
            if !six.contains(h) {
                assert(r.usable(h) && he_key(r, h) == k);
            } else {
                let i = choose|i: int| 0 <= i < 6 && six[i] == h;
                assert(i != 0 && i != 3);
                assert(kr.contains(he_key(m, six[i])));
            }
        }
    }
    assert(kr =~= want);
    lemma_edge_list_len(m);
    lemma_edge_list_len(r);
    assert(km.contains(e01)) by {
        assert(keys_below(m, m.halfedges.len() as int).contains(he_key(m, six[0])));
    }
    if !km.contains(e23) {
        assert(want.len() == km.len());
    }
}

/// The neighbours found among the first `j` half-edge slots are the vertices that the
/// edges of those slots join `v` to, each once.
proof fn lemma_neighbor_scan<P>(m: MeshView<P>, v: int, j: nat)
    requires
        0 <= v < u32::MAX,
    ensures
        m.neighbor_scan(v, j).no_duplicates(),
        forall|w: VertexId|
            #[trigger] m.neighbor_scan(v, j).contains(w) <==> (w.0 != v && keys_below(m, j as int).contains(
                ordered(v as u32, w.0),
            )),
    decreases j,
{
    if j > 0 {
        lemma_neighbor_scan(m, v, (j - 1) as nat);
        let prev = m.neighbor_scan(v, (j - 1) as nat);
        let cur = m.neighbor_scan(v, j);
        let h = j - 1;
        assert forall|w: VertexId| #[trigger] cur.contains(w) <==> (w.0 != v && keys_below(m, j as int).contains(
            ordered(v as u32, w.0),
        )) by {
            let k = ordered(v as u32, w.0);
            // The keys of the first `j` slots: those of the first `j - 1`, and this one's.
            assert(keys_below(m, j as int).contains(k) <==> (keys_below(m, h).contains(k) || (m.usable(h) && he_key(m, h)
                == k))) by {
                if keys_below(m, j as int).contains(k) {
                    let g = choose|g: int| 0 <= g < j && m.usable(g) && #[trigger] he_key(m, g) == k;
                    if g < h {
                        assert(keys_below(m, h).contains(he_key(m, g)));
                    }
                }
                if keys_below(m, h).contains(k) {
                    let g = choose|g: int| 0 <= g < h && m.usable(g) && #[trigger] he_key(m, g) == k;
                    assert(keys_below(m, j as int).contains(he_key(m, g)));
                }
                if m.usable(h) && he_key(m, h) == k {
                    assert(keys_below(m, j as int).contains(he_key(m, h)));
                }
            }
            if m.usable(h) {
                assert((w.0 != v && he_key(m, h) == k) <==> m.other_end(h, v) == Some(w));
                match m.other_end(h, v) {
                    Some(x) => {
                        if !prev.contains(x) {
                            assert(cur == prev.push(x));
                            assert(cur.contains(w) <==> (prev.contains(w) || w == x)) by {
                                if cur.contains(w) {
                                    let i = choose|i: int| 0 <= i < cur.len() && cur[i] == w;
                                    if i < prev.len() {
                                        assert(prev[i] == w);
                                    }
                                }
                                if prev.contains(w) {
                                    let i = choose|i: int| 0 <= i < prev.len() && prev[i] == w;
                                    assert(cur[i] == w);
                                }
                                if w == x {
                                    assert(cur[prev.len() as int] == w);
                                }
                            }
                        }
                    },
                    None => {},
                }
            }
        }
        if m.usable(h) {
            if let Some(x) = m.other_end(h, v) {
                if !prev.contains(x) {
                    assert(cur == prev.push(x));
                    assert forall|a: int, b: int| 0 <= a < b < cur.len() implies cur[a] != cur[b] by {
                        if b == prev.len() {
                            assert(prev.contains(cur[a]));
                        }
                    }
                }
            }
        }
    }
}

/// The neighbours of a live vertex `v` are exactly the vertices an edge of the mesh
/// joins it to, each listed once.
pub proof fn law_neighbors_are_edge_ends<P>(m: MeshView<P>, v: int)
    requires
        m.wf(),
        m.v_live(v),
    ensures
        m.neighbors(v).no_duplicates(),
        forall|w: VertexId|
            #[trigger] m.neighbors(v).contains(w) <==> (w.0 != v && edge_keys(m).contains(ordered(v as u32, w.0))),
{
    lemma_neighbor_scan(m, v, m.halfedges.len());
}

/// The flip of the edge `v0 -> v1` is ready: it lies between two proper triangles, its
/// half-edges run from `v0` to `v1` and back, and no other walkable half-edge joins
/// `v0` and `v1`.
pub open spec fn flip_ready<P>(m: MeshView<P>, v0: int, v1: int) -> bool {
    &&& m.flip_ok(v0, v1)
    &&& proper_flip(m, v0, v1)
    &&& m.halfedges[m.edge_first(v0, v1)].origin.0 == v0
    &&& m.halfedges[m.edge_second(v0, v1)].origin.0 == v1
    &&& m.target(m.edge_second(v0, v1)).0 == v0
    &&& forall|h: int|
        0 <= h < m.halfedges.len() && m.usable(h) && #[trigger] he_key(m, h) == ordered(v0 as u32, v1 as u32)
            ==> h == m.edge_first(v0, v1) || h == m.edge_second(v0, v1)
}

/// The corner opposite the edge `v0 -> v1` in the triangle of its half-edge.
pub open spec fn flip_corner_a<P>(m: MeshView<P>, v0: int, v1: int) -> int {
    let a = m.edge_first(v0, v1);
    m.halfedges[m.halfedges[m.halfedges[a].next.0 as int].next.0 as int].origin.0 as int
}

/// The corner opposite the edge `v0 -> v1` in the triangle of its twin.
pub open spec fn flip_corner_b<P>(m: MeshView<P>, v0: int, v1: int) -> int {
    let b = m.edge_second(v0, v1);
    m.halfedges[m.halfedges[m.halfedges[b].next.0 as int].next.0 as int].origin.0 as int
}

/// Flipping an edge and then flipping the new diagonal back restores the set of edges,
/// when the two opposite corners were not joined before and are different vertices.
#[verifier::spinoff_prover]
#[verifier::rlimit(60)]
pub proof fn law_flip_back_restores_edges<P>(m: MeshView<P>, v0: int, v1: int)
    requires
        m.wf(),
        m.valid(),
        flip_ready(m, v0, v1),
        flip_corner_a(m, v0, v1) != flip_corner_b(m, v0, v1),
        !edge_keys(m).contains(flip_diagonal(m, v0, v1)),
        flip_ready(m.flipped(v0, v1), flip_corner_b(m, v0, v1), flip_corner_a(m, v0, v1)),
    ensures
        edge_keys(m.flipped(v0, v1).flipped(flip_corner_b(m, v0, v1), flip_corner_a(m, v0, v1))) == edge_keys(m),
        m.flipped(v0, v1).flipped(flip_corner_b(m, v0, v1), flip_corner_a(m, v0, v1)).edge_list().len()
            == m.edge_list().len(),
{
    let a = m.edge_first(v0, v1);
    let b = m.edge_second(v0, v1);
    let h12 = m.halfedges[a].next;
    let h23 = m.halfedges[h12.0 as int].next;
    let h30 = m.halfedges[b].next;
    let h03 = m.halfedges[h30.0 as int].next;
    let c = flip_corner_a(m, v0, v1);
    let d = flip_corner_b(m, v0, v1);
    let six = seq![a, h12.0 as int, h23.0 as int, b, h30.0 as int, h03.0 as int];
    assert(m.he_live(six[0]) && m.he_live(six[1]) && m.he_live(six[2]));
    assert(m.he_live(six[3]) && m.he_live(six[4]) && m.he_live(six[5]));
    assert(six[0] != six[1] && six[0] != six[2] && six[0] != six[3] && six[0] != six[4] && six[0] != six[5]);
    assert(six[1] != six[2] && six[1] != six[3] && six[1] != six[4] && six[1] != six[5]);
    assert(six[2] != six[3] && six[2] != six[4] && six[2] != six[5]);
    assert(six[3] != six[4] && six[3] != six[5] && six[4] != six[5]);
    let ai = HalfEdgeId(a as u32);
    let bi = HalfEdgeId(b as u32);
    let fa = m.halfedges[a].face;
    let fb = m.halfedges[b].face;
    let oa = m.halfedges[h03.0 as int].origin;
    let ob = m.halfedges[h23.0 as int].origin;
    lemma_flip_links_values(m, v0, v1, ai, bi, h12, h23, h30, h03, fa, fb, oa, ob);
    lemma_flip_links_origins(m, v0, v1, ai, bi, h12, h23, h30, h03, fa, fb, oa, ob);
    law_flip_keeps_counts(m, v0, v1);
    crate::mesh::laws::law_flip_keeps_valid(m, v0, v1);
    lemma_first_to_target(m, v0, v1);
    let r = m.flipped(v0, v1);
    assert(r == m.flip_links(v0, v1, ai, bi, h12, h23, h30, h03, fa, fb, oa, ob));
    law_flip_replaces_edge(m, v0, v1);
    law_flip_replaces_edge(r, d, c);
    // The second flip works on the same two half-edges: `a` now runs d -> c, `b` back.
    let ea = r.edge_first(d, c);
    let eb = r.edge_second(d, c);
    lemma_find_edge_live(r, d, c);
    assert(r.he_live(a) && r.he_live(h23.0 as int) && r.he_live(b) && r.he_live(h03.0 as int));
    assert(r.halfedges[a].next == h23 && r.halfedges[b].next == h03);
    assert(r.halfedges[h23.0 as int].next == h30 && r.halfedges[h03.0 as int].next == h12);
    assert(r.halfedges[a].origin.0 == d && r.halfedges[b].origin.0 == c);
    assert(r.usable(a) && r.usable(b));
    assert(he_key(r, a) == ordered(d as u32, c as u32));
    assert(he_key(r, b) == ordered(d as u32, c as u32));
    assert(a == ea || a == eb);
    assert(b == ea || b == eb);
    assert(ea != eb) by {
        let six2 = seq![
            ea,
            r.halfedges[ea].next.0 as int,
            r.halfedges[r.halfedges[ea].next.0 as int].next.0 as int,
            eb,
            r.halfedges[eb].next.0 as int,
            r.halfedges[r.halfedges[eb].next.0 as int].next.0 as int,
        ];
        assert(six2[0] != six2[3]);
    }
    assert(ea == a && eb == b);
    assert(r.halfedges[h30.0 as int].origin == m.halfedges[h30.0 as int].origin);
    assert(r.halfedges[h12.0 as int].origin == m.halfedges[h12.0 as int].origin);
    assert(flip_diagonal(r, d, c) == ordered(v0 as u32, v1 as u32));
    let k01 = ordered(v0 as u32, v1 as u32);
    let k23 = flip_diagonal(m, v0, v1);
    assert(ordered(d as u32, c as u32) == k23);
    assert(edge_keys(m).contains(k01)) by {
        assert(m.usable(a));
        assert(keys_below(m, m.halfedges.len() as int).contains(he_key(m, a)));
    }
    assert(edge_keys(m).remove(k01).insert(k23).remove(k23).insert(k01) =~= edge_keys(m));
    lemma_edge_list_len(m);
    lemma_edge_list_len(m.flipped(v0, v1).flipped(d, c));
}

/// Face records and face fields agree: a live half-edge with a face lies on that live
/// face's loop, and every half-edge on a live face's loop names that face.
pub open spec fn faces_consistent<P>(m: MeshView<P>) -> bool {
    &&& forall|h: int|
        #[trigger] m.he_live(h) && m.halfedges[h].face is Some ==> m.f_live((m.halfedges[h].face->0).0 as int)
            && m.face_loop((m.halfedges[h].face->0).0 as int).contains(h)
    &&& forall|f: int, i: int|
        m.f_live(f) && 0 <= i < m.face_loop(f).len() ==> m.he_live(#[trigger] m.face_loop(f)[i])
            && m.halfedges[m.face_loop(f)[i]].face == Some(FaceId(f as u32))
}

/// The faces found among the first `j` half-edge slots are the faces of the live
/// half-edges there that leave `v`, each once.
proof fn lemma_face_scan<P>(m: MeshView<P>, v: int, j: nat)
    ensures
        m.face_scan(v, j).no_duplicates(),
        forall|f: FaceId|
            #[trigger] m.face_scan(v, j).contains(f) <==> exists|h: int|
                0 <= h < j && m.he_live(h) && m.halfedges[h].origin.0 == v && m.halfedges[h].face == Some(f),
    decreases j,
{
    if j > 0 {
        lemma_face_scan(m, v, (j - 1) as nat);
        let prev = m.face_scan(v, (j - 1) as nat);
        let cur = m.face_scan(v, j);
        let h = j - 1;
        assert forall|f: FaceId| #[trigger] cur.contains(f) <==> exists|g: int|
            0 <= g < j && m.he_live(g) && m.halfedges[g].origin.0 == v && m.halfedges[g].face == Some(f) by {
            if m.he_live(h) && m.halfedges[h].origin.0 == v && m.halfedges[h].face is Some {
                let x = m.halfedges[h].face->0;
                if !prev.contains(x) {
                    assert(cur == prev.push(x));
                    assert(cur.contains(f) <==> (prev.contains(f) || f == x)) by {
                        if cur.contains(f) {
                            let i = choose|i: int| 0 <= i < cur.len() && cur[i] == f;
                            if i < prev.len() {
                                assert(prev[i] == f);
                            }
                        }
                        if prev.contains(f) {
                            let i = choose|i: int| 0 <= i < prev.len() && prev[i] == f;
                            assert(cur[i] == f);
                        }
                        if f == x {
                            assert(cur[prev.len() as int] == f);
                        }
                    }
                }
            }
            if exists|g: int| 0 <= g < j && m.he_live(g) && m.halfedges[g].origin.0 == v && m.halfedges[g].face == Some(f) {
                let g = choose|g: int| 0 <= g < j && m.he_live(g) && m.halfedges[g].origin.0 == v && m.halfedges[g].face == Some(f);
                if g < h {
                    assert(prev.contains(f));
                }
            }
        }
        if m.he_live(h) && m.halfedges[h].origin.0 == v && m.halfedges[h].face is Some {
            let x = m.halfedges[h].face->0;
            if !prev.contains(x) {
                assert(cur == prev.push(x));
                assert forall|a: int, b: int| 0 <= a < b < cur.len() implies cur[a] != cur[b] by {
                    if b == prev.len() {
                        assert(prev.contains(cur[a]));
                    }
                }
            }
        }
    }
}

/// The faces around a live vertex `v` are exactly the live faces whose vertex list
/// holds `v`, each listed once, when face records and face fields agree.
pub proof fn law_vertex_faces_hold_the_vertex<P>(m: MeshView<P>, v: int)
    requires
        m.wf(),
        m.v_live(v),
        faces_consistent(m),
    ensures
        m.vertex_face_list(v).no_duplicates(),
        forall|f: FaceId|
            #[trigger] m.vertex_face_list(v).contains(f) <==> (m.f_live(f.0 as int) && m.face_verts(f.0 as int).contains(
                VertexId(v as u32),
            )),
{
    lemma_face_scan(m, v, m.halfedges.len());
    assert forall|f: FaceId| #[trigger] m.vertex_face_list(v).contains(f) <==> (m.f_live(f.0 as int) && m.face_verts(
        f.0 as int,
    ).contains(VertexId(v as u32))) by {
        let fi = f.0 as int;
        if m.vertex_face_list(v).contains(f) {
            let h = choose|h: int|
                0 <= h < m.halfedges.len() && m.he_live(h) && m.halfedges[h].origin.0 == v && m.halfedges[h].face
                    == Some(f);
            assert(m.f_live(fi) && m.face_loop(fi).contains(h));
            let i = choose|i: int| 0 <= i < m.face_loop(fi).len() && m.face_loop(fi)[i] == h;
            assert(m.face_verts(fi)[i] == m.halfedges[h].origin);
            assert(m.halfedges[h].origin == VertexId(v as u32));
        }
        if m.f_live(fi) && m.face_verts(fi).contains(VertexId(v as u32)) {
            let i = choose|i: int| 0 <= i < m.face_verts(fi).len() && m.face_verts(fi)[i] == VertexId(v as u32);
            let h = m.face_loop(fi)[i];
            assert(m.face_verts(fi)[i] == m.halfedges[h].origin);
            assert(m.he_live(h) && m.halfedges[h].face == Some(FaceId(fi as u32)));
            assert(FaceId(fi as u32) == f);
            assert(0 <= h < m.halfedges.len());
        }
    }
}

} // verus!
