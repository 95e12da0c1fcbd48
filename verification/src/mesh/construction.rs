//! What building a mesh from an indexed face set produces.
//!
//! The faces are read in order; face `k` with vertices `f[0..n]` contributes the
//! directed edges `f[i] -> f[(i + 1) % n]`, one half-edge each, numbered
//! consecutively over all faces ("events"). Half-edges on the same undirected edge
//! become twins.
use vstd::prelude::*;
use crate::mesh::halfedge::{Face, FaceId, HalfEdge, HalfEdgeId, MeshView, Vertex, VertexId, INVALID_ID, slot_or_invalid};

verus! {

/// Index after `i` around a cycle of length `n`.
pub open spec fn cyc_next(i: int, n: int) -> int {
    if i + 1 < n {
        i + 1
    } else {
        0
    }
}

/// Index before `i` around a cycle of length `n`.
pub open spec fn cyc_prev(i: int, n: int) -> int {
    if i == 0 {
        n - 1
    } else {
        i - 1
    }
}

/// The directed edges of one face, in order.
pub open spec fn face_events(f: Seq<u32>) -> Seq<(u32, u32)> {
    Seq::new(f.len(), |i: int| (f[i], f[cyc_next(i, f.len() as int)]))
}

/// The directed edges of all faces, in order.
pub open spec fn events(fs: Seq<Seq<u32>>) -> Seq<(u32, u32)>
    decreases fs.len(),
{
    if fs.len() == 0 {
        Seq::empty()
    } else {
        events(fs.drop_last()) + face_events(fs.last())
    }
}

/// The undirected edge of a directed edge.
pub open spec fn edge_key(e: (u32, u32)) -> (u32, u32) {
    if e.0 <= e.1 {
        (e.0, e.1)
    } else {
        (e.1, e.0)
    }
}

/// Index of the first event on undirected edge `k`, or `es.len()` if there is none.
pub open spec fn first_key(es: Seq<(u32, u32)>, k: (u32, u32)) -> int
    decreases es.len(),
{
    if es.len() == 0 {
        0
    } else {
        let p = first_key(es.drop_last(), k);
        if p < es.len() - 1 {
            p
        } else if edge_key(es.last()) == k {
            es.len() - 1
        } else {
            es.len() as int
        }
    }
}

/// Index of the last event on undirected edge `k`, or -1 if there is none.
pub open spec fn last_key(es: Seq<(u32, u32)>, k: (u32, u32)) -> int
    decreases es.len(),
{
    if es.len() == 0 {
        -1
    } else if edge_key(es.last()) == k {
        es.len() - 1
    } else {
        last_key(es.drop_last(), k)
    }
}

/// Event `e` can follow the events `prev`: either its undirected edge is new, or the
/// first half-edge on it runs the opposite way (starts where `e` ends).
pub open spec fn event_good(prev: Seq<(u32, u32)>, e: (u32, u32)) -> bool {
    let f = first_key(prev, edge_key(e));
    f == prev.len() || prev[f].0 == e.1
}

/// How reading a face set ends: all faces read, a face with fewer than three
/// vertices, or a half-edge that repeats the direction of the first one on its edge.
pub enum BuildOutcome {
    Built,
    Degenerate,
    NonManifold(u32, u32),
}

/// Scan the events `fe` of one face after the events `prev`.
pub open spec fn scan_face(prev: Seq<(u32, u32)>, fe: Seq<(u32, u32)>) -> BuildOutcome
    decreases fe.len(),
{
    if fe.len() == 0 {
        BuildOutcome::Built
    } else {
        match scan_face(prev, fe.drop_last()) {
            BuildOutcome::Built => if event_good(prev + fe.drop_last(), fe.last()) {
                BuildOutcome::Built
            } else {
                BuildOutcome::NonManifold(fe.last().0, fe.last().1)
            },
            other => other,
        }
    }
}

/// Scan all faces in order; the first problem met decides the outcome.
pub open spec fn scan(fs: Seq<Seq<u32>>) -> BuildOutcome
    decreases fs.len(),
{
    if fs.len() == 0 {
        BuildOutcome::Built
    } else {
        match scan(fs.drop_last()) {
            BuildOutcome::Built => if fs.last().len() < 3 {
                BuildOutcome::Degenerate
            } else {
                scan_face(events(fs.drop_last()), face_events(fs.last()))
            },
            other => other,
        }
    }
}

/// Every event is the first or the last on its undirected edge: no edge carries
/// three or more half-edges.
pub open spec fn two_per_edge(es: Seq<(u32, u32)>) -> bool {
    forall|j: int|
        #![trigger es[j]]
        0 <= j < es.len() ==> first_key(es, edge_key(es[j])) == j || last_key(es, edge_key(es[j]))
            == j
}

/// The twin given to event `j` after reading events `es`: the first half-edge on an
/// edge is paired with the last one, every later one with the first.
pub open spec fn built_twin(es: Seq<(u32, u32)>, j: int) -> Option<HalfEdgeId> {
    let k = edge_key(es[j]);
    let f = first_key(es, k);
    let l = last_key(es, k);
    if f == j {
        if l == j {
            None
        } else {
            Some(HalfEdgeId(l as u32))
        }
    } else {
        Some(HalfEdgeId(f as u32))
    }
}

/// Number of events of the first `k` faces: the id of face `k`'s first half-edge.
pub open spec fn face_base(fs: Seq<Seq<u32>>, k: int) -> int {
    events(fs.take(k)).len() as int
}

/// Next, prev and face of every event.
pub open spec fn links(fs: Seq<Seq<u32>>) -> Seq<(u32, u32, u32)>
    decreases fs.len(),
{
    if fs.len() == 0 {
        Seq::empty()
    } else {
        let before = links(fs.drop_last());
        let b = before.len() as int;
        let n = fs.last().len() as int;
        let k = fs.len() - 1;
        before + Seq::new(
            n as nat,
            |i: int| ((b + cyc_next(i, n)) as u32, (b + cyc_prev(i, n)) as u32, k as u32),
        )
    }
}

/// Index of the first event leaving vertex `v`, or `es.len()` if there is none.
pub open spec fn first_out(es: Seq<(u32, u32)>, v: int) -> int
    decreases es.len(),
{
    if es.len() == 0 {
        0
    } else {
        let p = first_out(es.drop_last(), v);
        if p < es.len() - 1 {
            p
        } else if es.last().0 == v {
            es.len() - 1
        } else {
            es.len() as int
        }
    }
}

/// Half-edge records for events `es`, of which the first `ls.len()` are linked into
/// their faces and the rest are not linked yet.
pub open spec fn partial_halfedges(es: Seq<(u32, u32)>, ls: Seq<(u32, u32, u32)>) -> Seq<HalfEdge> {
    Seq::new(
        es.len(),
        |j: int|
            HalfEdge {
                origin: VertexId(es[j].0),
                twin: built_twin(es, j),
                next: HalfEdgeId(if j < ls.len() { ls[j].0 } else { INVALID_ID }),
                prev: HalfEdgeId(if j < ls.len() { ls[j].1 } else { INVALID_ID }),
                face: if j < ls.len() { Some(FaceId(ls[j].2)) } else { None },
                is_sharp: false,
            },
    )
}

/// The half-edge records of the built mesh.
pub open spec fn built_halfedges(fs: Seq<Seq<u32>>) -> Seq<HalfEdge> {
    partial_halfedges(events(fs), links(fs))
}

/// Vertex records after events `es`: each vertex points at its first outgoing event.
pub open spec fn vertices_for<P>(positions: Seq<P>, es: Seq<(u32, u32)>) -> Seq<Vertex<P>> {
    Seq::new(
        positions.len(),
        |v: int|
            Vertex {
                position: positions[v],
                halfedge: if first_out(es, v) < es.len() {
                    Some(HalfEdgeId(first_out(es, v) as u32))
                } else {
                    None
                },
                is_boundary: false,
                flags: 0,
            },
    )
}

/// The vertex records of the built mesh, before boundary flags are computed.
pub open spec fn built_vertices<P>(positions: Seq<P>, fs: Seq<Seq<u32>>) -> Seq<Vertex<P>> {
    vertices_for(positions, events(fs))
}

/// Face records for the first `k` faces.
pub open spec fn faces_upto(fs: Seq<Seq<u32>>, k: int) -> Seq<Face> {
    Seq::new(k as nat, |kk: int| Face { halfedge: HalfEdgeId(face_base(fs, kk) as u32), material: 0 })
}

/// The face records of the built mesh.
pub open spec fn built_faces(fs: Seq<Seq<u32>>) -> Seq<Face> {
    faces_upto(fs, fs.len() as int)
}

/// The built mesh before boundary flags are computed.
pub open spec fn prebuilt_mesh<P>(positions: Seq<P>, fs: Seq<Seq<u32>>) -> MeshView<P> {
    MeshView {
        vertices: built_vertices(positions, fs),
        halfedges: built_halfedges(fs),
        faces: built_faces(fs),
        free_vertices: Seq::empty(),
        free_halfedges: Seq::empty(),
        free_faces: Seq::empty(),
    }
}

/// The mesh built from `positions` and faces `fs`, boundary flags included.
pub open spec fn built_mesh<P>(positions: Seq<P>, fs: Seq<Seq<u32>>) -> MeshView<P> {
    prebuilt_mesh(positions, fs).with_boundary_flags()
}

/// The face lists held by a slice of vectors.
pub open spec fn faces_of(face_indices: Seq<Vec<u32>>) -> Seq<Seq<u32>> {
    face_indices.map_values(|f: Vec<u32>| f@)
}


/// `first_key` finds the first event on an edge, or reports there is none.
pub proof fn lemma_first_key(es: Seq<(u32, u32)>, k: (u32, u32))
    ensures
        0 <= first_key(es, k) <= es.len(),
        first_key(es, k) < es.len() ==> edge_key(es[first_key(es, k)]) == k,
        forall|j: int| 0 <= j < first_key(es, k) ==> edge_key(#[trigger] es[j]) != k,
    decreases es.len(),
{
    if es.len() > 0 {
        lemma_first_key(es.drop_last(), k);
        assert forall|j: int| 0 <= j < first_key(es, k) implies edge_key(#[trigger] es[j]) != k by {
            if j < es.len() - 1 {
                assert(es[j] == es.drop_last()[j]);
            }
        }
    }
}

/// `last_key` finds the last event on an edge, or reports there is none.
pub proof fn lemma_last_key(es: Seq<(u32, u32)>, k: (u32, u32))
    ensures
        -1 <= last_key(es, k) < es.len(),
        last_key(es, k) >= 0 ==> edge_key(es[last_key(es, k)]) == k,
        forall|j: int| last_key(es, k) < j < es.len() ==> edge_key(#[trigger] es[j]) != k,
    decreases es.len(),
{
    if es.len() > 0 {
        lemma_last_key(es.drop_last(), k);
        assert forall|j: int| last_key(es, k) < j < es.len() implies edge_key(#[trigger] es[j]) != k by {
            if j < es.len() - 1 {
                assert(es[j] == es.drop_last()[j]);
            }
        }
    }
}

/// The first event on an edge comes no later than the last one.
pub proof fn lemma_first_le_last(es: Seq<(u32, u32)>, j: int)
    requires
        0 <= j < es.len(),
    ensures
        first_key(es, edge_key(es[j])) <= j <= last_key(es, edge_key(es[j])),
{
    lemma_first_key(es, edge_key(es[j]));
    lemma_last_key(es, edge_key(es[j]));
}

/// `first_out` finds the first event leaving a vertex, or reports there is none.
pub proof fn lemma_first_out(es: Seq<(u32, u32)>, v: int)
    ensures
        0 <= first_out(es, v) <= es.len(),
        first_out(es, v) < es.len() ==> es[first_out(es, v)].0 == v,
        forall|j: int| 0 <= j < first_out(es, v) ==> (#[trigger] es[j]).0 != v,
    decreases es.len(),
{
    if es.len() > 0 {
        lemma_first_out(es.drop_last(), v);
        assert forall|j: int| 0 <= j < first_out(es, v) implies (#[trigger] es[j]).0 != v by {
            if j < es.len() - 1 {
                assert(es[j] == es.drop_last()[j]);
            }
        }
    }
}

/// Extending the events by one: the three searches change only as the new event dictates.
pub proof fn lemma_push_searches(es: Seq<(u32, u32)>, e: (u32, u32), k: (u32, u32), v: int)
    ensures
        first_key(es.push(e), k) == (if first_key(es, k) < es.len() {
            first_key(es, k)
        } else if edge_key(e) == k {
            es.len() as int
        } else {
            es.len() + 1int
        }),
        last_key(es.push(e), k) == (if edge_key(e) == k {
            es.len() as int
        } else {
            last_key(es, k)
        }),
        first_out(es.push(e), v) == (if first_out(es, v) < es.len() {
            first_out(es, v)
        } else if e.0 == v {
            es.len() as int
        } else {
            es.len() + 1int
        }),
{
    assert(es.push(e).drop_last() =~= es);
    lemma_first_key(es, k);
    lemma_first_out(es, v);
}

/// The events and links of the first `k + 1` faces extend those of the first `k`.
pub proof fn lemma_take_succ(fs: Seq<Seq<u32>>, k: int)
    requires
        0 <= k < fs.len(),
    ensures
        events(fs.take(k + 1)) == events(fs.take(k)) + face_events(fs[k]),
        links(fs.take(k + 1)) == links(fs.take(k)) + Seq::new(
            fs[k].len(),
            |i: int|
                (
                    (events(fs.take(k)).len() + cyc_next(i, fs[k].len() as int)) as u32,
                    (events(fs.take(k)).len() + cyc_prev(i, fs[k].len() as int)) as u32,
                    k as u32,
                ),
        ),
{
    assert(fs.take(k + 1).drop_last() =~= fs.take(k));
    lemma_links_len(fs.take(k));
}

/// There are as many link records as events.
pub proof fn lemma_links_len(fs: Seq<Seq<u32>>)
    ensures
        links(fs).len() == events(fs).len(),
    decreases fs.len(),
{
    if fs.len() > 0 {
        lemma_links_len(fs.drop_last());
    }
}


/// Code of the undirected edge `(a, b)`, `a <= b`, as one map key.
pub open spec fn edge_code(a: u32, b: u32) -> u64 {
    ((a as u64) << 32u64) | (b as u64)
}

/// Distinct edges have distinct codes.
pub proof fn lemma_edge_code_injective(a: u32, b: u32, c: u32, d: u32)
    ensures
        edge_code(a, b) == edge_code(c, d) ==> a == c && b == d,
{
    assert((((a as u64) << 32u64) | (b as u64)) == (((c as u64) << 32u64) | (d as u64)) ==> a == c
        && b == d) by (bit_vector);
}

/// The edge map holds, for each undirected edge met in `es`, the first half-edge on it.
pub open spec fn map_inv(m: Map<u64, HalfEdgeId>, es: Seq<(u32, u32)>) -> bool {
    forall|a: u32, b: u32|
        a <= b ==> {
            &&& (#[trigger] m.contains_key(edge_code(a, b))) == (first_key(es, (a, b)) < es.len())
            &&& m.contains_key(edge_code(a, b)) ==> m[edge_code(a, b)] == HalfEdgeId(
                first_key(es, (a, b)) as u32,
            )
        }
}

/// A new edge: the half-edge records grow by one unlinked record with no twin.
pub proof fn lemma_step_new_edge(es: Seq<(u32, u32)>, ls: Seq<(u32, u32, u32)>, e: (u32, u32))
    requires
        ls.len() <= es.len(),
        first_key(es, edge_key(e)) == es.len(),
    ensures
        partial_halfedges(es.push(e), ls) =~= partial_halfedges(es, ls).push(
            HalfEdge {
                origin: VertexId(e.0),
                twin: None,
                next: HalfEdgeId(INVALID_ID),
                prev: HalfEdgeId(INVALID_ID),
                face: None,
                is_sharp: false,
            },
        ),
{
    let k = edge_key(e);
    lemma_first_key(es, k);
    assert forall|j: int| 0 <= j < es.len() implies built_twin(es.push(e), j) == built_twin(es, j) by {
        let kj = edge_key(es[j]);
        lemma_push_searches(es, e, kj, 0);
        lemma_first_le_last(es, j);
        assert(es.push(e)[j] == es[j]);
        if kj == k {
            assert(false);
        }
    }
    lemma_push_searches(es, e, k, 0);
    lemma_last_key(es, k);
}

/// A second half-edge on a known edge: it is paired with the first one.
pub proof fn lemma_step_old_edge(es: Seq<(u32, u32)>, ls: Seq<(u32, u32, u32)>, e: (u32, u32))
    requires
        ls.len() <= es.len(),
        first_key(es, edge_key(e)) < es.len(),
    ensures
        ({
            let f = first_key(es, edge_key(e));
            let p = partial_halfedges(es, ls).push(
                HalfEdge {
                    origin: VertexId(e.0),
                    twin: None,
                    next: HalfEdgeId(INVALID_ID),
                    prev: HalfEdgeId(INVALID_ID),
                    face: None,
                    is_sharp: false,
                },
            );
            let p1 = p.update(es.len() as int, HalfEdge { twin: Some(HalfEdgeId(f as u32)), ..p[es.len() as int] });
            let p2 = p1.update(f, HalfEdge { twin: Some(HalfEdgeId(es.len() as u32)), ..p1[f] });
            partial_halfedges(es.push(e), ls) =~= p2
        }),
{
    let k = edge_key(e);
    let f = first_key(es, k);
    lemma_first_key(es, k);
    lemma_push_searches(es, e, k, 0);
    assert forall|j: int| 0 <= j < es.len() && j != f implies built_twin(es.push(e), j) == built_twin(es, j) by {
        let kj = edge_key(es[j]);
        lemma_push_searches(es, e, kj, 0);
        lemma_first_le_last(es, j);
        assert(es.push(e)[j] == es[j]);
    }
    assert(es.push(e)[f] == es[f]);
}

/// The vertex records after one more event.
pub proof fn lemma_step_vertices<P>(positions: Seq<P>, es: Seq<(u32, u32)>, e: (u32, u32))
    requires
        (e.0 as int) < positions.len(),
    ensures
        ({
            let vs = vertices_for(positions, es);
            let v = e.0 as int;
            vertices_for(positions, es.push(e)) =~= if vs[v].halfedge is None {
                vs.update(v, Vertex { halfedge: Some(HalfEdgeId(es.len() as u32)), ..vs[v] })
            } else {
                vs
            }
        }),
{
    let v = e.0 as int;
    lemma_first_out(es, v);
    assert forall|w: int| 0 <= w < positions.len() implies first_out(es.push(e), w) == (if first_out(es, w) < es.len() {
            first_out(es, w)
        } else if e.0 == w {
            es.len() as int
        } else {
            es.len() + 1int
        }) by {
        lemma_push_searches(es, e, (0u32, 0u32), w);
    }
}

/// Linking the next unlinked half-edge into its face.
pub proof fn lemma_step_link(es: Seq<(u32, u32)>, ls: Seq<(u32, u32, u32)>, x: (u32, u32, u32))
    requires
        ls.len() < es.len(),
    ensures
        ({
            let p = partial_halfedges(es, ls);
            let j = ls.len() as int;
            partial_halfedges(es, ls.push(x)) =~= p.update(
                j,
                HalfEdge { next: HalfEdgeId(x.0), prev: HalfEdgeId(x.1), face: Some(FaceId(x.2)), ..p[j] },
            )
        }),
{
}

/// A scan that has stopped stays stopped as more faces follow.
pub proof fn lemma_scan_prefix(fs: Seq<Seq<u32>>, k: int)
    requires
        0 <= k <= fs.len(),
        scan(fs.take(k)) != BuildOutcome::Built,
    ensures
        scan(fs) == scan(fs.take(k)),
    decreases fs.len() - k,
{
    if k < fs.len() {
        assert(fs.take(k + 1).drop_last() =~= fs.take(k));
        lemma_scan_prefix(fs, k + 1);
    } else {
        assert(fs.take(k) =~= fs);
    }
}

/// A face scan that has stopped stays stopped as more events follow.
pub proof fn lemma_scan_face_prefix(prev: Seq<(u32, u32)>, fe: Seq<(u32, u32)>, i: int)
    requires
        0 <= i <= fe.len(),
        scan_face(prev, fe.take(i)) != BuildOutcome::Built,
    ensures
        scan_face(prev, fe) == scan_face(prev, fe.take(i)),
    decreases fe.len() - i,
{
    if i < fe.len() {
        assert(fe.take(i + 1).drop_last() =~= fe.take(i));
        lemma_scan_face_prefix(prev, fe, i + 1);
    } else {
        assert(fe.take(i) =~= fe);
    }
}

/// Link record `j` (a separate name, so that quantifiers over it do not chain).
pub open spec fn link_at(fs: Seq<Seq<u32>>, j: int) -> (u32, u32, u32) {
    links(fs)[j]
}

/// Every link points inside the events, and the successor's predecessor is the half-edge itself.
pub proof fn lemma_links_cycle(fs: Seq<Seq<u32>>)
    requires
        events(fs).len() < INVALID_ID,
        fs.len() < INVALID_ID,
    ensures
        forall|j: int|
            #![trigger link_at(fs, j)]
            0 <= j < links(fs).len() ==> {
                &&& (link_at(fs, j).0 as int) < links(fs).len()
                &&& (link_at(fs, j).1 as int) < links(fs).len()
                &&& (link_at(fs, j).2 as int) < fs.len()
                &&& links(fs)[link_at(fs, j).0 as int].1 == j
            },
    decreases fs.len(),
{
    lemma_links_len(fs);
    if fs.len() > 0 {
        let before = links(fs.drop_last());
        lemma_links_len(fs.drop_last());
        assert(events(fs.drop_last()).len() <= events(fs).len());
        lemma_links_cycle(fs.drop_last());
        let ls = links(fs);
        let b = before.len() as int;
        let n = fs.last().len() as int;
        assert(events(fs).len() == b + n);
        assert(ls.len() == b + n);
        assert forall|j: int| #![trigger link_at(fs, j)] 0 <= j < ls.len() implies {
            &&& (ls[j].0 as int) < ls.len()
            &&& (ls[j].1 as int) < ls.len()
            &&& (ls[j].2 as int) < fs.len()
            &&& ls[ls[j].0 as int].1 == j
        } by {
            if j < b {
                assert(ls[j] == before[j]);
                assert(before[j] == link_at(fs.drop_last(), j));
                assert(ls[before[j].0 as int] == before[before[j].0 as int]);
            } else {
                let i = j - b;
                let nx = b + cyc_next(i, n);
                assert(ls[j] == ((b + cyc_next(i, n)) as u32, (b + cyc_prev(i, n)) as u32, (fs.len() - 1) as u32));
                assert(ls[j].0 as int == nx);
                assert(ls[nx].1 == (b + cyc_prev(cyc_next(i, n), n)) as u32);
            }
        }
    }
}


/// A completed scan saw only faces with three or more vertices.
pub proof fn lemma_scan_built_faces(fs: Seq<Seq<u32>>)
    requires
        scan(fs) == BuildOutcome::Built,
    ensures
        forall|k: int| 0 <= k < fs.len() ==> (#[trigger] fs[k]).len() >= 3,
    decreases fs.len(),
{
    if fs.len() > 0 {
        lemma_scan_built_faces(fs.drop_last());
        assert forall|k: int| 0 <= k < fs.len() implies (#[trigger] fs[k]).len() >= 3 by {
            if k < fs.len() - 1 {
                assert(fs[k] == fs.drop_last()[k]);
            }
        }
    }
}

/// The events of a prefix of the faces, plus the next face, fit inside all events.
pub proof fn lemma_events_take_len(fs: Seq<Seq<u32>>, k: int)
    requires
        0 <= k <= fs.len(),
    ensures
        events(fs.take(k)).len() <= events(fs).len(),
        k < fs.len() ==> events(fs.take(k)).len() + fs[k].len() <= events(fs).len(),
    decreases fs.len() - k,
{
    if k < fs.len() {
        lemma_take_succ(fs, k);
        lemma_events_take_len(fs, k + 1);
    } else {
        assert(fs.take(k) =~= fs);
    }
}

/// Every event starts at a vertex named in some face.
pub proof fn lemma_events_below(fs: Seq<Seq<u32>>, n: int)
    requires
        indices_below(fs, n),
    ensures
        forall|j: int| 0 <= j < events(fs).len() ==> ((#[trigger] events(fs)[j]).0 as int) < n,
    decreases fs.len(),
{
    if fs.len() > 0 {
        let d = fs.drop_last();
        assert(indices_below(d, n)) by {
            assert forall|k: int, i: int| 0 <= k < d.len() && 0 <= i < d[k].len() implies (#[trigger] d[k][i]) < n by {
                assert(d[k] == fs[k]);
            }
        }
        lemma_events_below(d, n);
        assert forall|j: int| 0 <= j < events(fs).len() implies ((#[trigger] events(fs)[j]).0 as int) < n by {
            let b = events(d).len() as int;
            if j < b {
                assert(events(fs)[j] == events(d)[j]);
            } else {
                let f = fs.last();
                assert(events(fs)[j] == face_events(f)[j - b]);
                assert(f[j - b] == fs[fs.len() - 1][j - b]);
            }
        }
    }
}

/// The built mesh, before its boundary flags, is well-formed.
pub proof fn lemma_prebuilt_wf<P>(positions: Seq<P>, fs: Seq<Seq<u32>>)
    requires
        scan(fs) == BuildOutcome::Built,
        positions.len() < INVALID_ID,
        fs.len() < INVALID_ID,
        events(fs).len() < INVALID_ID,
        indices_below(fs, positions.len() as int),
    ensures
        prebuilt_mesh(positions, fs).wf(),
{
    let m = prebuilt_mesh(positions, fs);
    let es = events(fs);
    let ls = links(fs);
    lemma_links_len(fs);
    lemma_links_cycle(fs);
    lemma_events_below(fs, positions.len() as int);
    lemma_scan_built_faces(fs);
    assert forall|j: int| #![trigger m.halfedges[j]] 0 <= j < es.len() implies {
        &&& m.he_refs_ok(j)
        &&& m.halfedges[j].origin.0 < m.vertices.len()
        &&& m.halfedges[j].next.0 < m.halfedges.len()
        &&& m.halfedges[j].prev.0 < m.halfedges.len()
    } by {
        assert(ls[j] == link_at(fs, j));
        lemma_first_le_last(es, j);
        lemma_first_key(es, edge_key(es[j]));
        lemma_last_key(es, edge_key(es[j]));
    }
    assert forall|v: int| 0 <= v < m.vertices.len() implies ((#[trigger] m.vertices[v]).halfedge matches Some(h) ==> h.0 < m.halfedges.len()) by {
        lemma_first_out(es, v);
    }
    assert forall|k: int| 0 <= k < m.faces.len() implies slot_or_invalid((#[trigger] m.faces[k]).halfedge.0, m.halfedges.len()) by {
        lemma_events_take_len(fs, k);
        assert(fs[k].len() >= 3);
    }
}

/// In the built mesh, half-edge `j` passes the link and twin checks exactly when it is
/// the first or the last half-edge on its edge.
pub proof fn lemma_prebuilt_he_valid<P>(positions: Seq<P>, fs: Seq<Seq<u32>>, j: int)
    requires
        events(fs).len() < INVALID_ID,
        fs.len() < INVALID_ID,
        0 <= j < events(fs).len(),
        forall|x: int|
            #![trigger link_at(fs, x)]
            0 <= x < links(fs).len() ==> {
                &&& (link_at(fs, x).0 as int) < links(fs).len()
                &&& (link_at(fs, x).1 as int) < links(fs).len()
                &&& (link_at(fs, x).2 as int) < fs.len()
                &&& links(fs)[link_at(fs, x).0 as int].1 == x
            },
        links(fs).len() == events(fs).len(),
    ensures
        prebuilt_mesh(positions, fs).he_valid(j) <==> (first_key(events(fs), edge_key(events(fs)[j])) == j
            || last_key(events(fs), edge_key(events(fs)[j])) == j),
{
    let m = prebuilt_mesh(positions, fs);
    let es = events(fs);
    let ls = links(fs);
    assert(ls[j] == link_at(fs, j));
    let k = edge_key(es[j]);
    let f = first_key(es, k);
    let l = last_key(es, k);
    lemma_first_le_last(es, j);
    lemma_first_key(es, k);
    lemma_last_key(es, k);
    if f != j {
        assert(edge_key(es[f]) == k);
        assert(m.halfedges[f].twin == built_twin(es, f));
    }
    if f == j && l != j {
        assert(edge_key(es[l]) == k);
        assert(m.halfedges[l].twin == built_twin(es, l));
    }
}

/// The built mesh passes the link and twin checks exactly when no edge carries three
/// or more half-edges.
pub proof fn lemma_prebuilt_valid<P>(positions: Seq<P>, fs: Seq<Seq<u32>>)
    requires
        events(fs).len() < INVALID_ID,
        fs.len() < INVALID_ID,
    ensures
        prebuilt_mesh(positions, fs).valid() <==> two_per_edge(events(fs)),
{
    let m = prebuilt_mesh(positions, fs);
    let es = events(fs);
    lemma_links_len(fs);
    lemma_links_cycle(fs);
    if two_per_edge(es) {
        assert forall|j: int| #![trigger m.halfedges[j]] m.he_live(j) implies m.he_valid(j) by {
            lemma_prebuilt_he_valid(positions, fs, j);
            assert(es[j] == es[j]);
        }
    }
    if m.valid() {
        assert forall|j: int| #![trigger es[j]] 0 <= j < es.len() implies first_key(es, edge_key(es[j])) == j || last_key(es, edge_key(es[j])) == j by {
            lemma_prebuilt_he_valid(positions, fs, j);
            assert(m.he_live(j));
            assert(m.halfedges[j] == m.halfedges[j]);
        }
    }
}


/// The edge map after an event on an edge already met: unchanged.
pub proof fn lemma_map_step_old(m: Map<u64, HalfEdgeId>, es: Seq<(u32, u32)>, e: (u32, u32))
    requires
        map_inv(m, es),
        first_key(es, edge_key(e)) < es.len(),
    ensures
        map_inv(m, es.push(e)),
{
    assert forall|a: u32, b: u32| a <= b implies {
        &&& (#[trigger] m.contains_key(edge_code(a, b))) == (first_key(es.push(e), (a, b)) < es.push(e).len())
        &&& m.contains_key(edge_code(a, b)) ==> m[edge_code(a, b)] == HalfEdgeId(first_key(es.push(e), (a, b)) as u32)
    } by {
        lemma_push_searches(es, e, (a, b), 0);
        lemma_first_key(es, (a, b));
    }
}

/// The edge map after an event on a new edge: the edge maps to the new half-edge.
pub proof fn lemma_map_step_new(m: Map<u64, HalfEdgeId>, es: Seq<(u32, u32)>, e: (u32, u32))
    requires
        map_inv(m, es),
        first_key(es, edge_key(e)) == es.len(),
        es.len() < 0xffff_ffff,
    ensures
        map_inv(m.insert(edge_code(edge_key(e).0, edge_key(e).1), HalfEdgeId(es.len() as u32)), es.push(e)),
{
    let k = edge_key(e);
    let m2 = m.insert(edge_code(k.0, k.1), HalfEdgeId(es.len() as u32));
    assert forall|a: u32, b: u32| a <= b implies {
        &&& (#[trigger] m2.contains_key(edge_code(a, b))) == (first_key(es.push(e), (a, b)) < es.push(e).len())
        &&& m2.contains_key(edge_code(a, b)) ==> m2[edge_code(a, b)] == HalfEdgeId(first_key(es.push(e), (a, b)) as u32)
    } by {
        lemma_push_searches(es, e, (a, b), 0);
        lemma_first_key(es, (a, b));
        lemma_edge_code_injective(a, b, k.0, k.1);
    }
}

/// A good event keeps the scan of the current face going.
pub proof fn lemma_scan_face_good(e0: Seq<(u32, u32)>, fe: Seq<(u32, u32)>, i: int)
    requires
        0 <= i < fe.len(),
        scan_face(e0, fe.take(i)) == BuildOutcome::Built,
        event_good(e0 + fe.take(i), fe[i]),
    ensures
        scan_face(e0, fe.take(i + 1)) == BuildOutcome::Built,
{
    assert(fe.take(i + 1).drop_last() =~= fe.take(i));
}

/// A bad event in face `k` decides the outcome of the whole scan.
pub proof fn lemma_scan_bad_event(fs: Seq<Seq<u32>>, k: int, i: int)
    requires
        0 <= k < fs.len(),
        fs[k].len() >= 3,
        scan(fs.take(k)) == BuildOutcome::Built,
        0 <= i < fs[k].len(),
        scan_face(events(fs.take(k)), face_events(fs[k]).take(i)) == BuildOutcome::Built,
        !event_good(events(fs.take(k)) + face_events(fs[k]).take(i), face_events(fs[k])[i]),
    ensures
        scan(fs) == BuildOutcome::NonManifold(face_events(fs[k])[i].0, face_events(fs[k])[i].1),
{
    let fe = face_events(fs[k]);
    assert(fe.take(i + 1).drop_last() =~= fe.take(i));
    assert(scan_face(events(fs.take(k)), fe.take(i + 1)) == BuildOutcome::NonManifold(fe[i].0, fe[i].1));
    lemma_scan_face_prefix(events(fs.take(k)), fe, i + 1);
    assert(fs.take(k + 1).drop_last() =~= fs.take(k));
    assert(fs.take(k + 1).last() == fs[k]);
    lemma_scan_prefix(fs, k + 1);
}

/// A face whose events all pass completes the scan of the first `k + 1` faces.
pub proof fn lemma_scan_face_done(fs: Seq<Seq<u32>>, k: int)
    requires
        0 <= k < fs.len(),
        fs[k].len() >= 3,
        scan(fs.take(k)) == BuildOutcome::Built,
        scan_face(events(fs.take(k)), face_events(fs[k]).take(fs[k].len() as int)) == BuildOutcome::Built,
    ensures
        scan(fs.take(k + 1)) == BuildOutcome::Built,
{
    assert(face_events(fs[k]).take(fs[k].len() as int) =~= face_events(fs[k]));
    assert(fs.take(k + 1).drop_last() =~= fs.take(k));
    assert(fs.take(k + 1).last() == fs[k]);
}

/// A short face in position `k` decides the outcome of the whole scan.
pub proof fn lemma_scan_short_face(fs: Seq<Seq<u32>>, k: int)
    requires
        0 <= k < fs.len(),
        fs[k].len() < 3,
        scan(fs.take(k)) == BuildOutcome::Built,
    ensures
        scan(fs) == BuildOutcome::Degenerate,
{
    assert(fs.take(k + 1).drop_last() =~= fs.take(k));
    assert(fs.take(k + 1).last() == fs[k]);
    lemma_scan_prefix(fs, k + 1);
}

/// Every vertex index in every face is below `n`.
pub open spec fn indices_below(fs: Seq<Seq<u32>>, n: int) -> bool {
    forall|k: int, i: int| 0 <= k < fs.len() && 0 <= i < fs[k].len() ==> (#[trigger] fs[k][i]) < n
}

} // verus!
