//! The text of a `.obj` file that is made of integers: the header and the face
//! records. Coordinates are written by the caller.
use vstd::prelude::*;
use crate::mesh::halfedge::{HalfEdgeMesh, MeshView, VertexId};
use crate::utils::text::{decimal, push_decimal};

verus! {

/// One corner of a face record, with its 1-based index `idx`: ` idx`, ` idx/idx`,
/// ` idx//idx` or ` idx/idx/idx`, after what the file holds besides positions.
pub open spec fn corner_text(idx: nat, has_normals: bool, has_uvs: bool) -> Seq<char> {
    let d = decimal(idx);
    seq![' '] + d + if has_normals && has_uvs {
        seq!['/'] + d + seq!['/'] + d
    } else if has_uvs {
        seq!['/'] + d
    } else if has_normals {
        seq!['/', '/'] + d
    } else {
        Seq::empty()
    }
}

/// The corners of a face record, in order.
pub open spec fn corners_text(vs: Seq<VertexId>, has_normals: bool, has_uvs: bool) -> Seq<char>
    decreases vs.len(),
{
    if vs.len() == 0 {
        Seq::empty()
    } else {
        corners_text(vs.drop_last(), has_normals, has_uvs) + corner_text(
            (vs.last().0 + 1) as nat,
            has_normals,
            has_uvs,
        )
    }
}

/// The face record of a face with vertices `vs`, with its line break.
pub open spec fn face_text(vs: Seq<VertexId>, has_normals: bool, has_uvs: bool) -> Seq<char> {
    seq!['f'] + corners_text(vs, has_normals, has_uvs) + seq!['\n']
}

impl<P> MeshView<P> {
    /// The position of vertex `v` among the live vertices in id order (0-based): the
    /// number of live vertices with a smaller id. The file lists positions in that
    /// order, so a face names vertex `v` as this number plus one.
    pub open spec fn vertex_rank(self, v: int) -> nat {
        Self::ids_below(|x: int| self.v_live(x), v as nat).len()
    }

    /// The vertices `vs` renumbered by their rank among the live vertices.
    pub open spec fn ranked(self, vs: Seq<VertexId>) -> Seq<VertexId> {
        vs.map_values(|v: VertexId| VertexId(self.vertex_rank(v.0 as int) as u32))
    }

    /// The face records of faces `fs`, in order.
    pub open spec fn faces_text(self, fs: Seq<int>, has_normals: bool, has_uvs: bool) -> Seq<char>
        decreases fs.len(),
    {
        if fs.len() == 0 {
            Seq::empty()
        } else {
            self.faces_text(fs.drop_last(), has_normals, has_uvs) + face_text(
                self.ranked(self.face_verts(fs.last())),
                has_normals,
                has_uvs,
            )
        }
    }

    /// The face section of the file: a blank line, then the record of every live face
    /// in id order, naming each vertex by its place among the live vertices.
    pub open spec fn face_section(self, has_normals: bool, has_uvs: bool) -> Seq<char> {
        seq!['\n'] + self.faces_text(self.live_face_ids(), has_normals, has_uvs)
    }
}

/// The header of the file: a title line, the vertex and face counts, a blank line.
pub open spec fn header_text(vertex_count: nat, face_count: nat) -> Seq<char> {
    "# TopoFlow exported OBJ\n"@ + "# Vertices: "@ + decimal(vertex_count) + "\n"@ + "# Faces: "@
        + decimal(face_count) + "\n"@ + "\n"@
}

proof fn lemma_next_walk_live<P>(m: MeshView<P>, s: int, cur: int, fuel: nat)
    ensures
        forall|i: int| 0 <= i < m.next_walk(s, cur, fuel).len() ==> m.he_live(
            #[trigger] m.next_walk(s, cur, fuel)[i],
        ),
    decreases fuel,
{
    if fuel > 0 && m.he_live(cur) {
        let n = m.halfedges[cur].next.0 as int;
        if n != s {
            lemma_next_walk_live(m, s, n, (fuel - 1) as nat);
            let rest = m.next_walk(s, n, (fuel - 1) as nat);
            assert forall|i: int| 0 <= i < m.next_walk(s, cur, fuel).len() implies m.he_live(
                #[trigger] m.next_walk(s, cur, fuel)[i],
            ) by {
                if i > 0 {
                    assert(m.next_walk(s, cur, fuel)[i] == rest[i - 1]);
                }
            }
        }
    }
}

/// The vertices of a face on a well-formed mesh are vertex slots.
pub proof fn lemma_face_verts_in_range<P>(m: MeshView<P>, f: int)
    requires
        m.wf(),
    ensures
        forall|i: int| 0 <= i < m.face_verts(f).len() ==> (#[trigger] m.face_verts(f)[i]).0 < m.vertices.len(),
{
    if m.f_live(f) {
        let s = m.faces[f].halfedge.0 as int;
        lemma_next_walk_live(m, s, s, m.walk_fuel());
        let hs = m.face_loop(f);
        assert forall|i: int| 0 <= i < m.face_verts(f).len() implies (#[trigger] m.face_verts(f)[i]).0
            < m.vertices.len() by {
            assert(m.he_live(hs[i]));
            assert(m.halfedges[hs[i]].origin.0 < m.vertices.len());
        }
    }
}

fn push_corner(out: &mut String, idx: u32, has_normals: bool, has_uvs: bool)
    ensures
        final(out)@ == old(out)@ + corner_text(idx as nat, has_normals, has_uvs),
{
    proof {
        reveal_strlit(" ");
        reveal_strlit("/");
        reveal_strlit("//");
    }
    let ghost d = decimal(idx as nat);
    out.append(" ");
    push_decimal(out, idx);
    if has_normals && has_uvs {
        out.append("/");
        push_decimal(out, idx);
        out.append("/");
        push_decimal(out, idx);
        assert(final(out)@ =~= old(out)@ + corner_text(idx as nat, has_normals, has_uvs));
    } else if has_uvs {
        out.append("/");
        push_decimal(out, idx);
        assert(final(out)@ =~= old(out)@ + corner_text(idx as nat, has_normals, has_uvs));
    } else if has_normals {
        out.append("//");
        push_decimal(out, idx);
        assert(final(out)@ =~= old(out)@ + corner_text(idx as nat, has_normals, has_uvs));
    } else {
        assert(final(out)@ =~= old(out)@ + corner_text(idx as nat, has_normals, has_uvs));
    }
}

proof fn lemma_ids_below_len<P>(m: MeshView<P>, n: nat)
    ensures
        MeshView::<P>::ids_below(|x: int| m.v_live(x), n).len() <= n,
    decreases n,
{
    if n > 0 {
        lemma_ids_below_len(m, (n - 1) as nat);
    }
}

/// The rank of every vertex slot among the live vertices.
fn vertex_ranks<P>(mesh: &HalfEdgeMesh<P>) -> (r: Vec<u32>)
    requires
        mesh.wf(),
    ensures
        r@.len() == mesh@.vertices.len(),
        forall|x: int| 0 <= x < r@.len() ==> #[trigger] r@[x] as nat == mesh@.vertex_rank(x) && r@[x] < u32::MAX,
{
    let ghost m = mesh@;
    let n = mesh.vertex_slots();
    let mut r: Vec<u32> = Vec::new();
    let mut count: u32 = 0;
    let mut i: usize = 0;
    while i < n
        invariant
            i <= n,
            n == m.vertices.len(),
            m == mesh@,
            mesh.wf(),
            r@.len() == i,
            count as nat == m.vertex_rank(i as int),
            count <= i,
            forall|x: int| 0 <= x < r@.len() ==> #[trigger] r@[x] as nat == m.vertex_rank(x) && r@[x] < u32::MAX,
        decreases n - i,
    {
        r.push(count);
        if mesh.vertex(VertexId(i as u32)).is_some() {
            count = count + 1;
        }
        proof {
            assert(MeshView::<P>::ids_below(|x: int| m.v_live(x), (i + 1) as nat) == MeshView::<P>::ids_below(
                |x: int| m.v_live(x),
                i as nat,
            ) + if m.v_live(i as int) {
                seq![i as int]
            } else {
                Seq::empty()
            });
        }
        i = i + 1;
    }
    r
}

/// Writer of Wavefront `.obj` files.
pub struct ObjExporter;

impl ObjExporter {
    /// The face record of a face with vertices `verts` (1-based in the text), with
    /// its line break.
    pub fn face_record(verts: &[VertexId], has_normals: bool, has_uvs: bool) -> (s: String)
        requires
            forall|i: int| 0 <= i < verts@.len() ==> (#[trigger] verts@[i]).0 < u32::MAX,
        ensures
            s@ == face_text(verts@, has_normals, has_uvs),
    {
        proof {
            reveal_strlit("f");
            reveal_strlit("\n");
        }
        let mut out = String::from_str("f");
        let mut i: usize = 0;
        proof {
            assert(verts@.take(0) =~= Seq::<VertexId>::empty());
        }
        while i < verts.len()
            invariant
                i <= verts@.len(),
                forall|k: int| 0 <= k < verts@.len() ==> (#[trigger] verts@[k]).0 < u32::MAX,
                out@ == seq!['f'] + corners_text(verts@.take(i as int), has_normals, has_uvs),
            decreases verts.len() - i,
        {
            push_corner(&mut out, verts[i].0 + 1, has_normals, has_uvs);
            proof {
                assert(verts@.take(i + 1).drop_last() =~= verts@.take(i as int));
                assert(out@ =~= seq!['f'] + corners_text(verts@.take(i + 1), has_normals, has_uvs));
            }
            i = i + 1;
        }
        out.append("\n");
        proof {
            assert(verts@.take(verts@.len() as int) =~= verts@);
            assert(out@ =~= face_text(verts@, has_normals, has_uvs));
        }
        out
    }

    /// The face section of the file: a blank line, then one record per live face in
    /// id order. The positions are written for the live vertices in id order, so each
    /// face names a vertex by its place in that list.
    pub fn face_section<P>(mesh: &HalfEdgeMesh<P>, has_normals: bool, has_uvs: bool) -> (s: String)
        requires
            mesh.wf(),
        ensures
            s@ == mesh@.face_section(has_normals, has_uvs),
    {
        proof {
            reveal_strlit("\n");
        }
        let ghost m = mesh@;
        let ranks = vertex_ranks(mesh);
        let faces = mesh.faces();
        let ghost ids = m.live_face_ids();
        let mut out = String::from_str("\n");
        let mut i: usize = 0;
        proof {
            assert(ids.take(0) =~= Seq::<int>::empty());
        }
        while i < faces.len()
            invariant
                i <= faces@.len(),
                mesh.wf(),
                m == mesh@,
                ids == m.live_face_ids(),
                faces@.len() == ids.len(),
                forall|k: int| 0 <= k < faces@.len() ==> (#[trigger] faces@[k]).0.0 as int == ids[k],
                out@ == seq!['\n'] + m.faces_text(ids.take(i as int), has_normals, has_uvs),
                ranks@.len() == m.vertices.len(),
                forall|x: int| 0 <= x < ranks@.len() ==> #[trigger] ranks@[x] as nat == m.vertex_rank(x) && ranks@[x] < u32::MAX,
            decreases faces.len() - i,
        {
            let fid = faces[i].0;
            let verts = mesh.face_vertices(fid);
            proof {
                lemma_face_verts_in_range(m, fid.0 as int);
                assert(ids.take(i + 1).drop_last() =~= ids.take(i as int));
                assert(fid.0 as int == ids[i as int]);
            }
            let mut named: Vec<VertexId> = Vec::new();
            let mut j: usize = 0;
            while j < verts.len()
                invariant
                    j <= verts@.len(),
                    m == mesh@,
                    mesh.wf(),
                    verts@ == m.face_verts(fid.0 as int),
                    forall|x: int| 0 <= x < verts@.len() ==> (#[trigger] verts@[x]).0 < m.vertices.len(),
                    ranks@.len() == m.vertices.len(),
                    forall|x: int| 0 <= x < ranks@.len() ==> #[trigger] ranks@[x] as nat == m.vertex_rank(x) && ranks@[x] < u32::MAX,
                    named@ == m.ranked(verts@.take(j as int)),
                    forall|x: int| 0 <= x < named@.len() ==> (#[trigger] named@[x]).0 < u32::MAX,
                decreases verts.len() - j,
            {
                named.push(VertexId(ranks[verts[j].0 as usize]));
                proof {
                    assert(named@ =~= m.ranked(verts@.take(j + 1)));
                }
                j = j + 1;
            }
            proof {
                assert(verts@.take(verts@.len() as int) =~= verts@);
            }
            let rec = Self::face_record(named.as_slice(), has_normals, has_uvs);
            out.append(rec.as_str());
            proof {
                assert(out@ =~= seq!['\n'] + m.faces_text(ids.take(i + 1), has_normals, has_uvs));
            }
            i = i + 1;
        }
        proof {
            assert(ids.take(ids.len() as int) =~= ids);
        }
        out
    }

    /// The header of the file: a title line, the vertex and face counts, a blank line.
    pub fn header<P>(mesh: &HalfEdgeMesh<P>) -> (s: String)
        requires
            mesh.wf(),
        ensures
            s@ == header_text(mesh@.vertex_count() as nat, mesh@.face_count() as nat),
    {
        let vc = mesh.vertex_count();
        let fc = mesh.face_count();
        proof {
            crate::mesh::halfedge::lemma_free_list_len(mesh@.free_vertices, mesh@.vertices.len());
            crate::mesh::halfedge::lemma_free_list_len(mesh@.free_faces, mesh@.faces.len());
        }
        let mut out = String::from_str("# TopoFlow exported OBJ\n");
        out.append("# Vertices: ");
        push_decimal(&mut out, vc as u32);
        out.append("\n");
        out.append("# Faces: ");
        push_decimal(&mut out, fc as u32);
        out.append("\n");
        out.append("\n");
        proof {
            assert(out@ =~= header_text(mesh@.vertex_count() as nat, mesh@.face_count() as nat));
        }
        out
    }
}

} // verus!
