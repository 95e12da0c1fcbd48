//! Wavefront `.obj` reading and writing: the line grammar, face records, and the
//! assembly of a mesh from them.
//!
//! Supported records: `v` (position), `vn` (normal), `vt` (texture coordinate), `f`
//! (face: triangles, quads and n-gons, each corner `v`, `v/vt`, `v//vn` or
//! `v/vt/vn`). `o`, `g`, `s`, `usemtl`, `mtllib`, comments and unknown records are
//! skipped. Indices in the file are 1-based and are stored 0-based. Coordinates are
//! kept as the words of the line; turning them into numbers is left to the caller.
use vstd::prelude::*;
use crate::io::lex::{byte_views, pieces, split_at_byte, split_whitespace, u32_text, parse_u32, words};
use crate::mesh::construction::{BuildOutcome, built_mesh, prebuilt_mesh, events, face_events, faces_of, indices_below, scan, two_per_edge};
use crate::mesh::halfedge::{HalfEdgeMesh, MeshError, INVALID_ID};
use crate::utils::sort::{ascending, lemma_ascending_unique, sorted_copy};

verus! {

/// What can be wrong with one line of a `.obj` file.
pub enum LineFault {
    /// A face corner whose vertex index is not a `u32`.
    InvalidVertexIndex(Seq<u8>),
    /// A face corner whose vertex index is 0.
    ZeroVertexIndex,
    /// A face corner whose texture-coordinate index is not a `u32`.
    InvalidTexcoordIndex(Seq<u8>),
    /// A face corner whose normal index is not a `u32`.
    InvalidNormalIndex(Seq<u8>),
    /// A face corner whose texture-coordinate or normal index is 0: it has no 0-based
    /// form.
    IndexUnderflow,
}

/// The face corners read so far (vertex, texture-coordinate and normal indices,
/// 0-based), or the first fault met.
pub enum CornerScan {
    Read(Seq<u32>, Seq<u32>, Seq<u32>),
    Fault(LineFault),
}

/// Is piece `k` of a corner present (it exists and is not empty)?
pub open spec fn has_piece(f: Seq<Seq<u8>>, k: int) -> bool {
    f.len() > k && f[k].len() > 0
}

/// The 0-based form of a 1-based index (which is not 0).
pub open spec fn zero_based(i: u32) -> u32 {
    (i - 1) as u32
}

/// Read one face corner `word` after the indices `v`, `t`, `n` read so far.
pub open spec fn read_corner(v: Seq<u32>, t: Seq<u32>, n: Seq<u32>, word: Seq<u8>) -> CornerScan {
    let f = pieces(word, 47u8);
    if u32_text(f[0]) is None {
        CornerScan::Fault(LineFault::InvalidVertexIndex(f[0]))
    } else if u32_text(f[0])->0 == 0 {
        CornerScan::Fault(LineFault::ZeroVertexIndex)
    } else if has_piece(f, 1) && u32_text(f[1]) is None {
        CornerScan::Fault(LineFault::InvalidTexcoordIndex(f[1]))
    } else if has_piece(f, 1) && u32_text(f[1])->0 == 0 {
        CornerScan::Fault(LineFault::IndexUnderflow)
    } else if has_piece(f, 2) && u32_text(f[2]) is None {
        CornerScan::Fault(LineFault::InvalidNormalIndex(f[2]))
    } else if has_piece(f, 2) && u32_text(f[2])->0 == 0 {
        CornerScan::Fault(LineFault::IndexUnderflow)
    } else {
        CornerScan::Read(
            v.push(zero_based(u32_text(f[0])->0)),
            if has_piece(f, 1) {
                t.push(zero_based(u32_text(f[1])->0))
            } else {
                t
            },
            if has_piece(f, 2) {
                n.push(zero_based(u32_text(f[2])->0))
            } else {
                n
            },
        )
    }
}

/// Read the face corners `ws` in order; the first fault met ends the reading.
pub open spec fn read_corners(ws: Seq<Seq<u8>>) -> CornerScan
    decreases ws.len(),
{
    if ws.len() == 0 {
        CornerScan::Read(Seq::empty(), Seq::empty(), Seq::empty())
    } else {
        match read_corners(ws.drop_last()) {
            CornerScan::Read(v, t, n) => read_corner(v, t, n, ws.last()),
            CornerScan::Fault(e) => CornerScan::Fault(e),
        }
    }
}

/// What a line of a `.obj` file says.
pub enum LineMeaning {
    /// Nothing that the mesh needs.
    Skip,
    /// A position, by the words of its three coordinates.
    Position(Seq<u8>, Seq<u8>, Seq<u8>),
    /// A normal, by the words of its three coordinates.
    Normal(Seq<u8>, Seq<u8>, Seq<u8>),
    /// A texture coordinate, by the words of its two coordinates.
    TexCoord(Seq<u8>, Seq<u8>),
    /// A face with at least three corners: its vertex, texture-coordinate and normal
    /// indices, 0-based.
    Face(Seq<u32>, Seq<u32>, Seq<u32>),
    /// A fault.
    Fault(LineFault),
}

/// The meaning of one line, given as its bytes. Empty lines, lines whose first
/// non-blank character is `#`, unknown records, `v`/`vn` lines with fewer than three
/// coordinates, `vt` lines with fewer than two and faces with fewer than three corners
/// are skipped. Words after the needed coordinates are ignored.
pub open spec fn obj_line(line: Seq<u8>) -> LineMeaning {
    let w = words(line);
    if w.len() == 0 || (w[0].len() > 0 && w[0][0] == 35u8) {
        LineMeaning::Skip
    } else if w[0] == seq![118u8] {
        if w.len() >= 4 {
            LineMeaning::Position(w[1], w[2], w[3])
        } else {
            LineMeaning::Skip
        }
    } else if w[0] == seq![118u8, 110u8] {
        if w.len() >= 4 {
            LineMeaning::Normal(w[1], w[2], w[3])
        } else {
            LineMeaning::Skip
        }
    } else if w[0] == seq![118u8, 116u8] {
        if w.len() >= 3 {
            LineMeaning::TexCoord(w[1], w[2])
        } else {
            LineMeaning::Skip
        }
    } else if w[0] == seq![102u8] {
        match read_corners(w.drop_first()) {
            CornerScan::Read(v, t, n) => if v.len() >= 3 {
                LineMeaning::Face(v, t, n)
            } else {
                LineMeaning::Skip
            },
            CornerScan::Fault(e) => LineMeaning::Fault(e),
        }
    } else {
        LineMeaning::Skip
    }
}

/// The corners of a face record: vertex indices, and the texture-coordinate and
/// normal indices of the corners that give them, all 0-based.
#[derive(Debug, Clone)]
pub struct ObjFace {
    pub vertices: Vec<u32>,
    pub texcoords: Vec<u32>,
    pub normals: Vec<u32>,
}

/// One line of a `.obj` file.
#[derive(Debug, Clone)]
pub enum ObjLine {
    Skip,
    Position(Vec<u8>, Vec<u8>, Vec<u8>),
    Normal(Vec<u8>, Vec<u8>, Vec<u8>),
    TexCoord(Vec<u8>, Vec<u8>),
    Face(ObjFace),
}

/// A fault in one line of a `.obj` file, with the offending text where there is one.
#[derive(Debug, Clone)]
pub enum ObjLineError {
    InvalidVertexIndex(Vec<u8>),
    ZeroVertexIndex,
    InvalidTexcoordIndex(Vec<u8>),
    InvalidNormalIndex(Vec<u8>),
    IndexUnderflow,
}

impl ObjLine {
    pub open spec fn meaning(self) -> LineMeaning {
        match self {
            ObjLine::Skip => LineMeaning::Skip,
            ObjLine::Position(x, y, z) => LineMeaning::Position(x@, y@, z@),
            ObjLine::Normal(x, y, z) => LineMeaning::Normal(x@, y@, z@),
            ObjLine::TexCoord(u, v) => LineMeaning::TexCoord(u@, v@),
            ObjLine::Face(f) => LineMeaning::Face(f.vertices@, f.texcoords@, f.normals@),
        }
    }
}

impl ObjLineError {
    pub open spec fn fault(self) -> LineFault {
        match self {
            ObjLineError::InvalidVertexIndex(t) => LineFault::InvalidVertexIndex(t@),
            ObjLineError::ZeroVertexIndex => LineFault::ZeroVertexIndex,
            ObjLineError::InvalidTexcoordIndex(t) => LineFault::InvalidTexcoordIndex(t@),
            ObjLineError::InvalidNormalIndex(t) => LineFault::InvalidNormalIndex(t@),
            ObjLineError::IndexUnderflow => LineFault::IndexUnderflow,
        }
    }
}

/// Read one face corner into the index lists.
fn read_corner_into(word: &[u8], v: &mut Vec<u32>, t: &mut Vec<u32>, n: &mut Vec<u32>) -> (r: Result<
    (),
    ObjLineError,
>)
    ensures
        r is Ok ==> read_corner(old(v)@, old(t)@, old(n)@, word@) == CornerScan::Read(
            final(v)@,
            final(t)@,
            final(n)@,
        ),
        r matches Err(e) ==> read_corner(old(v)@, old(t)@, old(n)@, word@) == CornerScan::Fault(
            e.fault(),
        ),
{
    let f = split_at_byte(word, 47u8);
    let ghost fv = pieces(word@, 47u8);
    proof {
        assert(f@[0]@ == fv[0]);
    }
    let vi = match parse_u32(f[0].as_slice()) {
        None => {
            return Err(ObjLineError::InvalidVertexIndex(f[0].clone()));
        },
        Some(x) => x,
    };
    if vi == 0 {
        return Err(ObjLineError::ZeroVertexIndex);
    }
    let has_t = f.len() > 1 && f[1].len() > 0;
    let mut ti: u32 = 0;
    if has_t {
        proof {
            assert(f@[1]@ == fv[1]);
        }
        match parse_u32(f[1].as_slice()) {
            None => {
                return Err(ObjLineError::InvalidTexcoordIndex(f[1].clone()));
            },
            Some(x) => {
                if x == 0 {
                    return Err(ObjLineError::IndexUnderflow);
                }
                ti = x;
            },
        }
    }
    let has_n = f.len() > 2 && f[2].len() > 0;
    let mut ni: u32 = 0;
    if has_n {
        proof {
            assert(f@[2]@ == fv[2]);
        }
        match parse_u32(f[2].as_slice()) {
            None => {
                return Err(ObjLineError::InvalidNormalIndex(f[2].clone()));
            },
            Some(x) => {
                if x == 0 {
                    return Err(ObjLineError::IndexUnderflow);
                }
                ni = x;
            },
        }
    }
    v.push(vi - 1);
    if has_t {
        t.push(ti - 1);
    }
    if has_n {
        n.push(ni - 1);
    }
    Ok(())
}

fn is_word1(w: &Vec<u8>, a: u8) -> (r: bool)
    ensures
        r == (w@ == seq![a]),
{
    let r = w.len() == 1 && w[0] == a;
    proof {
        if r {
            assert(w@ =~= seq![a]);
        }
    }
    r
}

fn is_word2(w: &Vec<u8>, a: u8, b: u8) -> (r: bool)
    ensures
        r == (w@ == seq![a, b]),
{
    let r = w.len() == 2 && w[0] == a && w[1] == b;
    proof {
        if r {
            assert(w@ =~= seq![a, b]);
        }
    }
    r
}

/// Parse one line of a `.obj` file, given as its bytes.
pub fn parse_obj_line(line: &[u8]) -> (r: Result<ObjLine, ObjLineError>)
    ensures
        r matches Ok(l) ==> l.meaning() == obj_line(line@),
        r matches Err(e) ==> obj_line(line@) == LineMeaning::Fault(e.fault()),
{
    let w = split_whitespace(line);
    let ghost ws = words(line@);
    if w.len() == 0 {
        return Ok(ObjLine::Skip);
    }
    proof {
        assert(w@[0]@ == ws[0]);
    }
    if w[0].len() > 0 && w[0][0] == 35u8 {
        return Ok(ObjLine::Skip);
    }
    if w.len() >= 4 {
        proof {
            assert(w@[1]@ == ws[1] && w@[2]@ == ws[2] && w@[3]@ == ws[3]);
        }
    }
    if w.len() >= 3 {
        proof {
            assert(w@[1]@ == ws[1] && w@[2]@ == ws[2]);
        }
    }
    if is_word1(&w[0], 118u8) {
        if w.len() >= 4 {
            return Ok(ObjLine::Position(w[1].clone(), w[2].clone(), w[3].clone()));
        }
        return Ok(ObjLine::Skip);
    }
    if is_word2(&w[0], 118u8, 110u8) {
        if w.len() >= 4 {
            return Ok(ObjLine::Normal(w[1].clone(), w[2].clone(), w[3].clone()));
        }
        return Ok(ObjLine::Skip);
    }
    if is_word2(&w[0], 118u8, 116u8) {
        if w.len() >= 3 {
            return Ok(ObjLine::TexCoord(w[1].clone(), w[2].clone()));
        }
        return Ok(ObjLine::Skip);
    }
    if is_word1(&w[0], 102u8) {
        let mut v: Vec<u32> = Vec::new();
        let mut t: Vec<u32> = Vec::new();
        let mut n: Vec<u32> = Vec::new();
        let ghost cs = ws.drop_first();
        let mut i: usize = 1;
        proof {
            assert(cs.take(0) =~= Seq::<Seq<u8>>::empty());
            assert(v@ =~= Seq::<u32>::empty() && t@ =~= Seq::<u32>::empty() && n@ =~= Seq::<u32>::empty());
        }
        while i < w.len()
            invariant
                1 <= i <= w@.len(),
                byte_views(w@) == ws,
                ws == words(line@),
                ws[0] == seq![102u8],
                cs == ws.drop_first(),
                read_corners(cs.take(i - 1)) == CornerScan::Read(v@, t@, n@),
            decreases w.len() - i,
        {
            proof {
                assert(cs.take(i as int).drop_last() =~= cs.take(i - 1));
                assert(cs.take(i as int).last() == w@[i as int]@);
            }
            let ghost before = (v@, t@, n@);
            match read_corner_into(w[i].as_slice(), &mut v, &mut t, &mut n) {
                Ok(()) => {},
                Err(e) => {
                    proof {
                        assert(read_corner(before.0, before.1, before.2, cs.take(i as int).last())
                            == CornerScan::Fault(e.fault()));
                        assert(read_corners(cs.take(i as int)) == CornerScan::Fault(e.fault()));
                        lemma_fault_persists(cs, i as int, e.fault());
                    }
                    return Err(e);
                },
            }
            i = i + 1;
        }
        proof {
            assert(cs.take(cs.len() as int) =~= cs);
        }
        if v.len() >= 3 {
            return Ok(ObjLine::Face(ObjFace { vertices: v, texcoords: t, normals: n }));
        }
        return Ok(ObjLine::Skip);
    }
    Ok(ObjLine::Skip)
}

proof fn lemma_fault_persists(cs: Seq<Seq<u8>>, k: int, e: LineFault)
    requires
        0 <= k <= cs.len(),
        read_corners(cs.take(k)) == CornerScan::Fault(e),
    ensures
        read_corners(cs) == CornerScan::Fault(e),
    decreases cs.len() - k,
{
    if k < cs.len() {
        assert(cs.take(k + 1).drop_last() =~= cs.take(k));
        lemma_fault_persists(cs, k + 1, e);
    } else {
        assert(cs.take(k) =~= cs);
    }
}

/// The face records of a `.obj` file as read so far: each face's vertex indices,
/// and, for the faces that give them, their normal and texture-coordinate indices
/// (one list per such face, in the order of those faces).
pub struct ObjIndexLists {
    pub faces: Vec<Vec<u32>>,
    pub face_normals: Vec<Vec<u32>>,
    pub face_texcoords: Vec<Vec<u32>>,
}

impl ObjIndexLists {
    pub fn new() -> (r: Self)
        ensures
            r.faces@.len() == 0,
            r.face_normals@.len() == 0,
            r.face_texcoords@.len() == 0,
    {
        ObjIndexLists { faces: Vec::new(), face_normals: Vec::new(), face_texcoords: Vec::new() }
    }

    /// Record a face: its vertex indices always, its normal and texture-coordinate
    /// indices where it has any.
    pub fn add_face(&mut self, face: ObjFace)
        ensures
            final(self).faces@ == old(self).faces@.push(face.vertices),
            final(self).face_normals@ == if face.normals@.len() > 0 {
                old(self).face_normals@.push(face.normals)
            } else {
                old(self).face_normals@
            },
            final(self).face_texcoords@ == if face.texcoords@.len() > 0 {
                old(self).face_texcoords@.push(face.texcoords)
            } else {
                old(self).face_texcoords@
            },
    {
        let ObjFace { vertices, texcoords, normals } = face;
        self.faces.push(vertices);
        if normals.len() > 0 {
            self.face_normals.push(normals);
        }
        if texcoords.len() > 0 {
            self.face_texcoords.push(texcoords);
        }
    }
}

/// Number of corners of the faces `fs`: the sum of their lengths.
pub open spec fn corner_total(fs: Seq<Seq<u32>>) -> nat
    decreases fs.len(),
{
    if fs.len() == 0 {
        0
    } else {
        corner_total(fs.drop_last()) + fs.last().len()
    }
}

/// Index of the first corner of face `k` in the list of all corners.
pub open spec fn corner_base(fs: Seq<Seq<u32>>, k: int) -> nat {
    corner_total(fs.take(k))
}

proof fn lemma_corner_base_step(fs: Seq<Seq<u32>>, k: int)
    requires
        0 <= k < fs.len(),
    ensures
        corner_base(fs, k + 1) == corner_base(fs, k) + fs[k].len(),
{
    assert(fs.take(k + 1).drop_last() =~= fs.take(k));
}

proof fn lemma_corner_base_monotone(fs: Seq<Seq<u32>>, k: int, m: int)
    requires
        0 <= k <= m <= fs.len(),
    ensures
        corner_base(fs, k) <= corner_base(fs, m),
        k < m ==> corner_base(fs, k) + fs[k].len() <= corner_base(fs, m),
    decreases m - k,
{
    if k < m {
        lemma_corner_base_monotone(fs, k, m - 1);
        lemma_corner_base_step(fs, m - 1);
        lemma_corner_base_step(fs, k);
    }
}

/// Does some face before `k` have the same vertices as face `k`, counted with
/// multiplicity (the same vertices in any order)?
pub open spec fn repeats_earlier(fs: Seq<Seq<u32>>, k: int) -> bool {
    exists|j: int| 0 <= j < k && #[trigger] fs[j].to_multiset() == fs[k].to_multiset()
}

/// The faces `fs` without those that repeat an earlier face, in order.
pub open spec fn distinct_faces(fs: Seq<Seq<u32>>) -> Seq<Seq<u32>>
    decreases fs.len(),
{
    if fs.len() == 0 {
        Seq::empty()
    } else if repeats_earlier(fs, fs.len() - 1) {
        distinct_faces(fs.drop_last())
    } else {
        distinct_faces(fs.drop_last()).push(fs.last())
    }
}

/// How building a mesh from a face set ends.
pub enum BuildVerdict {
    Built,
    Degenerate,
    NonManifold(u32, u32),
    InvalidTopology,
}

/// How `HalfEdgeMesh::from_indexed_faces` ends on the faces `fs`.
pub open spec fn verdict(fs: Seq<Seq<u32>>) -> BuildVerdict {
    match scan(fs) {
        BuildOutcome::Built => if two_per_edge(events(fs)) {
            BuildVerdict::Built
        } else {
            BuildVerdict::InvalidTopology
        },
        BuildOutcome::Degenerate => BuildVerdict::Degenerate,
        BuildOutcome::NonManifold(a, b) => BuildVerdict::NonManifold(a, b),
    }
}

/// The face set that a `.obj` file is finally built from: its faces, or, when they
/// meet a non-manifold edge, its faces without repeats.
pub open spec fn faces_to_build(fs: Seq<Seq<u32>>) -> Seq<Seq<u32>> {
    if verdict(fs) is NonManifold {
        distinct_faces(fs)
    } else {
        fs
    }
}

/// Does `r` report the verdict `v` on building the face set `fs` from `positions`?
pub open spec fn reports<P>(
    r: Result<HalfEdgeMesh<P>, MeshError>,
    v: BuildVerdict,
    positions: Seq<P>,
    fs: Seq<Seq<u32>>,
) -> bool {
    match v {
        BuildVerdict::Built => r matches Ok(m) && m.wf() && m@ == built_mesh(positions, fs),
        BuildVerdict::Degenerate => r matches Err(MeshError::DegenerateFace),
        BuildVerdict::NonManifold(a, b) => r matches Err(MeshError::NonManifoldEdge(x, y)) && x
            == a && y == b,
        BuildVerdict::InvalidTopology => r matches Err(MeshError::InvalidTopology(msg)) && exists|i: int|
            prebuilt_mesh(positions, fs).first_invalid(i) && msg@ == prebuilt_mesh(positions, fs).invalid_message(i),
    }
}

/// Dropping repeated faces keeps the face set within the bounds it met.
pub proof fn lemma_distinct_faces_bounds(fs: Seq<Seq<u32>>, n: int)
    ensures
        distinct_faces(fs).len() <= fs.len(),
        events(distinct_faces(fs)).len() <= events(fs).len(),
        indices_below(fs, n) ==> indices_below(distinct_faces(fs), n),
    decreases fs.len(),
{
    if fs.len() > 0 {
        let rest = fs.drop_last();
        lemma_distinct_faces_bounds(rest, n);
        if indices_below(fs, n) {
            assert forall|k: int, i: int| 0 <= k < rest.len() && 0 <= i < rest[k].len() implies (
            #[trigger] rest[k][i]) < n by {
                assert(rest[k] == fs[k]);
            }
        }
        if !repeats_earlier(fs, fs.len() - 1) {
            let d = distinct_faces(rest);
            assert(d.push(fs.last()).drop_last() =~= d);
            assert(events(d.push(fs.last())) == events(d) + face_events(fs.last()));
            if indices_below(fs, n) {
                let e = d.push(fs.last());
                assert forall|k: int, i: int| 0 <= k < e.len() && 0 <= i < e[k].len() implies (
                #[trigger] e[k][i]) < n by {
                    if k == e.len() - 1 {
                        assert(e[k] == fs[fs.len() - 1]);
                    } else {
                        assert(e[k] == d[k]);
                    }
                }
            }
        }
    }
}

fn same_list(a: &Vec<u32>, b: &Vec<u32>) -> (r: bool)
    ensures
        r == (a@ == b@),
{
    if a.len() != b.len() {
        return false;
    }
    let mut i: usize = 0;
    while i < a.len()
        invariant
            i <= a@.len(),
            a@.len() == b@.len(),
            forall|k: int| 0 <= k < i ==> a@[k] == b@[k],
        decreases a.len() - i,
    {
        if a[i] != b[i] {
            return false;
        }
        i = i + 1;
    }
    proof {
        assert(a@ =~= b@);
    }
    true
}

fn list_in(lists: &Vec<Vec<u32>>, x: &Vec<u32>) -> (r: bool)
    ensures
        r == exists|q: int| 0 <= q < byte_lists(lists@).len() && #[trigger] byte_lists(lists@)[q] == x@,
{
    let mut q: usize = 0;
    while q < lists.len()
        invariant
            q <= lists@.len(),
            forall|p: int| 0 <= p < q ==> #[trigger] byte_lists(lists@)[p] != x@,
        decreases lists.len() - q,
    {
        if same_list(&lists[q], x) {
            assert(byte_lists(lists@)[q as int] == x@);
            return true;
        }
        q = q + 1;
    }
    false
}

/// Reader of Wavefront `.obj` files.
pub struct ObjLoader;

impl ObjLoader {
    /// The faces without those that repeat an earlier face (the same vertices in any
    /// order), in order.
    pub fn remove_duplicate_faces(faces: &[Vec<u32>]) -> (r: Vec<Vec<u32>>)
        ensures
            faces_of(r@) == distinct_faces(faces_of(faces@)),
    {
        let ghost fs = faces_of(faces@);
        let mut seen: Vec<Vec<u32>> = Vec::new();
        let mut result: Vec<Vec<u32>> = Vec::new();
        let ghost mut origin: Seq<int> = Seq::empty();
        let ghost mut slot: Seq<int> = Seq::empty();
        let mut i: usize = 0;
        proof {
            assert(faces_of(result@) =~= distinct_faces(fs.take(0)));
        }
        while i < faces.len()
            invariant
                i <= faces@.len(),
                fs == faces_of(faces@),
                faces_of(result@) == distinct_faces(fs.take(i as int)),
                seen_ok(fs, i as int, byte_lists(seen@), origin, slot),
            decreases faces.len() - i,
        {
            let sorted = sorted_copy(&faces[i]);
            let found = list_in(&seen, &sorted);
            let ghost pre = fs.take(i + 1);
            proof {
                assert(faces@[i as int]@ == fs[i as int]);
                assert(pre.drop_last() =~= fs.take(i as int));
                assert(pre.last() == fs[i as int]);
                lemma_seen_decides(fs, i as int, byte_lists(seen@), origin, slot, sorted@);
                assert(found == exists|q: int|
                    0 <= q < byte_lists(seen@).len() && #[trigger] byte_lists(seen@)[q] == sorted@);
            }
            if !found {
                let ghost old_seen = byte_lists(seen@);
                let ghost old_result = result@;
                result.push(faces[i].clone());
                seen.push(sorted);
                proof {
                    assert(faces_of(result@) =~= faces_of(old_result).push(fs[i as int]));
                    assert(byte_lists(seen@) =~= old_seen.push(sorted@));
                    lemma_seen_add(fs, i as int, old_seen, origin, slot, sorted@);
                    origin = origin.push(i as int);
                    slot = slot.push(old_seen.len() as int);
                }
            } else {
                proof {
                    let q = choose|q: int|
                        0 <= q < byte_lists(seen@).len() && #[trigger] byte_lists(seen@)[q] == sorted@;
                    lemma_seen_keep(fs, i as int, byte_lists(seen@), origin, slot, q);
                    slot = slot.push(q);
                }
            }
            i = i + 1;
        }
        proof {
            assert(fs.take(faces@.len() as int) =~= fs);
        }
        result
    }
}

/// The views of a list of index lists.
pub open spec fn byte_lists(v: Seq<Vec<u32>>) -> Seq<Seq<u32>> {
    v.map_values(|b: Vec<u32>| b@)
}

/// `seen` holds, in ascending order, one copy of each face among the first `i`, up to
/// reordering; `origin` and `slot` name the matching faces and copies.
pub open spec fn seen_ok(
    fs: Seq<Seq<u32>>,
    i: int,
    seen: Seq<Seq<u32>>,
    origin: Seq<int>,
    slot: Seq<int>,
) -> bool {
    &&& origin.len() == seen.len()
    &&& slot.len() == i
    &&& forall|q: int| 0 <= q < seen.len() ==> ascending(#[trigger] seen[q])
    &&& forall|q: int|
        0 <= q < seen.len() ==> 0 <= #[trigger] origin[q] < i && fs[origin[q]].to_multiset()
            == seen[q].to_multiset()
    &&& forall|j: int|
        0 <= j < i ==> 0 <= #[trigger] slot[j] < seen.len() && seen[slot[j]].to_multiset()
            == fs[j].to_multiset()
}

proof fn lemma_seen_decides(
    fs: Seq<Seq<u32>>,
    i: int,
    seen: Seq<Seq<u32>>,
    origin: Seq<int>,
    slot: Seq<int>,
    sorted: Seq<u32>,
)
    requires
        0 <= i < fs.len(),
        seen_ok(fs, i, seen, origin, slot),
        ascending(sorted),
        sorted.to_multiset() == fs[i].to_multiset(),
    ensures
        (exists|q: int| 0 <= q < seen.len() && #[trigger] seen[q] == sorted) == repeats_earlier(
            fs.take(i + 1),
            i,
        ),
{
    let pre = fs.take(i + 1);
    if exists|q: int| 0 <= q < seen.len() && #[trigger] seen[q] == sorted {
        let q = choose|q: int| 0 <= q < seen.len() && #[trigger] seen[q] == sorted;
        let j = origin[q];
        assert(pre[j] == fs[j]);
        assert(pre[j].to_multiset() == pre[i].to_multiset());
    }
    if repeats_earlier(pre, i) {
        let j = choose|j: int| 0 <= j < i && #[trigger] pre[j].to_multiset() == pre[i].to_multiset();
        assert(pre[j] == fs[j]);
        let q = slot[j];
        lemma_ascending_unique(seen[q], sorted);
        assert(seen[q] == sorted);
    }
}

proof fn lemma_seen_add(
    fs: Seq<Seq<u32>>,
    i: int,
    seen: Seq<Seq<u32>>,
    origin: Seq<int>,
    slot: Seq<int>,
    sorted: Seq<u32>,
)
    requires
        0 <= i < fs.len(),
        seen_ok(fs, i, seen, origin, slot),
        ascending(sorted),
        sorted.to_multiset() == fs[i].to_multiset(),
    ensures
        seen_ok(fs, i + 1, seen.push(sorted), origin.push(i), slot.push(seen.len() as int)),
{
    let s2 = seen.push(sorted);
    let o2 = origin.push(i);
    let l2 = slot.push(seen.len() as int);
    assert forall|q: int| 0 <= q < s2.len() implies ascending(#[trigger] s2[q]) by {
        if q < seen.len() {
            assert(s2[q] == seen[q]);
        }
    }
    assert forall|q: int| 0 <= q < s2.len() implies 0 <= #[trigger] o2[q] < i + 1 && fs[o2[q]].to_multiset()
        == s2[q].to_multiset() by {
        if q < seen.len() {
            assert(s2[q] == seen[q] && o2[q] == origin[q]);
        }
    }
    assert forall|j: int| 0 <= j < i + 1 implies 0 <= #[trigger] l2[j] < s2.len() && s2[l2[j]].to_multiset()
        == fs[j].to_multiset() by {
        if j < i {
            assert(l2[j] == slot[j]);
            assert(s2[slot[j]] == seen[slot[j]]);
        }
    }
}

proof fn lemma_seen_keep(
    fs: Seq<Seq<u32>>,
    i: int,
    seen: Seq<Seq<u32>>,
    origin: Seq<int>,
    slot: Seq<int>,
    q: int,
)
    requires
        0 <= i < fs.len(),
        seen_ok(fs, i, seen, origin, slot),
        0 <= q < seen.len(),
        seen[q].to_multiset() == fs[i].to_multiset(),
    ensures
        seen_ok(fs, i + 1, seen, origin, slot.push(q)),
{
    let l2 = slot.push(q);
    assert forall|j: int| 0 <= j < i + 1 implies 0 <= #[trigger] l2[j] < seen.len() && seen[l2[j]].to_multiset()
        == fs[j].to_multiset() by {
        if j < i {
            assert(l2[j] == slot[j]);
        }
    }
    assert forall|q2: int| 0 <= q2 < seen.len() implies 0 <= #[trigger] origin[q2] < i + 1 && fs[origin[q2]].to_multiset()
        == seen[q2].to_multiset() by {}
}

/// One past the largest vertex index of `face` (zero for an empty face).
pub open spec fn face_bound(face: Seq<u32>) -> nat
    decreases face.len(),
{
    if face.len() == 0 {
        0
    } else {
        let b = face_bound(face.drop_last());
        let x = face.last() as nat + 1;
        if b < x {
            x
        } else {
            b
        }
    }
}

/// One past the largest vertex index of the faces `fs` (zero when there is none).
pub open spec fn faces_bound(fs: Seq<Seq<u32>>) -> nat
    decreases fs.len(),
{
    if fs.len() == 0 {
        0
    } else {
        let b = faces_bound(fs.drop_last());
        let x = face_bound(fs.last());
        if b < x {
            x
        } else {
            b
        }
    }
}

/// The length of the per-vertex list: enough for every vertex a face names, and at
/// least one slot per face corner.
pub open spec fn attribute_len(fs: Seq<Seq<u32>>) -> nat {
    if corner_total(fs) < faces_bound(fs) {
        faces_bound(fs)
    } else {
        corner_total(fs)
    }
}

/// `acc` after the first `i` corners of a face give their vertex the value their
/// attribute index names (corners without a valid index give nothing).
pub open spec fn scatter_face<T>(acc: Seq<T>, face: Seq<u32>, attr: Seq<u32>, values: Seq<T>, i: nat) -> Seq<T>
    decreases i,
{
    if i == 0 {
        acc
    } else {
        let prev = scatter_face(acc, face, attr, values, (i - 1) as nat);
        let c = i - 1;
        if c < attr.len() && c < face.len() && attr[c] < values.len() && face[c] < prev.len() {
            prev.update(face[c] as int, values[attr[c] as int])
        } else {
            prev
        }
    }
}

/// The per-vertex list after the first `k` faces: it starts as `len` copies of
/// `default`, and face `k` with an attribute list gives each of its vertices the value
/// that its corner names; a later corner of the same vertex wins.
pub open spec fn scatter<T>(
    fs: Seq<Seq<u32>>,
    attr_faces: Seq<Seq<u32>>,
    values: Seq<T>,
    default: T,
    len: nat,
    k: nat,
) -> Seq<T>
    decreases k,
{
    if k == 0 {
        Seq::new(len, |i: int| default)
    } else {
        let acc = scatter(fs, attr_faces, values, default, len, (k - 1) as nat);
        if k - 1 < attr_faces.len() && k - 1 < fs.len() {
            scatter_face(acc, fs[k - 1], attr_faces[k - 1], values, fs[k - 1].len())
        } else {
            acc
        }
    }
}

/// The per-vertex values of an attribute given per face corner.
pub open spec fn per_vertex<T>(fs: Seq<Seq<u32>>, attr_faces: Seq<Seq<u32>>, values: Seq<T>, default: T) -> Seq<T> {
    scatter(fs, attr_faces, values, default, attribute_len(fs), fs.len())
}

proof fn lemma_scatter_face_len<T>(acc: Seq<T>, face: Seq<u32>, attr: Seq<u32>, values: Seq<T>, i: nat)
    ensures
        scatter_face(acc, face, attr, values, i).len() == acc.len(),
    decreases i,
{
    if i > 0 {
        lemma_scatter_face_len(acc, face, attr, values, (i - 1) as nat);
    }
}

proof fn lemma_scatter_len<T>(fs: Seq<Seq<u32>>, attr_faces: Seq<Seq<u32>>, values: Seq<T>, default: T, len: nat, k: nat)
    ensures
        scatter(fs, attr_faces, values, default, len, k).len() == len,
    decreases k,
{
    if k > 0 {
        lemma_scatter_len(fs, attr_faces, values, default, len, (k - 1) as nat);
        if k - 1 < attr_faces.len() && k - 1 < fs.len() {
            lemma_scatter_face_len(
                scatter(fs, attr_faces, values, default, len, (k - 1) as nat),
                fs[k - 1],
                attr_faces[k - 1],
                values,
                fs[k - 1].len(),
            );
        }
    }
}

/// A face's vertex indices are below its bound.
proof fn lemma_face_bound(face: Seq<u32>)
    ensures
        forall|i: int| 0 <= i < face.len() ==> face[i] < face_bound(face),
        face_bound(face) <= u32::MAX as nat + 1,
    decreases face.len(),
{
    if face.len() > 0 {
        lemma_face_bound(face.drop_last());
        assert forall|i: int| 0 <= i < face.len() implies face[i] < face_bound(face) by {
            if i < face.len() - 1 {
                assert(face.drop_last()[i] == face[i]);
            }
        }
    }
}

/// The faces' vertex indices are below their bound.
proof fn lemma_faces_bound(fs: Seq<Seq<u32>>)
    ensures
        forall|k: int, i: int| 0 <= k < fs.len() && 0 <= i < fs[k].len() ==> fs[k][i] < faces_bound(fs),
        faces_bound(fs) <= u32::MAX as nat + 1,
    decreases fs.len(),
{
    if fs.len() > 0 {
        lemma_faces_bound(fs.drop_last());
        lemma_face_bound(fs.last());
        assert forall|k: int, i: int| 0 <= k < fs.len() && 0 <= i < fs[k].len() implies fs[k][i] < faces_bound(fs) by {
            if k < fs.len() - 1 {
                assert(fs.drop_last()[k] == fs[k]);
            }
        }
    }
}

impl ObjLoader {
    /// One attribute per vertex from face-indexed lists: each corner of face `k`
    /// gives its vertex the value that entry `i` of attribute list `k` names (a later
    /// corner of the same vertex wins); vertices no corner names keep `default`. The
    /// list is long enough for every vertex the faces name, and has at least one slot
    /// per corner.
    pub fn build_per_vertex_attribute<T: Copy>(
        face_indices: &[Vec<u32>],
        face_attr_indices: &[Vec<u32>],
        attributes: &[T],
        default: T,
    ) -> (r: Result<Vec<T>, MeshError>)
        requires
            corner_total(faces_of(face_indices@)) <= usize::MAX,
            faces_bound(faces_of(face_indices@)) <= usize::MAX,
        ensures
            r matches Ok(v) && v@ == per_vertex(
                faces_of(face_indices@),
                faces_of(face_attr_indices@),
                attributes@,
                default,
            ),
    {
        let ghost fs = faces_of(face_indices@);
        let ghost ats = faces_of(face_attr_indices@);
        let nf = face_indices.len();
        let mut total: usize = 0;
        let mut bound: usize = 0;
        let mut k: usize = 0;
        while k < nf
            invariant
                k <= nf,
                nf == face_indices@.len(),
                fs == faces_of(face_indices@),
                total == corner_base(fs, k as int),
                bound == faces_bound(fs.take(k as int)),
                corner_total(fs) <= usize::MAX,
                faces_bound(fs) <= usize::MAX,
            decreases nf - k,
        {
            proof {
                lemma_corner_base_step(fs, k as int);
                lemma_corner_base_monotone(fs, k + 1, nf as int);
                assert(fs.take(nf as int) =~= fs);
                assert(face_indices@[k as int]@ == fs[k as int]);
                assert(fs.take(k + 1).drop_last() =~= fs.take(k as int));
                lemma_bound_prefix(fs, k + 1, nf as int);
            }
            let face = &face_indices[k];
            let mut fb: usize = 0;
            let mut i: usize = 0;
            while i < face.len()
                invariant
                    i <= face@.len(),
                    face@ == fs[k as int],
                    fb == face_bound(face@.take(i as int)),
                    face_bound(face@) <= faces_bound(fs.take(k + 1)),
                    faces_bound(fs.take(k + 1)) <= usize::MAX,
                decreases face.len() - i,
            {
                proof {
                    assert(face@.take(i + 1).drop_last() =~= face@.take(i as int));
                    lemma_face_bound_prefix(face@, i + 1);
                }
                let x = face[i] as usize + 1;
                if fb < x {
                    fb = x;
                }
                i = i + 1;
            }
            proof {
                assert(face@.take(face@.len() as int) =~= face@);
            }
            if bound < fb {
                bound = fb;
            }
            total = total + face.len();
            k = k + 1;
        }
        proof {
            assert(fs.take(nf as int) =~= fs);
        }
        let len: usize = if total < bound { bound } else { total };
        let mut result: Vec<T> = Vec::new();
        while result.len() < len
            invariant
                result@.len() <= len,
                forall|c: int| 0 <= c < result@.len() ==> result@[c] == default,
            decreases len - result.len(),
        {
            result.push(default);
        }
        proof {
            assert(result@ =~= scatter(fs, ats, attributes@, default, len as nat, 0));
        }
        let mut fi: usize = 0;
        while fi < nf
            invariant
                fi <= nf,
                nf == face_indices@.len(),
                fs == faces_of(face_indices@),
                ats == faces_of(face_attr_indices@),
                len == attribute_len(fs),
                result@ == scatter(fs, ats, attributes@, default, len as nat, fi as nat),
            decreases nf - fi,
        {
            proof {
                lemma_scatter_len(fs, ats, attributes@, default, len as nat, fi as nat);
            }
            if fi < face_attr_indices.len() {
                let face = &face_indices[fi];
                let attr = &face_attr_indices[fi];
                let ghost acc = result@;
                proof {
                    assert(face@ == fs[fi as int]);
                    assert(attr@ == ats[fi as int]);
                }
                let mut vi: usize = 0;
                while vi < face.len()
                    invariant
                        vi <= face@.len(),
                        acc.len() == len,
                        result@ == scatter_face(acc, face@, attr@, attributes@, vi as nat),
                    decreases face.len() - vi,
                {
                    proof {
                        lemma_scatter_face_len(acc, face@, attr@, attributes@, vi as nat);
                    }
                    if vi < attr.len() && (attr[vi] as usize) < attributes.len() && (face[vi] as usize) < len {
                        result.set(face[vi] as usize, attributes[attr[vi] as usize]);
                    }
                    vi = vi + 1;
                }
            }
            fi = fi + 1;
        }
        Ok(result)
    }
}

/// The bound of a prefix of faces is at most that of a longer prefix.
proof fn lemma_bound_prefix(fs: Seq<Seq<u32>>, k: int, n: int)
    requires
        0 <= k <= n <= fs.len(),
    ensures
        faces_bound(fs.take(k)) <= faces_bound(fs.take(n)),
        k > 0 ==> face_bound(fs[k - 1]) <= faces_bound(fs.take(k)),
    decreases n - k,
{
    if k > 0 {
        assert(fs.take(k).last() == fs[k - 1]);
    }
    if k < n {
        lemma_bound_prefix(fs, k + 1, n);
        assert(fs.take(k + 1).drop_last() =~= fs.take(k));
    }
}

/// The bound of a prefix of a face is at most that of the face.
proof fn lemma_face_bound_prefix(face: Seq<u32>, i: int)
    requires
        0 <= i <= face.len(),
    ensures
        face_bound(face.take(i)) <= face_bound(face),
    decreases face.len() - i,
{
    if i < face.len() {
        lemma_face_bound_prefix(face, i + 1);
        assert(face.take(i + 1).drop_last() =~= face.take(i));
    } else {
        assert(face.take(i) =~= face);
    }
}

impl ObjLoader {
    /// The per-vertex values of one attribute (normals or texture coordinates): built
    /// from the face-indexed lists where there are any, else the values as
    /// listed, else none.
    pub fn per_vertex_attribute<T: Copy>(
        face_indices: &[Vec<u32>],
        face_attr_indices: &[Vec<u32>],
        values: Vec<T>,
        default: T,
    ) -> (r: Option<Vec<T>>)
        requires
            corner_total(faces_of(face_indices@)) <= usize::MAX,
            faces_bound(faces_of(face_indices@)) <= usize::MAX,
        ensures
            face_attr_indices@.len() > 0 ==> (r matches Some(v) && v@ == per_vertex(
                faces_of(face_indices@),
                faces_of(face_attr_indices@),
                values@,
                default,
            )),
            face_attr_indices@.len() == 0 && values@.len() > 0 ==> r == Some(values),
            face_attr_indices@.len() == 0 && values@.len() == 0 ==> r is None,
    {
        if face_attr_indices.len() > 0 {
            match Self::build_per_vertex_attribute(face_indices, face_attr_indices, values.as_slice(), default) {
                Ok(v) => Some(v),
                Err(_) => None,
            }
        } else if values.len() > 0 {
            Some(values)
        } else {
            None
        }
    }

    /// Build the mesh of a `.obj` file from its positions and faces. When the faces
    /// meet a non-manifold edge, the build is tried once more without repeated faces
    /// (the same vertices in any order).
    pub fn build_mesh<P: Copy>(positions: &[P], face_indices: &[Vec<u32>]) -> (r: Result<
        HalfEdgeMesh<P>,
        MeshError,
    >)
        requires
            positions@.len() + 1 < INVALID_ID,
            face_indices@.len() + 1 < INVALID_ID,
            events(faces_of(face_indices@)).len() + 1 < INVALID_ID,
            indices_below(faces_of(face_indices@), positions@.len() as int),
        ensures
            reports(
                r,
                verdict(faces_to_build(faces_of(face_indices@))),
                positions@,
                faces_to_build(faces_of(face_indices@)),
            ),
    {
        let ghost fs = faces_of(face_indices@);
        let first = HalfEdgeMesh::from_indexed_faces(positions, face_indices);
        match first {
            Err(MeshError::NonManifoldEdge(_, _)) => {
                let cleaned = Self::remove_duplicate_faces(face_indices);
                proof {
                    lemma_distinct_faces_bounds(fs, positions@.len() as int);
                    assert(faces_of(cleaned@).len() == cleaned@.len());
                }
                let second = HalfEdgeMesh::from_indexed_faces(positions, cleaned.as_slice());
                proof {
                    assert(verdict(fs) is NonManifold);
                    assert(faces_to_build(fs) == faces_of(cleaned@));
                }
                second
            },
            _ => {
                proof {
                    assert(!(verdict(fs) is NonManifold));
                    assert(faces_to_build(fs) == fs);
                }
                first
            },
        }
    }
}

/// Removing repeated faces keeps only faces given, in their order.
pub proof fn law_distinct_faces_kept(fs: Seq<Seq<u32>>)
    ensures
        forall|i: int|
            0 <= i < distinct_faces(fs).len() ==> exists|k: int|
                0 <= k < fs.len() && #[trigger] distinct_faces(fs)[i] == #[trigger] fs[k],
    decreases fs.len(),
{
    if fs.len() > 0 {
        let rest = fs.drop_last();
        let d = distinct_faces(rest);
        law_distinct_faces_kept(rest);
        let r = distinct_faces(fs);
        assert forall|i: int| 0 <= i < r.len() implies exists|k: int| 0 <= k < fs.len() && #[trigger] r[i] == #[trigger] fs[k] by {
            if i < d.len() {
                assert(r[i] == d[i]);
                let k = choose|k: int| 0 <= k < rest.len() && #[trigger] d[i] == #[trigger] rest[k];
                assert(fs[k] == rest[k]);
            } else {
                assert(r[i] == fs[fs.len() - 1]);
            }
        }
    }
}

/// Removing repeated faces keeps, for every face given, a face with the same vertices
/// (in some order).
pub proof fn law_distinct_faces_cover(fs: Seq<Seq<u32>>)
    ensures
        forall|k: int|
            0 <= k < fs.len() ==> exists|i: int|
                0 <= i < distinct_faces(fs).len() && (#[trigger] distinct_faces(fs)[i]).to_multiset()
                    == (#[trigger] fs[k]).to_multiset(),
    decreases fs.len(),
{
    if fs.len() > 0 {
        let rest = fs.drop_last();
        let d = distinct_faces(rest);
        law_distinct_faces_cover(rest);
        let r = distinct_faces(fs);
        assert forall|k: int| 0 <= k < fs.len() implies exists|i: int|
            0 <= i < r.len() && (#[trigger] r[i]).to_multiset() == (#[trigger] fs[k]).to_multiset() by {
            let kk = if k < fs.len() - 1 {
                k
            } else if repeats_earlier(fs, fs.len() - 1) {
                choose|j: int| 0 <= j < fs.len() - 1 && #[trigger] fs[j].to_multiset() == fs[fs.len() - 1].to_multiset()
            } else {
                -1
            };
            if kk >= 0 {
                assert(fs[kk] == rest[kk]);
                let i = choose|i: int| 0 <= i < d.len() && (#[trigger] d[i]).to_multiset() == (#[trigger] rest[kk]).to_multiset();
                assert(r[i] == d[i]);
                assert(r[i].to_multiset() == fs[k].to_multiset());
            } else {
                assert(r[d.len() as int] == fs[k]);
            }
        }
    }
}

/// Removing repeated faces leaves no two faces with the same vertices (in any order).
pub proof fn law_distinct_faces_unique(fs: Seq<Seq<u32>>)
    ensures
        forall|i: int, l: int|
            0 <= i < l < distinct_faces(fs).len() ==> (#[trigger] distinct_faces(fs)[i]).to_multiset()
                != (#[trigger] distinct_faces(fs)[l]).to_multiset(),
    decreases fs.len(),
{
    if fs.len() > 0 {
        let rest = fs.drop_last();
        let d = distinct_faces(rest);
        law_distinct_faces_unique(rest);
        law_distinct_faces_kept(rest);
        let r = distinct_faces(fs);
        if !repeats_earlier(fs, fs.len() - 1) {
            assert forall|i: int, l: int|
                0 <= i < l < r.len() implies (#[trigger] r[i]).to_multiset() != (#[trigger] r[l]).to_multiset() by {
                assert(r[i] == d[i]);
                if l < d.len() {
                    assert(r[l] == d[l]);
                } else {
                    let k = choose|k: int| 0 <= k < rest.len() && #[trigger] d[i] == #[trigger] rest[k];
                    assert(fs[k] == rest[k]);
                    assert(r[l] == fs[fs.len() - 1]);
                    if r[i].to_multiset() == r[l].to_multiset() {
                        assert(fs[k].to_multiset() == fs[fs.len() - 1].to_multiset());
                        assert(repeats_earlier(fs, fs.len() - 1));
                    }
                }
            }
        }
    }
}

} // verus!
