//! The face records the exporter writes read back as the faces they were written
//! from.
use vstd::prelude::*;
use crate::io::lex::{digits_value, is_digit, pieces, pieces_from, u32_text, unsigned_digits, word_if_any, words, words_from, ws_at};
use crate::utils::text::{decimal, digit_char};
use crate::io::obj::{CornerScan, LineMeaning, obj_line, read_corner, read_corners, has_piece, zero_based};
use crate::io::obj_export::{corner_text, corners_text, face_text};
use crate::mesh::halfedge::VertexId;

verus! {

/// The bytes of ASCII text: each character's code.
pub open spec fn ascii_bytes(cs: Seq<char>) -> Seq<u8> {
    cs.map_values(|c: char| c as u8)
}

proof fn lemma_ascii_push(cs: Seq<char>, c: char)
    ensures
        ascii_bytes(cs.push(c)) == ascii_bytes(cs).push(c as u8),
{
    assert(ascii_bytes(cs.push(c)) =~= ascii_bytes(cs).push(c as u8));
}

/// The decimal text of a `u32` reads back as that number.
pub proof fn lemma_decimal_reads_back(n: nat)
    requires
        n <= u32::MAX,
    ensures
        ascii_bytes(decimal(n)).len() > 0,
        forall|i: int| 0 <= i < ascii_bytes(decimal(n)).len() ==> is_digit(#[trigger] ascii_bytes(decimal(n))[i]),
        digits_value(ascii_bytes(decimal(n))) == n,
        u32_text(ascii_bytes(decimal(n))) == Some(n as u32),
    decreases n,
{
    let t = ascii_bytes(decimal(n));
    if n < 10 {
        assert(decimal(n) == seq![digit_char(n)]);
        assert(t[0] == (48 + n) as u8);
        assert(t.drop_last() =~= Seq::<u8>::empty());
        assert(t.last() == t[0]);
        assert(digits_value(t) == digits_value(t.drop_last()) * 10 + (t.last() - 48) as nat);
    } else {
        lemma_decimal_reads_back(n / 10);
        let d = decimal(n / 10);
        let c = digit_char(n % 10);
        assert(decimal(n) == d.push(c));
        lemma_ascii_push(d, c);
        assert(t.drop_last() =~= ascii_bytes(d));
        assert(t.last() == (48 + n % 10) as u8);
        assert(digits_value(t) == digits_value(t.drop_last()) * 10 + (t.last() - 48) as nat);
        assert((n / 10) * 10 + n % 10 == n) by (nonlinear_arith);
        assert forall|i: int| 0 <= i < t.len() implies is_digit(#[trigger] t[i]) by {
            if i < t.len() - 1 {
                assert(t[i] == ascii_bytes(d)[i]);
            }
        }
    }
    assert(unsigned_digits(t) == t);
}

proof fn lemma_ascii_add(a: Seq<char>, b: Seq<char>)
    ensures
        ascii_bytes(a + b) == ascii_bytes(a) + ascii_bytes(b),
{
    assert(ascii_bytes(a + b) =~= ascii_bytes(a) + ascii_bytes(b));
}

/// A corner record without its leading space.
pub open spec fn corner_word(idx: nat, has_normals: bool, has_uvs: bool) -> Seq<char> {
    let d = decimal(idx);
    d + if has_normals && has_uvs {
        seq!['/'] + d + seq!['/'] + d
    } else if has_uvs {
        seq!['/'] + d
    } else if has_normals {
        seq!['/', '/'] + d
    } else {
        Seq::empty()
    }
}

/// The corner records of `vs[k..]`, front to back.
pub open spec fn corners_from(vs: Seq<VertexId>, k: int, has_normals: bool, has_uvs: bool) -> Seq<char>
    decreases vs.len() - k,
{
    if k < 0 || k >= vs.len() {
        Seq::empty()
    } else {
        corner_text((vs[k].0 + 1) as nat, has_normals, has_uvs) + corners_from(vs, k + 1, has_normals, has_uvs)
    }
}

/// The words of the corner records of `vs[k..]`.
pub open spec fn corner_words(vs: Seq<VertexId>, k: int, has_normals: bool, has_uvs: bool) -> Seq<Seq<u8>> {
    Seq::new(
        (vs.len() - k) as nat,
        |m: int| ascii_bytes(corner_word((vs[k + m].0 + 1) as nat, has_normals, has_uvs)),
    )
}

proof fn lemma_corners_split(vs: Seq<VertexId>, k: int, has_normals: bool, has_uvs: bool)
    requires
        0 <= k <= vs.len(),
    ensures
        corners_text(vs.take(k), has_normals, has_uvs) + corners_from(vs, k, has_normals, has_uvs) == corners_text(
            vs,
            has_normals,
            has_uvs,
        ),
    decreases vs.len() - k,
{
    if k == vs.len() {
        assert(vs.take(k) =~= vs);
        assert(corners_text(vs, has_normals, has_uvs) + Seq::<char>::empty() =~= corners_text(vs, has_normals, has_uvs));
    } else {
        lemma_corners_split(vs, k + 1, has_normals, has_uvs);
        assert(vs.take(k + 1).drop_last() =~= vs.take(k));
        let a = corners_text(vs.take(k), has_normals, has_uvs);
        let c = corner_text((vs[k].0 + 1) as nat, has_normals, has_uvs);
        let r = corners_from(vs, k + 1, has_normals, has_uvs);
        assert(a + (c + r) =~= (a + c) + r);
    }
}

/// The bytes of a corner word are digits and slashes.
proof fn lemma_corner_word_bytes(idx: nat, has_normals: bool, has_uvs: bool)
    requires
        idx <= u32::MAX,
    ensures
        ascii_bytes(corner_word(idx, has_normals, has_uvs)).len() > 0,
        forall|p: int|
            0 <= p < ascii_bytes(corner_word(idx, has_normals, has_uvs)).len() ==> is_digit(
                #[trigger] ascii_bytes(corner_word(idx, has_normals, has_uvs))[p],
            ) || ascii_bytes(corner_word(idx, has_normals, has_uvs))[p] == 47,
{
    lemma_decimal_reads_back(idx);
    let d = decimal(idx);
    let w = corner_word(idx, has_normals, has_uvs);
    let b = ascii_bytes(w);
    assert forall|p: int| 0 <= p < b.len() implies is_digit(#[trigger] b[p]) || b[p] == 47 by {
        let dl = d.len() as int;
        if p < dl {
            assert(b[p] == ascii_bytes(d)[p]);
        } else if has_normals && has_uvs {
            if p == dl || p == 2 * dl + 1 {
            } else if p < 2 * dl + 1 {
                assert(b[p] == ascii_bytes(d)[p - dl - 1]);
            } else {
                assert(b[p] == ascii_bytes(d)[p - 2 * dl - 2]);
            }
        } else if has_uvs {
            if p > dl {
                assert(b[p] == ascii_bytes(d)[p - dl - 1]);
            }
        } else if has_normals {
            if p > dl + 1 {
                assert(b[p] == ascii_bytes(d)[p - dl - 2]);
            }
        }
    }
}

/// A run of bytes without whitespace joins the word being read.
proof fn lemma_words_run(s: Seq<u8>, i: int, j: int, cur: Seq<u8>)
    requires
        0 <= i <= j <= s.len(),
        forall|p: int| i <= p < j ==> ws_at(s, p) == 0,
    ensures
        words_from(s, i, cur) == words_from(s, j, cur + s.subrange(i, j)),
    decreases j - i,
{
    if i == j {
        assert(cur + s.subrange(i, j) =~= cur);
    } else {
        lemma_words_run(s, i + 1, j, cur.push(s[i]));
        assert(cur.push(s[i]) + s.subrange(i + 1, j) =~= cur + s.subrange(i, j));
    }
}

/// The words of the text from a corner record on, up to the closing line break.
proof fn lemma_words_tail(s: Seq<u8>, i: int, vs: Seq<VertexId>, k: int, has_normals: bool, has_uvs: bool, cur: Seq<u8>)
    requires
        0 <= i <= s.len(),
        0 <= k <= vs.len(),
        forall|m: int| 0 <= m < vs.len() ==> (#[trigger] vs[m]).0 < u32::MAX,
        s.subrange(i, s.len() as int) == ascii_bytes(corners_from(vs, k, has_normals, has_uvs) + seq!['\n']),
    ensures
        words_from(s, i, cur) == word_if_any(cur) + corner_words(vs, k, has_normals, has_uvs),
    decreases vs.len() - k,
{
    let tail = s.subrange(i, s.len() as int);
    if k == vs.len() {
        assert(corners_from(vs, k, has_normals, has_uvs) + seq!['\n'] =~= seq!['\n']);
        assert(tail.len() == 1);
        assert(s[i] == tail[0]);
        assert(s[i] == 10);
        assert(words_from(s, i + 1, Seq::empty()) == word_if_any(Seq::<u8>::empty()));
        assert(corner_words(vs, k, has_normals, has_uvs) =~= Seq::<Seq<u8>>::empty());
        assert(word_if_any(cur) + Seq::<Seq<u8>>::empty() =~= word_if_any(cur));
        assert(word_if_any(Seq::<u8>::empty()) =~= Seq::<Seq<u8>>::empty());
        assert(word_if_any(cur) + word_if_any(Seq::<u8>::empty()) =~= word_if_any(cur));
    } else {
        let idx = (vs[k].0 + 1) as nat;
        let cw = corner_word(idx, has_normals, has_uvs);
        let w = ascii_bytes(cw);
        let rest = corners_from(vs, k + 1, has_normals, has_uvs) + seq!['\n'];
        lemma_corner_word_bytes(idx, has_normals, has_uvs);
        assert(corner_text(idx, has_normals, has_uvs) =~= seq![' '] + cw);
        assert(corners_from(vs, k, has_normals, has_uvs) + seq!['\n'] =~= seq![' '] + cw + rest);
        lemma_ascii_add(seq![' '] + cw, rest);
        lemma_ascii_add(seq![' '], cw);
        assert(ascii_bytes(seq![' ']) =~= seq![32u8]);
        assert(tail =~= seq![32u8] + w + ascii_bytes(rest));
        let wl = w.len() as int;
        assert(tail.len() == 1 + wl + ascii_bytes(rest).len());
        assert(i + 1 + wl <= s.len());
        assert(s[i] == tail[0]);
        assert(ws_at(s, i) == 1);
        assert forall|p: int| i + 1 <= p < i + 1 + wl implies ws_at(s, p) == 0 by {
            assert(s[p] == tail[p - i]);
            assert(tail[p - i] == w[p - i - 1]);
        }
        lemma_words_run(s, i + 1, i + 1 + wl, Seq::empty());
        assert forall|q: int| 0 <= q < wl implies s.subrange(i + 1, i + 1 + wl)[q] == w[q] by {
            assert(s[i + 1 + q] == tail[1 + q]);
        }
        assert(s.subrange(i + 1, i + 1 + wl) =~= w);
        assert(Seq::<u8>::empty() + w =~= w);
        assert forall|q: int| 0 <= q < ascii_bytes(rest).len() implies s.subrange(i + 1 + wl, s.len() as int)[q]
            == ascii_bytes(rest)[q] by {
            assert(s[i + 1 + wl + q] == tail[1 + wl + q]);
        }
        assert(s.subrange(i + 1 + wl, s.len() as int) =~= ascii_bytes(rest));
        lemma_words_tail(s, i + 1 + wl, vs, k + 1, has_normals, has_uvs, w);
        assert(word_if_any(Seq::<u8>::empty()) =~= Seq::<Seq<u8>>::empty());
        assert(corner_words(vs, k, has_normals, has_uvs) =~= seq![w] + corner_words(vs, k + 1, has_normals, has_uvs));
        assert(word_if_any(cur) + (Seq::<Seq<u8>>::empty() + (seq![w] + corner_words(vs, k + 1, has_normals, has_uvs)))
            =~= word_if_any(cur) + corner_words(vs, k, has_normals, has_uvs));
    }
}

/// The words of a face record: `f`, then one word per corner.
proof fn lemma_face_words(vs: Seq<VertexId>, has_normals: bool, has_uvs: bool)
    requires
        forall|m: int| 0 <= m < vs.len() ==> (#[trigger] vs[m]).0 < u32::MAX,
    ensures
        words(ascii_bytes(face_text(vs, has_normals, has_uvs))) == seq![seq![102u8]] + corner_words(
            vs,
            0,
            has_normals,
            has_uvs,
        ),
{
    let s = ascii_bytes(face_text(vs, has_normals, has_uvs));
    lemma_corners_split(vs, 0, has_normals, has_uvs);
    assert(vs.take(0) =~= Seq::<VertexId>::empty());
    let body = corners_from(vs, 0, has_normals, has_uvs) + seq!['\n'];
    assert(face_text(vs, has_normals, has_uvs) =~= seq!['f'] + body);
    lemma_ascii_add(seq!['f'], body);
    assert(ascii_bytes(seq!['f']) =~= seq![102u8]);
    assert(s =~= seq![102u8] + ascii_bytes(body));
    assert(ws_at(s, 0) == 0);
    lemma_words_run(s, 0, 1, Seq::empty());
    assert(Seq::<u8>::empty() + s.subrange(0, 1) =~= seq![102u8]);
    assert(s.subrange(1, s.len() as int) =~= ascii_bytes(body));
    lemma_words_tail(s, 1, vs, 0, has_normals, has_uvs, seq![102u8]);
}

/// A run of bytes without the separator joins the piece being read.
proof fn lemma_pieces_run(t: Seq<u8>, sep: u8, i: int, j: int, cur: Seq<u8>)
    requires
        0 <= i <= j <= t.len(),
        forall|p: int| i <= p < j ==> t[p] != sep,
    ensures
        pieces_from(t, sep, i, cur) == pieces_from(t, sep, j, cur + t.subrange(i, j)),
    decreases j - i,
{
    if i == j {
        assert(cur + t.subrange(i, j) =~= cur);
    } else {
        lemma_pieces_run(t, sep, i + 1, j, cur.push(t[i]));
        assert(cur.push(t[i]) + t.subrange(i + 1, j) =~= cur + t.subrange(i, j));
    }
}

/// The pieces of a corner word cut at `/`: the index once, twice (`v/vt`), with an
/// empty piece between (`v//vn`), or three times (`v/vt/vn`).
pub open spec fn corner_pieces(d: Seq<u8>, has_normals: bool, has_uvs: bool) -> Seq<Seq<u8>> {
    if has_normals && has_uvs {
        seq![d, d, d]
    } else if has_uvs {
        seq![d, d]
    } else if has_normals {
        seq![d, Seq::empty(), d]
    } else {
        seq![d]
    }
}

/// A run of digits `d` at `start`, ended by the text's end or a `/`, is one piece.
proof fn lemma_digit_piece(t: Seq<u8>, start: int, d: Seq<u8>)
    requires
        0 <= start,
        start + d.len() <= t.len(),
        t.subrange(start, start + d.len()) == d,
        forall|p: int| 0 <= p < d.len() ==> is_digit(#[trigger] d[p]),
        start + d.len() == t.len() || t[start + d.len()] == 47u8,
    ensures
        pieces_from(t, 47u8, start, Seq::empty()) == seq![d] + if start + d.len() == t.len() {
            Seq::<Seq<u8>>::empty()
        } else {
            pieces_from(t, 47u8, start + d.len() + 1, Seq::empty())
        },
{
    let e = start + d.len();
    assert forall|p: int| start <= p < e implies t[p] != 47u8 by {
        assert(t[p] == d[p - start]);
        assert(is_digit(d[p - start]));
    }
    lemma_pieces_run(t, 47u8, start, e, Seq::empty());
    assert(Seq::<u8>::empty() + t.subrange(start, e) =~= d);
    if e == t.len() {
        assert(seq![d] + Seq::<Seq<u8>>::empty() =~= seq![d]);
    }
}

proof fn lemma_corner_pieces(idx: nat, has_normals: bool, has_uvs: bool)
    requires
        idx <= u32::MAX,
    ensures
        pieces(ascii_bytes(corner_word(idx, has_normals, has_uvs)), 47u8) == corner_pieces(
            ascii_bytes(decimal(idx)),
            has_normals,
            has_uvs,
        ),
{
    lemma_decimal_reads_back(idx);
    let dc = decimal(idx);
    let d = ascii_bytes(dc);
    let l = d.len() as int;
    let t = ascii_bytes(corner_word(idx, has_normals, has_uvs));
    let e = Seq::<u8>::empty();
    assert(ascii_bytes(seq!['/']) =~= seq![47u8]);
    if has_normals && has_uvs {
        lemma_ascii_add(dc, seq!['/'] + dc + seq!['/'] + dc);
        lemma_ascii_add(seq!['/'] + dc + seq!['/'], dc);
        lemma_ascii_add(seq!['/'] + dc, seq!['/']);
        lemma_ascii_add(seq!['/'], dc);
        assert(t =~= d + seq![47u8] + d + seq![47u8] + d);
        assert(t.subrange(0, l) =~= d);
        assert(t.subrange(l + 1, 2 * l + 1) =~= d);
        assert(t.subrange(2 * l + 2, 3 * l + 2) =~= d);
        lemma_digit_piece(t, 0, d);
        lemma_digit_piece(t, l + 1, d);
        lemma_digit_piece(t, 2 * l + 2, d);
        assert(pieces(t, 47u8) =~= corner_pieces(d, has_normals, has_uvs));
    } else if has_uvs {
        lemma_ascii_add(dc, seq!['/'] + dc);
        lemma_ascii_add(seq!['/'], dc);
        assert(t =~= d + seq![47u8] + d);
        assert(t.subrange(0, l) =~= d);
        assert(t.subrange(l + 1, 2 * l + 1) =~= d);
        lemma_digit_piece(t, 0, d);
        lemma_digit_piece(t, l + 1, d);
        assert(pieces(t, 47u8) =~= corner_pieces(d, has_normals, has_uvs));
    } else if has_normals {
        lemma_ascii_add(dc, seq!['/', '/'] + dc);
        lemma_ascii_add(seq!['/', '/'], dc);
        assert(ascii_bytes(seq!['/', '/']) =~= seq![47u8, 47u8]);
        assert(t =~= d + seq![47u8, 47u8] + d);
        assert(t.subrange(0, l) =~= d);
        assert(t.subrange(l + 2, 2 * l + 2) =~= d);
        lemma_digit_piece(t, 0, d);
        lemma_digit_piece(t, l + 2, d);
        assert(pieces_from(t, 47u8, l + 1, e) == seq![e] + pieces_from(t, 47u8, l + 2, e));
        assert(pieces(t, 47u8) =~= corner_pieces(d, has_normals, has_uvs));
    } else {
        assert(corner_word(idx, has_normals, has_uvs) =~= dc);
        assert(t.subrange(0, l) =~= d);
        lemma_digit_piece(t, 0, d);
        assert(pieces(t, 47u8) =~= corner_pieces(d, has_normals, has_uvs));
    }
}

/// The vertex ids of `vs`.
pub open spec fn vertex_indices(vs: Seq<VertexId>) -> Seq<u32> {
    vs.map_values(|v: VertexId| v.0)
}

/// Reading a corner word gives back the corner's vertex index, and the same index
/// for the texture coordinate and the normal where they are written.
proof fn lemma_read_corner_word(v: Seq<u32>, t: Seq<u32>, n: Seq<u32>, x: u32, has_normals: bool, has_uvs: bool)
    requires
        x < u32::MAX,
    ensures
        read_corner(v, t, n, ascii_bytes(corner_word((x + 1) as nat, has_normals, has_uvs))) == CornerScan::Read(
            v.push(x),
            if has_uvs {
                t.push(x)
            } else {
                t
            },
            if has_normals {
                n.push(x)
            } else {
                n
            },
        ),
{
    let idx = (x + 1) as nat;
    lemma_decimal_reads_back(idx);
    lemma_corner_pieces(idx, has_normals, has_uvs);
    let d = ascii_bytes(decimal(idx));
    let f = pieces(ascii_bytes(corner_word(idx, has_normals, has_uvs)), 47u8);
    assert(u32_text(f[0]) == Some(idx as u32));
    assert(zero_based(idx as u32) == x);
    assert(has_piece(f, 1) == has_uvs);
    assert(has_piece(f, 2) == has_normals);
}

proof fn lemma_read_corner_words(vs: Seq<VertexId>, m: int, has_normals: bool, has_uvs: bool)
    requires
        0 <= m <= vs.len(),
        forall|q: int| 0 <= q < vs.len() ==> (#[trigger] vs[q]).0 < u32::MAX,
    ensures
        read_corners(corner_words(vs, 0, has_normals, has_uvs).take(m)) == CornerScan::Read(
            vertex_indices(vs.take(m)),
            if has_uvs {
                vertex_indices(vs.take(m))
            } else {
                Seq::empty()
            },
            if has_normals {
                vertex_indices(vs.take(m))
            } else {
                Seq::empty()
            },
        ),
    decreases m,
{
    let cws = corner_words(vs, 0, has_normals, has_uvs);
    if m == 0 {
        assert(cws.take(0) =~= Seq::<Seq<u8>>::empty());
        assert(vertex_indices(vs.take(0)) =~= Seq::<u32>::empty());
    } else {
        lemma_read_corner_words(vs, m - 1, has_normals, has_uvs);
        assert(cws.take(m).drop_last() =~= cws.take(m - 1));
        assert(cws.take(m).last() == ascii_bytes(corner_word((vs[m - 1].0 + 1) as nat, has_normals, has_uvs)));
        let prev = vertex_indices(vs.take(m - 1));
        lemma_read_corner_word(
            prev,
            if has_uvs { prev } else { Seq::empty() },
            if has_normals { prev } else { Seq::empty() },
            vs[m - 1].0,
            has_normals,
            has_uvs,
        );
        assert(vertex_indices(vs.take(m)) =~= prev.push(vs[m - 1].0));
    }
}

/// A face record written by the exporter reads back as the face it was written from:
/// its vertex ids in order (the record is 1-based, reading makes them 0-based again),
/// and the same ids for texture coordinates and normals where the record gives them.
/// The record is ASCII, so its bytes are its characters' codes.
pub proof fn law_face_record_reads_back(vs: Seq<VertexId>, has_normals: bool, has_uvs: bool)
    requires
        vs.len() >= 3,
        forall|m: int| 0 <= m < vs.len() ==> (#[trigger] vs[m]).0 < u32::MAX,
    ensures
        obj_line(ascii_bytes(face_text(vs, has_normals, has_uvs))) == LineMeaning::Face(
            vertex_indices(vs),
            if has_uvs {
                vertex_indices(vs)
            } else {
                Seq::empty()
            },
            if has_normals {
                vertex_indices(vs)
            } else {
                Seq::empty()
            },
        ),
{
    lemma_face_words(vs, has_normals, has_uvs);
    let cws = corner_words(vs, 0, has_normals, has_uvs);
    let w = words(ascii_bytes(face_text(vs, has_normals, has_uvs)));
    lemma_read_corner_words(vs, vs.len() as int, has_normals, has_uvs);
    assert(cws.take(vs.len() as int) =~= cws);
    assert(vs.take(vs.len() as int) =~= vs);
    assert(w.drop_first() =~= cws);
    assert(w[0] == seq![102u8]);
    assert(w[0] != seq![118u8]);
    assert(w[0] != seq![118u8, 110u8]);
    assert(w[0] != seq![118u8, 116u8]);
}

} // verus!
