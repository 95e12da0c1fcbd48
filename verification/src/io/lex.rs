//! Byte-level lexing of text lines: whitespace splitting, splitting on a separator
//! byte, and unsigned decimal numbers.
//!
//! Lines are handled as their UTF-8 bytes. Whitespace is Unicode's `White_Space`
//! set, recognised by its UTF-8 encodings; no other character's encoding starts
//! with one of those byte sequences, so on valid UTF-8 the splitting is the same as
//! splitting the text at whitespace characters.
use vstd::prelude::*;

verus! {

/// Length in bytes of the whitespace character encoded at `s[i]`, or 0 if none is.
pub open spec fn ws_at(s: Seq<u8>, i: int) -> nat {
    if 0 <= i < s.len() && ((9 <= s[i] && s[i] <= 13) || s[i] == 32) {
        1
    } else if 0 <= i && i + 1 < s.len() && s[i] == 0xc2 && (s[i + 1] == 0x85 || s[i + 1]
        == 0xa0) {
        2
    } else if 0 <= i && i + 2 < s.len() && ((s[i] == 0xe1 && s[i + 1] == 0x9a && s[i + 2]
        == 0x80) || (s[i] == 0xe2 && s[i + 1] == 0x80 && ((0x80 <= s[i + 2] && s[i + 2]
        <= 0x8a) || s[i + 2] == 0xa8 || s[i + 2] == 0xa9 || s[i + 2] == 0xaf)) || (s[i]
        == 0xe2 && s[i + 1] == 0x81 && s[i + 2] == 0x9f) || (s[i] == 0xe3 && s[i + 1]
        == 0x80 && s[i + 2] == 0x80)) {
        3
    } else {
        0
    }
}

/// `cur` as a one-word list, or no word if it is empty.
pub open spec fn word_if_any(cur: Seq<u8>) -> Seq<Seq<u8>> {
    if cur.len() > 0 {
        seq![cur]
    } else {
        Seq::empty()
    }
}

/// The words of `s` from position `i` on, where `cur` is the part of a word read
/// before `i`.
pub open spec fn words_from(s: Seq<u8>, i: int, cur: Seq<u8>) -> Seq<Seq<u8>>
    decreases s.len() - i,
{
    if i < 0 || i >= s.len() {
        word_if_any(cur)
    } else if ws_at(s, i) > 0 {
        word_if_any(cur) + words_from(s, i + ws_at(s, i), Seq::empty())
    } else {
        words_from(s, i + 1, cur.push(s[i]))
    }
}

/// The maximal runs of non-whitespace in `s`, in order.
pub open spec fn words(s: Seq<u8>) -> Seq<Seq<u8>> {
    words_from(s, 0, Seq::empty())
}

/// The pieces of `t` from position `i` on, cut at each byte `sep`, where `cur` is the
/// part of a piece read before `i`.
pub open spec fn pieces_from(t: Seq<u8>, sep: u8, i: int, cur: Seq<u8>) -> Seq<Seq<u8>>
    decreases t.len() - i,
{
    if i < 0 || i >= t.len() {
        seq![cur]
    } else if t[i] == sep {
        seq![cur] + pieces_from(t, sep, i + 1, Seq::empty())
    } else {
        pieces_from(t, sep, i + 1, cur.push(t[i]))
    }
}

/// `t` cut at every byte `sep`: one piece more than there are separators, empty
/// pieces included.
pub open spec fn pieces(t: Seq<u8>, sep: u8) -> Seq<Seq<u8>> {
    pieces_from(t, sep, 0, Seq::empty())
}

/// The views of a list of byte vectors.
pub open spec fn byte_views(v: Seq<Vec<u8>>) -> Seq<Seq<u8>> {
    v.map_values(|b: Vec<u8>| b@)
}

/// Is `b` an ASCII decimal digit?
pub open spec fn is_digit(b: u8) -> bool {
    48 <= b && b <= 57
}

/// The number that the decimal digits `d` spell.
pub open spec fn digits_value(d: Seq<u8>) -> nat
    decreases d.len(),
{
    if d.len() == 0 {
        0
    } else {
        digits_value(d.drop_last()) * 10 + (d.last() - 48) as nat
    }
}

/// `t` without one leading `+`.
pub open spec fn unsigned_digits(t: Seq<u8>) -> Seq<u8> {
    if t.len() > 0 && t[0] == 43 {
        t.drop_first()
    } else {
        t
    }
}

/// The `u32` that `t` spells in decimal: an optional `+`, then one or more digits, of
/// value at most `u32::MAX`; `None` for any other text.
pub open spec fn u32_text(t: Seq<u8>) -> Option<u32> {
    let d = unsigned_digits(t);
    if d.len() > 0 && (forall|i: int| 0 <= i < d.len() ==> is_digit(#[trigger] d[i]))
        && digits_value(d) <= u32::MAX {
        Some(digits_value(d) as u32)
    } else {
        None
    }
}

/// Length of the whitespace character encoded at `s[i]`, or 0.
pub fn whitespace_len(s: &[u8], i: usize) -> (n: usize)
    requires
        i < s@.len(),
    ensures
        n == ws_at(s@, i as int),
{
    let b = s[i];
    if (9 <= b && b <= 13) || b == 32 {
        return 1;
    }
    if i + 1 < s.len() && b == 0xc2 && (s[i + 1] == 0x85 || s[i + 1] == 0xa0) {
        return 2;
    }
    if s.len() - i > 2 {
        let c = s[i + 1];
        let d = s[i + 2];
        if (b == 0xe1 && c == 0x9a && d == 0x80) || (b == 0xe2 && c == 0x80 && ((0x80 <= d && d
            <= 0x8a) || d == 0xa8 || d == 0xa9 || d == 0xaf)) || (b == 0xe2 && c == 0x81 && d
            == 0x9f) || (b == 0xe3 && c == 0x80 && d == 0x80) {
            return 3;
        }
    }
    0
}

proof fn lemma_views_push(v: Seq<Vec<u8>>, x: Vec<u8>)
    ensures
        byte_views(v.push(x)) == byte_views(v).push(x@),
{
    assert(byte_views(v.push(x)) =~= byte_views(v).push(x@));
}

/// Split `s` at whitespace, as `str::split_whitespace` does.
pub fn split_whitespace(s: &[u8]) -> (r: Vec<Vec<u8>>)
    ensures
        byte_views(r@) == words(s@),
{
    let mut out: Vec<Vec<u8>> = Vec::new();
    let mut cur: Vec<u8> = Vec::new();
    let mut i: usize = 0;
    proof {
        assert(byte_views(out@) =~= Seq::<Seq<u8>>::empty());
        assert(cur@ =~= Seq::<u8>::empty());
    }
    while i < s.len()
        invariant
            i <= s@.len(),
            byte_views(out@) + words_from(s@, i as int, cur@) == words(s@),
        decreases s.len() - i,
    {
        let w = whitespace_len(s, i);
        if w > 0 {
            let ghost before = byte_views(out@);
            let ghost c = cur@;
            if cur.len() > 0 {
                proof {
                    lemma_views_push(out@, cur);
                }
                out.push(cur);
            }
            cur = Vec::new();
            proof {
                assert(cur@ =~= Seq::<u8>::empty());
                assert(byte_views(out@) == before + word_if_any(c));
                assert(before + (word_if_any(c) + words_from(s@, i + w, Seq::empty())) =~= (before
                    + word_if_any(c)) + words_from(s@, i + w, Seq::empty()));
            }
            i = i + w;
        } else {
            cur.push(s[i]);
            i = i + 1;
        }
    }
    if cur.len() > 0 {
        proof {
            lemma_views_push(out@, cur);
            assert(byte_views(out@).push(cur@) =~= byte_views(out@) + seq![cur@]);
        }
        out.push(cur);
    } else {
        proof {
            assert(byte_views(out@) + Seq::<Seq<u8>>::empty() =~= byte_views(out@));
        }
    }
    out
}

proof fn lemma_pieces_nonempty(t: Seq<u8>, sep: u8, i: int, cur: Seq<u8>)
    ensures
        pieces_from(t, sep, i, cur).len() >= 1,
    decreases t.len() - i,
{
    if i < 0 || i >= t.len() {
    } else if t[i] == sep {
        lemma_pieces_nonempty(t, sep, i + 1, Seq::empty());
    } else {
        lemma_pieces_nonempty(t, sep, i + 1, cur.push(t[i]));
    }
}

/// Cut `t` at every byte `sep`, as `str::split` with a one-byte pattern does.
pub fn split_at_byte(t: &[u8], sep: u8) -> (r: Vec<Vec<u8>>)
    ensures
        byte_views(r@) == pieces(t@, sep),
        r@.len() >= 1,
{
    proof {
        lemma_pieces_nonempty(t@, sep, 0, Seq::empty());
    }
    let mut out: Vec<Vec<u8>> = Vec::new();
    let mut cur: Vec<u8> = Vec::new();
    let mut i: usize = 0;
    proof {
        assert(byte_views(out@) =~= Seq::<Seq<u8>>::empty());
        assert(cur@ =~= Seq::<u8>::empty());
    }
    while i < t.len()
        invariant
            i <= t@.len(),
            byte_views(out@) + pieces_from(t@, sep, i as int, cur@) == pieces(t@, sep),
        decreases t.len() - i,
    {
        if t[i] == sep {
            let ghost before = byte_views(out@);
            let ghost c = cur@;
            proof {
                lemma_views_push(out@, cur);
            }
            out.push(cur);
            cur = Vec::new();
            proof {
                assert(cur@ =~= Seq::<u8>::empty());
                assert(before + (seq![c] + pieces_from(t@, sep, i + 1, Seq::empty())) =~= before.push(
                    c,
                ) + pieces_from(t@, sep, i + 1, Seq::empty()));
            }
        } else {
            cur.push(t[i]);
        }
        i = i + 1;
    }
    proof {
        lemma_views_push(out@, cur);
        assert(byte_views(out@).push(cur@) =~= byte_views(out@) + seq![cur@]);
    }
    out.push(cur);
    out
}

proof fn lemma_digits_prefix(d: Seq<u8>, k: int)
    requires
        0 <= k < d.len(),
    ensures
        d.take(k + 1).drop_last() == d.take(k),
        d.take(k + 1).last() == d[k],
{
    assert(d.take(k + 1).drop_last() =~= d.take(k));
}

proof fn lemma_digits_monotone(d: Seq<u8>, k: int, m: int)
    requires
        0 <= k <= m <= d.len(),
    ensures
        digits_value(d.take(k)) <= digits_value(d.take(m)),
    decreases m - k,
{
    if k < m {
        lemma_digits_monotone(d, k, m - 1);
        lemma_digits_prefix(d, m - 1);
    }
}

/// Read `t` as a `u32` in decimal, as `str::parse::<u32>` does.
pub fn parse_u32(t: &[u8]) -> (r: Option<u32>)
    ensures
        r == u32_text(t@),
{
    let ghost d = unsigned_digits(t@);
    let start: usize = if t.len() > 0 && t[0] == 43 {
        1
    } else {
        0
    };
    proof {
        assert(d =~= t@.subrange(start as int, t@.len() as int));
    }
    if start >= t.len() {
        return None;
    }
    let mut v: u64 = 0;
    let mut j: usize = start;
    proof {
        assert(d.take(0) =~= Seq::<u8>::empty());
    }
    while j < t.len()
        invariant
            start <= j <= t@.len(),
            start < t@.len(),
            d == t@.subrange(start as int, t@.len() as int),
            d == unsigned_digits(t@),
            v == digits_value(d.take(j - start)),
            v <= u32::MAX,
            forall|i: int| 0 <= i < j - start ==> is_digit(#[trigger] d[i]),
        decreases t.len() - j,
    {
        let b = t[j];
        if b < 48 || b > 57 {
            proof {
                assert(d[j - start] == b);
                assert(!is_digit(d[j - start]));
            }
            return None;
        }
        proof {
            lemma_digits_prefix(d, j - start);
            assert(d[j - start] == b);
        }
        let next: u64 = v * 10 + (b - 48) as u64;
        assert(next == digits_value(d.take(j - start + 1)));
        if next > 0xffff_ffffu64 {
            proof {
                lemma_digits_monotone(d, j - start + 1, d.len() as int);
                assert(d.take(d.len() as int) =~= d);
            }
            return None;
        }
        v = next;
        j = j + 1;
    }
    proof {
        assert(d.take(d.len() as int) =~= d);
    }
    Some(v as u32)
}

} // verus!
