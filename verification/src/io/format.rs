//! Choosing a reader by a file's extension.
use vstd::prelude::*;

verus! {

/// The mesh file formats that can be read.
#[derive(Debug, Clone, Copy, PartialEq, Eq, Structural)]
pub enum MeshFormat {
    /// Wavefront `.obj`.
    Obj,
    /// Blender `.blend`, read through Blender.
    Blend,
}

/// `b` with ASCII capitals made small.
pub open spec fn ascii_lower(b: u8) -> u8 {
    if 65 <= b && b <= 90 {
        (b + 32) as u8
    } else {
        b
    }
}

/// Does the extension `ext` spell `word` (lower case ASCII), ignoring ASCII case?
pub open spec fn spells(ext: Seq<u8>, word: Seq<u8>) -> bool {
    ext.len() == word.len() && forall|i: int| 0 <= i < ext.len() ==> ascii_lower(#[trigger] ext[i]) == word[i]
}

/// The format named by a file extension (given as its bytes), whatever its case:
/// `obj` or `blend`; `None` for any other extension.
pub fn mesh_format(ext: &[u8]) -> (r: Option<MeshFormat>)
    ensures
        r == Some(MeshFormat::Obj) <==> spells(ext@, seq![111u8, 98u8, 106u8]),
        r == Some(MeshFormat::Blend) <==> spells(ext@, seq![98u8, 108u8, 101u8, 110u8, 100u8]),
        r is None <==> !spells(ext@, seq![111u8, 98u8, 106u8]) && !spells(
            ext@,
            seq![98u8, 108u8, 101u8, 110u8, 100u8],
        ),
{
    let obj: Vec<u8> = vec![111u8, 98u8, 106u8];
    let blend: Vec<u8> = vec![98u8, 108u8, 101u8, 110u8, 100u8];
    proof {
        assert(obj@ =~= seq![111u8, 98u8, 106u8]);
        assert(blend@ =~= seq![98u8, 108u8, 101u8, 110u8, 100u8]);
    }
    if spells_word(ext, &obj) {
        proof {
            assert(!spells(ext@, blend@));
        }
        Some(MeshFormat::Obj)
    } else if spells_word(ext, &blend) {
        Some(MeshFormat::Blend)
    } else {
        None
    }
}

fn spells_word(ext: &[u8], word: &Vec<u8>) -> (r: bool)
    ensures
        r == spells(ext@, word@),
{
    if ext.len() != word.len() {
        return false;
    }
    let mut i: usize = 0;
    while i < ext.len()
        invariant
            i <= ext@.len(),
            ext@.len() == word@.len(),
            forall|k: int| 0 <= k < i ==> ascii_lower(#[trigger] ext@[k]) == word@[k],
        decreases ext.len() - i,
    {
        let b = ext[i];
        let lower = if 65 <= b && b <= 90 { b + 32 } else { b };
        if lower != word[i] {
            return false;
        }
        i = i + 1;
    }
    true
}

} // verus!
