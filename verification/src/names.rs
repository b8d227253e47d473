//! Entry-name policy: which archive entries may serve as the metadata
//! document, and which stored names are safe as relative paths.
//!
//! Matching is case-insensitive over ASCII. A name is *selected* as a
//! metadata candidate when it is a safe relative path, its file name has
//! the `.xml` extension, and it is not one of the reserved documents
//! `songs.xml`, `images.xml`, `anims.xml`.

use vstd::prelude::*;

verus! {

/// Lower-cases one ASCII byte; all other bytes are unchanged.
pub open spec fn lower_byte(b: u8) -> u8 {
    if 0x41 <= b <= 0x5a {
        (b + 0x20) as u8
    } else {
        b
    }
}

/// ASCII lower-casing of a byte sequence.
pub open spec fn lower_seq(s: Seq<u8>) -> Seq<u8> {
    s.map_values(|b: u8| lower_byte(b))
}

/// Executable ASCII lower-casing of one byte.
pub fn to_lower_byte(b: u8) -> (r: u8)
    ensures
        r == lower_byte(b),
{
    if 0x41 <= b && b <= 0x5a {
        b + 0x20
    } else {
        b
    }
}

/// The bytes of `.xml`.
pub open spec fn xml_ext_bytes() -> Seq<u8> {
    seq![0x2eu8, 0x78, 0x6d, 0x6c]
}

/// The bytes of `info.xml`.
pub open spec fn info_xml_bytes() -> Seq<u8> {
    seq![0x69u8, 0x6e, 0x66, 0x6f, 0x2e, 0x78, 0x6d, 0x6c]
}

/// The bytes of `songs.xml`.
pub open spec fn songs_xml_bytes() -> Seq<u8> {
    seq![0x73u8, 0x6f, 0x6e, 0x67, 0x73, 0x2e, 0x78, 0x6d, 0x6c]
}

/// The bytes of `images.xml`.
pub open spec fn images_xml_bytes() -> Seq<u8> {
    seq![0x69u8, 0x6d, 0x61, 0x67, 0x65, 0x73, 0x2e, 0x78, 0x6d, 0x6c]
}

/// The bytes of `anims.xml`.
pub open spec fn anims_xml_bytes() -> Seq<u8> {
    seq![0x61u8, 0x6e, 0x69, 0x6d, 0x73, 0x2e, 0x78, 0x6d, 0x6c]
}

/// The lower-cased suffix of `path` of `pat`'s length equals `pat`.
pub open spec fn suffix_lower_is(path: Seq<u8>, pat: Seq<u8>) -> bool {
    &&& path.len() >= pat.len()
    &&& lower_seq(path.subrange(path.len() - pat.len(), path.len() as int)) == pat
}

/// The file name of `path` (the part after the last `/`) equals `pat`,
/// case-insensitively. `pat` must itself contain no `/`.
pub open spec fn file_name_is(path: Seq<u8>, pat: Seq<u8>) -> bool {
    &&& suffix_lower_is(path, pat)
    &&& (path.len() == pat.len() || path[path.len() - pat.len() - 1] == 0x2f)
}

/// The file name of `path` carries the `.xml` extension (case-insensitively).
pub open spec fn has_xml_ext(path: Seq<u8>) -> bool {
    suffix_lower_is(path, xml_ext_bytes())
}

/// The file name of `path` is the canonical metadata name `info.xml`.
pub open spec fn is_info_path(path: Seq<u8>) -> bool {
    file_name_is(path, info_xml_bytes())
}

/// The file name of `path` is one of the reserved document names, which
/// are never metadata candidates.
pub open spec fn is_reserved_path(path: Seq<u8>) -> bool {
    ||| file_name_is(path, songs_xml_bytes())
    ||| file_name_is(path, images_xml_bytes())
    ||| file_name_is(path, anims_xml_bytes())
}

/// The name qualifies as a metadata candidate: an `.xml` file that is not
/// one of the reserved documents.
pub open spec fn is_candidate_path(path: Seq<u8>) -> bool {
    has_xml_ext(path) && !is_reserved_path(path)
}

/// A byte that may not appear in a safe relative path: a backslash, a
/// drive-prefix colon, or a NUL.
pub open spec fn bad_path_byte(b: u8) -> bool {
    b == 0x5c || b == 0x3a || b == 0x00
}

/// A parent-directory traversal segment `..` stands at position `j` of `s`.
pub open spec fn dotdot_at(s: Seq<u8>, j: int) -> bool {
    &&& 0 <= j && j + 2 <= s.len()
    &&& s[j] == 0x2e && s[j + 1] == 0x2e
    &&& (j == 0 || s[j - 1] == 0x2f)
    &&& (j + 2 == s.len() || s[j + 2] == 0x2f)
}

/// A stored name is safe as a relative path: non-empty, not absolute, free
/// of backslashes, colons and NULs, and without a `..` segment.
pub open spec fn is_safe_path(s: Seq<u8>) -> bool {
    &&& s.len() > 0
    &&& s[0] != 0x2f
    &&& forall|k: int| 0 <= k < s.len() ==> !bad_path_byte(#[trigger] s[k])
    &&& forall|j: int| !dotdot_at(s, j)
}

/// The whole selection policy for one entry name.
pub open spec fn is_selected_name(s: Seq<u8>) -> bool {
    is_safe_path(s) && is_candidate_path(s)
}

/// Does the lower-cased suffix of `path` equal `pat`?
fn suffix_lower_eq(path: &Vec<u8>, pat: &Vec<u8>) -> (r: bool)
    ensures
        r == suffix_lower_is(path@, pat@),
{
    if path.len() < pat.len() {
        return false;
    }
    let off = path.len() - pat.len();
    let mut k: usize = 0;
    while k < pat.len()
        invariant
            0 <= k <= pat.len(),
            pat.len() <= path.len(),
            off == path.len() - pat.len(),
            forall|m: int| 0 <= m < k ==> lower_byte(path@[off + m]) == pat@[m],
        decreases pat.len() - k,
    {
        if to_lower_byte(path[off + k]) != pat[k] {
            assert(lower_seq(path@.subrange(off as int, path@.len() as int))[k as int] != pat@[k as int]);
            return false;
        }
        k = k + 1;
    }
    assert(lower_seq(path@.subrange(off as int, path@.len() as int)) =~= pat@);
    true
}

/// Does the file name of `path` equal `pat`, case-insensitively?
fn file_name_eq(path: &Vec<u8>, pat: &Vec<u8>) -> (r: bool)
    ensures
        r == file_name_is(path@, pat@),
{
    if path.len() < pat.len() {
        return false;
    }
    let off = path.len() - pat.len();
    if off > 0 && path[off - 1] != 0x2f {
        return false;
    }
    suffix_lower_eq(path, pat)
}

/// The bytes of `.xml`, as a vector.
fn xml_ext_vec() -> (v: Vec<u8>)
    ensures
        v@ == xml_ext_bytes(),
{
    let mut v: Vec<u8> = Vec::new();
    v.push(0x2e);
    v.push(0x78);
    v.push(0x6d);
    v.push(0x6c);
    assert(v@ =~= xml_ext_bytes());
    v
}

/// The bytes of `songs.xml`, as a vector.
fn songs_xml_vec() -> (v: Vec<u8>)
    ensures
        v@ == songs_xml_bytes(),
{
    let mut v: Vec<u8> = Vec::new();
    v.push(0x73);
    v.push(0x6f);
    v.push(0x6e);
    v.push(0x67);
    v.push(0x73);
    v.push(0x2e);
    v.push(0x78);
    v.push(0x6d);
    v.push(0x6c);
    assert(v@ =~= songs_xml_bytes());
    v
}

/// The bytes of `images.xml`, as a vector.
fn images_xml_vec() -> (v: Vec<u8>)
    ensures
        v@ == images_xml_bytes(),
{
    let mut v: Vec<u8> = Vec::new();
    v.push(0x69);
    v.push(0x6d);
    v.push(0x61);
    v.push(0x67);
    v.push(0x65);
    v.push(0x73);
    v.push(0x2e);
    v.push(0x78);
    v.push(0x6d);
    v.push(0x6c);
    assert(v@ =~= images_xml_bytes());
    v
}

/// The bytes of `anims.xml`, as a vector.
fn anims_xml_vec() -> (v: Vec<u8>)
    ensures
        v@ == anims_xml_bytes(),
{
    let mut v: Vec<u8> = Vec::new();
    v.push(0x61);
    v.push(0x6e);
    v.push(0x69);
    v.push(0x6d);
    v.push(0x73);
    v.push(0x2e);
    v.push(0x78);
    v.push(0x6d);
    v.push(0x6c);
    assert(v@ =~= anims_xml_bytes());
    v
}

/// Is the stored name a metadata candidate (an `.xml` file that is not
/// reserved)?
pub fn is_candidate_name(path: &Vec<u8>) -> (r: bool)
    ensures
        r == is_candidate_path(path@),
{
    let ext = xml_ext_vec();
    if !suffix_lower_eq(path, &ext) {
        return false;
    }
    let songs = songs_xml_vec();
    let images = images_xml_vec();
    let anims = anims_xml_vec();
    !file_name_eq(path, &songs) && !file_name_eq(path, &images) && !file_name_eq(path, &anims)
}

/// Is the stored name safe as a relative path?
pub fn is_safe_name(path: &Vec<u8>) -> (r: bool)
    ensures
        r == is_safe_path(path@),
{
    if path.len() == 0 {
        return false;
    }
    if path[0] == 0x2f {
        return false;
    }
    let n = path.len();
    let mut i: usize = 0;
    while i < n
        invariant
            0 <= i <= n,
            n == path@.len(),
            forall|k: int| 0 <= k < i ==> !bad_path_byte(#[trigger] path@[k]),
            forall|j: int| j < i ==> !dotdot_at(path@, j),
        decreases n - i,
    {
        let b = path[i];
        if b == 0x5c || b == 0x3a || b == 0x00 {
            return false;
        }
        if b == 0x2e && i + 1 < n && path[i + 1] == 0x2e && (i == 0 || path[i - 1] == 0x2f) && (i
            + 2 == n || path[i + 2] == 0x2f) {
            assert(dotdot_at(path@, i as int));
            return false;
        }
        assert(!dotdot_at(path@, i as int));
        i = i + 1;
    }
    assert(forall|j: int| !dotdot_at(path@, j)) by {
        assert forall|j: int| !dotdot_at(path@, j) by {
            if j >= n {
                assert(!dotdot_at(path@, j));
            }
        }
    }
    true
}

/// The whole selection policy for one entry name.
pub fn is_selected(path: &Vec<u8>) -> (r: bool)
    ensures
        r == is_selected_name(path@),
{
    is_safe_name(path) && is_candidate_name(path)
}

/// Reserved documents are never selected as metadata candidates, whatever
/// else their name looks like.
pub proof fn lemma_reserved_never_selected(path: Seq<u8>)
    requires
        is_reserved_path(path),
    ensures
        !is_selected_name(path),
{
}

/// A stored name with a parent-directory traversal segment is never safe,
/// and so never selected.
pub proof fn lemma_traversal_never_selected(path: Seq<u8>, j: int)
    requires
        dotdot_at(path, j),
    ensures
        !is_safe_path(path),
        !is_selected_name(path),
{
}

/// Lower-casing two sequences to the same result lower-cases all their
/// subranges to the same result.
proof fn lemma_lower_subrange(a: Seq<u8>, b: Seq<u8>, x: int, y: int)
    requires
        lower_seq(a) == lower_seq(b),
        a.len() == b.len(),
        0 <= x <= y <= a.len(),
    ensures
        lower_seq(a.subrange(x, y)) == lower_seq(b.subrange(x, y)),
{
    assert forall|i: int| 0 <= i < y - x implies lower_seq(a.subrange(x, y))[i] == lower_seq(
        b.subrange(x, y),
    )[i] by {
        assert(a.subrange(x, y)[i] == a[x + i]);
        assert(b.subrange(x, y)[i] == b[x + i]);
        assert(lower_seq(a.subrange(x, y))[i] == lower_byte(a[x + i]));
        assert(lower_seq(b.subrange(x, y))[i] == lower_byte(b[x + i]));
        assert(lower_seq(a)[x + i] == lower_byte(a[x + i]));
        assert(lower_seq(b)[x + i] == lower_byte(b[x + i]));
    }
    assert(lower_seq(a.subrange(x, y)) =~= lower_seq(b.subrange(x, y)));
}

/// Entry-name matching is case-insensitive: names equal up to ASCII case
/// are selected identically, canonical-name and candidate status included.
pub proof fn lemma_selection_case_insensitive(a: Seq<u8>, b: Seq<u8>)
    requires
        lower_seq(a) == lower_seq(b),
    ensures
        is_info_path(a) == is_info_path(b),
        is_candidate_path(a) == is_candidate_path(b),
        is_safe_path(a) == is_safe_path(b),
        is_selected_name(a) == is_selected_name(b),
{
    assert(a.len() == b.len()) by {
        assert(lower_seq(a).len() == a.len());
        assert(lower_seq(b).len() == b.len());
    }
    let n = a.len() as int;
    assert forall|i: int| 0 <= i < n implies lower_byte(a[i]) == lower_byte(b[i]) by {
        assert(lower_seq(a)[i] == lower_byte(a[i]));
        assert(lower_seq(b)[i] == lower_byte(b[i]));
    }
    // Bytes with special meaning for the policy are not letters, so they
    // survive lower-casing unchanged and have no other preimage under it.
    assert forall|i: int| 0 <= i < n implies (a[i] == 0x2f) == (b[i] == 0x2f) && (a[i] == 0x2e) == (
    b[i] == 0x2e) && (a[i] == 0x5c) == (b[i] == 0x5c) && (a[i] == 0x3a) == (b[i] == 0x3a) && (a[i]
        == 0x00) == (b[i] == 0x00) by {
        assert(lower_byte(a[i]) == lower_byte(b[i]));
    }
    assert forall|pat: Seq<u8>| #[trigger] suffix_lower_is(a, pat) == suffix_lower_is(b, pat) by {
        if pat.len() <= n {
            lemma_lower_subrange(a, b, n - pat.len(), n);
        }
    }
    assert forall|pat: Seq<u8>| #[trigger] file_name_is(a, pat) == file_name_is(b, pat) by {
        assert(suffix_lower_is(a, pat) == suffix_lower_is(b, pat));
    }
    assert(has_xml_ext(a) == has_xml_ext(b)) by {
        assert(suffix_lower_is(a, xml_ext_bytes()) == suffix_lower_is(b, xml_ext_bytes()));
    }
    assert forall|j: int| dotdot_at(a, j) == dotdot_at(b, j) by {}
    assert(is_safe_path(a) == is_safe_path(b));
}

/// The canonical name `info.xml` is itself always a candidate: it has the
/// `.xml` extension and collides with no reserved name.
pub proof fn lemma_info_always_candidate(path: Seq<u8>)
    requires
        is_info_path(path),
    ensures
        is_candidate_path(path),
{
    let n = path.len() as int;
    assert forall|i: int| 0 <= i < 4 implies lower_seq(path.subrange(n - 4, n))[i] == xml_ext_bytes()[i] by {
        assert(lower_seq(path.subrange(n - 8, n))[i + 4] == info_xml_bytes()[i + 4]);
        assert(lower_seq(path.subrange(n - 4, n))[i] == lower_byte(path[n - 4 + i]));
        assert(lower_seq(path.subrange(n - 8, n))[i + 4] == lower_byte(path[n - 4 + i]));
    }
    assert(lower_seq(path.subrange(n - 4, n)) =~= xml_ext_bytes());
    // At the fifth byte from the end the canonical name shows `o`, where
    // every reserved name shows `s`; so none of them also matches.
    assert(lower_byte(path[n - 5]) == 0x6f) by {
        assert(lower_seq(path.subrange(n - 8, n))[3] == info_xml_bytes()[3]);
    }
    if suffix_lower_is(path, songs_xml_bytes()) {
        assert(lower_seq(path.subrange(n - 9, n))[4] == songs_xml_bytes()[4]);
        assert(lower_byte(path[n - 5]) == 0x73);
    }
    if suffix_lower_is(path, images_xml_bytes()) {
        assert(lower_seq(path.subrange(n - 10, n))[5] == images_xml_bytes()[5]);
        assert(lower_byte(path[n - 5]) == 0x73);
    }
    if suffix_lower_is(path, anims_xml_bytes()) {
        assert(lower_seq(path.subrange(n - 9, n))[4] == anims_xml_bytes()[4]);
        assert(lower_byte(path[n - 5]) == 0x73);
    }
}

} // verus!
