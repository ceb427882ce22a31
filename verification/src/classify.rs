//! Path classification: decides whether a resolved file path counts as a
//! time-tracking file for a configured tracking root.
//!
//! Paths are byte strings as the operating system hands them out, already
//! canonicalized by the caller (the adapter resolves symlinks and relative
//! components before asking; a path that cannot be resolved is passed as
//! `None`). A path is classified as tracked exactly when it lies under the
//! root and its final extension is `md`.

use vstd::prelude::*;

verus! {

/// Byte value of the path separator `/`.
pub const SLASH_BYTE: u8 = 47;

/// Byte value of the extension separator `.`.
pub const DOT_BYTE: u8 = 46;

/// The reserved display name of the preview surface. No real file resolves
/// to a path with this final component, and the classifier never accepts it
/// (`lemma_preview_name_never_classified`).
pub open spec fn preview_name() -> Seq<u8> {
    seq![
        91u8, 84u8, 105u8, 109u8, 101u8, 32u8, 84u8, 114u8, 97u8, 99u8, 107u8, 105u8, 110u8,
        103u8, 32u8, 80u8, 114u8, 101u8, 118u8, 105u8, 101u8, 119u8, 93u8,
    ]
}

/// Does `name` end with the reserved preview name?
pub open spec fn is_preview_name(name: Seq<u8>) -> bool {
    &&& name.len() >= preview_name().len()
    &&& name.skip(name.len() - preview_name().len()) == preview_name()
}

/// Index of the first byte of the final path component: the position just
/// after the last separator, or 0 when the path has no separator.
pub open spec fn file_name_start(p: Seq<u8>) -> int
    decreases p.len(),
{
    if p.len() == 0 {
        0
    } else if p[p.len() - 1] == SLASH_BYTE {
        p.len() as int
    } else {
        file_name_start(p.drop_last())
    }
}

/// The final component of the path.
pub open spec fn file_name(p: Seq<u8>) -> Seq<u8> {
    p.skip(file_name_start(p))
}

/// Index just after the last `.` of a file name, or -1 when it has none.
pub open spec fn ext_start(f: Seq<u8>) -> int
    decreases f.len(),
{
    if f.len() == 0 {
        -1
    } else if f[f.len() - 1] == DOT_BYTE {
        f.len() as int
    } else {
        ext_start(f.drop_last())
    }
}

/// The byte spelling of the only accepted extension, `md`.
pub open spec fn md_extension() -> Seq<u8> {
    seq![109u8, 100u8]
}

/// Does the final component of `p` carry the extension `md`, in the sense
/// of the host platform's path rules: the part after the last dot of the
/// final component, provided a non-empty stem precedes that dot?
pub open spec fn has_md_extension(p: Seq<u8>) -> bool {
    let f = file_name(p);
    let d = ext_start(f);
    &&& d >= 2
    &&& f.skip(d) == md_extension()
}

/// Is `p` equal to `root` or strictly below it, on a component boundary?
pub open spec fn path_is_under(p: Seq<u8>, root: Seq<u8>) -> bool {
    ||| p == root
    ||| {
        &&& root.len() < p.len()
        &&& p.take(root.len() as int) == root
        &&& ((root.len() > 0 && root[root.len() - 1] == SLASH_BYTE)
            || p[root.len() as int] == SLASH_BYTE)
    }
}

/// The classification decision over resolved paths. `None` stands for an
/// absent path, or one whose resolution failed; such inputs are rejected,
/// never reported as an error.
pub open spec fn spec_classify(path: Option<Seq<u8>>, root: Option<Seq<u8>>) -> bool {
    match (path, root) {
        (Some(p), Some(r)) => p.len() > 0 && path_is_under(p, r) && has_md_extension(p),
        _ => false,
    }
}

/// Classification of a document by its stored name: an empty name means the
/// document is unnamed and is never tracked.
pub open spec fn spec_classify_name(name: Seq<u8>, root: Option<Seq<u8>>) -> bool {
    spec_classify(if name.len() == 0 { None } else { Some(name) }, root)
}

proof fn lemma_file_name_start_bounds(p: Seq<u8>)
    ensures
        0 <= file_name_start(p) <= p.len(),
    decreases p.len(),
{
    if p.len() > 0 && p[p.len() - 1] != SLASH_BYTE {
        lemma_file_name_start_bounds(p.drop_last());
    }
}

proof fn lemma_ext_start_bounds(f: Seq<u8>)
    ensures
        ext_start(f) == -1 || 1 <= ext_start(f) <= f.len(),
    decreases f.len(),
{
    if f.len() > 0 && f[f.len() - 1] != DOT_BYTE {
        lemma_ext_start_bounds(f.drop_last());
    }
}

/// Absent and empty paths are never classified as tracked, whatever the
/// root; a missing root rejects every path.
pub proof fn lemma_classify_empty_or_absent(p: Seq<u8>, root: Option<Seq<u8>>)
    requires
        p.len() == 0,
    ensures
        !spec_classify(Some(p), root),
        !spec_classify(None, root),
        !spec_classify_name(p, root),
{
}

/// For a non-empty resolved path and a resolved root, classification holds
/// exactly when the path lies under the root and ends in `md`: changing the
/// extension defeats it, and so does moving the file outside the root.
pub proof fn lemma_classify_characterisation(p: Seq<u8>, r: Seq<u8>)
    requires
        p.len() > 0,
    ensures
        spec_classify(Some(p), Some(r)) == (path_is_under(p, r) && has_md_extension(p)),
        !has_md_extension(p) ==> !spec_classify(Some(p), Some(r)),
        !path_is_under(p, r) ==> !spec_classify(Some(p), Some(r)),
{
}

/// The reserved preview name is never classified as a tracking file, for
/// any root: its last byte is `]`, while an `md` extension would make it `d`.
pub proof fn lemma_preview_name_never_classified(name: Seq<u8>, root: Option<Seq<u8>>)
    requires
        is_preview_name(name),
    ensures
        !spec_classify_name(name, root),
        !spec_classify(Some(name), root),
{
    assert(name.len() >= 23);
    assert(name[name.len() - 1] == 93u8) by {
        assert(name.skip(name.len() - preview_name().len())[22] == preview_name()[22]);
    }
    if has_md_extension(name) {
        let f = file_name(name);
        let d = ext_start(f);
        lemma_file_name_start_bounds(name);
        lemma_ext_start_bounds(f);
        assert(f.skip(d).len() == 2);
        assert(f[f.len() - 1] == f.skip(d)[1]);
        assert(f[f.len() - 1] == 100u8);
        assert(f[f.len() - 1] == name[name.len() - 1]);
        assert(false);
    }
}

/// Does `name` end with the reserved preview name? The executable twin of
/// `is_preview_name`.
pub fn names_preview(name: &Vec<u8>) -> (r: bool)
    ensures
        r == is_preview_name(name@),
{
    let suffix: [u8; 23] = [
        91u8, 84u8, 105u8, 109u8, 101u8, 32u8, 84u8, 114u8, 97u8, 99u8, 107u8, 105u8, 110u8,
        103u8, 32u8, 80u8, 114u8, 101u8, 118u8, 105u8, 101u8, 119u8, 93u8,
    ];
    assert(suffix@ =~= preview_name());
    if name.len() < 23 {
        return false;
    }
    let off = name.len() - 23;
    for i in 0..23usize
        invariant
            off == name.len() - 23,
            name.len() >= 23,
            suffix@ =~= preview_name(),
            forall|k: int| 0 <= k < i ==> name@[off + k] == preview_name()[k],
    {
        if name[off + i] != suffix[i] {
            assert(name@.skip(off as int)[i as int] != preview_name()[i as int]);
            return false;
        }
    }
    assert(name@.skip(off as int) =~= preview_name());
    true
}

/// Is `r@` a prefix of `p@`?
fn is_byte_prefix(p: &Vec<u8>, r: &Vec<u8>) -> (b: bool)
    ensures
        b == (r.len() <= p.len() && p@.take(r@.len() as int) == r@),
{
    if r.len() > p.len() {
        return false;
    }
    for i in 0..r.len()
        invariant
            r.len() <= p.len(),
            forall|k: int| 0 <= k < i ==> p@[k] == r@[k],
    {
        if p[i] != r[i] {
            assert(p@.take(r@.len() as int)[i as int] != r@[i as int]);
            return false;
        }
    }
    assert(p@.take(r@.len() as int) =~= r@);
    true
}

/// Is `p` equal to `root` or strictly below it? The executable twin of
/// `path_is_under`.
pub fn path_under(p: &Vec<u8>, root: &Vec<u8>) -> (b: bool)
    ensures
        b == path_is_under(p@, root@),
{
    if p.len() == root.len() {
        let eq = is_byte_prefix(p, root);
        assert(p@.take(p@.len() as int) =~= p@);
        return eq;
    }
    if root.len() < p.len() && is_byte_prefix(p, root) {
        if root.len() == 0 {
            return p[0] == SLASH_BYTE;
        }
        if root[root.len() - 1] == SLASH_BYTE {
            return true;
        }
        return p[root.len()] == SLASH_BYTE;
    }
    assert(p@ != root@) by {
        if p@ == root@ {
            assert(p@.len() == root@.len());
        }
    }
    false
}

/// Does the final component of `p` end in the extension `md`? The
/// executable twin of `has_md_extension`.
pub fn has_md_ext(p: &Vec<u8>) -> (b: bool)
    ensures
        b == has_md_extension(p@),
{
    proof {
        lemma_file_name_start_bounds(p@);
        assert(p@.take(p@.len() as int) =~= p@);
    }
    // Find the start of the final path component.
    let mut i = p.len();
    while i > 0 && p[i - 1] != SLASH_BYTE
        invariant
            i <= p.len(),
            file_name_start(p@) == file_name_start(p@.take(i as int)),
        decreases i,
    {
        assert(p@.take(i as int).drop_last() =~= p@.take(i - 1));
        i = i - 1;
    }
    let fstart = i;
    assert(p@.take(fstart as int).len() == fstart);
    if fstart > 0 {
        assert(file_name_start(p@.take(fstart as int)) == fstart);
    }
    assert(file_name_start(p@) == fstart);
    let ghost f = file_name(p@);
    assert(f =~= p@.skip(fstart as int));
    proof {
        lemma_ext_start_bounds(f);
        assert(f.take(f.len() as int) =~= f);
        assert(f.len() == p@.len() - fstart);
    }
    // Find the position just after the last dot of the component.
    let mut j = p.len();
    while j > fstart && p[j - 1] != DOT_BYTE
        invariant
            fstart <= j <= p.len(),
            ext_start(f) == ext_start(f.take(j - fstart)),
            f == p@.skip(fstart as int),
            fstart == file_name_start(p@),
        decreases j,
    {
        assert(f.take(j - fstart).drop_last() =~= f.take(j - 1 - fstart));
        assert(f.take(j - fstart).len() == j - fstart);
        assert(f.take(j - fstart)[j - fstart - 1] == p@[j - 1]);
        j = j - 1;
    }
    if j == fstart {
        // No dot in the component: no extension.
        assert(f.take(0).len() == 0);
        assert(ext_start(f) == -1);
        return false;
    }
    assert(f.take(j - fstart)[j - fstart - 1] == p@[j - 1]);
    assert(ext_start(f) == j - fstart);
    let d = j - fstart;
    if d < 2 {
        return false;
    }
    // The extension is the part after the dot; it must be exactly `md`.
    if p.len() - j != 2 {
        assert(f.skip(d as int).len() != 2);
        return false;
    }
    assert(f.skip(d as int).len() == 2);
    assert(f.skip(d as int)[0] == p@[j as int]);
    assert(f.skip(d as int)[1] == p@[j + 1]);
    let b = p[j] == 109 && p[j + 1] == 100;
    if b {
        assert(f.skip(d as int) =~= md_extension());
    }
    b
}

/// The classification decision: `path` and `root` are resolved paths, with
/// `None` for an absent path or a failed resolution. Returns `true` exactly
/// when the path is non-empty, lies under the root, and carries the `md`
/// extension. A pure predicate: the result is a function of the two
/// arguments alone, and repeated calls return the same answer.
pub fn classify(path: Option<&Vec<u8>>, root: Option<&Vec<u8>>) -> (r: bool)
    ensures
        r == spec_classify(path.deep_view(), root.deep_view()),
{
    match (path, root) {
        (Some(p), Some(rt)) => {
            assert(p.deep_view() =~= p@);
            assert(rt.deep_view() =~= rt@);
            if p.len() == 0 {
                false
            } else {
                let under = path_under(p, rt);
                if !under {
                    false
                } else {
                    has_md_ext(p)
                }
            }
        },
        _ => false,
    }
}

} // verus!
