//! Paths as ordered lists of name segments: output-path derivation under
//! the reserved output directory, normalization, and the traversal filter
//! that keeps a walk out of that directory.

use vstd::prelude::*;
use vstd::string::StrSliceExecFns;
use vstd::string::StringExecFns;

verus! {

/// A filesystem path as the ordered list of its name segments, relative to
/// an implied root. The shell canonicalizes a real path (resolving symlinks
/// and `.` entries) before handing it to the library; nothing here performs
/// I/O.
#[derive(Debug)]
pub struct FsPath {
    pub segments: Vec<String>,
}

impl View for FsPath {
    type V = Seq<Seq<char>>;

    open spec fn view(&self) -> Seq<Seq<char>> {
        self.segments.deep_view()
    }
}

impl DeepView for FsPath {
    type V = Seq<Seq<char>>;

    open spec fn deep_view(&self) -> Seq<Seq<char>> {
        self@
    }
}

/// Why an output path could not be derived.
#[derive(Clone, Copy, Debug, PartialEq, Eq, Structural)]
pub enum PathError {
    /// The input path has no parent directory (it is a filesystem root).
    NoParent,
}

/// The name of the reserved output directory. The traversal filter and the
/// output-path derivation share this one value, so they cannot drift apart.
pub open spec fn output_dir_name() -> Seq<char> {
    "xor"@
}

/// The reserved output directory name as a string.
pub fn output_dir_segment() -> (s: String)
    ensures
        s@ == output_dir_name(),
{
    String::from_str("xor")
}

/// Whether `prefix` is a (segment-wise) prefix of `path`.
pub open spec fn is_path_prefix(prefix: Seq<Seq<char>>, path: Seq<Seq<char>>) -> bool {
    prefix.len() <= path.len() && forall|i: int| 0 <= i < prefix.len() ==> path[i] == prefix[i]
}

/// A copy of `p` with the same segments.
pub fn clone_path(p: &FsPath) -> (r: FsPath)
    ensures
        r@ == p@,
{
    let mut segments: Vec<String> = Vec::new();
    let mut i: usize = 0;
    while i < p.segments.len()
        invariant
            i <= p.segments@.len(),
            segments@.len() == i,
            forall|j: int| 0 <= j < i ==> segments@[j]@ == p@[j],
        decreases p.segments@.len() - i,
    {
        segments.push(p.segments[i].clone());
        i = i + 1;
    }
    assert(segments.deep_view() =~= p@);
    FsPath { segments }
}

/// Whether the segments of `p` start with all the segments of `prefix`.
pub fn starts_with_segments(p: &FsPath, prefix: &FsPath) -> (r: bool)
    ensures
        r == is_path_prefix(prefix@, p@),
{
    if prefix.segments.len() > p.segments.len() {
        return false;
    }
    let mut i: usize = 0;
    while i < prefix.segments.len()
        invariant
            i <= prefix.segments@.len() <= p.segments@.len(),
            forall|j: int| 0 <= j < i ==> p@[j] == prefix@[j],
        decreases prefix.segments@.len() - i,
    {
        if !(p.segments[i] == prefix.segments[i]) {
            assert(p@[i as int] != prefix@[i as int]);
            return false;
        }
        i = i + 1;
    }
    true
}

/// Whether two paths have exactly the same segments.
pub fn path_eq(a: &FsPath, b: &FsPath) -> (r: bool)
    ensures
        r == (a@ == b@),
{
    if a.segments.len() != b.segments.len() {
        assert(a@.len() != b@.len());
        return false;
    }
    let r = starts_with_segments(a, b);
    proof {
        if r {
            assert(a@ =~= b@);
        }
    }
    r
}

/// The mirrored output path for a canonical input file path: the reserved
/// output directory inside the file's parent, then the file's own name.
pub open spec fn output_path_spec(input: Seq<Seq<char>>) -> Seq<Seq<char>>
    recommends
        input.len() > 0,
{
    input.drop_last().push(output_dir_name()).push(input.last())
}

/// Derives where the transformed copy of `input` is written: alongside the
/// input, inside the reserved output directory. `input` is expected to be
/// canonical (the shell canonicalizes before calling). A path with no
/// parent — no segments at all — is rejected.
pub fn build_output_path(input: &FsPath) -> (r: Result<FsPath, PathError>)
    ensures
        input@.len() == 0 ==> r == Err::<FsPath, PathError>(PathError::NoParent),
        input@.len() > 0 ==> (r matches Ok(q) && q@ == output_path_spec(input@)),
{
    if input.segments.len() == 0 {
        return Err(PathError::NoParent);
    }
    let mut segments: Vec<String> = Vec::new();
    let mut i: usize = 0;
    while i < input.segments.len() - 1
        invariant
            input.segments@.len() > 0,
            i <= input.segments@.len() - 1,
            segments@.len() == i,
            forall|j: int| 0 <= j < i ==> segments@[j]@ == input@[j],
        decreases input.segments@.len() - 1 - i,
    {
        segments.push(input.segments[i].clone());
        i = i + 1;
    }
    segments.push(output_dir_segment());
    segments.push(input.segments[input.segments.len() - 1].clone());
    let out = FsPath { segments };
    assert(out@ =~= output_path_spec(input@));
    Ok(out)
}

/// Whether a normalization keeps a segment: empty segments and bare `.`
/// entries are dropped.
pub open spec fn keep_segment(seg: Seq<char>) -> bool {
    seg.len() > 0 && seg != seq!['.']
}

/// `path` with empty and `.` segments removed.
pub open spec fn normalized(path: Seq<Seq<char>>) -> Seq<Seq<char>>
    decreases path.len(),
{
    if path.len() == 0 {
        Seq::empty()
    } else if keep_segment(path.last()) {
        normalized(path.drop_last()).push(path.last())
    } else {
        normalized(path.drop_last())
    }
}

/// Removes empty and `.` segments, the segment-level analogue of
/// reassembling a path from its components.
pub fn normalize_path(p: &FsPath) -> (r: FsPath)
    ensures
        r@ == normalized(p@),
{
    let mut segments: Vec<String> = Vec::new();
    let mut i: usize = 0;
    while i < p.segments.len()
        invariant
            i <= p.segments@.len(),
            segments.deep_view() == normalized(p@.take(i as int)),
        decreases p.segments@.len() - i,
    {
        let seg = &p.segments[i];
        let n = seg.as_str().unicode_len();
        let is_dot = n == 1 && seg.as_str().get_char(0) == '.';
        proof {
            assert(seg@ == seq!['.'] <==> (seg@.len() == 1 && seg@[0] == '.')) by {
                if seg@.len() == 1 && seg@[0] == '.' {
                    assert(seg@ =~= seq!['.']);
                }
            }
            assert(p@.take(i + 1).drop_last() =~= p@.take(i as int));
            assert(p@.take(i + 1).last() == p@[i as int]);
        }
        if n > 0 && !is_dot {
            segments.push(seg.clone());
            assert(segments.deep_view() =~= normalized(p@.take(i as int)).push(p@[i as int]));
        }
        i = i + 1;
    }
    assert(p@.take(p@.len() as int) =~= p@);
    FsPath { segments }
}

/// The traversal filter, as a value: an entry under the reserved output
/// directory of `root` is excluded outright; a directory is entered only on
/// a recursive walk or when it is the root itself; a file is kept.
pub open spec fn filter_entry_spec(
    path: Seq<Seq<char>>,
    is_dir: bool,
    root: Seq<Seq<char>>,
    recursive: bool,
) -> bool {
    if is_path_prefix(root.push(output_dir_name()), path) {
        false
    } else if is_dir {
        recursive || path == root
    } else {
        true
    }
}

/// Decides whether a walk keeps the entry at `path` under `root`: the
/// reserved output subtree is never kept, directories other than the root
/// are entered only when `recursive` is set, and files are kept.
pub fn filter_entry(path: &FsPath, is_dir: bool, root: &FsPath, recursive: bool) -> (r: bool)
    ensures
        r == filter_entry_spec(path@, is_dir, root@, recursive),
{
    let rlen = root.segments.len();
    let excluded = if path.segments.len() > rlen && starts_with_segments(path, root) {
        let xor_seg = output_dir_segment();
        path.segments[rlen] == xor_seg
    } else {
        false
    };
    proof {
        let pre = root@.push(output_dir_name());
        if excluded {
            assert(is_path_prefix(pre, path@)) by {
                assert(forall|i: int| 0 <= i < root@.len() ==> path@[i] == pre[i]);
                assert(path@[root@.len() as int] == pre[root@.len() as int]);
            }
        } else {
            if is_path_prefix(pre, path@) {
                assert(is_path_prefix(root@, path@));
                assert(path@[root@.len() as int] == output_dir_name());
            }
        }
    }
    if excluded {
        false
    } else if is_dir {
        recursive || path_eq(path, root)
    } else {
        true
    }
}

/// `path` with a leading `base` removed when `base` is a prefix of it, for
/// display purposes; any other path is returned whole.
pub fn get_relative_path(path: &FsPath, base: &FsPath) -> (r: FsPath)
    ensures
        is_path_prefix(base@, path@) ==> r@ == path@.skip(base@.len() as int),
        !is_path_prefix(base@, path@) ==> r@ == path@,
{
    if starts_with_segments(path, base) {
        let mut segments: Vec<String> = Vec::new();
        let mut i: usize = base.segments.len();
        while i < path.segments.len()
            invariant
                base.segments@.len() <= i <= path.segments@.len(),
                segments@.len() == i - base.segments@.len(),
                forall|j: int|
                    base.segments@.len() <= j < i ==> segments@[j - base.segments@.len()]@
                        == path@[j],
            decreases path.segments@.len() - i,
        {
            segments.push(path.segments[i].clone());
            i = i + 1;
        }
        let r = FsPath { segments };
        assert(r@ =~= path@.skip(base@.len() as int));
        r
    } else {
        clone_path(path)
    }
}

} // verus!
