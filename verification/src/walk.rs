//! A pure model of the directory walk: a snapshot of a tree, the files the
//! filtered walk yields from it, and proofs that the reserved output
//! directory is never entered and that a non-recursive walk stays at the
//! root.

use crate::paths::FsPath;
use crate::paths::clone_path;
use crate::paths::filter_entry;
use crate::paths::filter_entry_spec;
use crate::paths::is_path_prefix;
use crate::paths::output_dir_name;
use vstd::prelude::*;

verus! {

/// A snapshot of one directory entry: a file, or a directory with the
/// entries inside it in the order a walk would visit them. Each entry
/// carries its full path.
pub enum FsNode {
    File { path: FsPath },
    Dir { path: FsPath, children: Vec<FsNode> },
}

impl FsNode {
    /// The entry's own path.
    pub open spec fn path_view(&self) -> Seq<Seq<char>> {
        match *self {
            FsNode::File { ref path } => path@,
            FsNode::Dir { ref path, .. } => path@,
        }
    }
}

/// The paths a filtered walk yields from `node`: a kept file is yielded; a
/// kept directory is entered and its children visited in order; an entry
/// the filter rejects is skipped whole, children and all.
pub open spec fn walk_spec(node: FsNode, root: Seq<Seq<char>>, recursive: bool) -> Seq<
    Seq<Seq<char>>,
>
    decreases node,
{
    match node {
        FsNode::File { path } => {
            if filter_entry_spec(path@, false, root, recursive) {
                seq![path@]
            } else {
                Seq::empty()
            }
        },
        FsNode::Dir { path, children } => {
            if filter_entry_spec(path@, true, root, recursive) {
                walk_children_spec(children@, 0, root, recursive)
            } else {
                Seq::empty()
            }
        },
    }
}

/// The paths yielded from the children at positions `i` and after.
pub open spec fn walk_children_spec(
    children: Seq<FsNode>,
    i: int,
    root: Seq<Seq<char>>,
    recursive: bool,
) -> Seq<Seq<Seq<char>>>
    decreases children, children.len() - i,
{
    if i < 0 || i >= children.len() {
        Seq::empty()
    } else {
        walk_spec(children[i], root, recursive) + walk_children_spec(
            children,
            i + 1,
            root,
            recursive,
        )
    }
}

/// Runs the filtered walk over a tree snapshot, yielding the kept file
/// paths in visit order.
#[verifier::loop_isolation(false)]
pub fn walk_select(node: &FsNode, root: &FsPath, recursive: bool) -> (r: Vec<FsPath>)
    ensures
        r.deep_view() == walk_spec(*node, root@, recursive),
    decreases *node,
{
    match node {
        FsNode::File { path } => {
            let mut r: Vec<FsPath> = Vec::new();
            if filter_entry(path, false, root, recursive) {
                r.push(clone_path(path));
            }
            assert(r.deep_view() =~= walk_spec(*node, root@, recursive));
            r
        },
        FsNode::Dir { path, children } => {
            let mut r: Vec<FsPath> = Vec::new();
            if filter_entry(path, true, root, recursive) {
                let mut i: usize = 0;
                while i < children.len()
                    invariant
                        i <= children@.len(),
                        r.deep_view() + walk_children_spec(children@, i as int, root@, recursive)
                            =~= walk_children_spec(children@, 0, root@, recursive),
                    decreases children@.len() - i,
                {
                    let mut sub = walk_select(&children[i], root, recursive);
                    let ghost prev = r.deep_view();
                    let ghost subdv = sub.deep_view();
                    r.append(&mut sub);
                    proof {
                        assert(r.deep_view() =~= prev + subdv);
                        assert(walk_children_spec(children@, i as int, root@, recursive)
                            == walk_spec(children@[i as int], root@, recursive)
                            + walk_children_spec(children@, i + 1, root@, recursive));
                        assert((prev + subdv) + walk_children_spec(children@, i + 1, root@, recursive)
                            =~= prev + walk_children_spec(children@, i as int, root@, recursive));
                    }
                    i = i + 1;
                }
                assert(r.deep_view() =~= walk_children_spec(children@, 0, root@, recursive));
            }
            assert(r.deep_view() =~= walk_spec(*node, root@, recursive));
            r
        },
    }
}

/// Exclusion invariant: a walk never yields a path under the reserved
/// output directory of its root, whatever the tree holds — even entries a
/// prior run wrote there — and whether or not it recurses.
pub proof fn lemma_walk_excludes_output(node: FsNode, root: Seq<Seq<char>>, recursive: bool)
    ensures
        forall|i: int|
            0 <= i < walk_spec(node, root, recursive).len() ==> !is_path_prefix(
                root.push(output_dir_name()),
                #[trigger] walk_spec(node, root, recursive)[i],
            ),
    decreases node,
{
    match node {
        FsNode::File { path } => {
            if filter_entry_spec(path@, false, root, recursive) {
                assert(!is_path_prefix(root.push(output_dir_name()), path@));
                assert(walk_spec(node, root, recursive) == seq![path@]);
                assert(walk_spec(node, root, recursive)[0] == path@);
            } else {
                assert(walk_spec(node, root, recursive).len() == 0);
            }
        },
        FsNode::Dir { path, children } => {
            if filter_entry_spec(path@, true, root, recursive) {
                lemma_walk_children_excludes_output(children@, 0, root, recursive);
                assert(walk_spec(node, root, recursive) == walk_children_spec(
                    children@,
                    0,
                    root,
                    recursive,
                ));
            } else {
                assert(walk_spec(node, root, recursive).len() == 0);
            }
        },
    }
}

proof fn lemma_walk_children_excludes_output(
    children: Seq<FsNode>,
    i: int,
    root: Seq<Seq<char>>,
    recursive: bool,
)
    ensures
        forall|j: int|
            0 <= j < walk_children_spec(children, i, root, recursive).len() ==> !is_path_prefix(
                root.push(output_dir_name()),
                #[trigger] walk_children_spec(children, i, root, recursive)[j],
            ),
    decreases children, children.len() - i,
{
    if 0 <= i < children.len() {
        lemma_walk_excludes_output(children[i], root, recursive);
        lemma_walk_children_excludes_output(children, i + 1, root, recursive);
        let head = walk_spec(children[i], root, recursive);
        let tail = walk_children_spec(children, i + 1, root, recursive);
        assert forall|j: int| 0 <= j < (head + tail).len() implies !is_path_prefix(
            root.push(output_dir_name()),
            #[trigger] (head + tail)[j],
        ) by {
            if j < head.len() {
                assert((head + tail)[j] == head[j]);
            } else {
                assert((head + tail)[j] == tail[j - head.len()]);
            }
        }
    }
}

/// Whether a tree snapshot is well formed: each entry inside a directory
/// carries the directory's path plus exactly one more segment.
pub open spec fn wf_tree(node: FsNode) -> bool
    decreases node,
{
    match node {
        FsNode::File { .. } => true,
        FsNode::Dir { path, children } => forall|i: int|
            0 <= i < children.len() ==> (#[trigger] children[i]).path_view().len() == path@.len()
                + 1 && children[i].path_view().drop_last() == path@ && wf_tree(children[i]),
    }
}

/// Non-recursive scope: a non-recursive walk of a well-formed root
/// directory yields only files sitting directly in the root — every yielded
/// path is the root plus one segment — and never a file of a subdirectory.
pub proof fn lemma_non_recursive_stays_at_root(node: FsNode, root: Seq<Seq<char>>)
    requires
        wf_tree(node),
        node is Dir,
        node.path_view() == root,
    ensures
        forall|i: int|
            0 <= i < walk_spec(node, root, false).len() ==> (#[trigger] walk_spec(
                node,
                root,
                false,
            )[i]).len() == root.len() + 1 && walk_spec(node, root, false)[i].drop_last() == root,
{
    match node {
        FsNode::File { .. } => {
            assert(false);
        },
        FsNode::Dir { path, children } => {
            assert(!is_path_prefix(root.push(output_dir_name()), path@));
            assert(filter_entry_spec(path@, true, root, false));
            lemma_children_stay_at_root(children@, 0, root);
            assert(walk_spec(node, root, false) == walk_children_spec(children@, 0, root, false));
        },
    }
}

proof fn lemma_children_stay_at_root(children: Seq<FsNode>, i: int, root: Seq<Seq<char>>)
    requires
        forall|j: int|
            0 <= j < children.len() ==> (#[trigger] children[j]).path_view().len() == root.len()
                + 1 && children[j].path_view().drop_last() == root,
    ensures
        forall|j: int|
            0 <= j < walk_children_spec(children, i, root, false).len() ==> (
            #[trigger] walk_children_spec(children, i, root, false)[j]).len() == root.len() + 1
                && walk_children_spec(children, i, root, false)[j].drop_last() == root,
    decreases children.len() - i,
{
    if 0 <= i < children.len() {
        lemma_children_stay_at_root(children, i + 1, root);
        let head = walk_spec(children[i], root, false);
        let tail = walk_children_spec(children, i + 1, root, false);
        match children[i] {
            FsNode::File { path } => {
                assert(head.len() <= 1);
            },
            FsNode::Dir { path, children: grandchildren } => {
                assert(path@.len() == root.len() + 1);
                assert(path@ != root);
                assert(!filter_entry_spec(path@, true, root, false));
                assert(head =~= Seq::<Seq<Seq<char>>>::empty());
            },
        }
        assert forall|j: int| 0 <= j < (head + tail).len() implies (#[trigger] (head + tail)[j]).len()
            == root.len() + 1 && (head + tail)[j].drop_last() == root by {
            if j < head.len() {
                assert((head + tail)[j] == head[j]);
            } else {
                assert((head + tail)[j] == tail[j - head.len()]);
            }
        }
    }
}

} // verus!
