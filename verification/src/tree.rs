//! A snapshot of a source directory tree, and the discovery pass that
//! enumerates every regular file in it together with its relative path.
//!
//! The unverified glue reads the real filesystem into a [`Node`]; discovery
//! is then proved to yield exactly the files of that snapshot, each under
//! the relative path that mirrors its place in the tree.

use vstd::prelude::*;
use crate::meta::FileMeta;
use crate::paths::extends;
use crate::paths::has_name_at;
use crate::paths::joined;
use crate::paths::join_path;
use crate::paths::lemma_distinct_names_distinct_paths;
use crate::paths::lemma_extends_join;
use crate::paths::name_off;
use crate::paths::no_slash;

verus! {

/// One node of a source snapshot: a regular file with its metadata, or a
/// directory with named children. Unreadable entries are simply not present;
/// the walk that builds a snapshot skips them rather than failing.
pub enum Node {
    File(FileMeta),
    Dir(Vec<(String, Node)>),
}

/// A discovered file: its path relative to the source root, and its
/// metadata.
pub struct SourceEntry {
    pub rel_path: String,
    pub meta: FileMeta,
}

/// The mathematical content of a discovered file.
pub struct EntryModel {
    pub path: Seq<char>,
    pub meta: FileMeta,
}

impl View for SourceEntry {
    type V = EntryModel;

    open spec fn view(&self) -> EntryModel {
        EntryModel { path: self.rel_path@, meta: self.meta }
    }
}

impl DeepView for SourceEntry {
    type V = EntryModel;

    open spec fn deep_view(&self) -> EntryModel {
        self.view()
    }
}

/// The files of the first `i` children of a directory, in child order, each
/// under the prefix extended with its child's name.
pub open spec fn files_upto(children: Seq<(String, Node)>, prefix: Seq<char>, i: nat) -> Seq<
    EntryModel,
>
    decreases children, i,
{
    if i == 0 || i > children.len() {
        Seq::empty()
    } else {
        files_upto(children, prefix, (i - 1) as nat) + files_of(
            children[i - 1].1,
            joined(prefix, children[i - 1].0@),
        )
    }
}

/// Every regular file reachable from `node`, in depth-first child order,
/// with the relative path that mirrors its place under `prefix`.
pub open spec fn files_of(node: Node, prefix: Seq<char>) -> Seq<EntryModel>
    decreases node, 0nat,
{
    match node {
        Node::File(m) => seq![EntryModel { path: prefix, meta: m }],
        Node::Dir(children) => files_upto(children@, prefix, children@.len()),
    }
}

/// Appends every file reachable from `node` to `out`, each under `prefix`.
pub fn discover_into(node: &Node, prefix: &str, out: &mut Vec<SourceEntry>)
    ensures
        final(out).deep_view() == old(out).deep_view() + files_of(*node, prefix@),
    decreases *node,
{
    let ghost pre = out.deep_view();
    match node {
        Node::File(m) => {
            out.push(SourceEntry { rel_path: prefix.to_owned(), meta: *m });
            proof {
                assert(out.deep_view() =~= pre + files_of(*node, prefix@));
            }
        },
        Node::Dir(children) => {
            let n = children.len();
            let mut i: usize = 0;
            while i < n
                invariant
                    i <= n,
                    n == children@.len(),
                    *node == Node::Dir(*children),
                    out.deep_view() == pre + files_upto(children@, prefix@, i as nat),
                decreases n - i,
            {
                proof {
                    assert(decreases_to!(*node => node->Dir_0));
                    assert(node->Dir_0 == *children);
                    assert(decreases_to!(*children => children@));
                    assert(decreases_to!(children@ => children@[i as int]));
                    assert(decreases_to!(children@[i as int] => children@[i as int].1));
                }
                let child_prefix = join_path(prefix, children[i].0.as_str());
                discover_into(&children[i].1, child_prefix.as_str(), out);
                i = i + 1;
            }
            proof {
                assert(out.deep_view() =~= pre + files_of(*node, prefix@));
            }
        },
    }
}

/// Discovers every regular file of a snapshot, relative to its root.
pub fn discover(root: &Node) -> (entries: Vec<SourceEntry>)
    ensures
        entries.deep_view() == files_of(*root, Seq::<char>::empty()),
{
    let mut out: Vec<SourceEntry> = Vec::new();
    proof {
        reveal_strlit("");
        assert(""@ =~= Seq::<char>::empty());
    }
    discover_into(root, "", &mut out);
    proof {
        assert(out.deep_view() =~= files_of(*root, Seq::<char>::empty()));
    }
    out
}

/// No two entries share a relative path.
pub open spec fn paths_distinct(entries: Seq<EntryModel>) -> bool {
    forall|i: int, j: int|
        0 <= i < j < entries.len() ==> #[trigger] entries[i].path != #[trigger] entries[j].path
}

/// A well-formed snapshot: in every directory the children's names are
/// pairwise distinct, non-empty, and free of the path separator. A walk of
/// a real filesystem yields nothing else.
pub open spec fn well_formed(node: Node) -> bool
    decreases node,
{
    match node {
        Node::File(_) => true,
        Node::Dir(children) => {
            &&& (forall|i: int, j: int|
                0 <= i < j < children@.len() ==> (#[trigger] children@[i]).0@ != (
                #[trigger] children@[j]).0@)
            &&& (forall|i: int|
                0 <= i < children@.len() ==> (#[trigger] children@[i]).0@.len() > 0 && no_slash(
                    children@[i].0@,
                ))
            &&& (forall|i: int| 0 <= i < children@.len() ==> well_formed((#[trigger] children@[i]).1))
        },
    }
}

/// The files of the first `i` children of a well-formed directory lie below
/// the prefix, each below its own child's name, and their paths are
/// pairwise distinct.
proof fn lemma_files_upto_paths(children: Seq<(String, Node)>, prefix: Seq<char>, i: nat)
    requires
        i <= children.len(),
        forall|p: int, q: int|
            0 <= p < q < children.len() ==> (#[trigger] children[p]).0@ != (
            #[trigger] children[q]).0@,
        forall|p: int|
            0 <= p < children.len() ==> (#[trigger] children[p]).0@.len() > 0 && no_slash(
                children[p].0@,
            ),
        forall|p: int| 0 <= p < children.len() ==> well_formed((#[trigger] children[p]).1),
    ensures
        paths_distinct(files_upto(children, prefix, i)),
        forall|a: int|
            0 <= a < files_upto(children, prefix, i).len() ==> extends(
                (#[trigger] files_upto(children, prefix, i)[a]).path,
                prefix,
            ) && exists|k: int|
                0 <= k < i && has_name_at(
                    files_upto(children, prefix, i)[a].path,
                    name_off(prefix),
                    children[k].0@,
                ),
    decreases children, i,
{
    if i > 0 {
        let first = files_upto(children, prefix, (i - 1) as nat);
        let name = children[i - 1].0@;
        let cp = joined(prefix, name);
        let seg = files_of(children[i - 1].1, cp);
        let whole = files_upto(children, prefix, i as nat);
        lemma_files_upto_paths(children, prefix, (i - 1) as nat);
        lemma_files_of_paths(children[i - 1].1, cp);
        assert(whole == first + seg);
        assert forall|a: int| 0 <= a < whole.len() implies extends(
            (#[trigger] whole[a]).path,
            prefix,
        ) && exists|k: int|
            0 <= k < i && has_name_at(whole[a].path, name_off(prefix), children[k].0@) by {
            if a < first.len() {
                assert(whole[a] == first[a]);
                let k = choose|k: int|
                    0 <= k < i - 1 && has_name_at(first[a].path, name_off(prefix), children[k].0@);
                assert(has_name_at(whole[a].path, name_off(prefix), children[k].0@));
            } else {
                assert(whole[a] == seg[a - first.len()]);
                assert(extends(whole[a].path, cp));
                lemma_extends_join(whole[a].path, prefix, name);
                assert(has_name_at(whole[a].path, name_off(prefix), children[i - 1].0@));
            }
        }
        assert forall|a1: int, a2: int| 0 <= a1 < a2 < whole.len() implies #[trigger] whole[a1].path
            != #[trigger] whole[a2].path by {
            if a2 < first.len() {
                assert(whole[a1] == first[a1] && whole[a2] == first[a2]);
            } else if a1 >= first.len() {
                assert(whole[a1] == seg[a1 - first.len()] && whole[a2] == seg[a2 - first.len()]);
            } else {
                assert(whole[a1] == first[a1] && whole[a2] == seg[a2 - first.len()]);
                let k = choose|k: int|
                    0 <= k < i - 1 && has_name_at(first[a1].path, name_off(prefix), children[k].0@);
                assert(extends(whole[a2].path, cp));
                lemma_extends_join(whole[a2].path, prefix, name);
                lemma_distinct_names_distinct_paths(
                    whole[a1].path,
                    whole[a2].path,
                    name_off(prefix),
                    children[k].0@,
                    name,
                );
            }
        }
    }
}

/// The paths a well-formed snapshot's discovery yields mirror the tree: all
/// of them lie below the given prefix, and no two are equal.
pub proof fn lemma_files_of_paths(node: Node, prefix: Seq<char>)
    requires
        well_formed(node),
    ensures
        paths_distinct(files_of(node, prefix)),
        forall|a: int|
            0 <= a < files_of(node, prefix).len() ==> extends(
                (#[trigger] files_of(node, prefix)[a]).path,
                prefix,
            ),
    decreases node, 0nat,
{
    match node {
        Node::File(_) => {},
        Node::Dir(children) => {
            lemma_files_upto_paths(children@, prefix, children@.len());
        },
    }
}

} // verus!
