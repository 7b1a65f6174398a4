//! The traversal model of a filesystem subtree: a snapshot of the regular
//! files and directories reachable from a root without following symbolic
//! links, each node carrying its full path text.

use vstd::prelude::*;

verus! {

/// A snapshot of one filesystem entry: a regular file, or a directory with
/// the children it contains. Each node holds its full path text.
pub enum FsTree {
    File { path: String },
    Dir { path: String, children: Vec<FsTree> },
}

impl FsTree {
    /// The full path text of this entry.
    pub open spec fn spec_path(self) -> Seq<char> {
        match self {
            FsTree::File { path } => path@,
            FsTree::Dir { path, children } => path@,
        }
    }
}

/// The full paths of every regular file in the subtree, in depth-first
/// order: a file is itself; a directory contributes its children in order.
pub open spec fn tree_files(t: FsTree) -> Seq<Seq<char>>
    decreases t,
{
    match t {
        FsTree::File { path } => seq![path@],
        FsTree::Dir { path, children } => forest_files(children@),
    }
}

/// The file paths of a sequence of subtrees, concatenated in order.
pub open spec fn forest_files(ts: Seq<FsTree>) -> Seq<Seq<char>>
    decreases ts,
{
    if ts.len() == 0 {
        Seq::empty()
    } else {
        tree_files(ts[0]) + forest_files(ts.drop_first())
    }
}

/// Taking one more subtree into a forest appends exactly that subtree's
/// files.
pub proof fn lemma_forest_files_take_succ(ts: Seq<FsTree>, i: int)
    requires
        0 <= i < ts.len(),
    ensures
        forest_files(ts.take(i + 1)) == forest_files(ts.take(i)) + tree_files(ts[i]),
    decreases i,
{
    let pre = ts.take(i + 1);
    if i == 0 {
        assert(pre.drop_first() =~= Seq::<FsTree>::empty());
        assert(ts.take(0) =~= Seq::<FsTree>::empty());
        assert(forest_files(pre) =~= tree_files(ts[0]) + forest_files(ts.take(0)));
        assert(forest_files(ts.take(0)) =~= Seq::<Seq<char>>::empty());
        assert(forest_files(pre) =~= forest_files(ts.take(0)) + tree_files(ts[0]));
    } else {
        lemma_forest_files_take_succ(ts.drop_first(), i - 1);
        assert(pre.drop_first() =~= ts.drop_first().take(i));
        assert(ts.take(i).drop_first() =~= ts.drop_first().take(i - 1));
        assert(ts.drop_first()[i - 1] == ts[i]);
        assert(forest_files(pre) == tree_files(ts[0]) + forest_files(ts.drop_first().take(i)));
        assert(forest_files(ts.take(i)) == tree_files(ts[0]) + forest_files(
            ts.drop_first().take(i - 1),
        ));
        assert(tree_files(ts[0]) + (forest_files(ts.drop_first().take(i - 1)) + tree_files(ts[i]))
            =~= (tree_files(ts[0]) + forest_files(ts.drop_first().take(i - 1))) + tree_files(
            ts[i],
        ));
    }
}

} // verus!
