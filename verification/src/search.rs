//! The search engine: partitioning roots into work items, walking each
//! subtree, matching file paths against the query, and aggregating matches
//! into a deduplicated, sorted list capped at a maximum size.

use vstd::prelude::*;
use vstd::seq_lib::*;

use crate::text::{
    lower_of, spec_path_matches, lex_lt, path_matches, str_compare, fold_case, Cmp,
    lemma_lex_lt_asymmetric, lemma_lex_lt_transitive,
};
use crate::tree::{FsTree, tree_files, forest_files, lemma_forest_files_take_succ};

verus! {

/// The character sequences of a sequence of strings.
pub open spec fn views(ss: Seq<String>) -> Seq<Seq<char>> {
    ss.map_values(|s: String| s@)
}

/// What one root contributes to a search: nothing when the root path
/// resolves to neither a file nor a directory, else the files of its
/// subtree.
pub open spec fn root_files(r: Option<FsTree>) -> Seq<Seq<char>> {
    match r {
        None => Seq::empty(),
        Some(t) => tree_files(t),
    }
}

/// The files contributed by a sequence of roots, concatenated in order.
pub open spec fn roots_files(rs: Seq<Option<FsTree>>) -> Seq<Seq<char>>
    decreases rs,
{
    if rs.len() == 0 {
        Seq::empty()
    } else {
        root_files(rs[0]) + roots_files(rs.drop_first())
    }
}

/// The matching files among `files` for an already case-folded query.
pub open spec fn matches_in(files: Seq<Seq<char>>, folded_query: Seq<char>) -> Seq<Seq<char>> {
    files.filter(|p: Seq<char>| spec_path_matches(p, folded_query))
}

/// The matches retained under the cap: of a run of matches found while the
/// global match counter stood at `start`, those whose counter value before
/// increment was still below `max`.
pub open spec fn pick(ms: Seq<Seq<char>>, start: int, max: int) -> Seq<Seq<char>> {
    if start >= max {
        Seq::empty()
    } else if ms.len() <= max - start {
        ms
    } else {
        ms.take(max - start)
    }
}

/// The sequence is strictly ascending in lexicographic order (hence free of
/// duplicates).
pub open spec fn strictly_sorted(s: Seq<Seq<char>>) -> bool {
    forall|i: int, j: int| 0 <= i < j < s.len() ==> lex_lt(s[i], s[j])
}

/// The work items one root is partitioned into: a file root is one item;
/// a directory root is split into its children; an empty directory is one
/// item, itself; an unresolvable root yields none.
pub open spec fn spec_work_items(r: Option<FsTree>) -> Seq<FsTree> {
    match r {
        None => Seq::empty(),
        Some(t) => match t {
            FsTree::File { path } => seq![t],
            FsTree::Dir { path, children } => if children@.len() == 0 {
                seq![t]
            } else {
                children@
            },
        },
    }
}

/// The files of a one-tree forest are the files of that tree.
pub proof fn lemma_forest_files_singleton(t: FsTree)
    ensures
        forest_files(seq![t]) == tree_files(t),
{
    assert(seq![t][0] == t);
    assert(seq![t].drop_first() =~= Seq::<FsTree>::empty());
    assert(forest_files(seq![t]) == tree_files(t) + forest_files(Seq::<FsTree>::empty()));
    assert(tree_files(t) + forest_files(Seq::<FsTree>::empty()) =~= tree_files(t));
}

/// Partitioning a root loses no file and adds none: the work items of a
/// root carry exactly the files of that root.
pub proof fn lemma_work_items_files(r: Option<FsTree>)
    ensures
        forest_files(spec_work_items(r)) == root_files(r),
{
    match r {
        None => {
            assert(forest_files(spec_work_items(r)) =~= root_files(r));
        },
        Some(t) => match t {
            FsTree::File { path } => {
                lemma_forest_files_singleton(t);
            },
            FsTree::Dir { path, children } => {
                if children@.len() == 0 {
                    lemma_forest_files_singleton(t);
                    assert(forest_files(children@) =~= Seq::<Seq<char>>::empty());
                }
            },
        },
    }
}

/// A forest's files split at any boundary into the files of the prefix and
/// the files of the remainder.
pub proof fn lemma_forest_files_split(ts: Seq<FsTree>, i: int)
    requires
        0 <= i <= ts.len(),
    ensures
        forest_files(ts) == forest_files(ts.take(i)) + forest_files(ts.skip(i)),
    decreases i,
{
    if i == 0 {
        assert(ts.take(0) =~= Seq::<FsTree>::empty());
        assert(ts.skip(0) =~= ts);
        assert(forest_files(ts.take(0)) + forest_files(ts) =~= forest_files(ts));
    } else {
        lemma_forest_files_split(ts.drop_first(), i - 1);
        assert(ts.drop_first().take(i - 1) =~= ts.take(i).drop_first());
        assert(ts.drop_first().skip(i - 1) =~= ts.skip(i));
        assert(ts.take(i)[0] == ts[0]);
        assert(forest_files(ts.take(i)) == tree_files(ts[0]) + forest_files(
            ts.take(i).drop_first(),
        ));
        assert(tree_files(ts[0]) + (forest_files(ts.take(i).drop_first()) + forest_files(
            ts.skip(i),
        )) =~= (tree_files(ts[0]) + forest_files(ts.take(i).drop_first())) + forest_files(
            ts.skip(i),
        ));
    }
}

/// The files of the roots split at any boundary into the files of the
/// prefix and the files of the remainder.
pub proof fn lemma_roots_files_split(rs: Seq<Option<FsTree>>, i: int)
    requires
        0 <= i <= rs.len(),
    ensures
        roots_files(rs) == roots_files(rs.take(i)) + roots_files(rs.skip(i)),
    decreases i,
{
    if i == 0 {
        assert(rs.take(0) =~= Seq::<Option<FsTree>>::empty());
        assert(rs.skip(0) =~= rs);
        assert(roots_files(rs.take(0)) + roots_files(rs) =~= roots_files(rs));
    } else {
        lemma_roots_files_split(rs.drop_first(), i - 1);
        assert(rs.drop_first().take(i - 1) =~= rs.take(i).drop_first());
        assert(rs.drop_first().skip(i - 1) =~= rs.skip(i));
        assert(rs.take(i)[0] == rs[0]);
        assert(roots_files(rs.take(i)) == root_files(rs[0]) + roots_files(
            rs.take(i).drop_first(),
        ));
        assert(root_files(rs[0]) + (roots_files(rs.take(i).drop_first()) + roots_files(
            rs.skip(i),
        )) =~= (root_files(rs[0]) + roots_files(rs.take(i).drop_first())) + roots_files(
            rs.skip(i),
        ));
    }
}

/// Unfolding one step of the remainder: the files of the roots from `i` on
/// are the files of root `i` followed by the files of the roots after it.
pub proof fn lemma_roots_files_skip_unfold(rs: Seq<Option<FsTree>>, i: int)
    requires
        0 <= i < rs.len(),
    ensures
        roots_files(rs.skip(i)) == root_files(rs[i]) + roots_files(rs.skip(i + 1)),
{
    assert(rs.skip(i)[0] == rs[i]);
    assert(rs.skip(i).drop_first() =~= rs.skip(i + 1));
}

/// Unfolding one step of the remainder of a forest.
pub proof fn lemma_forest_files_skip_unfold(ts: Seq<FsTree>, i: int)
    requires
        0 <= i < ts.len(),
    ensures
        forest_files(ts.skip(i)) == tree_files(ts[i]) + forest_files(ts.skip(i + 1)),
{
    assert(ts.skip(i)[0] == ts[i]);
    assert(ts.skip(i).drop_first() =~= ts.skip(i + 1));
}

/// The matches retained from two consecutive runs are the matches retained
/// from the first followed by those retained from the second, started at
/// the counter value the first run left behind.
pub proof fn lemma_pick_add(m: Seq<Seq<char>>, n: Seq<Seq<char>>, start: int, max: int)
    ensures
        pick(m + n, start, max) == pick(m, start, max) + pick(n, start + m.len(), max),
{
    if start >= max {
        assert(pick(m + n, start, max) =~= pick(m, start, max) + pick(n, start + m.len(), max));
    } else if m.len() <= max - start {
        let s2 = start + m.len();
        if n.len() <= max - s2 {
            assert((m + n).len() <= max - start);
            assert(pick(m + n, start, max) =~= m + pick(n, s2, max));
        } else {
            assert((m + n).take(max - start) =~= m + n.take(max - s2));
        }
    } else {
        assert((m + n).take(max - start) =~= m.take(max - start));
        assert(pick(n, start + m.len(), max) =~= Seq::<Seq<char>>::empty());
        assert(pick(m, start, max) + pick(n, start + m.len(), max) =~= m.take(max - start));
    }
}

/// The matches among no files are no matches.
pub proof fn lemma_matches_in_empty(q: Seq<char>)
    ensures
        matches_in(Seq::<Seq<char>>::empty(), q) == Seq::<Seq<char>>::empty(),
{
    reveal(Seq::filter);
}

/// The matches among a single file: the file itself when it matches, else
/// nothing.
pub proof fn lemma_matches_in_singleton(p: Seq<char>, q: Seq<char>)
    ensures
        spec_path_matches(p, q) ==> matches_in(seq![p], q) == seq![p],
        !spec_path_matches(p, q) ==> matches_in(seq![p], q) == Seq::<Seq<char>>::empty(),
{
    reveal_with_fuel(Seq::filter, 2);
    let s = seq![p];
    assert(s.drop_last() =~= Seq::<Seq<char>>::empty());
    assert(s.last() == p);
    if spec_path_matches(p, q) {
        assert(matches_in(s, q) =~= seq![p]);
    } else {
        assert(matches_in(s, q) =~= Seq::<Seq<char>>::empty());
    }
}

/// Expand one root into independent work items: a file root is one item, a
/// directory root is split into its immediate children, an empty directory
/// falls back to one item (itself), and a root that resolved to nothing
/// yields none.
pub fn root_work_items<'a>(root: &'a Option<FsTree>) -> (items: Vec<&'a FsTree>)
    ensures
        items@.map_values(|t: &FsTree| *t) == spec_work_items(*root),
{
    let mut items: Vec<&'a FsTree> = Vec::new();
    match root {
        None => {
            proof {
                assert(items@.map_values(|t: &FsTree| *t) =~= spec_work_items(*root));
            }
        },
        Some(t) => match t {
            FsTree::File { path } => {
                items.push(t);
                proof {
                    assert(items@.map_values(|t: &FsTree| *t) =~= spec_work_items(*root));
                }
            },
            FsTree::Dir { path, children } => {
                let n = children.len();
                let mut i: usize = 0;
                while i < n
                    invariant
                        n == children@.len(),
                        0 <= i <= n,
                        items@.map_values(|t: &FsTree| *t) == children@.take(i as int),
                    decreases n - i,
                {
                    let child: &FsTree = &children[i];
                    let ghost before = items@;
                    items.push(child);
                    proof {
                        assert(items@ == before.push(child));
                        assert(items@.map_values(|t: &FsTree| *t) =~= before.map_values(
                            |t: &FsTree| *t,
                        ).push(*child));
                        assert(children@.take(i as int).push(children@[i as int])
                            =~= children@.take(i as int + 1));
                    }
                    i = i + 1;
                }
                if items.len() == 0 {
                    items.push(t);
                    proof {
                        assert(children@.take(n as int) =~= children@);
                        assert(items@.map_values(|t: &FsTree| *t) =~= spec_work_items(*root));
                    }
                } else {
                    proof {
                        assert(children@.take(n as int) =~= children@);
                        assert(items@.map_values(|t: &FsTree| *t) =~= spec_work_items(*root));
                    }
                }
            },
        },
    }
    items
}

/// Walk one work item, testing every file in it against the already
/// case-folded query, counting every file visited and every match found,
/// and retaining exactly the matches found while the match counter still
/// stood below the cap.
#[verifier::loop_isolation(false)]
fn visit_tree(
    t: &FsTree,
    folded_query: &String,
    max_results: usize,
    scanned: &mut usize,
    hits: &mut usize,
    acc: &mut Vec<String>,
)
    requires
        *old(scanned) + tree_files(*t).len() <= usize::MAX,
        *old(hits) + tree_files(*t).len() <= usize::MAX,
    ensures
        *final(scanned) == *old(scanned) + tree_files(*t).len(),
        *final(hits) == *old(hits) + matches_in(tree_files(*t), folded_query@).len(),
        views(final(acc)@) == views(old(acc)@) + pick(
            matches_in(tree_files(*t), folded_query@),
            *old(hits) as int,
            max_results as int,
        ),
    decreases *t,
{
    match t {
        FsTree::File { path } => {
            proof {
                assert(tree_files(*t) == seq![path@]);
                lemma_matches_in_singleton(path@, folded_query@);
            }
            *scanned = *scanned + 1;
            if path_matches(path.as_str(), folded_query.as_str()) {
                let prev = *hits;
                *hits = prev + 1;
                if prev < max_results {
                    acc.push(path.clone());
                    proof {
                        assert(pick(seq![path@], prev as int, max_results as int) =~= seq![
                            path@,
                        ]);
                        assert(views(acc@) =~= views(old(acc)@) + seq![path@]);
                    }
                } else {
                    proof {
                        assert(pick(seq![path@], prev as int, max_results as int)
                            =~= Seq::<Seq<char>>::empty());
                        assert(views(acc@) =~= views(old(acc)@) + Seq::<Seq<char>>::empty());
                    }
                }
            } else {
                proof {
                    assert(pick(
                        Seq::<Seq<char>>::empty(),
                        *old(hits) as int,
                        max_results as int,
                    ) =~= Seq::<Seq<char>>::empty());
                    assert(views(acc@) =~= views(old(acc)@) + Seq::<Seq<char>>::empty());
                }
            }
        },
        FsTree::Dir { path, children } => {
            let ghost scanned0 = *scanned;
            let ghost hits0 = *hits;
            let ghost acc0 = acc@;
            let ghost q = folded_query@;
            let n = children.len();
            let mut i: usize = 0;
            proof {
                assert(tree_files(*t) == forest_files(children@));
                assert(children@.take(0) =~= Seq::<FsTree>::empty());
                lemma_matches_in_empty(q);
                assert(forest_files(children@.take(0)) =~= Seq::<Seq<char>>::empty());
                assert(pick(
                    Seq::<Seq<char>>::empty(),
                    hits0 as int,
                    max_results as int,
                ) =~= Seq::<Seq<char>>::empty());
                assert(views(acc@) =~= views(acc0) + Seq::<Seq<char>>::empty());
            }
            while i < n
                invariant
                    n == children@.len(),
                    0 <= i <= n,
                    scanned0 + forest_files(children@).len() <= usize::MAX,
                    hits0 + forest_files(children@).len() <= usize::MAX,
                    *scanned == scanned0 + forest_files(children@.take(i as int)).len(),
                    *hits == hits0 + matches_in(forest_files(children@.take(i as int)), q).len(),
                    views(acc@) == views(acc0) + pick(
                        matches_in(forest_files(children@.take(i as int)), q),
                        hits0 as int,
                        max_results as int,
                    ),
                    q == folded_query@,
                decreases n - i,
            {
                let ghost pre = forest_files(children@.take(i as int));
                let ghost cur = tree_files(children@[i as int]);
                proof {
                    lemma_forest_files_split(children@, i as int);
                    lemma_forest_files_skip_unfold(children@, i as int);
                    pre.lemma_filter_len(|p: Seq<char>| spec_path_matches(p, q));
                    cur.lemma_filter_len(|p: Seq<char>| spec_path_matches(p, q));
                    assert(pre.len() + cur.len() <= forest_files(children@).len());
                }
                let child: &FsTree = &children[i];
                proof {
                    assert(decreases_to!(*t => *children));
                    assert(decreases_to!(*children => children@));
                    assert(decreases_to!(children@ => children@[i as int]));
                    assert(decreases_to!(*t => *child));
                }
                visit_tree(child, folded_query, max_results, scanned, hits, acc);
                proof {
                    lemma_forest_files_take_succ(children@, i as int);
                    Seq::filter_distributes_over_add(
                        pre,
                        cur,
                        |p: Seq<char>| spec_path_matches(p, q),
                    );
                    lemma_pick_add(
                        matches_in(pre, q),
                        matches_in(cur, q),
                        hits0 as int,
                        max_results as int,
                    );
                    assert(views(acc@) =~= views(acc0) + pick(
                        matches_in(forest_files(children@.take(i as int + 1)), q),
                        hits0 as int,
                        max_results as int,
                    ));
                }
                i = i + 1;
            }
            proof {
                assert(children@.take(n as int) =~= children@);
            }
        },
    }
}

/// Taking one more root into account appends exactly that root's files.
pub proof fn lemma_roots_files_take_succ(rs: Seq<Option<FsTree>>, i: int)
    requires
        0 <= i < rs.len(),
    ensures
        roots_files(rs.take(i + 1)) == roots_files(rs.take(i)) + root_files(rs[i]),
    decreases i,
{
    let pre = rs.take(i + 1);
    if i == 0 {
        assert(pre.drop_first() =~= Seq::<Option<FsTree>>::empty());
        assert(rs.take(0) =~= Seq::<Option<FsTree>>::empty());
        assert(roots_files(pre) =~= root_files(rs[0]) + roots_files(rs.take(0)));
        assert(roots_files(rs.take(0)) =~= Seq::<Seq<char>>::empty());
        assert(roots_files(pre) =~= roots_files(rs.take(0)) + root_files(rs[0]));
    } else {
        lemma_roots_files_take_succ(rs.drop_first(), i - 1);
        assert(pre.drop_first() =~= rs.drop_first().take(i));
        assert(rs.take(i).drop_first() =~= rs.drop_first().take(i - 1));
        assert(rs.drop_first()[i - 1] == rs[i]);
        assert(roots_files(pre) == root_files(rs[0]) + roots_files(rs.drop_first().take(i)));
        assert(roots_files(rs.take(i)) == root_files(rs[0]) + roots_files(
            rs.drop_first().take(i - 1),
        ));
        assert(root_files(rs[0]) + (roots_files(rs.drop_first().take(i - 1)) + root_files(rs[i]))
            =~= (root_files(rs[0]) + roots_files(rs.drop_first().take(i - 1))) + root_files(
            rs[i],
        ));
    }
}

/// A strictly sorted sequence holds no element twice.
pub proof fn lemma_strictly_sorted_no_duplicates(s: Seq<Seq<char>>)
    requires
        strictly_sorted(s),
    ensures
        s.no_duplicates(),
{
    assert forall|i: int, j: int|
        0 <= i < s.len() && 0 <= j < s.len() && i != j implies s[i] != s[j] by {
        if i < j {
            lemma_lex_lt_asymmetric(s[i], s[j]);
        } else {
            lemma_lex_lt_asymmetric(s[j], s[i]);
        }
    }
}

/// A strictly sorted sequence is determined by the set of its elements:
/// two strictly sorted sequences holding the same elements are equal.
pub proof fn lemma_strictly_sorted_unique(a: Seq<Seq<char>>, b: Seq<Seq<char>>)
    requires
        strictly_sorted(a),
        strictly_sorted(b),
        a.to_set() == b.to_set(),
    ensures
        a == b,
    decreases a.len(),
{
    if a.len() == 0 {
        if b.len() > 0 {
            assert(b.to_set().contains(b[0]));
            assert(a.contains(b[0]));
        }
        assert(a =~= b);
    } else {
        assert(a.to_set().contains(a[0]));
        assert(b.contains(a[0]));
        let j = choose|j: int| 0 <= j < b.len() && b[j] == a[0];
        assert(b.to_set().contains(b[0]));
        assert(a.contains(b[0]));
        let i = choose|i: int| 0 <= i < a.len() && a[i] == b[0];
        assert(a[0] == b[0]) by {
            if a[0] != b[0] {
                assert(j != 0);
                assert(i != 0);
                assert(lex_lt(b[0], b[j]));
                assert(lex_lt(a[0], a[i]));
                lemma_lex_lt_asymmetric(a[0], b[0]);
            }
        }
        let at = a.drop_first();
        let bt = b.drop_first();
        assert(strictly_sorted(at)) by {
            assert forall|p: int, q: int| 0 <= p < q < at.len() implies lex_lt(at[p], at[q]) by {
                assert(at[p] == a[p + 1]);
                assert(at[q] == a[q + 1]);
            }
        }
        assert(strictly_sorted(bt)) by {
            assert forall|p: int, q: int| 0 <= p < q < bt.len() implies lex_lt(bt[p], bt[q]) by {
                assert(bt[p] == b[p + 1]);
                assert(bt[q] == b[q + 1]);
            }
        }
        lemma_strictly_sorted_no_duplicates(a);
        lemma_strictly_sorted_no_duplicates(b);
        assert(at.to_set() =~= bt.to_set()) by {
            assert forall|x: Seq<char>| at.to_set().contains(x) implies bt.to_set().contains(
                x,
            ) by {
                let k = choose|k: int| 0 <= k < at.len() && at[k] == x;
                assert(a[k + 1] == x);
                assert(x != a[0]);
                assert(a.to_set().contains(x));
                assert(b.contains(x));
                let m = choose|m: int| 0 <= m < b.len() && b[m] == x;
                assert(m != 0);
                assert(bt[m - 1] == x);
            }
            assert forall|x: Seq<char>| bt.to_set().contains(x) implies at.to_set().contains(
                x,
            ) by {
                let k = choose|k: int| 0 <= k < bt.len() && bt[k] == x;
                assert(b[k + 1] == x);
                assert(x != b[0]);
                assert(b.to_set().contains(x));
                assert(a.contains(x));
                let m = choose|m: int| 0 <= m < a.len() && a[m] == x;
                assert(m != 0);
                assert(at[m - 1] == x);
            }
        }
        lemma_strictly_sorted_unique(at, bt);
        assert(a =~= b) by {
            assert(a.len() == b.len());
            assert forall|k: int| 0 <= k < a.len() implies a[k] == b[k] by {
                if k > 0 {
                    assert(a[k] == at[k - 1]);
                    assert(b[k] == bt[k - 1]);
                }
            }
        }
    }
}

/// Insert a path into a strictly sorted list, keeping the list strictly
/// sorted; a path already present is not inserted again.
#[verifier::loop_isolation(false)]
fn insert_unique(out: &mut Vec<String>, s: String)
    requires
        strictly_sorted(views(old(out)@)),
    ensures
        strictly_sorted(views(final(out)@)),
        views(final(out)@).to_set() == views(old(out)@).to_set().insert(s@),
{
    let n = out.len();
    let mut pos: usize = 0;
    loop
        invariant
            0 <= pos <= n,
            out == old(out),
            forall|k: int| 0 <= k < pos ==> lex_lt(views(out@)[k], s@),
        decreases n - pos,
    {
        if pos == n {
            break;
        }
        let c = str_compare(out[pos].as_str(), s.as_str());
        match c {
            Cmp::Lt => {
                pos = pos + 1;
            },
            Cmp::Eq => {
                proof {
                    assert(views(out@)[pos as int] == s@);
                    assert(views(out@).contains(s@));
                    assert(views(out@).to_set().contains(s@));
                    assert(views(out@).to_set().insert(s@) =~= views(out@).to_set());
                }
                return;
            },
            Cmp::Gt => {
                break;
            },
        }
    }
    // here every entry before pos is below s, and, when pos is not the end,
    // s is below the entry at pos
    let ghost old_views = views(out@);
    let ghost s_view = s@;
    out.insert(pos, s);
    proof {
        let new_views = views(out@);
        assert(out@ == old(out)@.insert(pos as int, s));
        assert(new_views.len() == old_views.len() + 1);
        assert forall|k: int| 0 <= k < new_views.len() implies new_views[k] == (if k < pos {
            old_views[k]
        } else if k == pos {
            s_view
        } else {
            old_views[k - 1]
        }) by {
            if k < pos {
                assert(out@[k] == old(out)@[k]);
            } else if k == pos {
                assert(out@[k] == s);
            } else {
                assert(out@[k] == old(out)@[k - 1]);
            }
        }
        assert forall|i: int, j: int| 0 <= i < j < new_views.len() implies lex_lt(
            new_views[i],
            new_views[j],
        ) by {
            if j < pos {
                // both in the old prefix
            } else if i < pos && j == pos {
                // old entry against the inserted one
            } else if i < pos && j > pos {
                assert(lex_lt(old_views[i], old_views[j - 1]));
            } else if i == pos && j > pos {
                if pos < n {
                    if j - 1 == pos {
                        assert(lex_lt(s_view, old_views[pos as int]));
                    } else {
                        lemma_lex_lt_transitive(
                            s_view,
                            old_views[pos as int],
                            old_views[j - 1],
                        );
                    }
                }
            } else {
                assert(lex_lt(old_views[i - 1], old_views[j - 1]));
            }
        }
        assert(new_views.to_set() =~= old_views.to_set().insert(s_view)) by {
            assert forall|x: Seq<char>| new_views.to_set().contains(x) implies old_views.to_set()
                .insert(s_view).contains(x) by {
                let k = choose|k: int| 0 <= k < new_views.len() && new_views[k] == x;
                if k < pos {
                    assert(old_views[k] == x);
                } else if k > pos {
                    assert(old_views[k - 1] == x);
                }
            }
            assert forall|x: Seq<char>| old_views.to_set().insert(s_view).contains(
                x,
            ) implies new_views.to_set().contains(x) by {
                if x == s_view {
                    assert(new_views[pos as int] == x);
                } else {
                    let k = choose|k: int| 0 <= k < old_views.len() && old_views[k] == x;
                    if k < pos {
                        assert(new_views[k] == x);
                    } else {
                        assert(new_views[k + 1] == x);
                    }
                }
            }
        }
    }
}

/// The completed result of one search: how many files were examined and
/// the deduplicated, sorted list of matching paths, capped at the maximum
/// the search was started with.
pub struct SearchOutput {
    pub scanned: usize,
    pub matched: Vec<String>,
}

impl Default for SearchOutput {
    fn default() -> (out: SearchOutput)
        ensures
            out.scanned == 0,
            out.matched@.len() == 0,
    {
        SearchOutput { scanned: 0, matched: Vec::new() }
    }
}

/// What a finished search states: the scan counted every file under the
/// given roots; the matched list is strictly sorted (so free of
/// duplicates), holds exactly the matches retained under the cap, and
/// never exceeds the cap.
pub open spec fn search_post(
    out: SearchOutput,
    roots: Seq<Option<FsTree>>,
    query: Seq<char>,
    max: int,
) -> bool {
    let files = roots_files(roots);
    let kept = pick(matches_in(files, lower_of(query)), 0, max);
    &&& out.scanned == files.len()
    &&& strictly_sorted(views(out.matched@))
    &&& views(out.matched@).to_set() == kept.to_set()
    &&& out.matched@.len() <= max
}

/// Search every file under the given roots for a case-insensitive
/// substring match of the query against the file's full path text.
///
/// Each root is partitioned into work items; every file under every work
/// item is examined and counted. A match is retained while the running
/// match counter stands below `max_results`; the retained matches are
/// returned deduplicated and sorted lexicographically, so the outcome is
/// deterministic however the work items are scheduled.
#[verifier::loop_isolation(false)]
pub fn search_files_include(query: &str, roots: &Vec<Option<FsTree>>, max_results: usize) -> (out:
    SearchOutput)
    requires
        roots_files(roots@).len() <= usize::MAX,
    ensures
        search_post(out, roots@, query@, max_results as int),
{
    let folded = fold_case(query);
    let ghost q = lower_of(query@);
    let mut scanned: usize = 0;
    let mut hits: usize = 0;
    let mut raw: Vec<String> = Vec::new();
    let nr = roots.len();
    let mut r: usize = 0;
    proof {
        assert(roots@.take(0) =~= Seq::<Option<FsTree>>::empty());
        lemma_matches_in_empty(q);
        assert(roots_files(roots@.take(0)) =~= Seq::<Seq<char>>::empty());
        assert(views(raw@) =~= pick(
            matches_in(roots_files(roots@.take(0)), q),
            0,
            max_results as int,
        ));
    }
    while r < nr
        invariant
            nr == roots@.len(),
            0 <= r <= nr,
            folded@ == q,
            scanned == roots_files(roots@.take(r as int)).len(),
            hits == matches_in(roots_files(roots@.take(r as int)), q).len(),
            views(raw@) == pick(
                matches_in(roots_files(roots@.take(r as int)), q),
                0,
                max_results as int,
            ),
        decreases nr - r,
    {
        let root_ref: &Option<FsTree> = &roots[r];
        let items = root_work_items(root_ref);
        let ghost itemsv = items@.map_values(|t: &FsTree| *t);
        let ghost base = roots_files(roots@.take(r as int));
        proof {
            assert(itemsv == spec_work_items(roots@[r as int]));
            lemma_work_items_files(roots@[r as int]);
            assert(itemsv.take(0) =~= Seq::<FsTree>::empty());
            assert(forest_files(itemsv.take(0)) =~= Seq::<Seq<char>>::empty());
            assert(base + forest_files(itemsv.take(0)) =~= base);
        }
        let ni = items.len();
        let mut j: usize = 0;
        while j < ni
            invariant
                ni == items@.len(),
                0 <= j <= ni,
                scanned == (base + forest_files(itemsv.take(j as int))).len(),
                hits == matches_in(base + forest_files(itemsv.take(j as int)), q).len(),
                views(raw@) == pick(
                    matches_in(base + forest_files(itemsv.take(j as int)), q),
                    0,
                    max_results as int,
                ),
            decreases ni - j,
        {
            let ghost done = base + forest_files(itemsv.take(j as int));
            let ghost cur = tree_files(itemsv[j as int]);
            proof {
                // the files already counted plus the files of this work item
                // stay within the files of all roots
                lemma_roots_files_split(roots@, r as int);
                lemma_roots_files_skip_unfold(roots@, r as int);
                lemma_forest_files_split(itemsv, j as int);
                lemma_forest_files_skip_unfold(itemsv, j as int);
                assert(roots_files(roots@).len() <= usize::MAX);
                assert(done.len() + cur.len() <= roots_files(roots@).len());
                done.lemma_filter_len(|p: Seq<char>| spec_path_matches(p, q));
                cur.lemma_filter_len(|p: Seq<char>| spec_path_matches(p, q));
            }
            let child: &FsTree = items[j];
            proof {
                assert(*child == itemsv[j as int]);
            }
            visit_tree(child, &folded, max_results, &mut scanned, &mut hits, &mut raw);
            proof {
                lemma_forest_files_take_succ(itemsv, j as int);
                Seq::filter_distributes_over_add(done, cur, |p: Seq<char>| spec_path_matches(p, q));
                lemma_pick_add(matches_in(done, q), matches_in(cur, q), 0, max_results as int);
                assert(base + forest_files(itemsv.take(j as int + 1)) =~= done + cur);
            }
            j = j + 1;
        }
        proof {
            assert(itemsv.take(ni as int) =~= itemsv);
            lemma_roots_files_take_succ(roots@, r as int);
            assert(base + forest_files(itemsv) =~= roots_files(roots@.take(r as int + 1)));
        }
        r = r + 1;
    }
    proof {
        assert(roots@.take(nr as int) =~= roots@);
    }
    let ghost kept = pick(matches_in(roots_files(roots@), q), 0, max_results as int);
    // aggregate: deduplicate and sort the retained matches
    let mut matched: Vec<String> = Vec::new();
    let nm = raw.len();
    let mut k: usize = 0;
    proof {
        assert(raw@.take(0) =~= Seq::<String>::empty());
        assert(views(raw@.take(0)).to_set() =~= Set::<Seq<char>>::empty());
        assert(views(matched@).to_set() =~= Set::<Seq<char>>::empty());
    }
    while k < nm
        invariant
            nm == raw@.len(),
            0 <= k <= nm,
            strictly_sorted(views(matched@)),
            views(matched@).to_set() == views(raw@.take(k as int)).to_set(),
        decreases nm - k,
    {
        let s = raw[k].clone();
        insert_unique(&mut matched, s);
        proof {
            broadcast use vstd::seq_lib::lemma_seq_contains_after_push;

            assert(views(raw@.take(k as int + 1)) =~= views(raw@.take(k as int)).push(
                raw@[k as int]@,
            ));
            assert(views(raw@.take(k as int + 1)).to_set() =~= views(raw@.take(k as int)).to_set()
                .insert(raw@[k as int]@));
        }
        k = k + 1;
    }
    proof {
        assert(raw@.take(nm as int) =~= raw@);
        assert(views(matched@).to_set() == kept.to_set());
        // the cap carries over: a strictly sorted list has as many entries
        // as its element set, and that set came from a list of at most
        // `max_results` retained matches
        lemma_strictly_sorted_no_duplicates(views(matched@));
        views(matched@).unique_seq_to_set();
        kept.lemma_cardinality_of_set();
        assert(kept.len() <= max_results);
        assert(matched@.len() == views(matched@).len());
        assert(matched@.len() <= max_results);
    }
    SearchOutput { scanned, matched }
}

/// An element of a filtered sequence is an element of the sequence it was
/// filtered from.
proof fn lemma_filter_member(s: Seq<Seq<char>>, pred: spec_fn(Seq<char>) -> bool, x: Seq<char>)
    requires
        s.filter(pred).contains(x),
    ensures
        s.contains(x),
    decreases s.len(),
{
    reveal(Seq::filter);
    if s.len() > 0 {
        if s.drop_last().filter(pred).contains(x) {
            lemma_filter_member(s.drop_last(), pred, x);
            let m = choose|m: int| 0 <= m < s.drop_last().len() && s.drop_last()[m] == x;
            assert(s[m] == x);
        } else {
            assert(x == s.last());
            assert(s[s.len() - 1] == x);
        }
    }
}

/// Every path a finished search returns case-insensitively contains the
/// query, and is the path of a file under the given roots: the search
/// invents nothing and matches nothing outside the query.
pub proof fn lemma_matched_sound(
    out: SearchOutput,
    roots: Seq<Option<FsTree>>,
    query: Seq<char>,
    max: int,
)
    requires
        search_post(out, roots, query, max),
    ensures
        forall|i: int|
            0 <= i < out.matched@.len() ==> spec_path_matches(
                #[trigger] out.matched@[i]@,
                lower_of(query),
            ) && roots_files(roots).contains(out.matched@[i]@),
{
    let files = roots_files(roots);
    let q = lower_of(query);
    let ms = matches_in(files, q);
    let kept = pick(ms, 0, max);
    let pred = |p: Seq<char>| spec_path_matches(p, q);
    assert forall|i: int| 0 <= i < out.matched@.len() implies spec_path_matches(
        #[trigger] out.matched@[i]@,
        q,
    ) && files.contains(out.matched@[i]@) by {
        let x = out.matched@[i]@;
        assert(views(out.matched@)[i] == x);
        assert(views(out.matched@).contains(x));
        assert(views(out.matched@).to_set().contains(x));
        assert(kept.to_set().contains(x));
        assert(kept.contains(x));
        let j = choose|j: int| 0 <= j < kept.len() && kept[j] == x;
        assert(kept.len() <= ms.len());
        assert(ms[j] == x);
        files.lemma_filter_pred(pred, j);
        assert(ms.contains(x));
        lemma_filter_member(files, pred, x);
    }
}

/// The scan counter is exact and never capped: it equals the number of
/// files under the given roots, and is never smaller than the number of
/// matches returned.
pub proof fn lemma_scanned_counts_all(
    out: SearchOutput,
    roots: Seq<Option<FsTree>>,
    query: Seq<char>,
    max: int,
)
    requires
        search_post(out, roots, query, max),
    ensures
        out.scanned == roots_files(roots).len(),
        out.matched@.len() <= out.scanned,
{
    let files = roots_files(roots);
    let q = lower_of(query);
    let ms = matches_in(files, q);
    let kept = pick(ms, 0, max);
    lemma_strictly_sorted_no_duplicates(views(out.matched@));
    views(out.matched@).unique_seq_to_set();
    kept.lemma_cardinality_of_set();
    files.lemma_filter_len(|p: Seq<char>| spec_path_matches(p, q));
    assert(kept.len() <= ms.len());
}

/// Two finished searches of the same query over the same roots under the
/// same cap agree: the same scan count and the same sorted match list,
/// independent of how either search's work was scheduled.
pub proof fn lemma_search_deterministic(
    out1: SearchOutput,
    out2: SearchOutput,
    roots: Seq<Option<FsTree>>,
    query: Seq<char>,
    max: int,
)
    requires
        search_post(out1, roots, query, max),
        search_post(out2, roots, query, max),
    ensures
        out1.scanned == out2.scanned,
        views(out1.matched@) == views(out2.matched@),
{
    lemma_strictly_sorted_unique(views(out1.matched@), views(out2.matched@));
}

/// When the distinct matches outnumber the cap, the returned list is full:
/// exactly `max` entries, while the scan count still reflects every file
/// visited.
pub proof fn lemma_cap_exact(
    out: SearchOutput,
    roots: Seq<Option<FsTree>>,
    query: Seq<char>,
    max: int,
)
    requires
        search_post(out, roots, query, max),
        max >= 0,
        matches_in(roots_files(roots), lower_of(query)).no_duplicates(),
        matches_in(roots_files(roots), lower_of(query)).len() > max,
    ensures
        out.matched@.len() == max,
        out.scanned == roots_files(roots).len(),
{
    let q = lower_of(query);
    let ms = matches_in(roots_files(roots), q);
    let kept = pick(ms, 0, max);
    if max == 0 {
        assert(kept =~= Seq::<Seq<char>>::empty());
        assert(kept.to_set() =~= Set::<Seq<char>>::empty());
        if out.matched@.len() > 0 {
            assert(views(out.matched@)[0] == out.matched@[0]@);
            assert(views(out.matched@).contains(out.matched@[0]@));
            assert(views(out.matched@).to_set().contains(out.matched@[0]@));
        }
    } else {
        assert(kept == ms.take(max));
        assert(kept.no_duplicates()) by {
            assert forall|i: int, j: int|
                0 <= i < kept.len() && 0 <= j < kept.len() && i != j implies kept[i]
                != kept[j] by {
                assert(kept[i] == ms[i]);
                assert(kept[j] == ms[j]);
            }
        }
        kept.unique_seq_to_set();
        lemma_strictly_sorted_no_duplicates(views(out.matched@));
        views(out.matched@).unique_seq_to_set();
    }
}

/// No path appears twice in a finished search's match list, however the
/// supplied roots overlap.
pub proof fn lemma_matched_no_duplicates(
    out: SearchOutput,
    roots: Seq<Option<FsTree>>,
    query: Seq<char>,
    max: int,
)
    requires
        search_post(out, roots, query, max),
    ensures
        forall|i: int, j: int|
            0 <= i < j < out.matched@.len() ==> out.matched@[i]@ != out.matched@[j]@,
{
    lemma_strictly_sorted_no_duplicates(views(out.matched@));
    assert forall|i: int, j: int|
        0 <= i < j < out.matched@.len() implies out.matched@[i]@ != out.matched@[j]@ by {
        assert(views(out.matched@)[i] == out.matched@[i]@);
        assert(views(out.matched@)[j] == out.matched@[j]@);
    }
}

} // verus!
