//! Where paths lead: the nodes that a path reaches, and how the traversal lists them.

use vstd::prelude::*;
use crate::paths::under;
use crate::tree::{ChildrenView, PathView, TreeView};

verus! {

impl TreeView {
    /// Whether `path` leads from this node to `node`: the empty path leads to the node
    /// itself, and a longer one goes through an antecedent that carries its first segment.
    pub open spec fn reaches(self, path: PathView, node: TreeView) -> bool
        decreases path.len(),
    {
        if path.len() == 0 {
            self == node
        } else {
            self is Step && exists|i: int|
                0 <= i < self->antecedents.len() && (#[trigger] self->antecedents[i]).0 == path[0]
                    && self->antecedents[i].1.reaches(path.skip(1), node)
        }
    }

    /// Whether `path` leads from this node to `node` and to nothing else.
    pub open spec fn points_at(self, path: PathView, node: TreeView) -> bool {
        self.reaches(path, node) && forall|other: TreeView| self.reaches(path, other) ==> other == node
    }

    /// The set of the paths of a list of entries.
    pub open spec fn paths(entries: Seq<(PathView, TreeView)>) -> Set<PathView> {
        Set::new(
            |path: PathView|
                exists|i: int| 0 <= i < entries.len() && (#[trigger] entries[i]).0 == path,
        )
    }
}

/// An entry is in a concatenation exactly if it is in one of its two parts.
pub proof fn lemma_concat_contains<T>(a: Seq<T>, b: Seq<T>, x: T)
    ensures
        (a + b).contains(x) <==> a.contains(x) || b.contains(x),
{
    if a.contains(x) {
        let i = choose|i: int| 0 <= i < a.len() && a[i] == x;
        assert((a + b)[i] == x);
    }
    if b.contains(x) {
        let i = choose|i: int| 0 <= i < b.len() && b[i] == x;
        assert((a + b)[a.len() + i] == x);
    }
    if (a + b).contains(x) {
        let i = choose|i: int| 0 <= i < (a + b).len() && (a + b)[i] == x;
        if i < a.len() {
            assert(a[i] == x);
        } else {
            assert(b[i - a.len()] == x);
        }
    }
}

/// Seen from the parent, the entries of a subtree are those whose path starts with the
/// tag of the subtree and goes on as below it.
pub proof fn lemma_under_contains<T>(
    tag: Seq<char>,
    entries: Seq<(PathView, T)>,
    path: PathView,
    node: T,
)
    ensures
        under(tag, entries).contains((path, node)) <==> path.len() > 0 && path[0] == tag
            && entries.contains((path.skip(1), node)),
{
    let lifted = under(tag, entries);
    if lifted.contains((path, node)) {
        let k = choose|k: int| 0 <= k < lifted.len() && lifted[k] == (path, node);
        assert(path == seq![tag] + entries[k].0);
        assert(path.skip(1) =~= entries[k].0);
        assert(entries[k] == (path.skip(1), node));
    }
    if path.len() > 0 && path[0] == tag && entries.contains((path.skip(1), node)) {
        let k = choose|k: int| 0 <= k < entries.len() && entries[k] == (path.skip(1), node);
        assert(seq![tag] + path.skip(1) =~= path);
        assert(lifted[k] == (path, node));
    }
}

/// The traversal lists a node under a path exactly if the path leads to the node.
pub proof fn lemma_postorder_lists_what_paths_reach(tree: TreeView, path: PathView, node: TreeView)
    ensures
        tree.postorder().contains((path, node)) <==> tree.reaches(path, node),
    decreases tree, 0nat,
{
    match tree {
        TreeView::Step { antecedents, .. } => {
            let below = TreeView::postorder_below(antecedents, antecedents.len());
            let root = seq![(Seq::<Seq<char>>::empty(), tree)];
            lemma_postorder_below(antecedents, antecedents.len(), path, node);
            assert(tree.postorder() =~= below + root);
            lemma_concat_contains(below, root, (path, node));
            if path.len() == 0 {
                assert(path =~= Seq::empty());
                if tree == node {
                    assert(root[0] == (path, node));
                }
            }
            if root.contains((path, node)) {
                let k = choose|k: int| 0 <= k < root.len() && root[k] == (path, node);
                assert(path == Seq::<Seq<char>>::empty());
            }
        },
        _ => {
            let root = seq![(Seq::<Seq<char>>::empty(), tree)];
            assert(tree.postorder() =~= root);
            if path.len() == 0 {
                assert(path =~= Seq::empty());
                if tree == node {
                    assert(root[0] == (path, node));
                }
            }
            if root.contains((path, node)) {
                let k = choose|k: int| 0 <= k < root.len() && root[k] == (path, node);
                assert(path == Seq::<Seq<char>>::empty());
            }
        },
    }
}

/// Below the first `n` children, the traversal lists a node under a path exactly if the
/// path goes through one of them and leads to the node from there.
proof fn lemma_postorder_below(
    children: ChildrenView,
    n: nat,
    path: PathView,
    node: TreeView,
)
    requires
        n <= children.len(),
    ensures
        TreeView::postorder_below(children, n).contains((path, node)) <==> path.len() > 0
            && exists|j: int|
            0 <= j < n && (#[trigger] children[j]).0 == path[0] && children[j].1.reaches(
                path.skip(1),
                node,
            ),
    decreases children, n,
{
    if n == 0 {
        assert(TreeView::postorder_below(children, n) =~= Seq::empty());
    } else {
        let last = children[n - 1];
        let before = TreeView::postorder_below(children, (n - 1) as nat);
        let lifted = under(last.0, last.1.postorder());
        assert(TreeView::postorder_below(children, n) == before + lifted);
        lemma_postorder_below(children, (n - 1) as nat, path, node);
        lemma_postorder_lists_what_paths_reach(last.1, path.skip(1), node);
        lemma_under_contains(last.0, last.1.postorder(), path, node);
        lemma_concat_contains(before, lifted, (path, node));
        if path.len() > 0 {
            let through = |j: int|
                0 <= j < children.len() && children[j].0 == path[0] && children[j].1.reaches(
                    path.skip(1),
                    node,
                );
            if before.contains((path, node)) {
                let j = choose|j: int|
                    0 <= j < n - 1 && (#[trigger] children[j]).0 == path[0] && children[j].1.reaches(
                        path.skip(1),
                        node,
                    );
                assert(through(j));
            }
            if lifted.contains((path, node)) {
                assert(through(n - 1));
            }
            if exists|j: int|
                0 <= j < n && (#[trigger] children[j]).0 == path[0] && children[j].1.reaches(
                    path.skip(1),
                    node,
                ) {
                let j = choose|j: int|
                    0 <= j < n && (#[trigger] children[j]).0 == path[0] && children[j].1.reaches(
                        path.skip(1),
                        node,
                    );
                if j < n - 1 {
                    assert(before.contains((path, node)));
                } else {
                    assert(lifted.contains((path, node)));
                }
            }
        }
    }
}

/// A path can be followed below every antecedent of a tag exactly if none of them gives an error.
pub proof fn lemma_first_error(
    children: ChildrenView,
    tag: Seq<char>,
    rest: PathView,
    to_step: bool,
)
    ensures
        TreeView::first_error(children, tag, rest, to_step) is None <==> forall|i: int|
            0 <= i < children.len() && (#[trigger] children[i]).0 == tag ==> children[i].1.path_error(
                rest,
                to_step,
            ) is None,
    decreases children.len(),
{
    if children.len() > 0 {
        let tail = children.skip(1);
        lemma_first_error(tail, tag, rest, to_step);
        if TreeView::first_error(children, tag, rest, to_step) is None {
            assert forall|i: int|
                0 <= i < children.len() && (#[trigger] children[i]).0
                    == tag implies children[i].1.path_error(rest, to_step) is None by {
                if i > 0 {
                    assert(tail[i - 1] == children[i]);
                }
            }
        } else if !(children[0].0 == tag && children[0].1.path_error(rest, to_step) is Some) {
            let k = choose|k: int|
                0 <= k < tail.len() && (#[trigger] tail[k]).0 == tag && !(tail[k].1.path_error(
                    rest,
                    to_step,
                ) is None);
            assert(children[k + 1] == tail[k]);
        }
    }
}

/// A path that can be followed leads to some node.
pub proof fn lemma_path_leads_somewhere(tree: TreeView, path: PathView)
    requires
        tree.path_error(path, false) is None,
    ensures
        exists|node: TreeView| tree.reaches(path, node),
    decreases path.len(),
{
    if path.len() == 0 {
        assert(tree.reaches(path, tree));
    } else {
        let children = tree->antecedents;
        let rest = path.skip(1);
        lemma_first_error(children, path[0], rest, false);
        let first = choose|i: int| 0 <= i < children.len() && (#[trigger] children[i]).0 == path[0];
        lemma_path_leads_somewhere(children[first].1, rest);
        let node = choose|node: TreeView| children[first].1.reaches(rest, node);
        assert(tree.reaches(path, node));
    }
}

} // verus!
