//! Completeness and traversal.

use vstd::prelude::*;
use crate::paths::{append_under, entries_view, lemma_entries_push, under};
use crate::tree::{ChildrenView, PathView, Tree, TreeView};
use crate::views::views;

verus! {

impl TreeView {
    /// No goal is left anywhere in the tree.
    pub open spec fn complete(self) -> bool
        decreases self,
    {
        match self {
            TreeView::Axiom(_) => true,
            TreeView::Goal(_) => false,
            TreeView::Step { antecedents, .. } => forall|i: int|
                0 <= i < antecedents.len() ==> (#[trigger] antecedents[i]).1.complete(),
        }
    }

    /// Every node with its path from the root: the nodes below each antecedent first,
    /// antecedent by antecedent in order, then the node itself under the empty path.
    pub open spec fn postorder(self) -> Seq<(PathView, TreeView)>
        decreases self, 0nat,
    {
        match self {
            TreeView::Step { antecedents, .. } => Self::postorder_below(
                antecedents,
                antecedents.len(),
            ).push((Seq::empty(), self)),
            _ => seq![(Seq::empty(), self)],
        }
    }

    /// The nodes below the first `n` of `children`, each list under the tag of its child.
    pub open spec fn postorder_below(children: ChildrenView, n: nat) -> Seq<
        (PathView, TreeView),
    >
        decreases children, n,
    {
        if n == 0 || n > children.len() {
            Seq::empty()
        } else {
            Self::postorder_below(children, (n - 1) as nat) + under(
                children[n - 1].0,
                children[n - 1].1.postorder(),
            )
        }
    }
}

impl Tree {
    /// Whether every obligation in the tree has been discharged.
    #[verifier::loop_isolation(false)]
    pub fn complete(&self) -> (res: bool)
        ensures
            res == self@.complete(),
        decreases self,
    {
        match self {
            Tree::Axiom(_) => true,
            Tree::Goal(_) => false,
            Tree::Step { antecedents, .. } => {
                proof {
                    self.lemma_step_view();
                }
                let mut i: usize = 0;
                while i < antecedents.len()
                    invariant
                        i <= antecedents.len(),
                        forall|j: int| 0 <= j < i ==> (#[trigger] self@->antecedents[j]).1.complete(),
                    decreases antecedents.len() - i,
                {
                    if !antecedents[i].1.complete() {
                        assert(!self@->antecedents[i as int].1.complete());
                        return false;
                    }
                    i += 1;
                }
                true
            },
        }
    }

    /// Lists every node of the tree with its path from the root, antecedents before the
    /// node that holds them.
    #[verifier::loop_isolation(false)]
    pub fn postorder(&self) -> (res: Vec<(Vec<String>, &Tree)>)
        ensures
            entries_view(res@) == self@.postorder(),
        decreases self,
    {
        let mut ret: Vec<(Vec<String>, &Tree)> = Vec::new();
        assert(entries_view(ret@) =~= Seq::empty());
        match self {
            Tree::Step { antecedents, .. } => {
                proof {
                    self.lemma_step_view();
                }
                let ghost children = views(antecedents@);
                let mut i: usize = 0;
                while i < antecedents.len()
                    invariant
                        i <= antecedents.len(),
                        entries_view(ret@) == TreeView::postorder_below(children, i as nat),
                    decreases antecedents.len() - i,
                {
                    let below = antecedents[i].1.postorder();
                    append_under(&mut ret, &antecedents[i].0, &below);
                    i += 1;
                }
            },
            _ => {},
        }
        let root: (Vec<String>, &Tree) = (Vec::new(), self);
        proof {
            lemma_entries_push(ret@, root);
            assert(views(root.0@) =~= Seq::empty());
        }
        ret.push(root);
        ret
    }
}

} // verus!
