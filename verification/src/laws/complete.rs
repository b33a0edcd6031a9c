//! Completeness and traversal agree on whether a goal is left.

use vstd::prelude::*;
use crate::paths::under;
use crate::tree::{ChildrenView, TreeView};

verus! {

/// A tree is complete exactly if its traversal lists no goal.
pub proof fn lemma_complete_iff_no_goal_listed(tree: TreeView)
    ensures
        tree.complete() <==> forall|i: int|
            0 <= i < tree.postorder().len() ==> !((#[trigger] tree.postorder()[i]).1 is Goal),
    decreases tree, 0nat,
{
    match tree {
        TreeView::Step { antecedents, .. } => {
            let below = TreeView::postorder_below(antecedents, antecedents.len());
            lemma_no_goal_below(antecedents, antecedents.len());
            assert(tree.postorder() == below.push((Seq::empty(), tree)));
            let listed = tree.postorder();
            if forall|i: int| 0 <= i < listed.len() ==> !((#[trigger] listed[i]).1 is Goal) {
                assert forall|i: int| 0 <= i < below.len() implies !((#[trigger] below[i]).1 is Goal) by {
                    assert(listed[i] == below[i]);
                }
            }
        },
        _ => {
            assert(tree.postorder()[0].1 == tree);
        },
    }
}

/// The first `n` children are complete exactly if the traversal lists no goal below them.
proof fn lemma_no_goal_below(children: ChildrenView, n: nat)
    requires
        n <= children.len(),
    ensures
        (forall|j: int| 0 <= j < n ==> (#[trigger] children[j]).1.complete()) <==> forall|i: int|
            0 <= i < TreeView::postorder_below(children, n).len() ==> !((
            #[trigger] TreeView::postorder_below(children, n)[i]).1 is Goal),
    decreases children, n,
{
    if n > 0 {
        let last = children[n - 1];
        let before = TreeView::postorder_below(children, (n - 1) as nat);
        let listed = last.1.postorder();
        let lifted = under(last.0, listed);
        let all = TreeView::postorder_below(children, n);
        assert(all == before + lifted);
        lemma_no_goal_below(children, (n - 1) as nat);
        lemma_complete_iff_no_goal_listed(last.1);
        if forall|i: int| 0 <= i < all.len() ==> !((#[trigger] all[i]).1 is Goal) {
            assert forall|i: int| 0 <= i < before.len() implies !((#[trigger] before[i]).1 is Goal) by {
                assert(all[i] == before[i]);
            }
            assert forall|i: int| 0 <= i < listed.len() implies !((#[trigger] listed[i]).1 is Goal) by {
                assert(all[before.len() + i] == lifted[i]);
            }
            assert forall|j: int| 0 <= j < n implies (#[trigger] children[j]).1.complete() by {
                if j == n - 1 {
                    assert(last.1.complete());
                }
            }
        }
        if forall|j: int| 0 <= j < n ==> (#[trigger] children[j]).1.complete() {
            assert(children[n - 1].1.complete());
            assert forall|i: int| 0 <= i < all.len() implies !((#[trigger] all[i]).1 is Goal) by {
                if i < before.len() {
                    assert(all[i] == before[i]);
                } else {
                    assert(all[i] == lifted[i - before.len()]);
                    assert(lifted[i - before.len()].1 == listed[i - before.len()].1);
                }
            }
        }
    }
}

} // verus!
