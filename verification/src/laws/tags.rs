//! Trees in which no tag is repeated among siblings.

use vstd::prelude::*;
use crate::fact::{FactView, ValueView};
use crate::laws::queries::lemma_queries_list_steps_with_goals;
use crate::laws::reach::lemma_first_error;
use crate::laws::replace::lemma_replace_by_same_keeps_paths;
use crate::predicate::ConstraintView;
use crate::query::QueryView;
use crate::signature::SignatureView;
use crate::tree::{OUTPUT, PathView, TreeView};

verus! {

/// A derivation that starts from a rule whose parameters have distinct names has
/// distinct tags.
pub proof fn lemma_new_step_has_distinct_tags(rule: SignatureView, ret_args: Seq<(Seq<char>, ValueView)>)
    requires
        forall|i: int, j: int|
            0 <= i < j < rule.params.len() ==> (#[trigger] rule.params[i]).0 != (
            #[trigger] rule.params[j]).0,
    ensures
        TreeView::from_computation_signature(rule, ret_args).tags_distinct(),
{
    let tree = TreeView::from_computation_signature(rule, ret_args);
    assert forall|i: int, j: int| 0 <= i < j < tree->antecedents.len() implies (
    #[trigger] tree->antecedents[i]).0 != (#[trigger] tree->antecedents[j]).0 by {
        assert(tree->antecedents[i].0 == rule.params[i].0);
        assert(tree->antecedents[j].0 == rule.params[j].0);
    }
    assert forall|i: int| 0 <= i < tree->antecedents.len() implies (
    #[trigger] tree->antecedents[i]).1.tags_distinct() by {
        assert(tree->antecedents[i].1 == TreeView::Goal(rule.params[i].1));
    }
}

/// A derivation that starts from a top-level goal has distinct tags.
pub proof fn lemma_new_session_has_distinct_tags(goal: FactView)
    ensures
        TreeView::from_goal(goal).tags_distinct(),
{
    lemma_new_step_has_distinct_tags(
        QueryView::from_fact(goal, OUTPUT@).computation_signature,
        Seq::empty(),
    );
}

/// Putting a subtree with distinct tags into a tree with distinct tags gives a tree
/// with distinct tags.
pub proof fn lemma_replace_keeps_tags_distinct(tree: TreeView, path: PathView, subtree: TreeView)
    requires
        tree.tags_distinct(),
        subtree.tags_distinct(),
    ensures
        tree.replaced(path, subtree).tags_distinct(),
    decreases path.len(),
{
    if path.len() > 0 && tree is Step {
        let replaced = tree.replaced(path, subtree);
        tree.lemma_replaced_step(path, subtree);
        assert forall|i: int, j: int| 0 <= i < j < replaced->antecedents.len() implies (
        #[trigger] replaced->antecedents[i]).0 != (#[trigger] replaced->antecedents[j]).0 by {
            assert(replaced->antecedents[i].0 == tree->antecedents[i].0);
            assert(replaced->antecedents[j].0 == tree->antecedents[j].0);
        }
        assert forall|i: int| 0 <= i < replaced->antecedents.len() implies (
        #[trigger] replaced->antecedents[i]).1.tags_distinct() by {
            assert(tree->antecedents[i].1.tags_distinct());
            lemma_replace_keeps_tags_distinct(tree->antecedents[i].1, path.skip(1), subtree);
        }
    }
}

/// Extending a side condition keeps the tags distinct.
pub proof fn lemma_side_condition_keeps_tags_distinct(
    tree: TreeView,
    path: PathView,
    extra: Seq<ConstraintView>,
)
    requires
        tree.tags_distinct(),
    ensures
        tree.with_side_condition(path, extra).tags_distinct(),
    decreases path.len(),
{
    if path.len() > 0 && tree is Step {
        let extended = tree.with_side_condition(path, extra);
        tree.lemma_with_side_condition_step(path, extra);
        assert forall|i: int, j: int| 0 <= i < j < extended->antecedents.len() implies (
        #[trigger] extended->antecedents[i]).0 != (#[trigger] extended->antecedents[j]).0 by {
            assert(extended->antecedents[i].0 == tree->antecedents[i].0);
            assert(extended->antecedents[j].0 == tree->antecedents[j].0);
        }
        assert forall|i: int| 0 <= i < extended->antecedents.len() implies (
        #[trigger] extended->antecedents[i]).1.tags_distinct() by {
            assert(tree->antecedents[i].1.tags_distinct());
            lemma_side_condition_keeps_tags_distinct(tree->antecedents[i].1, path.skip(1), extra);
        }
    }
}

/// In a tree with distinct tags a path leads to at most one node, so a path that
/// leads to a node points at it.
pub proof fn lemma_distinct_tags_single_node(tree: TreeView, path: PathView, node: TreeView)
    requires
        tree.tags_distinct(),
        tree.reaches(path, node),
    ensures
        tree.points_at(path, node),
    decreases path.len(),
{
    assert forall|other: TreeView| tree.reaches(path, other) implies other == node by {
        if path.len() > 0 {
            let children = tree->antecedents;
            let rest = path.skip(1);
            let i = choose|i: int|
                0 <= i < children.len() && (#[trigger] children[i]).0 == path[0]
                    && children[i].1.reaches(rest, node);
            let j = choose|j: int|
                0 <= j < children.len() && (#[trigger] children[j]).0 == path[0]
                    && children[j].1.reaches(rest, other);
            if i < j {
                assert(children[i].0 != children[j].0);
            } else if j < i {
                assert(children[j].0 != children[i].0);
            }
            assert(children[i].1.tags_distinct());
            lemma_distinct_tags_single_node(children[i].1, rest, node);
        }
    }
}

/// In a tree with distinct tags, a path that leads to a node can be followed; it can be
/// followed to a step if the node is one.
pub proof fn lemma_reached_path_can_be_followed(
    tree: TreeView,
    path: PathView,
    node: TreeView,
    to_step: bool,
)
    requires
        tree.tags_distinct(),
        tree.reaches(path, node),
        to_step ==> node is Step,
    ensures
        tree.path_error(path, to_step) is None,
    decreases path.len(),
{
    if path.len() > 0 {
        let children = tree->antecedents;
        let rest = path.skip(1);
        let i = choose|i: int|
            0 <= i < children.len() && (#[trigger] children[i]).0 == path[0]
                && children[i].1.reaches(rest, node);
        assert(children[i].1.tags_distinct());
        lemma_reached_path_can_be_followed(children[i].1, rest, node, to_step);
        lemma_first_error(children, path[0], rest, to_step);
        assert forall|j: int|
            0 <= j < children.len() && (#[trigger] children[j]).0
                == path[0] implies children[j].1.path_error(rest, to_step) is None by {
            if i < j {
                assert(children[i].0 != children[j].0);
            } else if j < i {
                assert(children[j].0 != children[i].0);
            }
        }
    }
}

/// In a tree with distinct tags, the path of every query can be followed, and it ends
/// on a step: a solution can be put there, and the side condition there can be extended.
pub proof fn lemma_query_paths_can_be_followed(tree: TreeView, library: Seq<SignatureView>, i: int)
    requires
        tree.tags_distinct(),
        0 <= i < tree.queries(library).len(),
    ensures
        tree.path_error(tree.queries(library)[i].0, false) is None,
        tree.path_error(tree.queries(library)[i].0, true) is None,
{
    let entry = tree.queries(library)[i];
    assert(tree.queries(library).contains(entry));
    lemma_queries_list_steps_with_goals(tree, library, entry.0, entry.1);
    let node = choose|node: TreeView|
        tree.reaches(entry.0, node) && node.has_goals() && entry.1 == node.own_query(library);
    lemma_reached_path_can_be_followed(tree, entry.0, node, false);
    lemma_reached_path_can_be_followed(tree, entry.0, node, true);
}

/// In a tree with distinct tags, replacing the subtree at a path by itself changes
/// nothing: the tree stays the same, and so does the set of paths of its traversal.
pub proof fn lemma_replace_by_same_with_distinct_tags(tree: TreeView, path: PathView, subtree: TreeView)
    requires
        tree.tags_distinct(),
        tree.reaches(path, subtree),
    ensures
        tree.path_error(path, false) is None,
        tree.replaced(path, subtree) == tree,
        TreeView::paths(tree.replaced(path, subtree).postorder()) == TreeView::paths(tree.postorder()),
{
    lemma_reached_path_can_be_followed(tree, path, subtree, false);
    lemma_distinct_tags_single_node(tree, path, subtree);
    lemma_replace_by_same_keeps_paths(tree, path, subtree);
}

} // verus!
