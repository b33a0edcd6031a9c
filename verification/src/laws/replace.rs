//! Replacement and extension: what is found again, what stays, and what commutes.

use vstd::prelude::*;
use crate::laws::reach::{
    lemma_first_error, lemma_path_leads_somewhere, lemma_postorder_lists_what_paths_reach,
};
use crate::predicate::ConstraintView;
use crate::tree::{PathView, TreeError, TreeView};

verus! {

/// Replacing and looking again: after `subtree` has been put at `path`, the path leads
/// to `subtree` and to nothing else, and the traversal lists `subtree` under `path` and
/// no other node.
pub proof fn lemma_replace_round_trip(tree: TreeView, path: PathView, subtree: TreeView)
    requires
        tree.path_error(path, false) is None,
    ensures
        tree.replaced(path, subtree).points_at(path, subtree),
        tree.replaced(path, subtree).postorder().contains((path, subtree)),
        forall|i: int|
            0 <= i < tree.replaced(path, subtree).postorder().len() && (#[trigger] tree.replaced(
                path,
                subtree,
            ).postorder()[i]).0 == path ==> tree.replaced(path, subtree).postorder()[i].1 == subtree,
{
    let replaced = tree.replaced(path, subtree);
    lemma_replaced_points_at(tree, path, subtree);
    lemma_postorder_lists_what_paths_reach(replaced, path, subtree);
    let listed = replaced.postorder();
    assert forall|i: int| 0 <= i < listed.len() && (#[trigger] listed[i]).0 == path implies listed[i].1
        == subtree by {
        lemma_postorder_lists_what_paths_reach(replaced, path, listed[i].1);
        assert(listed.contains((path, listed[i].1)));
    }
}

/// After `subtree` has been put at `path`, the path leads to `subtree` and to nothing else.
proof fn lemma_replaced_points_at(tree: TreeView, path: PathView, subtree: TreeView)
    requires
        tree.path_error(path, false) is None,
    ensures
        tree.replaced(path, subtree).points_at(path, subtree),
    decreases path.len(),
{
    let replaced = tree.replaced(path, subtree);
    if path.len() > 0 {
        let children = tree->antecedents;
        let rest = path.skip(1);
        tree.lemma_replaced_step(path, subtree);
        lemma_first_error(children, path[0], rest, false);
        let first = choose|i: int| 0 <= i < children.len() && (#[trigger] children[i]).0 == path[0];
        lemma_replaced_points_at(children[first].1, rest, subtree);
        assert(replaced->antecedents[first].1.reaches(rest, subtree));
        assert forall|other: TreeView| replaced.reaches(path, other) implies other == subtree by {
            let j = choose|j: int|
                0 <= j < replaced->antecedents.len() && (#[trigger] replaced->antecedents[j]).0
                    == path[0] && replaced->antecedents[j].1.reaches(rest, other);
            assert(children[j].0 == path[0]);
            lemma_replaced_points_at(children[j].1, rest, subtree);
        }
    }
}

/// Replacing a subtree by itself changes nothing: if `path` leads to `subtree` and to
/// nothing else, the tree with `subtree` put at `path` is the tree itself, so its
/// traversal yields the same set of paths.
pub proof fn lemma_replace_by_same_keeps_paths(tree: TreeView, path: PathView, subtree: TreeView)
    requires
        tree.path_error(path, false) is None,
        tree.points_at(path, subtree),
    ensures
        tree.replaced(path, subtree) == tree,
        TreeView::paths(tree.replaced(path, subtree).postorder()) == TreeView::paths(tree.postorder()),
    decreases path.len(),
{
    if path.len() > 0 {
        let children = tree->antecedents;
        let rest = path.skip(1);
        let replaced = tree.replaced(path, subtree);
        tree.lemma_replaced_step(path, subtree);
        lemma_first_error(children, path[0], rest, false);
        assert forall|i: int| 0 <= i < children.len() implies #[trigger] replaced->antecedents[i]
            == children[i] by {
            if children[i].0 == path[0] {
                lemma_path_leads_somewhere(children[i].1, rest);
                let reached = choose|node: TreeView| children[i].1.reaches(rest, node);
                assert(tree.reaches(path, reached));
                assert forall|other: TreeView| children[i].1.reaches(rest, other) implies other
                    == subtree by {
                    assert(tree.reaches(path, other));
                }
                lemma_replace_by_same_keeps_paths(children[i].1, rest, subtree);
            }
        }
        assert(replaced->antecedents =~= children);
    }
}

/// A tag that no antecedent carries is reported: from a step, a path whose first segment
/// is not among the tags of the antecedents cannot be followed, whatever it goes on with
/// and whichever operation follows it.
pub proof fn lemma_unknown_tag_is_reported(tree: TreeView, path: PathView, to_step: bool)
    requires
        tree is Step,
        path.len() > 0,
        !TreeView::has_tag(tree->antecedents, path[0]),
    ensures
        tree.path_error(path, to_step) == Some(TreeError::UnknownTag),
{
}

/// Extending the side condition of a step itself: the empty path can be followed from
/// any step, and the new side condition is the old one followed by the extra
/// constraints, in that order and with nothing merged; nothing else changes.
pub proof fn lemma_side_condition_is_appended(tree: TreeView, extra: Seq<ConstraintView>)
    requires
        tree is Step,
    ensures
        tree.path_error(Seq::empty(), true) is None,
        tree.with_side_condition(Seq::empty(), extra) == (TreeView::Step {
            label: tree->label,
            antecedents: tree->antecedents,
            consequent: tree->consequent,
            side_condition: tree->side_condition + extra,
        }),
        tree.with_side_condition(Seq::empty(), extra)->side_condition.len() == tree->side_condition.len()
            + extra.len(),
{
}

/// Whether two paths part ways: at some position they name different tags, having
/// named the same tags before it. Neither is then a prefix of the other.
pub open spec fn part_ways(first: PathView, second: PathView) -> bool
    decreases first.len(),
{
    first.len() > 0 && second.len() > 0 && (first[0] != second[0] || part_ways(
        first.skip(1),
        second.skip(1),
    ))
}

/// Two replacements at paths that part ways do not disturb each other: after either
/// of them the other path can still be followed, and both orders give the same tree.
pub proof fn lemma_replacements_commute(
    tree: TreeView,
    first: PathView,
    first_subtree: TreeView,
    second: PathView,
    second_subtree: TreeView,
)
    requires
        part_ways(first, second),
        tree.path_error(first, false) is None,
        tree.path_error(second, false) is None,
    ensures
        tree.replaced(first, first_subtree).path_error(second, false) is None,
        tree.replaced(second, second_subtree).path_error(first, false) is None,
        tree.replaced(first, first_subtree).replaced(second, second_subtree) == tree.replaced(
            second,
            second_subtree,
        ).replaced(first, first_subtree),
    decreases first.len(),
{
    let children = tree->antecedents;
    let one = tree.replaced(first, first_subtree);
    let other = tree.replaced(second, second_subtree);
    let first_rest = first.skip(1);
    let second_rest = second.skip(1);
    tree.lemma_replaced_step(first, first_subtree);
    tree.lemma_replaced_step(second, second_subtree);
    one.lemma_replaced_step(second, second_subtree);
    other.lemma_replaced_step(first, first_subtree);
    lemma_first_error(children, first[0], first_rest, false);
    lemma_first_error(children, second[0], second_rest, false);
    assert forall|i: int| 0 <= i < children.len() implies {
        &&& one->antecedents[i].0 == children[i].0
        &&& other->antecedents[i].0 == children[i].0
        &&& (children[i].0 == second[0] ==> one->antecedents[i].1.path_error(second_rest, false) is None)
        &&& (children[i].0 == first[0] ==> other->antecedents[i].1.path_error(first_rest, false) is None)
        &&& #[trigger] one.replaced(second, second_subtree)->antecedents[i] == other.replaced(
            first,
            first_subtree,
        )->antecedents[i]
    } by {
        if children[i].0 == first[0] && children[i].0 == second[0] {
            lemma_replacements_commute(
                children[i].1,
                first_rest,
                first_subtree,
                second_rest,
                second_subtree,
            );
        }
    }
    let first_tagged = choose|i: int|
        0 <= i < children.len() && (#[trigger] children[i]).0 == first[0];
    let second_tagged = choose|i: int|
        0 <= i < children.len() && (#[trigger] children[i]).0 == second[0];
    assert(one->antecedents[second_tagged].0 == second[0]);
    assert(other->antecedents[first_tagged].0 == first[0]);
    assert forall|i: int|
        0 <= i < one->antecedents.len() && (#[trigger] one->antecedents[i]).0
            == second[0] implies one->antecedents[i].1.path_error(second_rest, false) is None by {
        let both = one.replaced(second, second_subtree)->antecedents[i];
    }
    assert forall|i: int|
        0 <= i < other->antecedents.len() && (#[trigger] other->antecedents[i]).0
            == first[0] implies other->antecedents[i].1.path_error(first_rest, false) is None by {
        let both = one.replaced(second, second_subtree)->antecedents[i];
    }
    lemma_first_error(one->antecedents, second[0], second_rest, false);
    lemma_first_error(other->antecedents, first[0], first_rest, false);
    assert(one.replaced(second, second_subtree)->antecedents =~= other.replaced(
        first,
        first_subtree,
    )->antecedents);
}

} // verus!
