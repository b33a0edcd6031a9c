//! The queries of a step whose antecedents are all leaves.

use vstd::prelude::*;
use crate::laws::reach::{lemma_concat_contains, lemma_under_contains};
use crate::paths::under;
use crate::predicate::substitute_all;
use crate::query::{QueryView, RET};
use crate::signature::SignatureView;
use crate::tree::{ChildrenView, PathView, TreeView};

verus! {

/// Among children of which none is a goal, no goals are found.
proof fn lemma_goal_siblings_none(children: ChildrenView)
    requires
        forall|i: int| 0 <= i < children.len() ==> !((#[trigger] children[i]).1 is Goal),
    ensures
        TreeView::goal_siblings(children) == Seq::<(Seq<char>, Seq<char>)>::empty(),
    decreases children.len(),
{
    if children.len() == 0 {
        assert(children =~= Seq::empty());
        TreeView::lemma_goal_siblings_empty();
    } else {
        let front = children.drop_last();
        assert(children =~= front.push(children.last()));
        assert forall|i: int| 0 <= i < front.len() implies !((#[trigger] front[i]).1 is Goal) by {
            assert(front[i] == children[i]);
        }
        lemma_goal_siblings_none(front);
        TreeView::lemma_goal_siblings_push(front, children.last());
    }
}

/// Among children that are all goals, every one is found, in order.
proof fn lemma_goal_siblings_all(children: ChildrenView)
    requires
        forall|i: int| 0 <= i < children.len() ==> (#[trigger] children[i]).1 is Goal,
    ensures
        TreeView::goal_siblings(children) == children.map_values(
            |child: (Seq<char>, TreeView)| (child.0, child.1->Goal_0),
        ),
    decreases children.len(),
{
    let named = |child: (Seq<char>, TreeView)| (child.0, child.1->Goal_0);
    if children.len() == 0 {
        assert(children =~= Seq::empty());
        TreeView::lemma_goal_siblings_empty();
        assert(TreeView::goal_siblings(children) =~= children.map_values(named));
    } else {
        let front = children.drop_last();
        assert(children =~= front.push(children.last()));
        assert forall|i: int| 0 <= i < front.len() implies (#[trigger] front[i]).1 is Goal by {
            assert(front[i] == children[i]);
        }
        lemma_goal_siblings_all(front);
        TreeView::lemma_goal_siblings_push(front, children.last());
        assert(front.map_values(named).push(named(children.last())) =~= children.map_values(named));
    }
}

/// Among children of which exactly the one at `k` is a goal, that goal alone is found.
proof fn lemma_goal_siblings_one(children: ChildrenView, k: int)
    requires
        0 <= k < children.len(),
        children[k].1 is Goal,
        forall|i: int| 0 <= i < children.len() && i != k ==> !((#[trigger] children[i]).1 is Goal),
    ensures
        TreeView::goal_siblings(children) == seq![(children[k].0, children[k].1->Goal_0)],
    decreases children.len(),
{
    let front = children.drop_last();
    assert(children =~= front.push(children.last()));
    TreeView::lemma_goal_siblings_push(front, children.last());
    if k == children.len() - 1 {
        assert forall|i: int| 0 <= i < front.len() implies !((#[trigger] front[i]).1 is Goal) by {
            assert(front[i] == children[i]);
        }
        lemma_goal_siblings_none(front);
        assert(Seq::<(Seq<char>, Seq<char>)>::empty().push((children[k].0, children[k].1->Goal_0))
            =~= seq![(children[k].0, children[k].1->Goal_0)]);
    } else {
        assert(front[k] == children[k]);
        assert forall|i: int| 0 <= i < front.len() && i != k implies !((#[trigger] front[i]).1
            is Goal) by {
            assert(front[i] == children[i]);
        }
        lemma_goal_siblings_one(front, k);
    }
}

/// Children of which none is a step hand on no queries.
proof fn lemma_no_queries_below_leaves(children: ChildrenView, n: nat, library: Seq<SignatureView>)
    requires
        n <= children.len(),
        forall|i: int| 0 <= i < children.len() ==> !((#[trigger] children[i]).1 is Step),
    ensures
        TreeView::queries_below(children, n, library) == Seq::<(PathView, QueryView)>::empty(),
    decreases n,
{
    if n > 0 {
        lemma_no_queries_below_leaves(children, (n - 1) as nat, library);
        assert(!(children[n - 1].1 is Step));
        assert(under(children[n - 1].0, children[n - 1].1.queries(library)) =~= Seq::empty());
        assert(TreeView::queries_below(children, n, library) =~= Seq::empty());
    }
}

/// A step whose antecedents are all leaves hands out at most one query: none if no
/// antecedent is a goal, and otherwise the one free query for all its goals together,
/// under the empty path.
pub proof fn lemma_queries_of_leaves(tree: TreeView, library: Seq<SignatureView>)
    requires
        tree is Step,
        forall|i: int|
            0 <= i < tree->antecedents.len() ==> !((#[trigger] tree->antecedents[i]).1 is Step),
    ensures
        tree.queries(library) == if TreeView::goal_siblings(tree->antecedents).len() > 0 {
            seq![(Seq::<Seq<char>>::empty(), tree.own_query(library))]
        } else {
            Seq::empty()
        },
{
    lemma_no_queries_below_leaves(tree->antecedents, tree->antecedents.len(), library);
    if tree.has_goals() {
        let own = (Seq::<Seq<char>>::empty(), tree.own_query(library));
        assert(Seq::<(PathView, QueryView)>::empty().push(own) =~= seq![own]);
    }
}

/// A step whose antecedents are all known facts hands out no query.
pub proof fn lemma_queries_of_known_facts(tree: TreeView, library: Seq<SignatureView>)
    requires
        tree is Step,
        forall|i: int| 0 <= i < tree->antecedents.len() ==> (#[trigger] tree->antecedents[i]).1 is Axiom,
    ensures
        tree.queries(library) == Seq::<(PathView, QueryView)>::empty(),
{
    lemma_goal_siblings_none(tree->antecedents);
    lemma_queries_of_leaves(tree, library);
}

/// A step whose antecedents are known facts but for one goal, at `k`, hands out exactly
/// one query, under the empty path, and that goal is its only sibling.
pub proof fn lemma_queries_of_one_goal(tree: TreeView, library: Seq<SignatureView>, k: int)
    requires
        tree is Step,
        0 <= k < tree->antecedents.len(),
        tree->antecedents[k].1 is Goal,
        forall|i: int|
            0 <= i < tree->antecedents.len() && i != k ==> (#[trigger] tree->antecedents[i]).1 is Axiom,
    ensures
        tree.queries(library) == seq![
            (
                Seq::<Seq<char>>::empty(),
                QueryView::free(
                    library,
                    seq![(tree->antecedents[k].0, tree->antecedents[k].1->Goal_0)],
                    substitute_all(tree->side_condition, RET@, tree->consequent.args),
                ),
            ),
        ],
{
    lemma_goal_siblings_one(tree->antecedents, k);
    lemma_queries_of_leaves(tree, library);
}

/// A step whose antecedents are all goals hands out a single query for all of them
/// together, in their order, and not one query for each.
pub proof fn lemma_queries_merge_sibling_goals(tree: TreeView, library: Seq<SignatureView>)
    requires
        tree is Step,
        tree->antecedents.len() > 0,
        forall|i: int| 0 <= i < tree->antecedents.len() ==> (#[trigger] tree->antecedents[i]).1 is Goal,
    ensures
        tree.queries(library) == seq![
            (
                Seq::<Seq<char>>::empty(),
                QueryView::free(
                    library,
                    tree->antecedents.map_values(
                        |child: (Seq<char>, TreeView)| (child.0, child.1->Goal_0),
                    ),
                    substitute_all(tree->side_condition, RET@, tree->consequent.args),
                ),
            ),
        ],
        tree.queries(library)[0].1.siblings.len() == tree->antecedents.len(),
{
    lemma_goal_siblings_all(tree->antecedents);
    lemma_queries_of_leaves(tree, library);
}

impl TreeView {
    /// Whether `path` leads from this node to a step with goals among its antecedents
    /// whose own query is `query`.
    pub open spec fn asks(self, path: PathView, query: QueryView, library: Seq<SignatureView>) -> bool {
        exists|node: TreeView|
            self.reaches(path, node) && node.has_goals() && query == node.own_query(library)
    }
}

/// The queries of a tree are those of the steps that have goals among their antecedents,
/// each under a path that leads to its step: the place where a solution is to be put.
pub proof fn lemma_queries_list_steps_with_goals(
    tree: TreeView,
    library: Seq<SignatureView>,
    path: PathView,
    query: QueryView,
)
    ensures
        tree.queries(library).contains((path, query)) <==> tree.asks(path, query, library),
    decreases tree, 0nat,
{
    match tree {
        TreeView::Step { antecedents, .. } => {
            let below = TreeView::queries_below(antecedents, antecedents.len(), library);
            let own = if tree.has_goals() {
                seq![(Seq::<Seq<char>>::empty(), tree.own_query(library))]
            } else {
                Seq::empty()
            };
            lemma_queries_below(antecedents, antecedents.len(), library, path, query);
            assert(tree.queries(library) =~= below + own);
            lemma_concat_contains(below, own, (path, query));
            if path.len() == 0 {
                assert(path =~= Seq::empty());
                if tree.has_goals() && query == tree.own_query(library) {
                    assert(own[0] == (path, query));
                    assert(tree.reaches(path, tree));
                }
                if tree.asks(path, query, library) {
                    let node = choose|node: TreeView|
                        tree.reaches(path, node) && node.has_goals() && query == node.own_query(
                            library,
                        );
                    assert(node == tree);
                }
            } else {
                if tree.asks(path, query, library) {
                    let node = choose|node: TreeView|
                        tree.reaches(path, node) && node.has_goals() && query == node.own_query(
                            library,
                        );
                    let j = choose|j: int|
                        0 <= j < antecedents.len() && (#[trigger] antecedents[j]).0 == path[0]
                            && antecedents[j].1.reaches(path.skip(1), node);
                    assert(antecedents[j].1.asks(path.skip(1), query, library));
                }
                if below.contains((path, query)) {
                    let j = choose|j: int|
                        0 <= j < antecedents.len() && (#[trigger] antecedents[j]).0 == path[0]
                            && antecedents[j].1.asks(path.skip(1), query, library);
                    let node = choose|node: TreeView|
                        antecedents[j].1.reaches(path.skip(1), node) && node.has_goals() && query
                            == node.own_query(library);
                    assert(tree.reaches(path, node));
                }
            }
            if own.contains((path, query)) {
                let k = choose|k: int| 0 <= k < own.len() && own[k] == (path, query);
                assert(path == Seq::<Seq<char>>::empty());
                assert(tree.reaches(path, tree));
            }
        },
        _ => {
            if tree.asks(path, query, library) {
                let node = choose|node: TreeView|
                    tree.reaches(path, node) && node.has_goals() && query == node.own_query(library);
                assert(path.len() == 0);
                assert(node == tree);
            }
        },
    }
}

/// Below the first `n` children, a query is listed under a path exactly if the path
/// goes through one of them and leads from there to the step that asks it.
proof fn lemma_queries_below(
    children: ChildrenView,
    n: nat,
    library: Seq<SignatureView>,
    path: PathView,
    query: QueryView,
)
    requires
        n <= children.len(),
    ensures
        TreeView::queries_below(children, n, library).contains((path, query)) <==> path.len() > 0
            && exists|j: int|
            0 <= j < n && (#[trigger] children[j]).0 == path[0] && children[j].1.asks(
                path.skip(1),
                query,
                library,
            ),
    decreases children, n,
{
    if n == 0 {
        assert(TreeView::queries_below(children, n, library) =~= Seq::empty());
    } else {
        let last = children[n - 1];
        let before = TreeView::queries_below(children, (n - 1) as nat, library);
        let lifted = under(last.0, last.1.queries(library));
        assert(TreeView::queries_below(children, n, library) == before + lifted);
        lemma_queries_below(children, (n - 1) as nat, library, path, query);
        lemma_queries_list_steps_with_goals(last.1, library, path.skip(1), query);
        lemma_under_contains(last.0, last.1.queries(library), path, query);
        lemma_concat_contains(before, lifted, (path, query));
        if path.len() > 0 {
            let through = |j: int|
                0 <= j < children.len() && children[j].0 == path[0] && children[j].1.asks(
                    path.skip(1),
                    query,
                    library,
                );
            if before.contains((path, query)) {
                let j = choose|j: int|
                    0 <= j < n - 1 && (#[trigger] children[j]).0 == path[0] && children[j].1.asks(
                        path.skip(1),
                        query,
                        library,
                    );
                assert(through(j));
            }
            if lifted.contains((path, query)) {
                assert(through(n - 1));
            }
            if exists|j: int|
                0 <= j < n && (#[trigger] children[j]).0 == path[0] && children[j].1.asks(
                    path.skip(1),
                    query,
                    library,
                ) {
                let j = choose|j: int|
                    0 <= j < n && (#[trigger] children[j]).0 == path[0] && children[j].1.asks(
                        path.skip(1),
                        query,
                        library,
                    );
                if j < n - 1 {
                    assert(before.contains((path, query)));
                } else {
                    assert(lifted.contains((path, query)));
                }
            }
        }
    }
}

} // verus!
