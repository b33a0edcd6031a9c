//! Obligation extraction: the queries that a solver can work on next.

use vstd::prelude::*;
use crate::fact::FactName;
use crate::paths::{append_under, entries_view, lemma_entries_push, under};
use crate::predicate::substitute_all;
use crate::query::{Query, QueryView, RET};
use crate::signature::{Library, SignatureView};
use crate::tree::{ChildrenView, PathView, Tree, TreeView};
use crate::views::{lemma_views_push, views};

verus! {

impl TreeView {
    /// The goals among `children`: the tag and the judgment family of each, in order.
    pub open spec fn goal_siblings(children: ChildrenView) -> Seq<(Seq<char>, Seq<char>)> {
        children.filter(|child: (Seq<char>, TreeView)| child.1 is Goal).map_values(
            |child: (Seq<char>, TreeView)| (child.0, child.1->Goal_0),
        )
    }

    /// Whether this is a step with a goal among its antecedents.
    pub open spec fn has_goals(self) -> bool {
        self is Step && Self::goal_siblings(self->antecedents).len() > 0
    }

    /// The free query of a step for all the goals among its antecedents: its side
    /// condition is the step's own, with the arguments of the consequent substituted
    /// for the parameters of [`RET`].
    pub open spec fn own_query(self, library: Seq<SignatureView>) -> QueryView
        recommends
            self is Step,
    {
        QueryView::free(
            library,
            Self::goal_siblings(self->antecedents),
            substitute_all(self->side_condition, RET@, self->consequent.args),
        )
    }

    /// The next units of search work, each with the path of the step that it belongs to.
    ///
    /// A step hands on the queries of its antecedents, antecedent by antecedent in order
    /// and each under the antecedent's tag. If it has goals among its antecedents, it
    /// adds its own query, under the empty path. An axiom or a goal has no queries.
    pub open spec fn queries(self, library: Seq<SignatureView>) -> Seq<(PathView, QueryView)>
        decreases self, 0nat,
    {
        match self {
            TreeView::Step { antecedents, .. } => {
                let nested = Self::queries_below(antecedents, antecedents.len(), library);
                if self.has_goals() {
                    nested.push((Seq::empty(), self.own_query(library)))
                } else {
                    nested
                }
            },
            _ => Seq::empty(),
        }
    }

    /// The queries of the first `n` of `children`, each list under the tag of its child.
    pub open spec fn queries_below(
        children: ChildrenView,
        n: nat,
        library: Seq<SignatureView>,
    ) -> Seq<(PathView, QueryView)>
        decreases children, n,
    {
        if n == 0 || n > children.len() {
            Seq::empty()
        } else {
            Self::queries_below(children, (n - 1) as nat, library) + under(
                children[n - 1].0,
                children[n - 1].1.queries(library),
            )
        }
    }

    /// No goals are found among no children.
    pub proof fn lemma_goal_siblings_empty()
        ensures
            Self::goal_siblings(Seq::empty()) == Seq::<(Seq<char>, Seq<char>)>::empty(),
    {
        reveal(Seq::filter);
        assert(Self::goal_siblings(Seq::empty()) =~= Seq::<(Seq<char>, Seq<char>)>::empty());
    }

    /// One more child adds itself to the goals found if it is a goal, and nothing otherwise.
    pub proof fn lemma_goal_siblings_push(children: ChildrenView, child: (Seq<char>, TreeView))
        ensures
            Self::goal_siblings(children.push(child)) == if child.1 is Goal {
                Self::goal_siblings(children).push((child.0, child.1->Goal_0))
            } else {
                Self::goal_siblings(children)
            },
    {
        let is_goal = |child: (Seq<char>, TreeView)| child.1 is Goal;
        let named = |child: (Seq<char>, TreeView)| (child.0, child.1->Goal_0);
        children.lemma_filter_push(child, is_goal);
        if child.1 is Goal {
            children.filter(is_goal).lemma_push_map_commute(named, child);
        }
    }
}

impl Tree {
    /// Lists the queries that can be solved next, each with the path of the step whose
    /// goals it covers: the path at which a solution is to be put back.
    #[verifier::loop_isolation(false)]
    pub fn queries(&self, lib: &Library) -> (res: Vec<(Vec<String>, Query)>)
        ensures
            entries_view(res@) == self@.queries(lib@),
        decreases self,
    {
        let mut ret: Vec<(Vec<String>, Query)> = Vec::new();
        assert(entries_view(ret@) =~= Seq::empty());
        match self {
            Tree::Step { antecedents, side_condition, consequent, .. } => {
                let ghost children = views(antecedents@);
                let mut goal_siblings: Vec<(String, FactName)> = Vec::new();
                let mut i: usize = 0;
                proof {
                    self.lemma_step_view();
                    TreeView::lemma_goal_siblings_empty();
                    assert(children.take(0) =~= Seq::empty());
                    assert(views(goal_siblings@) =~= Seq::empty());
                }
                while i < antecedents.len()
                    invariant
                        i <= antecedents.len(),
                        views(goal_siblings@) == TreeView::goal_siblings(children.take(i as int)),
                        entries_view(ret@) == TreeView::queries_below(children, i as nat, lib@),
                    decreases antecedents.len() - i,
                {
                    proof {
                        let seen = children.take(i as int);
                        assert(children.take(i + 1) =~= seen.push(children[i as int]));
                        TreeView::lemma_goal_siblings_push(seen, children[i as int]);
                    }
                    match &antecedents[i].1 {
                        Tree::Axiom(_) => {
                            assert(under(children[i as int].0, children[i as int].1.queries(lib@))
                                =~= Seq::empty());
                        },
                        Tree::Goal(name) => {
                            let sibling = (antecedents[i].0.clone(), name.clone());
                            proof {
                                lemma_views_push(goal_siblings@, sibling);
                                assert(under(children[i as int].0, children[i as int].1.queries(lib@))
                                    =~= Seq::empty());
                            }
                            goal_siblings.push(sibling);
                        },
                        Tree::Step { .. } => {
                            let below = antecedents[i].1.queries(lib);
                            append_under(&mut ret, &antecedents[i].0, &below);
                        },
                    }
                    i += 1;
                }
                assert(children.take(i as int) =~= children);
                if goal_siblings.len() > 0 {
                    let ret_name = String::from_str(RET);
                    let condition = side_condition.substitute_all(&ret_name, &consequent.args);
                    let query = Query::free(lib, goal_siblings, condition);
                    let entry: (Vec<String>, Query) = (Vec::new(), query);
                    proof {
                        lemma_entries_push(ret@, entry);
                        assert(views(entry.0@) =~= Seq::empty());
                    }
                    ret.push(entry);
                }
            },
            _ => {},
        }
        ret
    }
}

} // verus!
