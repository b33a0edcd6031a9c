//! The derivation tree, its mathematical model and its constructors.

use vstd::prelude::*;
use crate::fact::{Fact, FactName, FactView, Value, ValueView};
use crate::predicate::{ConstraintView, Predicate};
use crate::query::{Query, QueryView};
use crate::signature::{ComputationSignature, Mode, SignatureView};
use crate::views::{lemma_views_push, lemma_views_take, views};

verus! {

/// The tag of the single antecedent of a tree that was built from a top-level goal,
/// and the label of its root.
pub const OUTPUT: &'static str = "output";

/// Why an operation on a tree was refused.
#[derive(Debug, Clone, Copy, PartialEq, Eq)]
pub enum TreeError {
    /// A path goes on below a node that is not a step, or ends on one where a step is needed.
    PathNotAStep,
    /// A path names a tag that no antecedent of the step it has reached carries.
    UnknownTag,
    /// A tree was asked for from a query that is not closed.
    GoalNotClosed,
}

/// A derivation: an axiom, an open goal, or one application of a rule.
#[derive(Debug, PartialEq, Eq)]
pub enum Tree {
    /// A fact that needs no further justification.
    Axiom(Fact),
    /// An obligation: some fact of this family is still to be derived.
    Goal(FactName),
    /// One application of the rule `label`.
    Step {
        label: String,
        /// The derivations of the rule's antecedents, each under its parameter name.
        antecedents: Vec<(String, Tree)>,
        consequent: Fact,
        side_condition: Predicate,
    },
}

/// The model of a path: the tags of the antecedents to go through, from the root down.
pub type PathView = Seq<Seq<char>>;

/// The model of the antecedents of a step: each tag with the model of its subtree.
pub type ChildrenView = Seq<(Seq<char>, TreeView)>;

/// The mathematical model of a [`Tree`].
pub enum TreeView {
    Axiom(FactView),
    Goal(Seq<char>),
    Step {
        label: Seq<char>,
        antecedents: ChildrenView,
        consequent: FactView,
        side_condition: Seq<ConstraintView>,
    },
}

impl View for Tree {
    type V = TreeView;

    open spec fn view(&self) -> TreeView
        decreases self,
    {
        match self {
            Tree::Axiom(fact) => TreeView::Axiom(fact@),
            Tree::Goal(name) => TreeView::Goal(name@),
            Tree::Step { label, antecedents, consequent, side_condition } => TreeView::Step {
                label: label@,
                antecedents: Seq::new(
                    antecedents@.len(),
                    |i: int|
                        if 0 <= i < antecedents@.len() {
                            (antecedents@[i].0@, antecedents@[i].1.view())
                        } else {
                            arbitrary()
                        },
                ),
                consequent: consequent@,
                side_condition: side_condition@,
            },
        }
    }
}

impl TreeView {
    /// Whether no two antecedents of one step carry the same tag, anywhere in the tree.
    /// A path then leads to at most one node. The type does not enforce this: a tree
    /// with a tag repeated among siblings is a value like any other, and the operations
    /// on paths say what they do with it.
    pub open spec fn tags_distinct(self) -> bool
        decreases self,
    {
        match self {
            TreeView::Step { antecedents, .. } => {
                &&& forall|i: int, j: int|
                    0 <= i < j < antecedents.len() ==> (#[trigger] antecedents[i]).0
                        != (#[trigger] antecedents[j]).0
                &&& forall|i: int|
                    0 <= i < antecedents.len() ==> (#[trigger] antecedents[i]).1.tags_distinct()
            },
            _ => true,
        }
    }

    /// One open goal for each parameter of a rule, under the parameter's name.
    pub open spec fn goals(params: Seq<(Seq<char>, Seq<char>, Mode)>) -> ChildrenView {
        params.map_values(|param: (Seq<char>, Seq<char>, Mode)| (param.0, TreeView::Goal(param.1)))
    }

    /// The step that applies `rule` to open goals and concludes its judgment with `ret_args`.
    pub open spec fn from_computation_signature(
        rule: SignatureView,
        ret_args: Seq<(Seq<char>, ValueView)>,
    ) -> TreeView {
        TreeView::Step {
            label: rule.name,
            antecedents: Self::goals(rule.params),
            consequent: FactView { name: rule.ret, args: ret_args },
            side_condition: rule.precondition,
        }
    }

    /// The step that a closed query stands for; its consequent has no arguments yet.
    pub open spec fn from_query(query: QueryView) -> TreeView {
        Self::from_computation_signature(query.computation_signature, Seq::empty())
    }

    /// The tree that a session starts from: `goal` as the one obligation of a synthetic step.
    pub open spec fn from_goal(goal: FactView) -> TreeView {
        Self::from_query(QueryView::from_fact(goal, OUTPUT@))
    }
}

impl Clone for Tree {
    #[verifier::loop_isolation(false)]
    fn clone(&self) -> (res: Tree)
        ensures
            res@ == self@,
        decreases self,
    {
        match self {
            Tree::Axiom(fact) => Tree::Axiom(fact.clone()),
            Tree::Goal(name) => Tree::Goal(name.clone()),
            Tree::Step { label, antecedents, consequent, side_condition } => {
                let mut copies: Vec<(String, Tree)> = Vec::new();
                let mut i: usize = 0;
                assert(views(copies@) =~= views(antecedents@.take(0)));
                while i < antecedents.len()
                    invariant
                        i <= antecedents.len(),
                        views(copies@) == views(antecedents@.take(i as int)),
                    decreases antecedents.len() - i,
                {
                    let copy = (antecedents[i].0.clone(), antecedents[i].1.clone());
                    proof {
                        lemma_views_push(copies@, copy);
                        lemma_views_take(antecedents@, i as int);
                    }
                    copies.push(copy);
                    i += 1;
                }
                assert(antecedents@.take(i as int) =~= antecedents@);
                let res = Tree::Step {
                    label: label.clone(),
                    antecedents: copies,
                    consequent: consequent.clone(),
                    side_condition: side_condition.clone(),
                };
                proof {
                    self.lemma_step_view();
                    res.lemma_step_view();
                }
                res
            },
        }
    }
}

impl Tree {
    /// The model of a step is made of the models of its parts.
    pub proof fn lemma_step_view(&self)
        requires
            self is Step,
        ensures
            self@ == (TreeView::Step {
                label: self->label@,
                antecedents: views(self->antecedents@),
                consequent: self->consequent@,
                side_condition: self->side_condition@,
            }),
    {
        reveal_with_fuel(<Tree as View>::view, 2);
        assert(self@->antecedents =~= views(self->antecedents@));
    }

    /// One open goal for each parameter, under the parameter's name.
    fn goals(params: &Vec<(String, FactName, Mode)>) -> (res: Vec<(String, Tree)>)
        ensures
            views(res@) == TreeView::goals(views(params@)),
    {
        let mut res: Vec<(String, Tree)> = Vec::new();
        let mut i: usize = 0;
        assert(views(res@) =~= TreeView::goals(views(params@.take(0))));
        while i < params.len()
            invariant
                i <= params.len(),
                views(res@) == TreeView::goals(views(params@.take(i as int))),
            decreases params.len() - i,
        {
            let goal = (params[i].0.clone(), Tree::Goal(params[i].1.clone()));
            proof {
                lemma_views_push(res@, goal);
                lemma_views_take(params@, i as int);
                assert(views(res@).push(goal@) =~= TreeView::goals(views(params@.take(i + 1))));
            }
            res.push(goal);
            i += 1;
        }
        assert(params@.take(i as int) =~= params@);
        res
    }

    /// Starts a derivation that applies the rule `cs`: every antecedent is an open goal,
    /// the consequent is the rule's judgment with `ret_args`, and the side condition is
    /// the rule's precondition as it stands.
    pub fn from_computation_signature(
        cs: &ComputationSignature,
        ret_args: Vec<(String, Value)>,
    ) -> (res: Tree)
        ensures
            res@ == TreeView::from_computation_signature(cs@, views(ret_args@)),
    {
        let res = Tree::Step {
            label: cs.name.clone(),
            antecedents: Tree::goals(&cs.params),
            consequent: Fact { name: cs.ret.clone(), args: ret_args },
            side_condition: cs.precondition.clone(),
        };
        proof {
            res.lemma_step_view();
        }
        res
    }

    /// Starts a derivation from a closed query; a query that is not closed is refused.
    pub fn from_query(q: &Query) -> (res: Result<Tree, TreeError>)
        ensures
            match res {
                Ok(tree) => q@.closed() && tree@ == TreeView::from_query(q@),
                Err(error) => !q@.closed() && error == TreeError::GoalNotClosed,
            },
    {
        if !q.closed() {
            return Err(TreeError::GoalNotClosed);
        }
        let no_args: Vec<(String, Value)> = Vec::new();
        assert(views(no_args@) =~= Seq::empty());
        Ok(Tree::from_computation_signature(&q.computation_signature, no_args))
    }

    /// Starts a session: the tree whose one obligation, tagged [`OUTPUT`], is a derivation
    /// of a fact of the family of `top_level_goal` with the same arguments.
    pub fn from_goal(top_level_goal: &Fact) -> (res: Tree)
        ensures
            res@ == TreeView::from_goal(top_level_goal@),
    {
        let query = Query::from_fact(top_level_goal, OUTPUT);
        Tree::from_query(&query).unwrap()
    }
}

} // verus!
