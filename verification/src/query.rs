//! Queries: units of search work handed to a solver.

use vstd::prelude::*;
use crate::fact::{Fact, FactName, FactView, ValueView};
use crate::predicate::{Atom, AtomView, Constraint, ConstraintView, Predicate, Relation};
use crate::signature::{producers, ComputationSignature, Library, Mode, SignatureView};
use crate::views::{clone_strings, lemma_views_push, lemma_views_take, views};

verus! {

/// The name by which a side condition refers to the fact that a rule concludes.
pub const RET: &'static str = "ret";

/// The judgment family that the answer to a query belongs to.
pub const GOAL_FACT_NAME: &'static str = "&Goal";

/// The name of the synthetic rule that a free query stands for.
pub const GOAL_COMPUTATION_NAME: &'static str = "&goal";

/// An obligation that a query leaves to the solver.
#[derive(Debug, PartialEq, Eq)]
pub struct Sibling {
    /// The parameter name under which the enclosing step holds the obligation.
    pub tag: String,
    pub fact_name: FactName,
    /// The names of the library's rules that conclude a fact of this family.
    pub rules: Vec<String>,
}

/// The mathematical model of a [`Sibling`].
pub struct SiblingView {
    pub tag: Seq<char>,
    pub fact_name: Seq<char>,
    pub rules: Seq<Seq<char>>,
}

impl View for Sibling {
    type V = SiblingView;

    open spec fn view(&self) -> SiblingView {
        SiblingView { tag: self.tag@, fact_name: self.fact_name@, rules: views(self.rules@) }
    }
}

impl Clone for Sibling {
    fn clone(&self) -> (res: Sibling)
        ensures
            res@ == self@,
    {
        Sibling {
            tag: self.tag.clone(),
            fact_name: self.fact_name.clone(),
            rules: clone_strings(&self.rules),
        }
    }
}

/// A unit of search work: a synthetic rule whose antecedents are to be found,
/// and the obligations among them that are still abstract.
#[derive(Debug, PartialEq, Eq)]
pub struct Query {
    pub computation_signature: ComputationSignature,
    pub siblings: Vec<Sibling>,
}

/// The mathematical model of a [`Query`].
pub struct QueryView {
    pub computation_signature: SignatureView,
    pub siblings: Seq<SiblingView>,
}

impl View for Query {
    type V = QueryView;

    open spec fn view(&self) -> QueryView {
        QueryView {
            computation_signature: self.computation_signature@,
            siblings: views(self.siblings@),
        }
    }
}

impl Clone for Query {
    fn clone(&self) -> (res: Query)
        ensures
            res@ == self@,
    {
        let mut siblings: Vec<Sibling> = Vec::new();
        let mut i: usize = 0;
        assert(views(siblings@) =~= views(self.siblings@.take(0)));
        while i < self.siblings.len()
            invariant
                i <= self.siblings.len(),
                views(siblings@) == views(self.siblings@.take(i as int)),
            decreases self.siblings.len() - i,
        {
            let sibling = self.siblings[i].clone();
            proof {
                lemma_views_push(siblings@, sibling);
                lemma_views_take(self.siblings@, i as int);
            }
            siblings.push(sibling);
            i += 1;
        }
        assert(self.siblings@.take(i as int) =~= self.siblings@);
        Query { computation_signature: self.computation_signature.clone(), siblings }
    }
}

/// The constraint that the parameter `binding.0` of the fact bound to `tag` equals `binding.1`.
pub open spec fn pinned(tag: Seq<char>, binding: (Seq<char>, ValueView)) -> ConstraintView {
    ConstraintView {
        relation: Relation::Equal,
        left: AtomView::Select { selector: binding.0, arg: tag },
        right: AtomView::Const(binding.1),
    }
}

/// The antecedent of the synthetic rule that stands for `sibling`.
pub open spec fn as_param(sibling: (Seq<char>, Seq<char>)) -> (Seq<char>, Seq<char>, Mode) {
    (sibling.0, sibling.1, Mode::Exists)
}

/// The obligation that stands for `sibling`, with the rules of `library` that conclude its family.
pub open spec fn as_sibling(
    library: Seq<SignatureView>,
    sibling: (Seq<char>, Seq<char>),
) -> SiblingView {
    SiblingView { tag: sibling.0, fact_name: sibling.1, rules: producers(library, sibling.1) }
}

impl QueryView {
    /// A query is closed when it leaves no abstract obligation.
    pub open spec fn closed(self) -> bool {
        self.siblings.len() == 0
    }

    /// The closed query that asks for a derivation of `fact` under the rule name `name`:
    /// one antecedent, tagged `name`, of the fact's family, with every argument pinned.
    pub open spec fn from_fact(fact: FactView, name: Seq<char>) -> QueryView {
        QueryView {
            computation_signature: SignatureView {
                name,
                params: seq![(name, fact.name, Mode::Exists)],
                ret: GOAL_FACT_NAME@,
                precondition: fact.args.map_values(
                    |binding: (Seq<char>, ValueView)| pinned(name, binding),
                ),
            },
            siblings: Seq::empty(),
        }
    }

    /// The free query for `siblings` under `side_condition`: each sibling is an antecedent
    /// of the synthetic rule and comes with the library's rules that conclude its family.
    pub open spec fn free(
        library: Seq<SignatureView>,
        siblings: Seq<(Seq<char>, Seq<char>)>,
        side_condition: Seq<ConstraintView>,
    ) -> QueryView {
        QueryView {
            computation_signature: SignatureView {
                name: GOAL_COMPUTATION_NAME@,
                params: siblings.map_values(|sibling: (Seq<char>, Seq<char>)| as_param(sibling)),
                ret: GOAL_FACT_NAME@,
                precondition: side_condition,
            },
            siblings: siblings.map_values(
                |sibling: (Seq<char>, Seq<char>)| as_sibling(library, sibling),
            ),
        }
    }
}

impl Query {
    /// Whether the query leaves no abstract obligation.
    pub fn closed(&self) -> (res: bool)
        ensures
            res == self@.closed(),
    {
        self.siblings.len() == 0
    }

    /// Builds the closed query that asks for a derivation of `fact` under the rule name `name`.
    pub fn from_fact(fact: &Fact, name: &str) -> (res: Query)
        ensures
            res@ == QueryView::from_fact(fact@, name@),
    {
        let mut constraints: Vec<Constraint> = Vec::new();
        let mut i: usize = 0;
        assert(views(constraints@) =~= QueryView::from_fact(
            FactView { name: fact@.name, args: views(fact.args@.take(0)) },
            name@,
        ).computation_signature.precondition);
        while i < fact.args.len()
            invariant
                i <= fact.args.len(),
                views(constraints@) == QueryView::from_fact(
                    FactView { name: fact@.name, args: views(fact.args@.take(i as int)) },
                    name@,
                ).computation_signature.precondition,
            decreases fact.args.len() - i,
        {
            let constraint = Constraint {
                relation: Relation::Equal,
                left: Atom::Select {
                    selector: fact.args[i].0.clone(),
                    arg: String::from_str(name),
                },
                right: Atom::Const(fact.args[i].1.clone()),
            };
            proof {
                lemma_views_push(constraints@, constraint);
                lemma_views_take(fact.args@, i as int);
                assert(views(constraints@).push(constraint@) =~= QueryView::from_fact(
                    FactView { name: fact@.name, args: views(fact.args@.take(i + 1)) },
                    name@,
                ).computation_signature.precondition);
            }
            constraints.push(constraint);
            i += 1;
        }
        assert(fact.args@.take(i as int) =~= fact.args@);
        let mut params: Vec<(String, FactName, Mode)> = Vec::new();
        params.push((String::from_str(name), fact.name.clone(), Mode::Exists));
        assert(views(params@) =~= seq![(name@, fact@.name, Mode::Exists)]);
        let res = Query {
            computation_signature: ComputationSignature {
                name: String::from_str(name),
                params,
                ret: String::from_str(GOAL_FACT_NAME),
                precondition: Predicate { constraints },
            },
            siblings: Vec::new(),
        };
        assert(views(res.siblings@) =~= Seq::empty());
        res
    }

    /// Builds the free query for `siblings`, a list of tags with their judgment families,
    /// under `side_condition`.
    pub fn free(
        library: &Library,
        siblings: Vec<(String, FactName)>,
        side_condition: Predicate,
    ) -> (res: Query)
        ensures
            res@ == QueryView::free(library@, views(siblings@), side_condition@),
    {
        let mut params: Vec<(String, FactName, Mode)> = Vec::new();
        let mut open: Vec<Sibling> = Vec::new();
        let mut i: usize = 0;
        proof {
            let none = QueryView::free(library@, views(siblings@.take(0)), side_condition@);
            assert(views(params@) =~= none.computation_signature.params);
            assert(views(open@) =~= none.siblings);
        }
        while i < siblings.len()
            invariant
                i <= siblings.len(),
                views(params@) == QueryView::free(
                    library@,
                    views(siblings@.take(i as int)),
                    side_condition@,
                ).computation_signature.params,
                views(open@) == QueryView::free(
                    library@,
                    views(siblings@.take(i as int)),
                    side_condition@,
                ).siblings,
            decreases siblings.len() - i,
        {
            let param = (siblings[i].0.clone(), siblings[i].1.clone(), Mode::Exists);
            let sibling = Sibling {
                tag: siblings[i].0.clone(),
                fact_name: siblings[i].1.clone(),
                rules: library.producers(&siblings[i].1),
            };
            proof {
                lemma_views_push(params@, param);
                lemma_views_push(open@, sibling);
                lemma_views_take(siblings@, i as int);
                let grown = QueryView::free(library@, views(siblings@.take(i + 1)), side_condition@);
                assert(views(params@).push(param@) =~= grown.computation_signature.params);
                assert(views(open@).push(sibling@) =~= grown.siblings);
            }
            params.push(param);
            open.push(sibling);
            i += 1;
        }
        assert(siblings@.take(i as int) =~= siblings@);
        Query {
            computation_signature: ComputationSignature {
                name: String::from_str(GOAL_COMPUTATION_NAME),
                params,
                ret: String::from_str(GOAL_FACT_NAME),
                precondition: side_condition,
            },
            siblings: open,
        }
    }
}

} // verus!
